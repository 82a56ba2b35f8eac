//! The per-session context: a stable identifier derived from the invoking
//! shell, and the path of the symlink that binds that context to a JDK.

use vstd::prelude::*;

use crate::archive::SLASH;
use crate::text::{push_all, render_u32, spec_dec_digits};

verus! {

/// The directory that holds one binding symlink per context.
/// The bytes spell `java-home-by-pid`.
pub const CONTEXT_DIR_NAME: [u8; 16] = [0x6a, 0x61, 0x76, 0x61, 0x2d, 0x68, 0x6f, 0x6d, 0x65, 0x2d, 0x62, 0x79, 0x2d, 0x70, 0x69, 0x64];

/// The context identifier: an explicit override when one is given, else the
/// parent process identifier printed in decimal, so each interactive
/// session gets a stable, distinct identifier for its lifetime.
pub fn get_context_id(override_id: Option<Vec<u8>>, parent_pid: u32) -> (r: Vec<u8>)
    ensures
        r@ =~= match override_id {
            Option::Some(o) => o@,
            Option::None => spec_dec_digits(parent_pid as nat),
        },
{
    match override_id {
        Option::Some(o) => o,
        Option::None => render_u32(parent_pid),
    }
}

/// Where a context's binding symlink lies: under the state directory, in
/// the per-context binding directory, named by the context identifier.
pub fn get_context_path(state_dir: &[u8], context_id: &[u8]) -> (r: Vec<u8>)
    ensures
        r@ =~= state_dir@ + seq![SLASH] + CONTEXT_DIR_NAME@ + seq![SLASH] + context_id@,
{
    let mut out = vstd::slice::slice_to_vec(state_dir);
    out.push(SLASH);
    push_all(&mut out, CONTEXT_DIR_NAME.as_slice());
    out.push(SLASH);
    push_all(&mut out, context_id);
    out
}

} // verus!
