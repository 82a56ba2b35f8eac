//! Safe archive extraction: deciding, for each entry of a downloaded
//! archive, whether its path may be written under the extraction directory,
//! and locating the JDK root among the extracted entries.
//!
//! An entry whose path is absolute, leaves the extraction directory through
//! a parent component, or uses a foreign separator is skipped, never
//! written.

use vstd::prelude::*;

use crate::text::{spec_split, split_bytes, DOT};

verus! {

/// `/`, the path separator.
pub const SLASH: u8 = 0x2f;

/// `\`, the path separator convention this crate refuses in entries.
pub const BACKSLASH: u8 = 0x5c;

/// The components of an entry path, split at every slash.
pub open spec fn spec_path_components(p: Seq<u8>) -> Seq<Seq<u8>> {
    spec_split(p, SLASH)
}

/// Whether a path component walks up to the parent directory.
pub open spec fn spec_is_parent(c: Seq<u8>) -> bool {
    c == seq![DOT, DOT]
}

/// Whether a path component stays in place: empty, from doubled or
/// trailing slashes, or the current directory.
pub open spec fn spec_stays_in_place(c: Seq<u8>) -> bool {
    c == Seq::<u8>::empty() || c == seq![DOT]
}

/// Whether an archive entry path is safe to write under the extraction
/// directory: nonempty, not absolute, free of NUL and backslash bytes, and
/// without any parent component.
pub open spec fn spec_entry_safe(p: Seq<u8>) -> bool {
    &&& p.len() > 0
    &&& p[0] != SLASH
    &&& forall|j: int| 0 <= j < p.len() ==> (#[trigger] p[j]) != BACKSLASH && p[j] != 0
    &&& forall|i: int|
        0 <= i < spec_path_components(p).len() ==> !spec_is_parent(
            #[trigger] spec_path_components(p)[i],
        )
}

/// The directory stack reached by following `comps` from `base`: a parent
/// component pops, and walking above the start fails.
pub open spec fn spec_apply_components(base: Seq<Seq<u8>>, comps: Seq<Seq<u8>>) -> Option<
    Seq<Seq<u8>>,
>
    decreases comps.len(),
{
    if comps.len() == 0 {
        Some(base)
    } else if spec_is_parent(comps[0]) {
        if base.len() == 0 {
            None
        } else {
            spec_apply_components(base.drop_last(), comps.drop_first())
        }
    } else if spec_stays_in_place(comps[0]) {
        spec_apply_components(base, comps.drop_first())
    } else {
        spec_apply_components(base.push(comps[0]), comps.drop_first())
    }
}

/// Following components that never walk up keeps the base as a prefix.
proof fn lemma_apply_no_parent(base: Seq<Seq<u8>>, comps: Seq<Seq<u8>>)
    requires
        forall|i: int| 0 <= i < comps.len() ==> !spec_is_parent(#[trigger] comps[i]),
    ensures
        match spec_apply_components(base, comps) {
            Option::Some(resolved) => resolved.len() >= base.len() && resolved.take(
                base.len() as int,
            ) =~= base,
            Option::None => false,
        },
    decreases comps.len(),
{
    if comps.len() != 0 {
        assert(forall|i: int| 0 <= i < comps.len() - 1 ==> comps.drop_first()[i] == comps[i + 1]);
        if spec_stays_in_place(comps[0]) {
            lemma_apply_no_parent(base, comps.drop_first());
        } else {
            lemma_apply_no_parent(base.push(comps[0]), comps.drop_first());
            let resolved = spec_apply_components(base.push(comps[0]), comps.drop_first());
            match resolved {
                Option::Some(r) => {
                    assert(r.take(base.len() as int) =~= r.take(
                        base.push(comps[0]).len() as int,
                    ).take(base.len() as int));
                    assert(base.push(comps[0]).take(base.len() as int) =~= base);
                },
                Option::None => {},
            }
        }
    }
}

/// Archive safety: a safe entry path, followed from the extraction
/// directory, always resolves to the extraction directory or somewhere
/// below it — never outside. An absolute path or one that reaches a parent
/// component is not safe in the first place.
pub proof fn lemma_safe_entry_stays_within(base: Seq<Seq<u8>>, p: Seq<u8>)
    requires
        spec_entry_safe(p),
    ensures
        match spec_apply_components(base, spec_path_components(p)) {
            Option::Some(resolved) => resolved.len() >= base.len() && resolved.take(
                base.len() as int,
            ) =~= base,
            Option::None => false,
        },
{
    lemma_apply_no_parent(base, spec_path_components(p));
}

/// What to do with one archive entry.
#[derive(Debug, Clone, Copy, PartialEq, Eq)]
pub enum EntryAction {
    /// Write the entry under the extraction directory.
    Extract,
    /// Skip the entry with a warning; skipping is not fatal to the
    /// extraction as a whole.
    Skip,
}

/// Decide what to do with an archive entry: extract it exactly when its
/// path is safe.
pub fn entry_action(p: &[u8]) -> (r: EntryAction)
    ensures
        (r is Extract) <==> spec_entry_safe(p@),
{
    if p.len() == 0 {
        return EntryAction::Skip;
    }
    if p[0] == SLASH {
        return EntryAction::Skip;
    }
    let mut j: usize = 0;
    while j < p.len()
        invariant
            0 <= j <= p@.len(),
            forall|k: int| 0 <= k < j ==> (#[trigger] p@[k]) != BACKSLASH && p@[k] != 0,
        decreases p@.len() - j,
    {
        let c = p[j];
        if c == BACKSLASH || c == 0 {
            return EntryAction::Skip;
        }
        j = j + 1;
    }
    let comps = split_bytes(p, SLASH);
    let ghost cv = spec_path_components(p@);
    let mut i: usize = 0;
    proof {
        assert(comps.deep_view() =~= cv);
    }
    while i < comps.len()
        invariant
            0 <= i <= comps@.len(),
            cv == spec_path_components(p@),
            comps.deep_view() =~= cv,
            comps@.len() == cv.len(),
            forall|k: int| 0 <= k < i ==> !spec_is_parent(#[trigger] cv[k]),
        decreases comps@.len() - i,
    {
        let c = &comps[i];
        proof {
            assert(cv[i as int] == comps@[i as int].deep_view());
            assert(comps@[i as int].deep_view() =~= comps@[i as int]@);
        }
        if c.len() == 2 && c[0] == DOT && c[1] == DOT {
            proof {
                assert(c@ =~= seq![DOT, DOT]);
                assert(spec_is_parent(spec_path_components(p@)[i as int]));
                assert(!spec_entry_safe(p@));
            }
            return EntryAction::Skip;
        }
        proof {
            if c@ == seq![DOT, DOT] {
                assert(c@.len() == 2 && c@[0] == DOT && c@[1] == DOT);
            }
        }
        i = i + 1;
    }
    EntryAction::Extract
}

/// The entries that are not hidden: their names do not start with a dot.
pub open spec fn spec_visible(entries: Seq<Seq<u8>>) -> Seq<Seq<u8>>
    decreases entries.len(),
{
    if entries.len() == 0 {
        Seq::<Seq<u8>>::empty()
    } else {
        (if entries[0].len() > 0 && entries[0][0] == DOT {
            Seq::<Seq<u8>>::empty()
        } else {
            seq![entries[0]]
        }) + spec_visible(entries.drop_first())
    }
}

/// The entries whose names do not start with a dot, in order.
pub fn visible_entries(entries: &Vec<Vec<u8>>) -> (r: Vec<Vec<u8>>)
    ensures
        r.deep_view() =~= spec_visible(entries.deep_view()),
{
    let ghost dv = entries.deep_view();
    let mut out: Vec<Vec<u8>> = Vec::new();
    let mut i: usize = 0;
    proof {
        assert(dv.skip(0) =~= dv);
        assert(out.deep_view() =~= Seq::<Seq<u8>>::empty());
    }
    while i < entries.len()
        invariant
            0 <= i <= entries@.len(),
            dv == entries.deep_view(),
            dv.len() == entries@.len(),
            spec_visible(dv) =~= out.deep_view() + spec_visible(dv.skip(i as int)),
        decreases entries@.len() - i,
    {
        proof {
            assert(dv.skip(i as int).drop_first() =~= dv.skip(i as int + 1));
            assert(dv.skip(i as int)[0] == dv[i as int]);
            assert(dv[i as int] == entries@[i as int].deep_view());
            assert(entries@[i as int].deep_view() =~= entries@[i as int]@);
        }
        let e = &entries[i];
        let ghost pre_out = out.deep_view();
        if !(e.len() > 0 && e[0] == DOT) {
            let copy = vstd::slice::slice_to_vec(e.as_slice());
            out.push(copy);
            proof {
                assert(out.deep_view() =~~= pre_out.push(copy@));
                assert(pre_out + (seq![dv[i as int]] + spec_visible(dv.skip(i as int + 1))) =~=
                out.deep_view() + spec_visible(dv.skip(i as int + 1)));
            }
        } else {
            proof {
                assert(pre_out + (Seq::<Seq<u8>>::empty() + spec_visible(dv.skip(i as int + 1)))
                    =~= out.deep_view() + spec_visible(dv.skip(i as int + 1)));
            }
        }
        i = i + 1;
    }
    proof {
        assert(dv.skip(dv.len() as int) =~= Seq::<Seq<u8>>::empty());
    }
    out
}

/// Decide where the JDK root lies after extraction: when exactly one
/// visible entry was produced, descend into it; otherwise the extraction
/// directory itself is the candidate root.
pub fn choose_jdk_base(entries: &Vec<Vec<u8>>) -> (r: Option<Vec<u8>>)
    ensures
        match r {
            Some(e) => spec_visible(entries.deep_view()).len() == 1 && e@ == spec_visible(
                entries.deep_view(),
            )[0],
            None => spec_visible(entries.deep_view()).len() != 1,
        },
{
    let mut vis = visible_entries(entries);
    if vis.len() == 1 {
        let e = vis.remove(0);
        proof {
            assert(e.deep_view() =~= e@);
        }
        Some(e)
    } else {
        None
    }
}

} // verus!
