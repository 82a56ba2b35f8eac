//! Reading the filename out of a content-disposition header. A rough
//! parser: it splits the header at semicolons, finds the first part naming
//! a filename, and accepts either a plain token or a quoted string.

use vstd::prelude::*;

use crate::error::JpreError;
use crate::text::{
    spec_split, spec_starts_with, spec_trim, split_bytes, starts_with, trim_ascii,
    DIGIT_NINE, DIGIT_ZERO,
};

verus! {

/// `;`, separating header parameters.
pub const SEMICOLON: u8 = 0x3b;

/// `"`, around a quoted filename.
pub const QUOTE: u8 = 0x22;

/// The backslash escaping a quote inside one.
pub const ESCAPE: u8 = 0x5c;

/// The parameter word both filename forms start with.
/// The bytes spell `filename`.
pub const FILENAME_WORD: [u8; 8] = [0x66, 0x69, 0x6c, 0x65, 0x6e, 0x61, 0x6d, 0x65];
/// The plain filename parameter.
/// The bytes spell `filename=`.
pub const FILENAME_PARAM: [u8; 9] = [0x66, 0x69, 0x6c, 0x65, 0x6e, 0x61, 0x6d, 0x65, 0x3d];
/// The extended filename parameter, which this parser refuses.
/// The bytes spell `filename*=`.
pub const FILENAME_EXT_PARAM: [u8; 10] = [0x66, 0x69, 0x6c, 0x65, 0x6e, 0x61, 0x6d, 0x65, 0x2a, 0x3d];

/// Whether `b` may stand in a plain token filename: the token characters
/// of the header grammar.
pub open spec fn spec_is_token_byte(b: u8) -> bool {
    ||| b == 0x21  // !
    ||| b == 0x23  // #
    ||| b == 0x24  // $
    ||| b == 0x25  // %
    ||| b == 0x26  // &
    ||| b == 0x27  // '
    ||| b == 0x2a  // *
    ||| b == 0x2b  // +
    ||| b == 0x2e  // .
    ||| DIGIT_ZERO <= b <= DIGIT_NINE
    ||| 0x41 <= b <= 0x5a  // A-Z
    ||| b == 0x5e  // ^
    ||| b == 0x5f  // _
    ||| b == 0x60  // `
    ||| 0x61 <= b <= 0x7a  // a-z
    ||| b == 0x7c  // |
    ||| b == 0x7e  // ~
    ||| b == 0x2d  // -
}

/// Whether `s` is a nonempty token.
pub open spec fn spec_is_token(s: Seq<u8>) -> bool {
    s.len() > 0 && forall|j: int| 0 <= j < s.len() ==> spec_is_token_byte(#[trigger] s[j])
}

/// Whether `b` may stand in a quoted filename: anything but a control
/// byte other than tab, newline and return.
pub open spec fn spec_is_quoted_byte(b: u8) -> bool {
    (0x20 <= b && b != 0x7f) || b == 0x09 || b == 0x0a || b == 0x0d
}

/// Whether `s` is nonempty quoted-filename text.
pub open spec fn spec_is_quoted_text(s: Seq<u8>) -> bool {
    s.len() > 0 && forall|j: int| 0 <= j < s.len() ==> spec_is_quoted_byte(#[trigger] s[j])
}

/// `s` with every escaped quote unescaped.
pub open spec fn spec_unescape_quotes(s: Seq<u8>) -> Seq<u8>
    decreases s.len(),
{
    if s.len() >= 2 && s[0] == ESCAPE && s[1] == QUOTE {
        seq![QUOTE] + spec_unescape_quotes(s.skip(2))
    } else if s.len() > 0 {
        seq![s[0]] + spec_unescape_quotes(s.skip(1))
    } else {
        Seq::<u8>::empty()
    }
}

/// How a filename parameter value reads: a plain token is taken as it is;
/// anything else must be quoted, match the quoted-text grammar after its
/// opening quote, and is returned with escaped quotes unescaped.
pub open spec fn spec_filename_value(v: Seq<u8>) -> Option<Seq<u8>> {
    if spec_is_token(v) {
        Some(v)
    } else if v.len() > 0 && v[0] == QUOTE && v.last() == QUOTE && spec_is_quoted_text(
        v.skip(1),
    ) {
        Some(spec_unescape_quotes(v))
    } else {
        None
    }
}

/// What scanning the header parts finds.
pub enum FilenameScan {
    /// No part names a filename.
    NotFound,
    /// A part names a filename this parser cannot read.
    Invalid,
    /// The filename.
    Found(Seq<u8>),
}

/// How the header parts read, first filename parameter wins: a plain
/// `filename=` is parsed, the extended `filename*=` form is refused, and
/// other words starting with `filename` are passed over.
pub open spec fn spec_scan_parts(parts: Seq<Seq<u8>>) -> FilenameScan
    decreases parts.len(),
{
    if parts.len() == 0 {
        FilenameScan::NotFound
    } else {
        let t = spec_trim(parts[0]);
        if !spec_starts_with(t, FILENAME_WORD@) {
            spec_scan_parts(parts.drop_first())
        } else if spec_starts_with(t, FILENAME_PARAM@) {
            match spec_filename_value(t.skip(FILENAME_PARAM@.len() as int)) {
                Option::Some(v) => FilenameScan::Found(v),
                Option::None => FilenameScan::Invalid,
            }
        } else if spec_starts_with(t, FILENAME_EXT_PARAM@) {
            FilenameScan::Invalid
        } else {
            spec_scan_parts(parts.drop_first())
        }
    }
}

/// Unescape quotes, as executable code.
fn unescape_quotes(s: &[u8]) -> (r: Vec<u8>)
    ensures
        r@ =~= spec_unescape_quotes(s@),
{
    let mut out: Vec<u8> = Vec::new();
    let mut i: usize = 0;
    let n = s.len();
    proof {
        assert(s@.skip(0) =~= s@);
    }
    while i < n
        invariant
            0 <= i <= n,
            n == s@.len(),
            spec_unescape_quotes(s@) =~= out@ + spec_unescape_quotes(s@.skip(i as int)),
        decreases n - i,
    {
        proof {
            assert(s@.skip(i as int)[0] == s@[i as int]);
            if i + 1 < n {
                assert(s@.skip(i as int)[1] == s@[i as int + 1]);
            }
            assert(s@.skip(i as int).skip(1) =~= s@.skip(i as int + 1));
            if i + 2 <= n {
                assert(s@.skip(i as int).skip(2) =~= s@.skip(i as int + 2));
            }
        }
        let ghost pre_out = out@;
        if i + 1 < n && s[i] == ESCAPE && s[i + 1] == QUOTE {
            out.push(QUOTE);
            proof {
                assert(pre_out + (seq![QUOTE] + spec_unescape_quotes(s@.skip(i as int + 2)))
                    =~= out@ + spec_unescape_quotes(s@.skip(i as int + 2)));
            }
            i = i + 2;
        } else {
            out.push(s[i]);
            proof {
                assert(pre_out + (seq![s@[i as int]] + spec_unescape_quotes(
                    s@.skip(i as int + 1),
                )) =~= out@ + spec_unescape_quotes(s@.skip(i as int + 1)));
            }
            i = i + 1;
        }
    }
    proof {
        assert(s@.skip(n as int) =~= Seq::<u8>::empty());
        assert(out@ + Seq::<u8>::empty() =~= out@);
    }
    out
}

/// Whether every byte is a token byte and the text is nonempty.
fn is_token(s: &[u8]) -> (r: bool)
    ensures
        r == spec_is_token(s@),
{
    if s.len() == 0 {
        return false;
    }
    let mut j: usize = 0;
    while j < s.len()
        invariant
            0 <= j <= s@.len(),
            forall|k: int| 0 <= k < j ==> spec_is_token_byte(#[trigger] s@[k]),
        decreases s@.len() - j,
    {
        let b = s[j];
        let ok = b == 0x21 || b == 0x23 || b == 0x24 || b == 0x25 || b == 0x26 || b == 0x27 || b
            == 0x2a || b == 0x2b || b == 0x2e || (DIGIT_ZERO <= b && b <= DIGIT_NINE) || (0x41 <= b
            && b <= 0x5a) || b == 0x5e || b == 0x5f || b == 0x60 || (0x61 <= b && b <= 0x7a) || b
            == 0x7c || b == 0x7e || b == 0x2d;
        if !ok {
            return false;
        }
        j = j + 1;
    }
    true
}

/// Whether the text after the opening quote matches the quoted grammar.
fn is_quoted_text(s: &[u8]) -> (r: bool)
    ensures
        r == spec_is_quoted_text(s@),
{
    if s.len() == 0 {
        return false;
    }
    let mut j: usize = 0;
    while j < s.len()
        invariant
            0 <= j <= s@.len(),
            forall|k: int| 0 <= k < j ==> spec_is_quoted_byte(#[trigger] s@[k]),
        decreases s@.len() - j,
    {
        let b = s[j];
        let ok = (0x20 <= b && b != 0x7f) || b == 0x09 || b == 0x0a || b == 0x0d;
        if !ok {
            return false;
        }
        j = j + 1;
    }
    true
}

/// Read one filename parameter value, as executable code.
pub fn parse_filename_value(value: &[u8]) -> (r: Result<Vec<u8>, JpreError>)
    ensures
        match r {
            Ok(f) => spec_filename_value(value@) == Some(f@),
            Err(_) => spec_filename_value(value@) is None,
        },
{
    if is_token(value) {
        return Ok(vstd::slice::slice_to_vec(value));
    }
    let n = value.len();
    if n == 0 || value[0] != QUOTE || value[n - 1] != QUOTE {
        return Err(JpreError::Unexpected);
    }
    let trimmed = vstd::slice::slice_subrange(value, 1, n);
    proof {
        assert(trimmed@ =~= value@.skip(1));
    }
    if !is_quoted_text(trimmed) {
        return Err(JpreError::Unexpected);
    }
    Ok(unescape_quotes(value))
}

/// Read the filename out of a content-disposition header: the first
/// `filename=` parameter, parsed; an extended `filename*=` parameter or an
/// unreadable value is an error, as is a header without any filename.
pub fn parse_filename(header: &[u8]) -> (r: Result<Vec<u8>, JpreError>)
    ensures
        match r {
            Ok(f) => spec_scan_parts(spec_split(header@, SEMICOLON)) == FilenameScan::Found(f@),
            Err(_) => !(spec_scan_parts(spec_split(header@, SEMICOLON)) is Found),
        },
{
    let parts = split_bytes(header, SEMICOLON);
    let ghost pv = spec_split(header@, SEMICOLON);
    let mut i: usize = 0;
    proof {
        assert(parts.deep_view() =~= pv);
        assert(pv.skip(0) =~= pv);
    }
    while i < parts.len()
        invariant
            0 <= i <= parts@.len(),
            pv == spec_split(header@, SEMICOLON),
            parts.deep_view() =~= pv,
            parts@.len() == pv.len(),
            spec_scan_parts(pv) == spec_scan_parts(pv.skip(i as int)),
        decreases parts@.len() - i,
    {
        proof {
            assert(pv.skip(i as int)[0] == pv[i as int]);
            assert(pv.skip(i as int).drop_first() =~= pv.skip(i as int + 1));
            assert(pv[i as int] == parts@[i as int].deep_view());
            assert(parts@[i as int].deep_view() =~= parts@[i as int]@);
        }
        let t = trim_ascii(parts[i].as_slice());
        if starts_with(t.as_slice(), FILENAME_WORD.as_slice()) {
            if starts_with(t.as_slice(), FILENAME_PARAM.as_slice()) {
                let v = vstd::slice::slice_subrange(
                    t.as_slice(),
                    FILENAME_PARAM.len(),
                    t.len(),
                );
                proof {
                    assert(v@ =~= t@.skip(FILENAME_PARAM@.len() as int));
                }
                return parse_filename_value(v);
            }
            if starts_with(t.as_slice(), FILENAME_EXT_PARAM.as_slice()) {
                return Err(JpreError::Unexpected);
            }
        }
        i = i + 1;
    }
    proof {
        assert(pv.skip(pv.len() as int) =~= Seq::<Seq<u8>>::empty());
    }
    Err(JpreError::Unexpected)
}

} // verus!
