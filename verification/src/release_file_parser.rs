//! Reading the full Java version out of a JDK's release file: the value of
//! its JAVA_VERSION line, unquoted.

use vstd::prelude::*;

use crate::text::{find_byte, lemma_find, spec_find, spec_starts_with, spec_trim, starts_with,
    trim_ascii};

verus! {

/// `=`, between a release-file key and its value.
pub const EQUALS: u8 = 0x3d;

/// `"`, around a release-file value.
pub const RELEASE_QUOTE: u8 = 0x22;

/// The release-file key holding the full version.
/// The bytes spell `JAVA_VERSION`.
pub const JAVA_VERSION_KEY: [u8; 12] = [0x4a, 0x41, 0x56, 0x41, 0x5f, 0x56, 0x45, 0x52, 0x53, 0x49, 0x4f, 0x4e];

/// A value with its surrounding quotes removed: the opening quote must be
/// there for the closing one to be looked for.
pub open spec fn spec_unquote(v: Seq<u8>) -> Seq<u8> {
    if v.len() > 0 && v[0] == RELEASE_QUOTE {
        let w = v.skip(1);
        if w.len() > 0 && w.last() == RELEASE_QUOTE {
            w.drop_last()
        } else {
            w
        }
    } else {
        v
    }
}

/// How the release file reads: the first line that, trimmed, starts with
/// the version key and has an equals sign yields its unquoted value; a
/// matching line without an equals sign is passed over.
pub open spec fn spec_extract_java_version(lines: Seq<Seq<u8>>) -> Option<Seq<u8>>
    decreases lines.len(),
{
    if lines.len() == 0 {
        None
    } else {
        let t = spec_trim(lines[0]);
        if spec_starts_with(t, JAVA_VERSION_KEY@) {
            match spec_find(t, EQUALS) {
                Option::Some(i) => Some(spec_unquote(t.skip(i + 1))),
                Option::None => spec_extract_java_version(lines.drop_first()),
            }
        } else {
            spec_extract_java_version(lines.drop_first())
        }
    }
}

/// Read the full Java version out of the release file's lines, as
/// executable code.
pub fn extract_java_version(lines: &Vec<Vec<u8>>) -> (r: Option<Vec<u8>>)
    ensures
        match r {
            Some(v) => spec_extract_java_version(lines.deep_view()) == Some(v@),
            None => spec_extract_java_version(lines.deep_view()) is None,
        },
{
    let ghost lv = lines.deep_view();
    let mut i: usize = 0;
    proof {
        assert(lv.skip(0) =~= lv);
    }
    while i < lines.len()
        invariant
            0 <= i <= lines@.len(),
            lv == lines.deep_view(),
            lines@.len() == lv.len(),
            spec_extract_java_version(lv) == spec_extract_java_version(lv.skip(i as int)),
        decreases lines@.len() - i,
    {
        proof {
            assert(lv.skip(i as int)[0] == lv[i as int]);
            assert(lv.skip(i as int).drop_first() =~= lv.skip(i as int + 1));
            assert(lv[i as int] == lines@[i as int].deep_view());
            assert(lines@[i as int].deep_view() =~= lines@[i as int]@);
        }
        let t = trim_ascii(lines[i].as_slice());
        if starts_with(t.as_slice(), JAVA_VERSION_KEY.as_slice()) {
            match find_byte(t.as_slice(), EQUALS) {
                Some(eq) => {
                    proof {
                        lemma_find(t@, EQUALS);
                    }
                    let mut v = vstd::slice::slice_to_vec(
                        vstd::slice::slice_subrange(t.as_slice(), eq + 1, t.len()),
                    );
                    proof {
                        assert(v@ =~= t@.skip(eq as int + 1));
                    }
                    if v.len() > 0 && v[0] == RELEASE_QUOTE {
                        let inner = vstd::slice::slice_to_vec(
                            vstd::slice::slice_subrange(v.as_slice(), 1, v.len()),
                        );
                        proof {
                            assert(inner@ =~= v@.skip(1));
                        }
                        if inner.len() > 0 && inner[inner.len() - 1] == RELEASE_QUOTE {
                            let stripped = vstd::slice::slice_to_vec(
                                vstd::slice::slice_subrange(
                                    inner.as_slice(),
                                    0,
                                    inner.len() - 1,
                                ),
                            );
                            proof {
                                assert(stripped@ =~= inner@.drop_last());
                            }
                            return Some(stripped);
                        }
                        return Some(inner);
                    }
                    return Some(v);
                },
                None => {},
            }
        }
        i = i + 1;
    }
    proof {
        assert(lv.skip(lv.len() as int) =~= Seq::<Seq<u8>>::empty());
    }
    None
}

} // verus!
