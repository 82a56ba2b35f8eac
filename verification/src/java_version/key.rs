//! The version key: what a user requests and installs, usually just a major
//! version number, possibly qualified by a pre-release mark.

use vstd::prelude::*;

use crate::java_version::{
    lemma_pre_cmp_eq, lemma_pre_cmp_trans, spec_is_numeric_pre, spec_parse_pre, spec_pre_cmp,
    spec_render_pre, JavaVersion, JavaVersionView, PreRelease, PreReleaseView,
};
use crate::text::{
    find_byte, lemma_dec_digits, lemma_find, lemma_find_concat, lemma_find_is,
    lemma_find_is_none, lemma_digits_plain, lemma_lex_cmp_reverse, parse_u32, push_all,
    render_u32, seq_u8_to_int, spec_dec_digits, spec_find, spec_ord_reverse, spec_parse_u32,
    spec_split_optional, DASH, DIGIT_ZERO,
};

verus! {

use core::cmp::Ordering;

/// The key we use as what a user can install: the major version number,
/// possibly qualified as early access or another pre-release.
#[derive(Debug, Clone, PartialEq, Eq)]
pub struct VersionKey {
    pub major: u32,
    pub pre_release: PreRelease,
}

/// Ghost counterpart of [`VersionKey`].
#[verifier::ext_equal]
pub struct VersionKeyView {
    pub major: u32,
    pub pre_release: PreReleaseView,
}

impl View for VersionKey {
    type V = VersionKeyView;

    open spec fn view(&self) -> VersionKeyView {
        VersionKeyView { major: self.major, pre_release: self.pre_release@ }
    }
}

impl DeepView for VersionKey {
    type V = VersionKeyView;

    open spec fn deep_view(&self) -> VersionKeyView {
        self.view()
    }
}

/// The version key could not be parsed.
#[derive(Debug, Clone, PartialEq, Eq)]
pub enum VersionKeyParseError {
    /// The part before any `-` is not a decimal major version number.
    MajorNotNumeric,
}

/// How a version key reads: the major number up to any first `-`, the rest
/// a pre-release token.
pub open spec fn spec_parse_key(s: Seq<u8>) -> Option<VersionKeyView> {
    let (major, pre) = spec_split_optional(s, DASH);
    match spec_parse_u32(major) {
        Option::Some(m) => Some(
            VersionKeyView {
                major: m,
                pre_release: match pre {
                    Option::Some(p) => spec_parse_pre(p),
                    Option::None => PreReleaseView::Ga,
                },
            },
        ),
        Option::None => None,
    }
}

/// How a version key prints.
pub open spec fn spec_render_key(k: VersionKeyView) -> Seq<u8> {
    spec_dec_digits(k.major as nat) + spec_render_pre(k.pre_release)
}

/// Well-formedness of a version key: the pre-release tag, if any, does not
/// itself match the numeric rule. Parsing only ever produces such keys.
pub open spec fn spec_wf_key(k: VersionKeyView) -> bool {
    match k.pre_release {
        PreReleaseView::Other(tag) => !spec_is_numeric_pre(tag),
        _ => true,
    }
}

/// The key that identifies a full version: its major number and pre-release
/// mark; a legacy version keeps its minor number as the major.
pub open spec fn spec_key_of(v: JavaVersionView) -> VersionKeyView {
    match v {
        JavaVersionView::Old(o) => VersionKeyView {
            major: o.minor,
            pre_release: PreReleaseView::Ga,
        },
        JavaVersionView::New(n) => VersionKeyView {
            major: n.feature,
            pre_release: n.pre_release,
        },
    }
}

/// The order on version keys: by major number, then by pre-release mark.
pub open spec fn spec_key_cmp(a: VersionKeyView, b: VersionKeyView) -> Ordering {
    if a.major < b.major {
        Ordering::Less
    } else if a.major > b.major {
        Ordering::Greater
    } else {
        spec_pre_cmp(a.pre_release, b.pre_release)
    }
}

/// Round trip: a well-formed version key, printed and read back, is itself.
pub proof fn lemma_key_round_trip(k: VersionKeyView)
    requires
        spec_wf_key(k),
    ensures
        spec_parse_key(spec_render_key(k)) == Some(k),
{
    let d = spec_dec_digits(k.major as nat);
    lemma_dec_digits(k.major as nat);
    lemma_digits_plain(d);
    let s = spec_render_key(k);
    match k.pre_release {
        PreReleaseView::Ga => {
            assert(s =~= d);
            lemma_find_is_none(d, DASH);
        },
        PreReleaseView::Other(tag) => {
            assert(s =~= d + (seq![DASH] + tag));
            lemma_find_concat(d, seq![DASH] + tag, DASH);
            lemma_find_is(seq![DASH] + tag, DASH, 0);
            assert(spec_find(s, DASH) == Some(d.len() as int));
            assert(s.take(d.len() as int) =~= d);
            assert(s.skip(d.len() as int + 1) =~= tag);
            assert(spec_parse_pre(tag) == PreReleaseView::Other(tag));
        },
        PreReleaseView::Numeric(m) => {
            let dm = spec_dec_digits(m as nat);
            lemma_dec_digits(m as nat);
            lemma_digits_plain(dm);
            assert(s =~= d + (seq![DASH] + dm));
            lemma_find_concat(d, seq![DASH] + dm, DASH);
            lemma_find_is(seq![DASH] + dm, DASH, 0);
            assert(spec_find(s, DASH) == Some(d.len() as int));
            assert(s.take(d.len() as int) =~= d);
            assert(s.skip(d.len() as int + 1) =~= dm);
            if m == 0 {
                assert(dm == seq![DIGIT_ZERO]);
            } else {
                assert(dm[0] != DIGIT_ZERO);
            }
            assert(spec_is_numeric_pre(dm));
            assert(spec_parse_pre(dm) == PreReleaseView::Numeric(m));
        },
    }
    assert(VersionKeyView { major: k.major, pre_release: k.pre_release } =~= k);
}

impl VersionKey {
    /// An equal key, usable where a contract must speak of the copy.
    pub fn duplicate(&self) -> (r: VersionKey)
        ensures
            r@ == self@,
    {
        VersionKey { major: self.major, pre_release: self.pre_release.duplicate() }
    }

    /// Read a version key. Returns an error exactly when the part before
    /// any `-` is not a number.
    pub fn parse(s: &[u8]) -> (r: Result<VersionKey, VersionKeyParseError>)
        ensures
            match r {
                Ok(k) => spec_parse_key(s@) == Some(k@),
                Err(_) => spec_parse_key(s@) is None,
            },
    {
        let n = s.len();
        let (major_part, pre_part): (&[u8], Option<&[u8]>) = match find_byte(s, DASH) {
            Option::Some(i) => {
                proof {
                    lemma_find(s@, DASH);
                }
                (vstd::slice::slice_subrange(s, 0, i), Some(vstd::slice::slice_subrange(s, i + 1, n)))
            },
            Option::None => (s, None),
        };
        let major = match parse_u32(major_part) {
            Option::Some(m) => m,
            Option::None => {
                return Err(VersionKeyParseError::MajorNotNumeric);
            },
        };
        let pre_release = match pre_part {
            Option::Some(p) => crate::java_version::parse_pre(p),
            Option::None => PreRelease::Ga,
        };
        Ok(VersionKey { major, pre_release })
    }

    /// Print this key, as the exact inverse of parsing.
    pub fn to_bytes(&self) -> (r: Vec<u8>)
        ensures
            r@ =~= spec_render_key(self@),
    {
        let mut out = render_u32(self.major);
        match &self.pre_release {
            PreRelease::Other(tag) => {
                out.push(DASH);
                push_all(&mut out, tag.as_slice());
            },
            PreRelease::Numeric(m) => {
                out.push(DASH);
                let dm = render_u32(*m);
                push_all(&mut out, dm.as_slice());
            },
            PreRelease::Ga => {},
        }
        out
    }

    /// The key a full version installs under.
    pub fn from_version(v: &JavaVersion) -> (r: VersionKey)
        ensures
            r@ == spec_key_of(v@),
    {
        match v {
            JavaVersion::OldScheme(o) => VersionKey { major: o.minor, pre_release: PreRelease::Ga },
            JavaVersion::NewScheme(n) => VersionKey {
                major: n.feature,
                pre_release: n.pre_release.duplicate(),
            },
        }
    }

    /// Compare two keys: by major number, then by pre-release mark.
    pub fn compare(&self, other: &Self) -> (r: Ordering)
        ensures
            r == spec_key_cmp(self@, other@),
    {
        if self.major < other.major {
            Ordering::Less
        } else if self.major > other.major {
            Ordering::Greater
        } else {
            crate::java_version::cmp_pre(&self.pre_release, &other.pre_release)
        }
    }
}

/// Swapping the operands reverses a key comparison.
pub proof fn lemma_key_cmp_antisymmetric(a: VersionKeyView, b: VersionKeyView)
    ensures
        spec_key_cmp(b, a) == spec_ord_reverse(spec_key_cmp(a, b)),
{
    match (a.pre_release, b.pre_release) {
        (PreReleaseView::Other(x), PreReleaseView::Other(y)) => {
            lemma_lex_cmp_reverse(seq_u8_to_int(x), seq_u8_to_int(y));
        },
        _ => {},
    }
}

/// A key strictly below another stays strictly below anything that other
/// key does not exceed.
pub proof fn lemma_key_cmp_le_trans(a: VersionKeyView, b: VersionKeyView, c: VersionKeyView)
    requires
        spec_key_cmp(a, b) == Ordering::Less,
        spec_key_cmp(b, c) != Ordering::Greater,
    ensures
        spec_key_cmp(a, c) == Ordering::Less,
{
    lemma_pre_cmp_eq(b.pre_release, c.pre_release);
    if spec_key_cmp(b, c) == Ordering::Equal {
        assert(b =~= c);
    } else {
        if a.major == b.major && b.major == c.major {
            lemma_pre_cmp_eq(a.pre_release, b.pre_release);
            lemma_pre_cmp_trans(a.pre_release, b.pre_release, c.pre_release);
        }
    }
}

/// Whether `keys` is sorted by the key order.
pub open spec fn spec_keys_sorted(keys: Seq<VersionKey>) -> bool {
    forall|i: int, j: int|
        0 <= i < j < keys.len() ==> spec_key_cmp(keys[i]@, keys[j]@) != Ordering::Greater
}

/// Sort keys by major number, then pre-release mark: the result holds the
/// same keys, in order.
pub fn sort_keys(keys: Vec<VersionKey>) -> (r: Vec<VersionKey>)
    ensures
        r@.to_multiset() == keys@.to_multiset(),
        spec_keys_sorted(r@),
{
    let ghost orig = keys@;
    let mut rest = keys;
    let mut out: Vec<VersionKey> = Vec::new();
    proof {
        assert(out@ + rest@ =~= orig);
    }
    loop
        invariant
            orig == keys@,
            (out@ + rest@).to_multiset() == orig.to_multiset(),
            spec_keys_sorted(out@),
        decreases rest@.len(),
    {
        if rest.len() == 0 {
            proof {
                assert(out@ + rest@ =~= out@);
            }
            return out;
        }
        let ghost pre_rest = rest@;
        let k = rest.remove(0);
        let mut idx: usize = 0;
        while idx < out.len() && !matches!(out[idx].compare(&k), Ordering::Greater)
            invariant
                0 <= idx <= out@.len(),
                forall|m: int| 0 <= m < idx ==> spec_key_cmp(out@[m]@, k@) != Ordering::Greater,
            decreases out@.len() - idx,
        {
            idx = idx + 1;
        }
        let ghost pre_out = out@;
        proof {
            if idx < out@.len() {
                assert(spec_key_cmp(pre_out[idx as int]@, k@) == Ordering::Greater);
            }
        }
        out.insert(idx, k);
        proof {
            broadcast use vstd::seq_lib::group_to_multiset_ensures;
            broadcast use vstd::multiset::group_multiset_axioms;

            // the moved key leaves the unsorted part and joins the sorted
            // one, so together they still hold the same keys
            assert(pre_rest.remove(0).to_multiset() == pre_rest.to_multiset().remove(k));
            assert(pre_out.insert(idx as int, k).to_multiset() == pre_out.to_multiset().insert(
                k,
            ));
            vstd::seq_lib::lemma_multiset_commutative(out@, rest@);
            vstd::seq_lib::lemma_multiset_commutative(pre_out, pre_rest);
            assert(pre_rest.contains(k));
            assert(out@.to_multiset().add(rest@.to_multiset()) =~= pre_out.to_multiset().add(
                pre_rest.to_multiset(),
            ));
            // the sorted part stays sorted around the insertion point
            assert forall|i: int, j: int|
                0 <= i < j < out@.len() implies spec_key_cmp(out@[i]@, out@[j]@)
                != Ordering::Greater by {
                if i == idx && j > idx {
                    lemma_key_cmp_antisymmetric(pre_out[idx as int]@, k@);
                    if spec_key_cmp(k@, out@[j]@) == Ordering::Greater {
                        lemma_key_cmp_le_trans(k@, pre_out[idx as int]@, pre_out[j - 1]@);
                    }
                }
            }
        }
    }
}

} // verus!
