//! The Java version model: parsing, formatting and totally ordering version
//! strings in both the legacy `1.x` scheme and the current scheme.
//!
//! Version text is handled as ASCII bytes. Each executable type has a ghost
//! view used by the contracts; parsing and formatting are specified against
//! `spec_parse` and `spec_render`, which are proved to round-trip on
//! well-formed values.

pub mod key;

use vstd::prelude::*;

use crate::text::{
    all_digits, cmp_bytes, cmp_u32_slices, dec_value, find_sep, is_extra_sep, lemma_dec_digits,
    lemma_find_sep, lemma_lex_cmp_eq, lemma_lex_cmp_reverse, lemma_lex_cmp_trans,
    lemma_seq_u32_to_int_injective, lemma_seq_u8_to_int_injective, lemma_split_len, parse_u32,
    push_all, render_u32, seq_u32_to_int, seq_u8_to_int, spec_dec_digits, spec_find,
    spec_find_sep, spec_join, spec_lex_cmp, spec_ord_reverse, spec_parse_u32, spec_split,
    spec_split_optional, split_bytes, SplittingExt, DASH, DIGIT_ZERO, DOT, PLUS, UNDERSCORE,
};

verus! {

use core::cmp::Ordering;

/// `1`, the first segment that selects the legacy scheme.
pub const DIGIT_ONE: u8 = 0x31;

/// `b`, the byte that starts a legacy build token.
pub const LOWER_B: u8 = 0x62;

/// The version string could not be parsed.
#[derive(Debug, Clone, PartialEq, Eq)]
pub struct JavaVersionParsingError;

/// Ghost counterpart of [`PreRelease`].
#[verifier::ext_equal]
pub enum PreReleaseView {
    Other(Seq<u8>),
    Numeric(u32),
    Ga,
}

/// Ghost counterpart of [`OldScheme`].
#[verifier::ext_equal]
pub struct OldSchemeView {
    pub minor: u32,
    pub patch: u32,
    pub update: u32,
    pub build: Option<u32>,
}

/// Ghost counterpart of [`NewScheme`].
#[verifier::ext_equal]
pub struct NewSchemeView {
    pub feature: u32,
    pub interim: u32,
    pub update: u32,
    pub patch: u32,
    pub trailing: Seq<u32>,
    pub pre_release: PreReleaseView,
    pub build: Option<u32>,
    pub opt: Option<Seq<u8>>,
}

/// Ghost counterpart of [`JavaVersion`].
#[verifier::ext_equal]
pub enum JavaVersionView {
    Old(OldSchemeView),
    New(NewSchemeView),
}

/// Pre-release information. Ordered `Other < Numeric < Ga`:
/// a version without any pre-release mark comes last.
#[derive(Debug, Clone, PartialEq, Eq)]
pub enum PreRelease {
    Other(Vec<u8>),
    Numeric(u32),
    Ga,
}

impl PreRelease {
    /// An equal pre-release mark, usable where a contract must speak of
    /// the copy.
    pub fn duplicate(&self) -> (r: PreRelease)
        ensures
            r@ == self@,
    {
        match self {
            PreRelease::Other(tag) => PreRelease::Other(vstd::slice::slice_to_vec(tag.as_slice())),
            PreRelease::Numeric(n) => PreRelease::Numeric(*n),
            PreRelease::Ga => PreRelease::Ga,
        }
    }
}

impl View for PreRelease {
    type V = PreReleaseView;

    open spec fn view(&self) -> PreReleaseView {
        match self {
            PreRelease::Other(tag) => PreReleaseView::Other(tag@),
            PreRelease::Numeric(n) => PreReleaseView::Numeric(*n),
            PreRelease::Ga => PreReleaseView::Ga,
        }
    }
}

/// The legacy versioning scheme: a leading `1.` followed by minor and patch,
/// with optional update and build data.
#[derive(Debug, Clone, Copy, PartialEq, Eq)]
pub struct OldScheme {
    pub minor: u32,
    pub patch: u32,
    pub update: u32,
    pub build: Option<u32>,
}

impl View for OldScheme {
    type V = OldSchemeView;

    open spec fn view(&self) -> OldSchemeView {
        OldSchemeView { minor: self.minor, patch: self.patch, update: self.update, build: self.build }
    }
}

/// The current versioning scheme: feature, interim, update and patch
/// segments, arbitrarily many trailing segments, and optional pre-release,
/// build and opt data.
#[derive(Debug, Clone, PartialEq, Eq)]
pub struct NewScheme {
    pub feature: u32,
    pub interim: u32,
    pub update: u32,
    pub patch: u32,
    pub trailing: Vec<u32>,
    pub pre_release: PreRelease,
    pub build: Option<u32>,
    pub opt: Option<Vec<u8>>,
}

impl View for NewScheme {
    type V = NewSchemeView;

    open spec fn view(&self) -> NewSchemeView {
        NewSchemeView {
            feature: self.feature,
            interim: self.interim,
            update: self.update,
            patch: self.patch,
            trailing: self.trailing@,
            pre_release: self.pre_release@,
            build: self.build,
            opt: match self.opt {
                Some(o) => Some(o@),
                None => None,
            },
        }
    }
}

/// A Java version in either scheme. Parsing is not strict, and some invalid
/// versions may be accepted.
#[derive(Debug, Clone, PartialEq, Eq)]
pub enum JavaVersion {
    /// The legacy scheme, whose printed form always starts with `1.`.
    OldScheme(OldScheme),
    /// The current scheme.
    NewScheme(NewScheme),
}

impl View for JavaVersion {
    type V = JavaVersionView;

    open spec fn view(&self) -> JavaVersionView {
        match self {
            JavaVersion::OldScheme(o) => JavaVersionView::Old(o@),
            JavaVersion::NewScheme(n) => JavaVersionView::New(n@),
        }
    }
}

/// Order of two optional build numbers: an absent build comes first.
pub open spec fn spec_opt_u32_cmp(a: Option<u32>, b: Option<u32>) -> Ordering {
    match (a, b) {
        (Option::None, Option::None) => Ordering::Equal,
        (Option::None, Option::Some(_)) => Ordering::Less,
        (Option::Some(_), Option::None) => Ordering::Greater,
        (Option::Some(x), Option::Some(y)) => if x < y {
            Ordering::Less
        } else if x > y {
            Ordering::Greater
        } else {
            Ordering::Equal
        },
    }
}

/// Order of two pre-release marks: any tag comes before any numeric
/// pre-release, and both come before no pre-release at all.
pub open spec fn spec_pre_cmp(a: PreReleaseView, b: PreReleaseView) -> Ordering {
    match (a, b) {
        (PreReleaseView::Other(x), PreReleaseView::Other(y)) => spec_lex_cmp(
            seq_u8_to_int(x),
            seq_u8_to_int(y),
        ),
        (PreReleaseView::Other(_), _) => Ordering::Less,
        (_, PreReleaseView::Other(_)) => Ordering::Greater,
        (PreReleaseView::Numeric(x), PreReleaseView::Numeric(y)) => if x < y {
            Ordering::Less
        } else if x > y {
            Ordering::Greater
        } else {
            Ordering::Equal
        },
        (PreReleaseView::Numeric(_), PreReleaseView::Ga) => Ordering::Less,
        (PreReleaseView::Ga, PreReleaseView::Numeric(_)) => Ordering::Greater,
        (PreReleaseView::Ga, PreReleaseView::Ga) => Ordering::Equal,
    }
}

/// Compare two `u32` fields.
pub open spec fn spec_u32_cmp(x: u32, y: u32) -> Ordering {
    if x < y {
        Ordering::Less
    } else if x > y {
        Ordering::Greater
    } else {
        Ordering::Equal
    }
}

/// The first ordering, unless it is `Equal`, in which case the second.
pub open spec fn spec_then(a: Ordering, b: Ordering) -> Ordering {
    if a == Ordering::Equal {
        b
    } else {
        a
    }
}

/// The total order on versions: a legacy version always comes before a
/// current-scheme version; within one scheme the fields compare
/// lexicographically, and `opt` is ignored.
pub open spec fn spec_compare(a: JavaVersionView, b: JavaVersionView) -> Ordering {
    match (a, b) {
        (JavaVersionView::Old(x), JavaVersionView::Old(y)) => spec_then(
            spec_u32_cmp(x.minor, y.minor),
            spec_then(
                spec_u32_cmp(x.patch, y.patch),
                spec_then(spec_u32_cmp(x.update, y.update), spec_opt_u32_cmp(x.build, y.build)),
            ),
        ),
        (JavaVersionView::Old(_), JavaVersionView::New(_)) => Ordering::Less,
        (JavaVersionView::New(_), JavaVersionView::Old(_)) => Ordering::Greater,
        (JavaVersionView::New(x), JavaVersionView::New(y)) => spec_then(
            spec_u32_cmp(x.feature, y.feature),
            spec_then(
                spec_u32_cmp(x.interim, y.interim),
                spec_then(
                    spec_u32_cmp(x.update, y.update),
                    spec_then(
                        spec_u32_cmp(x.patch, y.patch),
                        spec_then(
                            spec_lex_cmp(seq_u32_to_int(x.trailing), seq_u32_to_int(y.trailing)),
                            spec_then(
                                spec_pre_cmp(x.pre_release, y.pre_release),
                                spec_opt_u32_cmp(x.build, y.build),
                            ),
                        ),
                    ),
                ),
            ),
        ),
    }
}

impl JavaVersion {
    /// Compare two Java versions. Values that differ only in `opt` compare
    /// `Equal`, since `opt` carries no defined ordering.
    pub fn compare(&self, other: &Self) -> (r: Ordering)
        ensures
            r == spec_compare(self@, other@),
    {
        match (self, other) {
            (JavaVersion::OldScheme(x), JavaVersion::OldScheme(y)) => {
                if x.minor != y.minor {
                    cmp_u32(x.minor, y.minor)
                } else if x.patch != y.patch {
                    cmp_u32(x.patch, y.patch)
                } else if x.update != y.update {
                    cmp_u32(x.update, y.update)
                } else {
                    cmp_opt_u32(&x.build, &y.build)
                }
            },
            (JavaVersion::OldScheme(_), JavaVersion::NewScheme(_)) => Ordering::Less,
            (JavaVersion::NewScheme(_), JavaVersion::OldScheme(_)) => Ordering::Greater,
            (JavaVersion::NewScheme(x), JavaVersion::NewScheme(y)) => {
                if x.feature != y.feature {
                    cmp_u32(x.feature, y.feature)
                } else if x.interim != y.interim {
                    cmp_u32(x.interim, y.interim)
                } else if x.update != y.update {
                    cmp_u32(x.update, y.update)
                } else if x.patch != y.patch {
                    cmp_u32(x.patch, y.patch)
                } else {
                    let trailing = cmp_u32_slices(x.trailing.as_slice(), y.trailing.as_slice());
                    if !matches!(trailing, Ordering::Equal) {
                        trailing
                    } else {
                        let pre = cmp_pre(&x.pre_release, &y.pre_release);
                        if !matches!(pre, Ordering::Equal) {
                            pre
                        } else {
                            cmp_opt_u32(&x.build, &y.build)
                        }
                    }
                }
            },
        }
    }
}

/// Compare two `u32` values, as executable code.
fn cmp_u32(x: u32, y: u32) -> (r: Ordering)
    ensures
        r == spec_u32_cmp(x, y),
{
    if x < y {
        Ordering::Less
    } else if x > y {
        Ordering::Greater
    } else {
        Ordering::Equal
    }
}

/// Compare two optional build numbers, as executable code.
fn cmp_opt_u32(a: &Option<u32>, b: &Option<u32>) -> (r: Ordering)
    ensures
        r == spec_opt_u32_cmp(*a, *b),
{
    match (a, b) {
        (Option::None, Option::None) => Ordering::Equal,
        (Option::None, Option::Some(_)) => Ordering::Less,
        (Option::Some(_), Option::None) => Ordering::Greater,
        (Option::Some(x), Option::Some(y)) => cmp_u32(*x, *y),
    }
}

/// Compare two pre-release marks, as executable code.
pub(crate) fn cmp_pre(a: &PreRelease, b: &PreRelease) -> (r: Ordering)
    ensures
        r == spec_pre_cmp(a@, b@),
{
    match (a, b) {
        (PreRelease::Other(x), PreRelease::Other(y)) => cmp_bytes(x.as_slice(), y.as_slice()),
        (PreRelease::Other(_), _) => Ordering::Less,
        (PreRelease::Numeric(_), PreRelease::Other(_)) => Ordering::Greater,
        (PreRelease::Ga, PreRelease::Other(_)) => Ordering::Greater,
        (PreRelease::Numeric(x), PreRelease::Numeric(y)) => cmp_u32(*x, *y),
        (PreRelease::Numeric(_), PreRelease::Ga) => Ordering::Less,
        (PreRelease::Ga, PreRelease::Numeric(_)) => Ordering::Greater,
        (PreRelease::Ga, PreRelease::Ga) => Ordering::Equal,
    }
}

/// Whether two pre-release marks are equal, as executable code.
pub fn pre_eq(a: &PreRelease, b: &PreRelease) -> (r: bool)
    ensures
        r == (a@ == b@),
{
    match (a, b) {
        (PreRelease::Ga, PreRelease::Ga) => true,
        (PreRelease::Numeric(x), PreRelease::Numeric(y)) => x == y,
        (PreRelease::Other(x), PreRelease::Other(y)) => {
            let eq = crate::text::bytes_eq(x.as_slice(), y.as_slice());
            proof {
                if x@ == y@ {
                    assert(a@ =~= b@);
                }
            }
            eq
        },
        _ => false,
    }
}

/// Equality up to `opt`: what `spec_compare` finding `Equal` means.
pub open spec fn spec_eq_ignoring_opt(a: JavaVersionView, b: JavaVersionView) -> bool {
    match (a, b) {
        (JavaVersionView::Old(x), JavaVersionView::Old(y)) => x == y,
        (JavaVersionView::New(x), JavaVersionView::New(y)) => {
            &&& x.feature == y.feature
            &&& x.interim == y.interim
            &&& x.update == y.update
            &&& x.patch == y.patch
            &&& x.trailing == y.trailing
            &&& x.pre_release == y.pre_release
            &&& x.build == y.build
        },
        _ => false,
    }
}

/// Two pre-release marks compare `Equal` exactly when they are equal.
pub proof fn lemma_pre_cmp_eq(a: PreReleaseView, b: PreReleaseView)
    ensures
        (spec_pre_cmp(a, b) == Ordering::Equal) <==> a == b,
{
    match (a, b) {
        (PreReleaseView::Other(x), PreReleaseView::Other(y)) => {
            lemma_lex_cmp_eq(seq_u8_to_int(x), seq_u8_to_int(y));
            if seq_u8_to_int(x) =~= seq_u8_to_int(y) {
                lemma_seq_u8_to_int_injective(x, y);
            }
            if x == y {
                assert(seq_u8_to_int(x) =~= seq_u8_to_int(y));
            }
        },
        _ => {},
    }
}

/// Versions compare `Equal` exactly when they agree on every field but
/// `opt`.
pub proof fn lemma_compare_equal(a: JavaVersionView, b: JavaVersionView)
    ensures
        (spec_compare(a, b) == Ordering::Equal) <==> spec_eq_ignoring_opt(a, b),
{
    match (a, b) {
        (JavaVersionView::New(x), JavaVersionView::New(y)) => {
            lemma_lex_cmp_eq(seq_u32_to_int(x.trailing), seq_u32_to_int(y.trailing));
            if seq_u32_to_int(x.trailing) =~= seq_u32_to_int(y.trailing) {
                lemma_seq_u32_to_int_injective(x.trailing, y.trailing);
            }
            if x.trailing == y.trailing {
                assert(seq_u32_to_int(x.trailing) =~= seq_u32_to_int(y.trailing));
            }
            lemma_pre_cmp_eq(x.pre_release, y.pre_release);
        },
        _ => {},
    }
}

/// Swapping the operands reverses a comparison: the order is antisymmetric.
pub proof fn lemma_compare_antisymmetric(a: JavaVersionView, b: JavaVersionView)
    ensures
        spec_compare(b, a) == spec_ord_reverse(spec_compare(a, b)),
{
    match (a, b) {
        (JavaVersionView::New(x), JavaVersionView::New(y)) => {
            lemma_lex_cmp_reverse(seq_u32_to_int(x.trailing), seq_u32_to_int(y.trailing));
            match (x.pre_release, y.pre_release) {
                (PreReleaseView::Other(s), PreReleaseView::Other(t)) => {
                    lemma_lex_cmp_reverse(seq_u8_to_int(s), seq_u8_to_int(t));
                },
                _ => {},
            }
        },
        _ => {},
    }
}

/// Two pre-release orderings compose transitively.
pub proof fn lemma_pre_cmp_trans(a: PreReleaseView, b: PreReleaseView, c: PreReleaseView)
    requires
        spec_pre_cmp(a, b) == Ordering::Less,
        spec_pre_cmp(b, c) == Ordering::Less,
    ensures
        spec_pre_cmp(a, c) == Ordering::Less,
{
    match (a, b, c) {
        (PreReleaseView::Other(x), PreReleaseView::Other(y), PreReleaseView::Other(z)) => {
            lemma_lex_cmp_trans(seq_u8_to_int(x), seq_u8_to_int(y), seq_u8_to_int(z));
        },
        _ => {},
    }
}

/// The version order is transitive.
pub proof fn lemma_compare_transitive(a: JavaVersionView, b: JavaVersionView, c: JavaVersionView)
    requires
        spec_compare(a, b) == Ordering::Less,
        spec_compare(b, c) == Ordering::Less,
    ensures
        spec_compare(a, c) == Ordering::Less,
{
    match (a, b, c) {
        (JavaVersionView::New(x), JavaVersionView::New(y), JavaVersionView::New(z)) => {
            let xt = seq_u32_to_int(x.trailing);
            let yt = seq_u32_to_int(y.trailing);
            let zt = seq_u32_to_int(z.trailing);
            lemma_lex_cmp_eq(xt, yt);
            lemma_lex_cmp_eq(yt, zt);
            if spec_lex_cmp(xt, yt) == Ordering::Less && spec_lex_cmp(yt, zt) == Ordering::Less {
                lemma_lex_cmp_trans(xt, yt, zt);
            }
            lemma_pre_cmp_eq(x.pre_release, y.pre_release);
            lemma_pre_cmp_eq(y.pre_release, z.pre_release);
            if spec_pre_cmp(x.pre_release, y.pre_release) == Ordering::Less && spec_pre_cmp(
                y.pre_release,
                z.pre_release,
            ) == Ordering::Less {
                lemma_pre_cmp_trans(x.pre_release, y.pre_release, z.pre_release);
            }
        },
        _ => {},
    }
}

/// Any legacy-scheme version orders strictly below any current-scheme
/// version, whatever the numeric fields on either side.
pub proof fn lemma_scheme_order(a: JavaVersionView, b: JavaVersionView)
    requires
        a is Old,
        b is New,
    ensures
        spec_compare(a, b) == Ordering::Less,
        spec_compare(b, a) == Ordering::Greater,
{
}

/// The pre-release order puts every tag below every numeric mark, and every
/// numeric mark below the absence of one, whatever the payloads.
pub proof fn lemma_pre_release_order(tag: Seq<u8>, n: u32)
    ensures
        spec_pre_cmp(PreReleaseView::Other(tag), PreReleaseView::Numeric(n)) == Ordering::Less,
        spec_pre_cmp(PreReleaseView::Numeric(n), PreReleaseView::Ga) == Ordering::Less,
        spec_pre_cmp(PreReleaseView::Other(tag), PreReleaseView::Ga) == Ordering::Less,
{
}

/// Whether `s` matches the numeric pre-release rule: all digits with no
/// leading zero, and small enough to count.
pub open spec fn spec_is_numeric_pre(s: Seq<u8>) -> bool {
    &&& s.len() > 0
    &&& all_digits(s)
    &&& (s == seq![DIGIT_ZERO] || s[0] != DIGIT_ZERO)
    &&& dec_value(s) <= u32::MAX
}

/// How a pre-release token reads: numeric when it matches the numeric rule,
/// any other text taken as a tag.
pub open spec fn spec_parse_pre(s: Seq<u8>) -> PreReleaseView {
    if spec_is_numeric_pre(s) {
        PreReleaseView::Numeric(dec_value(s) as u32)
    } else {
        PreReleaseView::Other(s)
    }
}

/// How a legacy build token reads: `b` followed by the build number, with a
/// padding `b0` prefix stripped.
pub open spec fn spec_parse_old_build(b: Seq<u8>) -> Option<u32> {
    if b.len() == 0 || b[0] != LOWER_B {
        None
    } else {
        let numeral = if b.len() >= 2 && b[1] == DIGIT_ZERO {
            b.skip(2)
        } else {
            b.skip(1)
        };
        spec_parse_u32(numeral)
    }
}

/// How legacy extra data reads: `_UPDATE`, `_UPDATE-bBUILD`, or `-bBUILD`.
pub open spec fn spec_parse_old_extra(extra: Option<Seq<u8>>) -> Option<(u32, Option<u32>)> {
    match extra {
        Option::None => Some((0u32, Option::<u32>::None)),
        Option::Some(e) => if e.len() > 0 && e[0] == UNDERSCORE {
            let (update, build) = spec_split_optional(e.drop_first(), DASH);
            match spec_parse_u32(update) {
                Option::None => None,
                Option::Some(u) => match build {
                    Option::None => Some((u, Option::<u32>::None)),
                    Option::Some(b) => match spec_parse_old_build(b) {
                        Option::None => None,
                        Option::Some(n) => Some((u, Some(n))),
                    },
                },
            }
        } else if e.len() > 0 && e[0] == DASH {
            match spec_parse_old_build(e.drop_first()) {
                Option::None => None,
                Option::Some(n) => Some((0u32, Some(n))),
            }
        } else {
            None
        },
    }
}

/// How a legacy version reads, given the dot segments after the leading `1`
/// and the extra data: exactly minor and patch, then update and build.
pub open spec fn spec_parse_old(rest: Seq<Seq<u8>>, extra: Option<Seq<u8>>) -> Option<
    JavaVersionView,
> {
    if rest.len() != 2 {
        None
    } else {
        match (spec_parse_u32(rest[0]), spec_parse_u32(rest[1])) {
            (Option::Some(minor), Option::Some(patch)) => match spec_parse_old_extra(extra) {
                Option::Some(ub) => Some(
                    JavaVersionView::Old(
                        OldSchemeView { minor, patch, update: ub.0, build: ub.1 },
                    ),
                ),
                Option::None => None,
            },
            _ => None,
        }
    }
}

/// Every segment read as a number, or nothing if any segment fails.
pub open spec fn spec_parse_u32_list(parts: Seq<Seq<u8>>) -> Option<Seq<u32>>
    decreases parts.len(),
{
    if parts.len() == 0 {
        Some(Seq::<u32>::empty())
    } else {
        match (spec_parse_u32(parts[0]), spec_parse_u32_list(parts.drop_first())) {
            (Option::Some(n), Option::Some(tail)) => Some(seq![n] + tail),
            _ => None,
        }
    }
}

/// How current-scheme extra data reads: `+BUILD(-OPT)?`, `-PRE+BUILD(-OPT)?`,
/// `-PRE(-OPT)?`, or `+-OPT`.
pub open spec fn spec_parse_new_extra(extra: Option<Seq<u8>>) -> Option<
    (PreReleaseView, Option<u32>, Option<Seq<u8>>),
> {
    match extra {
        Option::None => Some(
            (PreReleaseView::Ga, Option::<u32>::None, Option::<Seq<u8>>::None),
        ),
        Option::Some(e) => if e.len() >= 2 && e[0] == PLUS && e[1] == DASH {
            Some((PreReleaseView::Ga, Option::<u32>::None, Some(e.skip(2))))
        } else if e.len() > 0 && e[0] == PLUS {
            let (build, opt) = spec_split_optional(e.drop_first(), DASH);
            match spec_parse_u32(build) {
                Option::None => None,
                Option::Some(b) => Some((PreReleaseView::Ga, Some(b), opt)),
            }
        } else if e.len() > 0 && e[0] == DASH {
            let (pre_maybe_build, opt) = spec_split_optional(e.drop_first(), DASH);
            let (pre, build) = spec_split_optional(pre_maybe_build, PLUS);
            match build {
                Option::None => Some((spec_parse_pre(pre), Option::<u32>::None, opt)),
                Option::Some(b) => match spec_parse_u32(b) {
                    Option::None => None,
                    Option::Some(n) => Some((spec_parse_pre(pre), Some(n), opt)),
                },
            }
        } else {
            None
        },
    }
}

/// How a current-scheme version reads: a feature number with no leading
/// zero, positional interim, update and patch segments, trailing segments,
/// and the extra data; the last segment must not be a literal `0`.
pub open spec fn spec_parse_new(parts: Seq<Seq<u8>>, extra: Option<Seq<u8>>) -> Option<
    JavaVersionView,
> {
    let first = parts[0];
    if !(first.len() > 0 && all_digits(first)) {
        None
    } else if first[0] == DIGIT_ZERO {
        None
    } else if dec_value(first) > u32::MAX {
        None
    } else {
        let rest = parts.drop_first();
        if rest.len() > 0 && rest.last() == seq![DIGIT_ZERO] {
            None
        } else {
            let interim = if rest.len() >= 1 {
                spec_parse_u32(rest[0])
            } else {
                Some(0u32)
            };
            let update = if rest.len() >= 2 {
                spec_parse_u32(rest[1])
            } else {
                Some(0u32)
            };
            let patch = if rest.len() >= 3 {
                spec_parse_u32(rest[2])
            } else {
                Some(0u32)
            };
            let trailing = if rest.len() > 3 {
                spec_parse_u32_list(rest.skip(3))
            } else {
                Some(Seq::<u32>::empty())
            };
            match (interim, update, patch, trailing) {
                (
                    Option::Some(interim),
                    Option::Some(update),
                    Option::Some(patch),
                    Option::Some(trailing),
                ) => match spec_parse_new_extra(extra) {
                    Option::Some(pbo) => Some(
                        JavaVersionView::New(
                            NewSchemeView {
                                feature: dec_value(first) as u32,
                                interim,
                                update,
                                patch,
                                trailing,
                                pre_release: pbo.0,
                                build: pbo.1,
                                opt: pbo.2,
                            },
                        ),
                    ),
                    Option::None => None,
                },
                _ => None,
            }
        }
    }
}

/// The split of a version string into its numeric part and its extra data,
/// the extra data keeping its leading separator.
pub open spec fn spec_split_at_first_sep(s: Seq<u8>) -> (Seq<u8>, Option<Seq<u8>>) {
    match spec_find_sep(s) {
        Option::Some(i) => (s.take(i), Some(s.skip(i))),
        Option::None => (s, Option::<Seq<u8>>::None),
    }
}

/// How a version string reads: the numeric part before the first of `+`,
/// `-` or `_`, split at dots; a first segment of `1` selects the legacy
/// scheme.
pub open spec fn spec_parse(s: Seq<u8>) -> Option<JavaVersionView> {
    let (vnum, extra) = spec_split_at_first_sep(s);
    let parts = spec_split(vnum, DOT);
    if parts[0] == seq![DIGIT_ONE] {
        spec_parse_old(parts.drop_first(), extra)
    } else {
        spec_parse_new(parts, extra)
    }
}

/// How a pre-release mark prints: nothing at all for a plain release.
pub open spec fn spec_render_pre(p: PreReleaseView) -> Seq<u8> {
    match p {
        PreReleaseView::Other(tag) => seq![DASH] + tag,
        PreReleaseView::Numeric(n) => seq![DASH] + spec_dec_digits(n as nat),
        PreReleaseView::Ga => Seq::<u8>::empty(),
    }
}

/// How a legacy build number prints: `-b` and at least two digits.
pub open spec fn spec_render_old_build(b: Option<u32>) -> Seq<u8> {
    match b {
        Option::Some(n) => if n < 10 {
            seq![DASH, LOWER_B, DIGIT_ZERO] + spec_dec_digits(n as nat)
        } else {
            seq![DASH, LOWER_B] + spec_dec_digits(n as nat)
        },
        Option::None => Seq::<u8>::empty(),
    }
}

/// How a legacy version prints: `1.minor.patch`, an update when nonzero,
/// and the build.
pub open spec fn spec_render_old(o: OldSchemeView) -> Seq<u8> {
    seq![DIGIT_ONE, DOT] + spec_dec_digits(o.minor as nat) + seq![DOT] + spec_dec_digits(
        o.patch as nat,
    ) + (if o.update != 0 {
        seq![UNDERSCORE] + spec_dec_digits(o.update as nat)
    } else {
        Seq::<u8>::empty()
    }) + spec_render_old_build(o.build)
}

/// How trailing segments print: a dot before each.
pub open spec fn spec_render_trailing(t: Seq<u32>) -> Seq<u8>
    decreases t.len(),
{
    if t.len() == 0 {
        Seq::<u8>::empty()
    } else {
        seq![DOT] + spec_dec_digits(t[0] as nat) + spec_render_trailing(t.drop_first())
    }
}

/// How a current-scheme version prints: zero-valued interim, update and
/// patch segments are omitted from the right; pre-release, build and opt
/// data follow, opt introduced by a lone `+` when nothing else precedes it.
pub open spec fn spec_render_new(n: NewSchemeView) -> Seq<u8> {
    let has_trailing = n.trailing.len() > 0;
    let show_patch = n.patch != 0 || has_trailing;
    let show_update = n.update != 0 || show_patch;
    let show_interim = n.interim != 0 || show_update;
    spec_dec_digits(n.feature as nat) + (if show_interim {
        seq![DOT] + spec_dec_digits(n.interim as nat)
    } else {
        Seq::<u8>::empty()
    }) + (if show_update {
        seq![DOT] + spec_dec_digits(n.update as nat)
    } else {
        Seq::<u8>::empty()
    }) + (if show_patch {
        seq![DOT] + spec_dec_digits(n.patch as nat)
    } else {
        Seq::<u8>::empty()
    }) + spec_render_trailing(n.trailing) + spec_render_pre(n.pre_release) + (match n.build {
        Option::Some(b) => seq![PLUS] + spec_dec_digits(b as nat),
        Option::None => Seq::<u8>::empty(),
    }) + (match n.opt {
        Option::Some(o) => (if n.pre_release is Ga && n.build is None {
            seq![PLUS]
        } else {
            Seq::<u8>::empty()
        }) + seq![DASH] + o,
        Option::None => Seq::<u8>::empty(),
    })
}

/// How a version prints.
pub open spec fn spec_render(v: JavaVersionView) -> Seq<u8> {
    match v {
        JavaVersionView::Old(o) => spec_render_old(o),
        JavaVersionView::New(n) => spec_render_new(n),
    }
}

/// Well-formedness of a pre-release mark: a tag holds no byte that the
/// grammar treats as a separator within extra data, and does not itself
/// match the numeric rule. Parsing only ever produces such marks.
pub open spec fn spec_wf_pre(p: PreReleaseView) -> bool {
    match p {
        PreReleaseView::Other(tag) => {
            &&& forall|j: int| 0 <= j < tag.len() ==> (#[trigger] tag[j]) != DASH && tag[j] != PLUS
            &&& !spec_is_numeric_pre(tag)
        },
        PreReleaseView::Numeric(_) => true,
        PreReleaseView::Ga => true,
    }
}

/// Well-formedness of a version value: what parsing can produce and what
/// printing inverts. A current-scheme feature number is at least 2, a
/// trailing list does not end in zero, and the pre-release mark is
/// well-formed.
pub open spec fn spec_wf(v: JavaVersionView) -> bool {
    match v {
        JavaVersionView::Old(_) => true,
        JavaVersionView::New(n) => {
            &&& n.feature >= 2
            &&& (n.trailing.len() > 0 ==> n.trailing.last() != 0)
            &&& spec_wf_pre(n.pre_release)
        },
    }
}

/// The trailing numbers as printed dot segments.
pub open spec fn spec_trailing_segs(t: Seq<u32>) -> Seq<Seq<u8>>
    decreases t.len(),
{
    if t.len() == 0 {
        Seq::<Seq<u8>>::empty()
    } else {
        seq![spec_dec_digits(t[0] as nat)] + spec_trailing_segs(t.drop_first())
    }
}

/// Each trailing segment is the numeral of its number.
proof fn lemma_trailing_segs(t: Seq<u32>)
    ensures
        spec_trailing_segs(t).len() == t.len(),
        forall|i: int|
            0 <= i < t.len() ==> #[trigger] spec_trailing_segs(t)[i] == spec_dec_digits(
                t[i] as nat,
            ),
    decreases t.len(),
{
    if t.len() > 0 {
        lemma_trailing_segs(t.drop_first());
        assert(forall|i: int|
            1 <= i < t.len() ==> spec_trailing_segs(t)[i] == spec_trailing_segs(t.drop_first())[i
                - 1]);
        assert(forall|i: int| 1 <= i < t.len() ==> t.drop_first()[i - 1] == t[i]);
    }
}

/// Reading the trailing segments back gives the trailing numbers.
proof fn lemma_parse_trailing_segs(t: Seq<u32>)
    ensures
        spec_parse_u32_list(spec_trailing_segs(t)) == Some(t),
    decreases t.len(),
{
    let segs = spec_trailing_segs(t);
    if t.len() == 0 {
        assert(t =~= Seq::<u32>::empty());
        assert(segs =~= Seq::<Seq<u8>>::empty());
    } else {
        lemma_parse_trailing_segs(t.drop_first());
        lemma_dec_digits(t[0] as nat);
        assert(segs.drop_first() =~= spec_trailing_segs(t.drop_first()));
        assert(segs[0] == spec_dec_digits(t[0] as nat));
        assert(spec_parse_u32(segs[0]) == Some(t[0]));
        assert(seq![t[0]] + t.drop_first() =~= t);
    }
}

/// Joining trailing segments after a nonempty head prints them with a dot
/// before each.
proof fn lemma_join_trailing(head: Seq<Seq<u8>>, t: Seq<u32>)
    requires
        head.len() >= 1,
    ensures
        spec_join(head + spec_trailing_segs(t), DOT) =~= spec_join(head, DOT)
            + spec_render_trailing(t),
    decreases t.len(),
{
    if t.len() == 0 {
        assert(head + spec_trailing_segs(t) =~= head);
    } else {
        let d0 = spec_dec_digits(t[0] as nat);
        let h2 = head.push(d0);
        assert(head + spec_trailing_segs(t) =~= h2 + spec_trailing_segs(t.drop_first()));
        lemma_join_trailing(h2, t.drop_first());
        crate::text::lemma_join_push(head, d0, DOT);
        assert((spec_join(head, DOT) + seq![DOT] + d0) + spec_render_trailing(t.drop_first()) =~=
        spec_join(head, DOT) + (seq![DOT] + d0 + spec_render_trailing(t.drop_first())));
    }
}

/// Printed trailing segments hold no extra-data separator.
proof fn lemma_render_trailing_plain(t: Seq<u32>)
    ensures
        crate::text::no_extra_sep(spec_render_trailing(t)),
    decreases t.len(),
{
    if t.len() > 0 {
        let d0 = spec_dec_digits(t[0] as nat);
        lemma_dec_digits(t[0] as nat);
        crate::text::lemma_digits_plain(d0);
        lemma_render_trailing_plain(t.drop_first());
        assert(crate::text::no_extra_sep(seq![DOT]));
        crate::text::lemma_no_extra_sep_concat(seq![DOT], d0);
        crate::text::lemma_no_extra_sep_concat(seq![DOT] + d0, spec_render_trailing(t.drop_first()));
        assert(spec_render_trailing(t) =~= (seq![DOT] + d0) + spec_render_trailing(t.drop_first()));
    }
}

/// What a legacy version prints after its numeric part.
pub open spec fn spec_render_old_extra(o: OldSchemeView) -> Seq<u8> {
    (if o.update != 0 {
        seq![UNDERSCORE] + spec_dec_digits(o.update as nat)
    } else {
        Seq::<u8>::empty()
    }) + spec_render_old_build(o.build)
}

/// Reading a printed legacy build token back gives the build number.
proof fn lemma_parse_render_build(nb: u32)
    ensures
        spec_render_old_build(Some(nb)).len() >= 3,
        spec_render_old_build(Some(nb))[0] == DASH,
        spec_parse_old_build(spec_render_old_build(Some(nb)).drop_first()) == Some(nb),
{
    let d = spec_dec_digits(nb as nat);
    lemma_dec_digits(nb as nat);
    if nb < 10 {
        let tok = spec_render_old_build(Some(nb)).drop_first();
        assert(tok =~= seq![LOWER_B, DIGIT_ZERO] + d);
        assert(tok[0] == LOWER_B);
        assert(tok[1] == DIGIT_ZERO);
        assert(tok.skip(2) =~= d);
    } else {
        let tok = spec_render_old_build(Some(nb)).drop_first();
        assert(tok =~= seq![LOWER_B] + d);
        assert(tok[0] == LOWER_B);
        assert(tok.len() >= 2 && tok[1] == d[0]);
        assert(d[0] != DIGIT_ZERO);
        assert(tok.skip(1) =~= d);
    }
}

/// Reading printed legacy extra data back gives the update and build.
proof fn lemma_parse_render_old_extra(o: OldSchemeView)
    ensures
        ({
            let e = spec_render_old_extra(o);
            &&& (e.len() == 0 <==> (o.update == 0 && o.build is None))
            &&& (e.len() > 0 ==> is_extra_sep(e[0]) && spec_parse_old_extra(Some(e)) == Some(
                (o.update, o.build),
            ))
        }),
{
    let e = spec_render_old_extra(o);
    let du = spec_dec_digits(o.update as nat);
    lemma_dec_digits(o.update as nat);
    crate::text::lemma_digits_plain(du);
    match o.build {
        Option::Some(nb) => {
            lemma_parse_render_build(nb);
            let bt = spec_render_old_build(Some(nb));
            if o.update != 0 {
                assert(e =~= (seq![UNDERSCORE] + du) + bt);
                assert(e[0] == UNDERSCORE);
                assert(e.drop_first() =~= du + (seq![DASH] + bt.drop_first()));
                crate::text::lemma_find_concat(du, seq![DASH] + bt.drop_first(), DASH);
                crate::text::lemma_find_is(seq![DASH] + bt.drop_first(), DASH, 0);
                assert(spec_find(e.drop_first(), DASH) == Some(du.len() as int));
                assert(e.drop_first().take(du.len() as int) =~= du);
                assert(e.drop_first().skip(du.len() as int + 1) =~= bt.drop_first());
            } else {
                assert(e =~= bt);
                assert(e[0] == DASH);
                assert(!(e[0] == UNDERSCORE));
                assert(e.drop_first() =~= bt.drop_first());
            }
        },
        Option::None => {
            if o.update != 0 {
                assert(e =~= seq![UNDERSCORE] + du);
                assert(e[0] == UNDERSCORE);
                assert(e.drop_first() =~= du);
                crate::text::lemma_find_is_none(du, DASH);
            } else {
                assert(e =~= Seq::<u8>::empty());
            }
        },
    }
}

/// What a current-scheme version prints after its numeric part.
pub open spec fn spec_render_new_extra(n: NewSchemeView) -> Seq<u8> {
    spec_render_pre(n.pre_release) + (match n.build {
        Option::Some(b) => seq![PLUS] + spec_dec_digits(b as nat),
        Option::None => Seq::<u8>::empty(),
    }) + (match n.opt {
        Option::Some(o) => (if n.pre_release is Ga && n.build is None {
            seq![PLUS]
        } else {
            Seq::<u8>::empty()
        }) + seq![DASH] + o,
        Option::None => Seq::<u8>::empty(),
    })
}

/// Reading printed current-scheme extra data back gives the pre-release,
/// build and opt fields.
#[verifier::rlimit(100)]
proof fn lemma_parse_render_new_extra(n: NewSchemeView)
    requires
        spec_wf_pre(n.pre_release),
    ensures
        ({
            let e = spec_render_new_extra(n);
            &&& (e.len() == 0 <==> (n.pre_release is Ga && n.build is None && n.opt is None))
            &&& (e.len() > 0 ==> is_extra_sep(e[0]) && spec_parse_new_extra(Some(e)) == Some(
                (n.pre_release, n.build, n.opt),
            ))
        }),
{
    let e = spec_render_new_extra(n);
    let body: Seq<u8> = match n.pre_release {
        PreReleaseView::Other(tag) => tag,
        PreReleaseView::Numeric(m) => spec_dec_digits(m as nat),
        PreReleaseView::Ga => Seq::<u8>::empty(),
    };
    let bp: Seq<u8> = match n.build {
        Option::Some(b) => seq![PLUS] + spec_dec_digits(b as nat),
        Option::None => Seq::<u8>::empty(),
    };
    match n.pre_release {
        PreReleaseView::Ga => {
            match (n.build, n.opt) {
                (Option::None, Option::None) => {
                    assert(e =~= Seq::<u8>::empty());
                },
                (Option::None, Option::Some(o)) => {
                    assert(e =~= seq![PLUS, DASH] + o);
                    assert(e[0] == PLUS && e[1] == DASH);
                    assert(e.skip(2) =~= o);
                },
                (Option::Some(b), opt) => {
                    let db = spec_dec_digits(b as nat);
                    lemma_dec_digits(b as nat);
                    crate::text::lemma_digits_plain(db);
                    match opt {
                        Option::Some(o) => {
                            assert(e =~= seq![PLUS] + db + (seq![DASH] + o));
                            assert(e[0] == PLUS && e[1] == db[0] && e[1] != DASH);
                            assert(e.drop_first() =~= db + (seq![DASH] + o));
                            crate::text::lemma_find_concat(db, seq![DASH] + o, DASH);
                            crate::text::lemma_find_is(seq![DASH] + o, DASH, 0);
                            assert(spec_find(e.drop_first(), DASH) == Some(db.len() as int));
                            assert(e.drop_first().take(db.len() as int) =~= db);
                            assert(e.drop_first().skip(db.len() as int + 1) =~= o);
                        },
                        Option::None => {
                            assert(e =~= seq![PLUS] + db);
                            assert(e[0] == PLUS && e[1] == db[0] && e[1] != DASH);
                            assert(e.drop_first() =~= db);
                            crate::text::lemma_find_is_none(db, DASH);
                        },
                    }
                },
            }
        },
        _ => {
            // A tag or numeric pre-release: the extra data starts with a
            // dash, and the body holds neither dash nor plus.
            match n.pre_release {
                PreReleaseView::Numeric(m) => {
                    lemma_dec_digits(m as nat);
                    crate::text::lemma_digits_plain(body);
                },
                _ => {},
            }
            let pmb = body + bp;
            assert(forall|j: int| 0 <= j < body.len() ==> body[j] != DASH && body[j] != PLUS);
            match n.build {
                Option::Some(b) => {
                    lemma_dec_digits(b as nat);
                    crate::text::lemma_digits_plain(spec_dec_digits(b as nat));
                    assert(forall|j: int| 0 <= j < bp.len() ==> bp[j] != DASH);
                },
                Option::None => {
                    assert(bp =~= Seq::<u8>::empty());
                },
            }
            assert(forall|j: int| 0 <= j < pmb.len() ==> pmb[j] != DASH);
            match n.opt {
                Option::Some(o) => {
                    assert(e =~= seq![DASH] + (pmb + (seq![DASH] + o)));
                    assert(e[0] == DASH && e[0] != PLUS);
                    assert(e.drop_first() =~= pmb + (seq![DASH] + o));
                    crate::text::lemma_find_concat(pmb, seq![DASH] + o, DASH);
                    crate::text::lemma_find_is(seq![DASH] + o, DASH, 0);
                    assert(spec_find(e.drop_first(), DASH) == Some(pmb.len() as int));
                    assert(e.drop_first().take(pmb.len() as int) =~= pmb);
                    assert(e.drop_first().skip(pmb.len() as int + 1) =~= o);
                },
                Option::None => {
                    assert(e =~= seq![DASH] + pmb);
                    assert(e[0] == DASH && e[0] != PLUS);
                    assert(e.drop_first() =~= pmb);
                    crate::text::lemma_find_is_none(pmb, DASH);
                },
            }
            // Within the body-and-build part, the first plus starts the build.
            match n.build {
                Option::Some(b) => {
                    let db = spec_dec_digits(b as nat);
                    crate::text::lemma_find_concat(body, seq![PLUS] + db, PLUS);
                    crate::text::lemma_find_is(seq![PLUS] + db, PLUS, 0);
                    assert(spec_find(pmb, PLUS) == Some(body.len() as int));
                    assert(pmb.take(body.len() as int) =~= body);
                    assert(pmb.skip(body.len() as int + 1) =~= db);
                },
                Option::None => {
                    crate::text::lemma_find_is_none(pmb, PLUS);
                    assert(pmb =~= body);
                },
            }
            // The body reads back as the pre-release mark it printed.
            match n.pre_release {
                PreReleaseView::Other(tag) => {
                    assert(!spec_is_numeric_pre(tag));
                    assert(spec_parse_pre(tag) == PreReleaseView::Other(tag));
                },
                PreReleaseView::Numeric(m) => {
                    lemma_dec_digits(m as nat);
                    if m == 0 {
                        assert(body == seq![DIGIT_ZERO]);
                    } else {
                        assert(body[0] != DIGIT_ZERO);
                    }
                    assert(spec_is_numeric_pre(body));
                    assert(spec_parse_pre(body) == PreReleaseView::Numeric(m));
                },
                PreReleaseView::Ga => {},
            }
        },
    }
}

/// A printed legacy version reads back as the value it printed.
#[verifier::rlimit(100)]
proof fn lemma_parse_render_old(o: OldSchemeView)
    ensures
        spec_parse(spec_render_old(o)) == Some(JavaVersionView::Old(o)),
{
    let m = spec_dec_digits(o.minor as nat);
    let p = spec_dec_digits(o.patch as nat);
    lemma_dec_digits(o.minor as nat);
    lemma_dec_digits(o.patch as nat);
    crate::text::lemma_digits_plain(m);
    crate::text::lemma_digits_plain(p);
    let vnum = seq![DIGIT_ONE, DOT] + m + seq![DOT] + p;
    let e = spec_render_old_extra(o);
    let s = spec_render_old(o);
    assert(s =~= vnum + e);
    assert(crate::text::no_extra_sep(seq![DIGIT_ONE, DOT]));
    crate::text::lemma_no_extra_sep_concat(seq![DIGIT_ONE, DOT], m);
    assert(crate::text::no_extra_sep(seq![DOT]));
    crate::text::lemma_no_extra_sep_concat(seq![DIGIT_ONE, DOT] + m, seq![DOT]);
    crate::text::lemma_no_extra_sep_concat(seq![DIGIT_ONE, DOT] + m + seq![DOT], p);
    assert(crate::text::no_extra_sep(vnum));
    lemma_parse_render_old_extra(o);
    if e.len() == 0 {
        assert(s =~= vnum);
        crate::text::lemma_find_sep_is_none(s);
    } else {
        assert(forall|j: int| 0 <= j < vnum.len() ==> s[j] == vnum[j]);
        assert(s[vnum.len() as int] == e[0]);
        crate::text::lemma_find_sep_is(s, vnum.len() as int);
        assert(s.take(vnum.len() as int) =~= vnum);
        assert(s.skip(vnum.len() as int) =~= e);
    }
    let segs = seq![seq![DIGIT_ONE], m, p];
    assert(spec_join(segs, DOT) =~= vnum) by {
        assert(segs.drop_first() =~= seq![m, p]);
        assert(seq![m, p].drop_first() =~= seq![p]);
        assert(spec_join(seq![p], DOT) == p);
        assert(spec_join(seq![m, p], DOT) =~= m + seq![DOT] + p);
        assert(spec_join(segs, DOT) =~= seq![DIGIT_ONE] + seq![DOT] + (m + seq![DOT] + p));
    }
    assert forall|i: int| 0 <= i < segs.len() implies all_digits(#[trigger] segs[i]) by {
        if i == 0 {
            assert(all_digits(seq![DIGIT_ONE]));
        } else if i == 1 {
            assert(segs[i] == m);
        } else {
            assert(segs[i] == p);
        }
    }
    assert(forall|i: int|
        0 <= i < segs.len() ==> forall|j: int|
            0 <= j < (#[trigger] segs[i]).len() ==> segs[i][j] != DOT);
    crate::text::lemma_split_join(segs, DOT);
    assert(spec_split(vnum, DOT) =~= segs);
    assert(segs[0] == seq![DIGIT_ONE]);
    assert(segs.drop_first() =~= seq![m, p]);
    assert(spec_parse_u32(m) == Some(o.minor));
    assert(spec_parse_u32(p) == Some(o.patch));
    assert(spec_parse_old_extra(
        if e.len() == 0 {
            Option::<Seq<u8>>::None
        } else {
            Some(e)
        },
    ) == Some((o.update, o.build)));
    assert(OldSchemeView { minor: o.minor, patch: o.patch, update: o.update, build: o.build } =~= o);
}

/// The dot segments that a current-scheme version prints before its
/// trailing segments.
pub open spec fn spec_new_head(n: NewSchemeView) -> Seq<Seq<u8>> {
    let df = spec_dec_digits(n.feature as nat);
    let di = spec_dec_digits(n.interim as nat);
    let du = spec_dec_digits(n.update as nat);
    let dp = spec_dec_digits(n.patch as nat);
    let show_patch = n.patch != 0 || n.trailing.len() > 0;
    let show_update = n.update != 0 || show_patch;
    let show_interim = n.interim != 0 || show_update;
    if show_patch {
        seq![df, di, du, dp]
    } else if show_update {
        seq![df, di, du]
    } else if show_interim {
        seq![df, di]
    } else {
        seq![df]
    }
}

/// What the head segments print as.
pub open spec fn spec_new_hr(n: NewSchemeView) -> Seq<u8> {
    let df = spec_dec_digits(n.feature as nat);
    let di = spec_dec_digits(n.interim as nat);
    let du = spec_dec_digits(n.update as nat);
    let dp = spec_dec_digits(n.patch as nat);
    let show_patch = n.patch != 0 || n.trailing.len() > 0;
    let show_update = n.update != 0 || show_patch;
    let show_interim = n.interim != 0 || show_update;
    df + (if show_interim {
        seq![DOT] + di
    } else {
        Seq::<u8>::empty()
    }) + (if show_update {
        seq![DOT] + du
    } else {
        Seq::<u8>::empty()
    }) + (if show_patch {
        seq![DOT] + dp
    } else {
        Seq::<u8>::empty()
    })
}

/// Joining the head segments prints them with dots between.
proof fn lemma_new_head_join(n: NewSchemeView)
    ensures
        spec_join(spec_new_head(n), DOT) =~= spec_new_hr(n),
{
    let df = spec_dec_digits(n.feature as nat);
    let di = spec_dec_digits(n.interim as nat);
    let du = spec_dec_digits(n.update as nat);
    let dp = spec_dec_digits(n.patch as nat);
    let show_patch = n.patch != 0 || n.trailing.len() > 0;
    let show_update = n.update != 0 || show_patch;
    let show_interim = n.interim != 0 || show_update;
    let head = spec_new_head(n);
    if show_patch {
        assert(head.drop_first() =~= seq![di, du, dp]);
        assert(seq![di, du, dp].drop_first() =~= seq![du, dp]);
        assert(seq![du, dp].drop_first() =~= seq![dp]);
        assert(spec_join(seq![dp], DOT) == dp);
        assert(spec_join(seq![du, dp], DOT) =~= du + seq![DOT] + dp);
        assert(spec_join(seq![di, du, dp], DOT) =~= di + seq![DOT] + (du + seq![DOT] + dp));
        assert(spec_join(head, DOT) =~= df + seq![DOT] + (di + seq![DOT] + (du + seq![DOT] + dp)));
    } else if show_update {
        assert(head.drop_first() =~= seq![di, du]);
        assert(seq![di, du].drop_first() =~= seq![du]);
        assert(spec_join(seq![du], DOT) == du);
        assert(spec_join(seq![di, du], DOT) =~= di + seq![DOT] + du);
        assert(spec_join(head, DOT) =~= df + seq![DOT] + (di + seq![DOT] + du));
    } else if show_interim {
        assert(head.drop_first() =~= seq![di]);
        assert(spec_join(seq![di], DOT) == di);
        assert(spec_join(head, DOT) =~= df + seq![DOT] + di);
    } else {
        assert(spec_join(head, DOT) == df);
    }
}

/// The printed numeric part of a current-scheme version: a join of digit
/// segments, free of separators, that splits back into the segments.
proof fn lemma_new_vnum(n: NewSchemeView)
    ensures
        ({
            let segs = spec_new_head(n) + spec_trailing_segs(n.trailing);
            let vnum = spec_join(segs, DOT);
            &&& vnum =~= spec_new_hr(n) + spec_render_trailing(n.trailing)
            &&& crate::text::no_extra_sep(vnum)
            &&& forall|i: int| 0 <= i < segs.len() ==> all_digits(#[trigger] segs[i])
            &&& spec_split(vnum, DOT) =~= segs
        }),
{
    let df = spec_dec_digits(n.feature as nat);
    let di = spec_dec_digits(n.interim as nat);
    let du = spec_dec_digits(n.update as nat);
    let dp = spec_dec_digits(n.patch as nat);
    lemma_dec_digits(n.feature as nat);
    lemma_dec_digits(n.interim as nat);
    lemma_dec_digits(n.update as nat);
    lemma_dec_digits(n.patch as nat);
    crate::text::lemma_digits_plain(df);
    crate::text::lemma_digits_plain(di);
    crate::text::lemma_digits_plain(du);
    crate::text::lemma_digits_plain(dp);
    let t = n.trailing;
    let show_patch = n.patch != 0 || t.len() > 0;
    let show_update = n.update != 0 || show_patch;
    let show_interim = n.interim != 0 || show_update;
    let head = spec_new_head(n);
    let hr = spec_new_hr(n);
    let segs = head + spec_trailing_segs(t);
    lemma_new_head_join(n);
    lemma_join_trailing(head, t);
    lemma_trailing_segs(t);
    let vnum = spec_join(segs, DOT);
    assert(vnum =~= hr + spec_render_trailing(t));
    // free of separators
    let c1: Seq<u8> = if show_interim {
        seq![DOT] + di
    } else {
        Seq::<u8>::empty()
    };
    let c2: Seq<u8> = if show_update {
        seq![DOT] + du
    } else {
        Seq::<u8>::empty()
    };
    let c3: Seq<u8> = if show_patch {
        seq![DOT] + dp
    } else {
        Seq::<u8>::empty()
    };
    assert(crate::text::no_extra_sep(seq![DOT]));
    if show_interim {
        crate::text::lemma_no_extra_sep_concat(seq![DOT], di);
    }
    if show_update {
        crate::text::lemma_no_extra_sep_concat(seq![DOT], du);
    }
    if show_patch {
        crate::text::lemma_no_extra_sep_concat(seq![DOT], dp);
    }
    assert(crate::text::no_extra_sep(Seq::<u8>::empty()));
    crate::text::lemma_no_extra_sep_concat(df, c1);
    crate::text::lemma_no_extra_sep_concat(df + c1, c2);
    crate::text::lemma_no_extra_sep_concat(df + c1 + c2, c3);
    assert(hr =~= df + c1 + c2 + c3);
    lemma_render_trailing_plain(t);
    crate::text::lemma_no_extra_sep_concat(hr, spec_render_trailing(t));
    assert(crate::text::no_extra_sep(vnum));
    // every segment is a numeral, hence free of dots
    assert(forall|i: int| 0 <= i < head.len() ==> all_digits(#[trigger] head[i]));
    assert forall|k: int| 0 <= k < t.len() implies all_digits(
        #[trigger] spec_trailing_segs(t)[k],
    ) by {
        lemma_dec_digits(t[k] as nat);
    }
    assert(forall|i: int| 0 <= i < segs.len() ==> all_digits(#[trigger] segs[i])) by {
        assert(forall|i: int| 0 <= i < head.len() ==> segs[i] == head[i]);
        assert(forall|i: int|
            head.len() <= i < segs.len() ==> segs[i] == spec_trailing_segs(t)[i - head.len()]);
    }
    assert(forall|i: int|
        0 <= i < segs.len() ==> forall|j: int|
            0 <= j < (#[trigger] segs[i]).len() ==> segs[i][j] != DOT);
    crate::text::lemma_split_join(segs, DOT);
}

/// The printed segments and extra data of a current-scheme version read
/// back as its fields.
#[verifier::rlimit(100)]
proof fn lemma_new_segments_parse(n: NewSchemeView)
    requires
        spec_wf(JavaVersionView::New(n)),
    ensures
        ({
            let segs = spec_new_head(n) + spec_trailing_segs(n.trailing);
            let e = spec_render_new_extra(n);
            let extra = if e.len() == 0 {
                Option::<Seq<u8>>::None
            } else {
                Some(e)
            };
            spec_parse_new(segs, extra) == Some(JavaVersionView::New(n))
        }),
{
    let df = spec_dec_digits(n.feature as nat);
    let di = spec_dec_digits(n.interim as nat);
    let du = spec_dec_digits(n.update as nat);
    let dp = spec_dec_digits(n.patch as nat);
    lemma_dec_digits(n.feature as nat);
    lemma_dec_digits(n.interim as nat);
    lemma_dec_digits(n.update as nat);
    lemma_dec_digits(n.patch as nat);
    let t = n.trailing;
    let show_patch = n.patch != 0 || t.len() > 0;
    let show_update = n.update != 0 || show_patch;
    let show_interim = n.interim != 0 || show_update;
    let head = spec_new_head(n);
    let segs = head + spec_trailing_segs(t);
    lemma_trailing_segs(t);
    assert(forall|i: int| 0 <= i < head.len() ==> segs[i] == head[i]);
    assert(forall|i: int|
        head.len() <= i < segs.len() ==> segs[i] == spec_trailing_segs(t)[i - head.len()]);
    assert(segs[0] == df);
    assert(spec_parse_u32(df) == Some(n.feature));
    assert(df[0] != DIGIT_ZERO);
    let rest = segs.drop_first();
    assert(forall|i: int| 0 <= i < rest.len() ==> rest[i] == segs[i + 1]);
    // the last segment is not the literal `0`
    if rest.len() > 0 {
        assert(rest.last() == segs.last());
        if t.len() > 0 {
            assert(segs.last() == spec_trailing_segs(t)[t.len() - 1]);
            assert(segs.last() == spec_dec_digits(t.last() as nat));
            lemma_dec_digits(t.last() as nat);
            assert(t.last() != 0);
            if segs.last() == seq![DIGIT_ZERO] {
                assert(segs.last()[0] == DIGIT_ZERO);
                assert(false);
            }
        } else {
            if show_patch {
                assert(segs.last() == dp);
                assert(n.patch != 0);
            } else if show_update {
                assert(segs.last() == du);
                assert(n.update != 0);
            } else {
                assert(segs.last() == di);
                assert(n.interim != 0);
            }
            if segs.last() == seq![DIGIT_ZERO] {
                assert(segs.last()[0] == DIGIT_ZERO);
                assert(false);
            }
        }
    }
    // the positional segments read back as the fields
    if show_patch {
        assert(rest[0] == di && rest[1] == du && rest[2] == dp);
        assert(rest.len() == 3 + t.len());
        if t.len() > 0 {
            assert(rest.skip(3) =~= spec_trailing_segs(t));
            lemma_parse_trailing_segs(t);
        } else {
            assert(t =~= Seq::<u32>::empty());
        }
    } else if show_update {
        assert(rest[0] == di && rest[1] == du);
        assert(rest.len() == 2);
        assert(n.patch == 0 && t =~= Seq::<u32>::empty());
    } else if show_interim {
        assert(rest[0] == di);
        assert(rest.len() == 1);
        assert(n.update == 0 && n.patch == 0 && t =~= Seq::<u32>::empty());
    } else {
        assert(rest.len() == 0);
        assert(n.interim == 0 && n.update == 0 && n.patch == 0 && t =~= Seq::<u32>::empty());
    }
    assert(spec_parse_u32(di) == Some(n.interim));
    assert(spec_parse_u32(du) == Some(n.update));
    assert(spec_parse_u32(dp) == Some(n.patch));
    lemma_parse_render_new_extra(n);
    let e = spec_render_new_extra(n);
    assert(spec_parse_new_extra(
        if e.len() == 0 {
            Option::<Seq<u8>>::None
        } else {
            Some(e)
        },
    ) == Some((n.pre_release, n.build, n.opt)));
    assert(NewSchemeView {
        feature: n.feature,
        interim: n.interim,
        update: n.update,
        patch: n.patch,
        trailing: n.trailing,
        pre_release: n.pre_release,
        build: n.build,
        opt: n.opt,
    } =~= n);
}

/// A printed current-scheme version reads back as the value it printed.
#[verifier::rlimit(100)]
proof fn lemma_parse_render_new(n: NewSchemeView)
    requires
        spec_wf(JavaVersionView::New(n)),
    ensures
        spec_parse(spec_render_new(n)) == Some(JavaVersionView::New(n)),
{
    let df = spec_dec_digits(n.feature as nat);
    lemma_dec_digits(n.feature as nat);
    let t = n.trailing;
    let head = spec_new_head(n);
    let segs = head + spec_trailing_segs(t);
    lemma_new_vnum(n);
    let vnum = spec_join(segs, DOT);
    let e = spec_render_new_extra(n);
    let s = spec_render_new(n);
    assert(s =~= vnum + e);
    lemma_parse_render_new_extra(n);
    if e.len() == 0 {
        assert(s =~= vnum);
        crate::text::lemma_find_sep_is_none(s);
    } else {
        assert(forall|j: int| 0 <= j < vnum.len() ==> s[j] == vnum[j]);
        assert(s[vnum.len() as int] == e[0]);
        crate::text::lemma_find_sep_is(s, vnum.len() as int);
        assert(s.take(vnum.len() as int) =~= vnum);
        assert(s.skip(vnum.len() as int) =~= e);
    }
    // the feature segment is not the literal `1`
    lemma_trailing_segs(t);
    assert(segs[0] == df);
    if df == seq![DIGIT_ONE] {
        assert(df[0] == DIGIT_ONE);
        assert(df.len() == 1);
        assert(n.feature < 10);
        assert(false);
    }
    lemma_new_segments_parse(n);
}

/// Round trip: a well-formed version value, printed and read back, is
/// itself. Every value parsing produces is well-formed in this sense, so
/// printing is the exact inverse of parsing on printable values.
pub proof fn lemma_round_trip(v: JavaVersionView)
    requires
        spec_wf(v),
    ensures
        spec_parse(spec_render(v)) == Some(v),
{
    match v {
        JavaVersionView::Old(o) => lemma_parse_render_old(o),
        JavaVersionView::New(n) => lemma_parse_render_new(n),
    }
}

/// A parsed pre-release mark is well-formed: a tag taken from a split
/// holds no separator, and the numeric rule already claimed everything it
/// matches.
proof fn lemma_parse_pre_wf(body: Seq<u8>)
    requires
        forall|j: int| 0 <= j < body.len() ==> (#[trigger] body[j]) != DASH && body[j] != PLUS,
    ensures
        spec_wf_pre(spec_parse_pre(body)),
{
}

/// What the extra-data grammar produces is well-formed.
proof fn lemma_parse_new_extra_wf(extra: Option<Seq<u8>>)
    ensures
        match spec_parse_new_extra(extra) {
            Option::Some(pbo) => spec_wf_pre(pbo.0),
            Option::None => true,
        },
{
    match extra {
        Option::None => {},
        Option::Some(e) => {
            if e.len() >= 2 && e[0] == PLUS && e[1] == DASH {
            } else if e.len() > 0 && e[0] == PLUS {
            } else if e.len() > 0 && e[0] == DASH {
                let (pre_maybe_build, _) = spec_split_optional(e.drop_first(), DASH);
                let (pre, _) = spec_split_optional(pre_maybe_build, PLUS);
                crate::text::lemma_split_optional_props(e.drop_first(), DASH);
                crate::text::lemma_split_optional_props(pre_maybe_build, PLUS);
                assert(forall|j: int|
                    0 <= j < pre.len() ==> (#[trigger] pre[j]) != DASH && pre[j] != PLUS);
                lemma_parse_pre_wf(pre);
            } else {
            }
        },
    }
}

/// Every value parsing produces is well-formed, except that a non-canonical
/// numeral in the input can leave a zero at the end of the trailing
/// segments; a value without that flaw prints back to a string that parses
/// to it.
pub proof fn lemma_parse_gives_wf(s: Seq<u8>, v: JavaVersionView)
    requires
        spec_parse(s) == Some(v),
    ensures
        match v {
            JavaVersionView::Old(_) => spec_wf(v),
            JavaVersionView::New(n) => (n.trailing.len() == 0 || n.trailing.last() != 0)
                ==> spec_wf(v),
        },
{
    let (vnum, extra) = spec_split_at_first_sep(s);
    let parts = spec_split(vnum, DOT);
    if parts[0] == seq![DIGIT_ONE] {
    } else {
        let first = parts[0];
        if first.len() > 0 && all_digits(first) && first[0] != DIGIT_ZERO && dec_value(first)
            <= u32::MAX {
            // the feature number is at least 2: a one-digit numeral other
            // than the literal 1 and the literal 0, or a numeral of ten or
            // more
            crate::text::lemma_dec_value_no_leading_zero(first);
            if first.len() == 1 {
                assert(first.drop_last() =~= Seq::<u8>::empty());
                assert(first.last() == first[0]);
                if first[0] == DIGIT_ONE {
                    assert(first =~= seq![DIGIT_ONE]);
                }
                assert(dec_value(first) >= 2);
            }
            lemma_parse_new_extra_wf(extra);
        }
    }
}

/// A parsed value whose trailing segments do not end in zero prints back
/// to a string that parses to it again.
pub proof fn lemma_parse_round_trip(s: Seq<u8>, v: JavaVersionView)
    requires
        spec_parse(s) == Some(v),
        match v {
            JavaVersionView::New(n) => n.trailing.len() == 0 || n.trailing.last() != 0,
            JavaVersionView::Old(_) => true,
        },
    ensures
        spec_parse(spec_render(v)) == Some(v),
{
    lemma_parse_gives_wf(s, v);
    lemma_round_trip(v);
}

/// Round trip over strings: a string printed from some well-formed value
/// parses, and printing the parsed value gives the same string back.
pub proof fn lemma_round_trip_string(s: Seq<u8>)
    requires
        exists|v: JavaVersionView| spec_wf(v) && s == spec_render(v),
    ensures
        match spec_parse(s) {
            Option::Some(v) => spec_render(v) == s,
            Option::None => false,
        },
{
    let v = choose|v: JavaVersionView| spec_wf(v) && s == spec_render(v);
    lemma_round_trip(v);
}

/// Print trailing segments, as executable code.
fn render_trailing(t: &[u32]) -> (r: Vec<u8>)
    ensures
        r@ =~= spec_render_trailing(t@),
{
    let mut out: Vec<u8> = Vec::new();
    let mut i: usize = 0;
    proof {
        assert(t@.skip(0) =~= t@);
    }
    while i < t.len()
        invariant
            0 <= i <= t@.len(),
            spec_render_trailing(t@) =~= out@ + spec_render_trailing(t@.skip(i as int)),
        decreases t@.len() - i,
    {
        let ghost pre_out = out@;
        out.push(DOT);
        let seg = render_u32(t[i]);
        push_all(&mut out, seg.as_slice());
        proof {
            assert(t@.skip(i as int).drop_first() =~= t@.skip(i as int + 1));
            assert(t@.skip(i as int)[0] == t@[i as int]);
            assert(out@ =~= pre_out + seq![DOT] + spec_dec_digits(t@[i as int] as nat));
            assert(pre_out + (seq![DOT] + spec_dec_digits(t@[i as int] as nat)
                + spec_render_trailing(t@.skip(i as int + 1))) =~= out@ + spec_render_trailing(
                t@.skip(i as int + 1),
            ));
        }
        i = i + 1;
    }
    proof {
        assert(t@.skip(t@.len() as int) =~= Seq::<u32>::empty());
    }
    out
}

/// Print a pre-release mark, as executable code.
fn render_pre(p: &PreRelease) -> (r: Vec<u8>)
    ensures
        r@ =~= spec_render_pre(p@),
{
    let mut out: Vec<u8> = Vec::new();
    match p {
        PreRelease::Other(tag) => {
            out.push(DASH);
            push_all(&mut out, tag.as_slice());
        },
        PreRelease::Numeric(n) => {
            out.push(DASH);
            let digits = render_u32(*n);
            push_all(&mut out, digits.as_slice());
        },
        PreRelease::Ga => {},
    }
    out
}

/// The extra data of a version string, seen as a ghost value.
pub open spec fn spec_extra_view(e: Option<&[u8]>) -> Option<Seq<u8>> {
    match e {
        Option::Some(x) => Some(x@),
        Option::None => None,
    }
}

/// Read a pre-release token, as executable code.
pub(crate) fn parse_pre(s: &[u8]) -> (r: PreRelease)
    ensures
        r@ == spec_parse_pre(s@),
{
    let digits = crate::text::is_all_digits(s);
    let no_leading_zero = s.len() == 1 && s[0] == DIGIT_ZERO || s.len() > 0 && s[0] != DIGIT_ZERO;
    proof {
        if s@.len() == 1 && s@[0] == DIGIT_ZERO {
            assert(s@ =~= seq![DIGIT_ZERO]);
        }
        if s@ == seq![DIGIT_ZERO] {
            assert(s@.len() == 1 && s@[0] == DIGIT_ZERO);
        }
    }
    if s.len() > 0 && digits && no_leading_zero {
        match parse_u32(s) {
            Option::Some(n) => PreRelease::Numeric(n),
            Option::None => PreRelease::Other(vstd::slice::slice_to_vec(s)),
        }
    } else {
        PreRelease::Other(vstd::slice::slice_to_vec(s))
    }
}

/// Read a legacy build token, as executable code.
fn parse_old_build(b: &[u8]) -> (r: Option<u32>)
    ensures
        r == spec_parse_old_build(b@),
{
    let n = b.len();
    if n == 0 || b[0] != LOWER_B {
        return None;
    }
    let numeral = if n >= 2 && b[1] == DIGIT_ZERO {
        vstd::slice::slice_subrange(b, 2, n)
    } else {
        vstd::slice::slice_subrange(b, 1, n)
    };
    proof {
        assert(b@.subrange(1, n as int) =~= b@.skip(1));
        if n >= 2 && b@[1] == DIGIT_ZERO {
            assert(b@.subrange(2, n as int) =~= b@.skip(2));
        }
    }
    parse_u32(numeral)
}

/// Read legacy extra data, as executable code.
fn parse_old_extra(extra: Option<&[u8]>) -> (r: Result<
    (u32, Option<u32>),
    JavaVersionParsingError,
>)
    ensures
        match r {
            Ok(p) => spec_parse_old_extra(spec_extra_view(extra)) == Some(p),
            Err(_) => spec_parse_old_extra(spec_extra_view(extra)) is None,
        },
{
    let e = match extra {
        Option::Some(e) => e,
        Option::None => {
            return Ok((0, None));
        },
    };
    let n = e.len();
    if n > 0 && e[0] == UNDERSCORE {
        let rest = vstd::slice::slice_subrange(e, 1, n);
        proof {
            assert(rest@ =~= e@.drop_first());
        }
        let (update, build) = rest.split_optional(DASH);
        let u = match parse_u32(update.as_slice()) {
            Option::Some(u) => u,
            Option::None => {
                return Err(JavaVersionParsingError);
            },
        };
        match build {
            Option::Some(b) => match parse_old_build(b.as_slice()) {
                Option::Some(bn) => Ok((u, Some(bn))),
                Option::None => Err(JavaVersionParsingError),
            },
            Option::None => Ok((u, None)),
        }
    } else if n > 0 && e[0] == DASH {
        let rest = vstd::slice::slice_subrange(e, 1, n);
        proof {
            assert(rest@ =~= e@.drop_first());
        }
        match parse_old_build(rest) {
            Option::Some(bn) => Ok((0, Some(bn))),
            Option::None => Err(JavaVersionParsingError),
        }
    } else {
        Err(JavaVersionParsingError)
    }
}

/// Read current-scheme extra data, as executable code.
fn parse_new_extra(extra: Option<&[u8]>) -> (r: Result<
    (PreRelease, Option<u32>, Option<Vec<u8>>),
    JavaVersionParsingError,
>)
    ensures
        match r {
            Ok(t) => spec_parse_new_extra(spec_extra_view(extra)) == Some(
                (
                    t.0@,
                    t.1,
                    match t.2 {
                        Option::Some(o) => Some(o@),
                        Option::None => None::<Seq<u8>>,
                    },
                ),
            ),
            Err(_) => spec_parse_new_extra(spec_extra_view(extra)) is None,
        },
{
    let e = match extra {
        Option::Some(e) => e,
        Option::None => {
            return Ok((PreRelease::Ga, None, None));
        },
    };
    let n = e.len();
    if n >= 2 && e[0] == PLUS && e[1] == DASH {
        let opt = vstd::slice::slice_to_vec(vstd::slice::slice_subrange(e, 2, n));
        proof {
            assert(opt@ =~= e@.skip(2));
        }
        Ok((PreRelease::Ga, None, Some(opt)))
    } else if n > 0 && e[0] == PLUS {
        let rest = vstd::slice::slice_subrange(e, 1, n);
        proof {
            assert(rest@ =~= e@.drop_first());
        }
        let (build, opt) = rest.split_optional(DASH);
        match parse_u32(build.as_slice()) {
            Option::Some(b) => Ok((PreRelease::Ga, Some(b), opt)),
            Option::None => Err(JavaVersionParsingError),
        }
    } else if n > 0 && e[0] == DASH {
        let rest = vstd::slice::slice_subrange(e, 1, n);
        proof {
            assert(rest@ =~= e@.drop_first());
        }
        let (pre_maybe_build, opt) = rest.split_optional(DASH);
        let (pre, build) = pre_maybe_build.as_slice().split_optional(PLUS);
        let pre_mark = parse_pre(pre.as_slice());
        match build {
            Option::Some(b) => match parse_u32(b.as_slice()) {
                Option::Some(bn) => Ok((pre_mark, Some(bn), opt)),
                Option::None => Err(JavaVersionParsingError),
            },
            Option::None => Ok((pre_mark, None, opt)),
        }
    } else {
        Err(JavaVersionParsingError)
    }
}

/// Read every dot segment from `from` on as a number, as executable code.
fn parse_u32_list(parts: &Vec<Vec<u8>>, from: usize) -> (r: Result<
    Vec<u32>,
    JavaVersionParsingError,
>)
    requires
        from <= parts@.len(),
    ensures
        match r {
            Ok(v) => spec_parse_u32_list(parts.deep_view().skip(from as int)) == Some(v@),
            Err(_) => spec_parse_u32_list(parts.deep_view().skip(from as int)) is None,
        },
{
    let ghost dv = parts.deep_view();
    let mut out: Vec<u32> = Vec::new();
    let mut i: usize = from;
    while i < parts.len()
        invariant
            from <= i <= parts@.len(),
            dv == parts.deep_view(),
            dv.len() == parts@.len(),
            spec_parse_u32_list(dv.skip(from as int)) == match spec_parse_u32_list(
                dv.skip(i as int),
            ) {
                Option::Some(tail) => Some(out@ + tail),
                Option::None => None::<Seq<u32>>,
            },
        decreases parts@.len() - i,
    {
        proof {
            assert(dv.skip(i as int).drop_first() =~= dv.skip(i as int + 1));
            assert(dv.skip(i as int)[0] == dv[i as int]);
            assert(dv[i as int] == parts@[i as int].deep_view());
            assert(parts@[i as int].deep_view() =~= parts@[i as int]@);
        }
        let seg = match parse_u32(parts[i].as_slice()) {
            Option::Some(n) => n,
            Option::None => {
                return Err(JavaVersionParsingError);
            },
        };
        let ghost pre_out = out@;
        out.push(seg);
        proof {
            assert(forall|tail: Seq<u32>| pre_out + (seq![seg] + tail) =~= out@ + tail);
        }
        i = i + 1;
    }
    proof {
        assert(dv.skip(parts@.len() as int) =~= Seq::<Seq<u8>>::empty());
        assert(out@ + Seq::<u32>::empty() =~= out@);
    }
    Ok(out)
}

/// Read a current-scheme version from its dot segments and extra data, as
/// executable code.
fn parse_new_scheme(parts: &Vec<Vec<u8>>, extra: Option<&[u8]>) -> (r: Result<
    JavaVersion,
    JavaVersionParsingError,
>)
    requires
        parts@.len() >= 1,
    ensures
        match r {
            Ok(v) => spec_parse_new(parts.deep_view(), spec_extra_view(extra)) == Some(v@),
            Err(_) => spec_parse_new(parts.deep_view(), spec_extra_view(extra)) is None,
        },
{
    let ghost dv = parts.deep_view();
    proof {
        assert(dv[0] == parts@[0].deep_view());
        assert(parts@[0].deep_view() =~= parts@[0]@);
        assert(forall|k: int| 0 <= k < dv.len() - 1 ==> dv.drop_first()[k] == dv[k + 1]);
    }
    let first = parts[0].as_slice();
    let feature = match parse_u32(first) {
        Option::Some(f) => f,
        Option::None => {
            return Err(JavaVersionParsingError);
        },
    };
    if first[0] == DIGIT_ZERO {
        return Err(JavaVersionParsingError);
    }
    let np = parts.len();
    if np >= 2 {
        let last = parts[np - 1].as_slice();
        proof {
            assert(dv[np - 1] == parts@[np - 1].deep_view());
            assert(parts@[np - 1].deep_view() =~= parts@[np - 1]@);
            assert(dv.drop_first().last() == dv[np - 1]);
        }
        if last.len() == 1 && last[0] == DIGIT_ZERO {
            proof {
                assert(last@ =~= seq![DIGIT_ZERO]);
            }
            return Err(JavaVersionParsingError);
        }
        proof {
            if last@ == seq![DIGIT_ZERO] {
                assert(last@.len() == 1 && last@[0] == DIGIT_ZERO);
            }
        }
    }
    let ghost rest = dv.drop_first();
    proof {
        if np >= 2 {
            assert(rest[0] == dv[1]);
            assert(dv[1] == parts@[1].deep_view());
            assert(parts@[1].deep_view() =~= parts@[1]@);
        }
        if np >= 3 {
            assert(rest[1] == dv[2]);
            assert(dv[2] == parts@[2].deep_view());
            assert(parts@[2].deep_view() =~= parts@[2]@);
        }
        if np >= 4 {
            assert(rest[2] == dv[3]);
            assert(dv[3] == parts@[3].deep_view());
            assert(parts@[3].deep_view() =~= parts@[3]@);
        }
    }
    let interim = if np >= 2 {
        match parse_u32(parts[1].as_slice()) {
            Option::Some(n) => n,
            Option::None => {
                return Err(JavaVersionParsingError);
            },
        }
    } else {
        0
    };
    let update = if np >= 3 {
        match parse_u32(parts[2].as_slice()) {
            Option::Some(n) => n,
            Option::None => {
                return Err(JavaVersionParsingError);
            },
        }
    } else {
        0
    };
    let patch = if np >= 4 {
        match parse_u32(parts[3].as_slice()) {
            Option::Some(n) => n,
            Option::None => {
                return Err(JavaVersionParsingError);
            },
        }
    } else {
        0
    };
    proof {
        if np > 4 {
            assert(rest.skip(3) =~= dv.skip(4));
        }
    }
    let trailing = if np > 4 {
        match parse_u32_list(parts, 4) {
            Ok(t) => t,
            Err(e) => {
                return Err(e);
            },
        }
    } else {
        Vec::new()
    };
    let (pre_release, build, opt) = match parse_new_extra(extra) {
        Ok(t) => t,
        Err(e) => {
            return Err(e);
        },
    };
    Ok(
        JavaVersion::NewScheme(
            NewScheme { feature, interim, update, patch, trailing, pre_release, build, opt },
        ),
    )
}

/// Read a legacy version from its dot segments and extra data, as
/// executable code.
fn parse_old_scheme(parts: &Vec<Vec<u8>>, extra: Option<&[u8]>) -> (r: Result<
    JavaVersion,
    JavaVersionParsingError,
>)
    requires
        parts@.len() >= 1,
    ensures
        match r {
            Ok(v) => spec_parse_old(parts.deep_view().drop_first(), spec_extra_view(extra))
                == Some(v@),
            Err(_) => spec_parse_old(parts.deep_view().drop_first(), spec_extra_view(extra))
                is None,
        },
{
    let ghost dv = parts.deep_view();
    let ghost rest = dv.drop_first();
    if parts.len() != 3 {
        return Err(JavaVersionParsingError);
    }
    proof {
        assert(rest[0] == dv[1]);
        assert(dv[1] == parts@[1].deep_view());
        assert(parts@[1].deep_view() =~= parts@[1]@);
        assert(rest[1] == dv[2]);
        assert(dv[2] == parts@[2].deep_view());
        assert(parts@[2].deep_view() =~= parts@[2]@);
    }
    let minor = match parse_u32(parts[1].as_slice()) {
        Option::Some(n) => n,
        Option::None => {
            return Err(JavaVersionParsingError);
        },
    };
    let patch = match parse_u32(parts[2].as_slice()) {
        Option::Some(n) => n,
        Option::None => {
            return Err(JavaVersionParsingError);
        },
    };
    let (update, build) = match parse_old_extra(extra) {
        Ok(p) => p,
        Err(e) => {
            return Err(e);
        },
    };
    Ok(JavaVersion::OldScheme(OldScheme { minor, patch, update, build }))
}

impl JavaVersion {
    /// Read a version string in either scheme. Returns an error exactly when
    /// the grammar rejects the input.
    pub fn parse(s: &[u8]) -> (r: Result<JavaVersion, JavaVersionParsingError>)
        ensures
            match r {
                Ok(v) => spec_parse(s@) == Some(v@),
                Err(_) => spec_parse(s@) is None,
            },
    {
        let n = s.len();
        let (vnum, extra): (Vec<u8>, Option<&[u8]>) = match find_sep(s) {
            Option::Some(i) => {
                proof {
                    lemma_find_sep(s@);
                }
                (
                    vstd::slice::slice_to_vec(vstd::slice::slice_subrange(s, 0, i)),
                    Some(vstd::slice::slice_subrange(s, i, n)),
                )
            },
            Option::None => (vstd::slice::slice_to_vec(s), None),
        };
        let parts: Vec<Vec<u8>> = split_bytes(vnum.as_slice(), DOT);
        proof {
            lemma_split_len(vnum@, DOT);
            assert(parts.deep_view() =~= spec_split(vnum@, DOT));
            assert(parts.deep_view()[0] == parts@[0].deep_view());
            assert(parts@[0].deep_view() =~= parts@[0]@);
        }
        let first = parts[0].as_slice();
        if first.len() == 1 && first[0] == DIGIT_ONE {
            proof {
                assert(first@ =~= seq![DIGIT_ONE]);
            }
            parse_old_scheme(&parts, extra)
        } else {
            proof {
                if first@ == seq![DIGIT_ONE] {
                    assert(first@.len() == 1 && first@[0] == DIGIT_ONE);
                }
            }
            parse_new_scheme(&parts, extra)
        }
    }
}

/// Print a legacy version, as executable code.
fn render_old_bytes(o: &OldScheme) -> (r: Vec<u8>)
    ensures
        r@ =~= spec_render_old(o@),
{
    let mut out: Vec<u8> = Vec::new();
    out.push(DIGIT_ONE);
    out.push(DOT);
    let minor = render_u32(o.minor);
    push_all(&mut out, minor.as_slice());
    out.push(DOT);
    let patch = render_u32(o.patch);
    push_all(&mut out, patch.as_slice());
    assert(out@ =~= seq![DIGIT_ONE, DOT] + spec_dec_digits(o.minor as nat) + seq![DOT]
        + spec_dec_digits(o.patch as nat));
    if o.update != 0 {
        out.push(UNDERSCORE);
        let update = render_u32(o.update);
        push_all(&mut out, update.as_slice());
    }
    let ghost before_build = out@;
    match o.build {
        Option::Some(n) => {
            out.push(DASH);
            out.push(LOWER_B);
            if n < 10 {
                out.push(DIGIT_ZERO);
            }
            let build = render_u32(n);
            push_all(&mut out, build.as_slice());
            assert(out@ =~= before_build + spec_render_old_build(o.build));
        },
        Option::None => {},
    }
    assert(out@ =~= spec_render_old(o@));
    out
}

/// Print a current-scheme version, as executable code.
#[verifier::rlimit(100)]
fn render_new_bytes(n: &NewScheme) -> (r: Vec<u8>)
    ensures
        r@ =~= spec_render_new(n@),
{
    let mut out: Vec<u8> = Vec::new();
    let has_trailing = n.trailing.len() > 0;
    let show_patch = n.patch != 0 || has_trailing;
    let show_update = n.update != 0 || show_patch;
    let show_interim = n.interim != 0 || show_update;
    let feature = render_u32(n.feature);
    push_all(&mut out, feature.as_slice());
    if show_interim {
        out.push(DOT);
        let interim = render_u32(n.interim);
        push_all(&mut out, interim.as_slice());
    }
    if show_update {
        out.push(DOT);
        let update = render_u32(n.update);
        push_all(&mut out, update.as_slice());
    }
    if show_patch {
        out.push(DOT);
        let patch = render_u32(n.patch);
        push_all(&mut out, patch.as_slice());
    }
    let trailing = render_trailing(n.trailing.as_slice());
    push_all(&mut out, trailing.as_slice());
    let pre = render_pre(&n.pre_release);
    push_all(&mut out, pre.as_slice());
    match n.build {
        Option::Some(b) => {
            out.push(PLUS);
            let build = render_u32(b);
            push_all(&mut out, build.as_slice());
        },
        Option::None => {},
    }
    match &n.opt {
        Option::Some(o) => {
            if matches!(n.pre_release, PreRelease::Ga) && n.build.is_none() {
                out.push(PLUS);
            }
            out.push(DASH);
            push_all(&mut out, o.as_slice());
        },
        Option::None => {},
    }
    assert(out@ =~= spec_render_new(n@));
    out
}

impl JavaVersion {
    /// Print this version, as the exact inverse of parsing.
    pub fn to_bytes(&self) -> (r: Vec<u8>)
        ensures
            r@ =~= spec_render(self@),
    {
        match self {
            JavaVersion::OldScheme(o) => render_old_bytes(o),
            JavaVersion::NewScheme(n) => render_new_bytes(n),
        }
    }
}

} // verus!
