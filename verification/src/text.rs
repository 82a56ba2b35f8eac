//! Byte-level text helpers: searching, splitting, and decimal numerals.
//!
//! All textual data in this crate is handled as ASCII bytes, so the helpers
//! here work on `[u8]` slices and `Seq<u8>` views.

use vstd::prelude::*;

verus! {

use core::cmp::Ordering;

/// `.` separating the numeric segments of a version string.
pub const DOT: u8 = 0x2e;

/// `-`, one of the separators introducing version extra data.
pub const DASH: u8 = 0x2d;

/// `+`, one of the separators introducing version extra data.
pub const PLUS: u8 = 0x2b;

/// `_`, one of the separators introducing version extra data.
pub const UNDERSCORE: u8 = 0x5f;

/// `0`, the least ASCII decimal digit.
pub const DIGIT_ZERO: u8 = 0x30;

/// `9`, the greatest ASCII decimal digit.
pub const DIGIT_NINE: u8 = 0x39;

/// Index of the first occurrence of `b` in `s`, if any.
pub open spec fn spec_find(s: Seq<u8>, b: u8) -> Option<int>
    decreases s.len(),
{
    if s.len() == 0 {
        None
    } else if s[0] == b {
        Some(0)
    } else {
        match spec_find(s.drop_first(), b) {
            Some(i) => Some(i + 1),
            None => None,
        }
    }
}

/// What `spec_find` returns: the first index holding `b`, or `None` when `b`
/// does not occur.
pub proof fn lemma_find(s: Seq<u8>, b: u8)
    ensures
        match spec_find(s, b) {
            Some(i) => 0 <= i < s.len() && s[i] == b && (forall|j: int| 0 <= j < i ==> s[j] != b),
            None => forall|j: int| 0 <= j < s.len() ==> s[j] != b,
        },
    decreases s.len(),
{
    if s.len() != 0 && s[0] != b {
        lemma_find(s.drop_first(), b);
        assert(forall|j: int| 1 <= j < s.len() ==> s[j] == s.drop_first()[j - 1]);
    }
}

/// A position that holds the first occurrence of `b` is the one `spec_find`
/// returns.
pub proof fn lemma_find_is(s: Seq<u8>, b: u8, i: int)
    requires
        0 <= i < s.len(),
        s[i] == b,
        forall|j: int| 0 <= j < i ==> s[j] != b,
    ensures
        spec_find(s, b) == Some(i),
    decreases s.len(),
{
    if i > 0 {
        assert(forall|j: int| 0 <= j < i - 1 ==> s.drop_first()[j] == s[j + 1]);
        lemma_find_is(s.drop_first(), b, i - 1);
    }
}

/// When `b` does not occur in `s`, `spec_find` returns `None`.
pub proof fn lemma_find_is_none(s: Seq<u8>, b: u8)
    requires
        forall|j: int| 0 <= j < s.len() ==> s[j] != b,
    ensures
        spec_find(s, b) is None,
    decreases s.len(),
{
    if s.len() != 0 {
        assert(forall|j: int| 0 <= j < s.len() - 1 ==> s.drop_first()[j] == s[j + 1]);
        lemma_find_is_none(s.drop_first(), b);
    }
}

/// Finding in a concatenation whose first part does not hold `b` reduces to
/// finding in the second part.
pub proof fn lemma_find_concat(a: Seq<u8>, b: Seq<u8>, x: u8)
    requires
        forall|j: int| 0 <= j < a.len() ==> a[j] != x,
    ensures
        spec_find(a + b, x) == match spec_find(b, x) {
            Some(i) => Some(a.len() + i),
            None => None::<int>,
        },
{
    lemma_find(b, x);
    match spec_find(b, x) {
        Some(i) => {
            assert((a + b)[a.len() + i] == b[i]);
            assert(forall|j: int| 0 <= j < a.len() + i ==> (a + b)[j] != x) by {
                assert(forall|j: int| 0 <= j < a.len() ==> (a + b)[j] == a[j]);
                assert(forall|j: int| a.len() <= j < a.len() + i ==> (a + b)[j] == b[j - a.len()]);
            }
            lemma_find_is(a + b, x, a.len() + i);
        },
        None => {
            assert(forall|j: int| 0 <= j < (a + b).len() ==> (a + b)[j] != x) by {
                assert(forall|j: int| 0 <= j < a.len() ==> (a + b)[j] == a[j]);
                assert(forall|j: int| a.len() <= j < (a + b).len() ==> (a + b)[j] == b[j - a.len()]);
            }
            lemma_find_is_none(a + b, x);
        },
    }
}

/// First occurrence of `b` in `s`, as executable code.
pub fn find_byte(s: &[u8], b: u8) -> (r: Option<usize>)
    ensures
        match r {
            Some(i) => spec_find(s@, b) == Some(i as int),
            None => spec_find(s@, b) is None,
        },
{
    let mut i: usize = 0;
    while i < s.len()
        invariant
            0 <= i <= s@.len(),
            forall|j: int| 0 <= j < i ==> s@[j] != b,
        decreases s@.len() - i,
    {
        if s[i] == b {
            proof {
                lemma_find_is(s@, b, i as int);
            }
            return Some(i);
        }
        i = i + 1;
    }
    proof {
        lemma_find_is_none(s@, b);
    }
    None
}

/// The bytes at which a version string's numeric part ends and its extra
/// data begins: `+`, `-` or `_`.
pub open spec fn is_extra_sep(b: u8) -> bool {
    b == PLUS || b == DASH || b == UNDERSCORE
}

/// Index of the first extra-data separator in `s`, if any.
pub open spec fn spec_find_sep(s: Seq<u8>) -> Option<int>
    decreases s.len(),
{
    if s.len() == 0 {
        None
    } else if is_extra_sep(s[0]) {
        Some(0)
    } else {
        match spec_find_sep(s.drop_first()) {
            Some(i) => Some(i + 1),
            None => None,
        }
    }
}

/// A position holding the first extra-data separator is the one
/// `spec_find_sep` returns.
pub proof fn lemma_find_sep_is(s: Seq<u8>, i: int)
    requires
        0 <= i < s.len(),
        is_extra_sep(s[i]),
        forall|j: int| 0 <= j < i ==> !is_extra_sep(s[j]),
    ensures
        spec_find_sep(s) == Some(i),
    decreases s.len(),
{
    if i > 0 {
        assert(forall|j: int| 0 <= j < i - 1 ==> s.drop_first()[j] == s[j + 1]);
        lemma_find_sep_is(s.drop_first(), i - 1);
    }
}

/// When no extra-data separator occurs in `s`, `spec_find_sep` returns
/// `None`.
pub proof fn lemma_find_sep_is_none(s: Seq<u8>)
    requires
        forall|j: int| 0 <= j < s.len() ==> !is_extra_sep(s[j]),
    ensures
        spec_find_sep(s) is None,
    decreases s.len(),
{
    if s.len() != 0 {
        assert(forall|j: int| 0 <= j < s.len() - 1 ==> s.drop_first()[j] == s[j + 1]);
        lemma_find_sep_is_none(s.drop_first());
    }
}

/// What `spec_find_sep` returns: the first separator position, or `None`
/// when no byte is a separator.
pub proof fn lemma_find_sep(s: Seq<u8>)
    ensures
        match spec_find_sep(s) {
            Some(i) => 0 <= i < s.len() && is_extra_sep(s[i]) && (forall|j: int|
                0 <= j < i ==> !is_extra_sep(s[j])),
            None => forall|j: int| 0 <= j < s.len() ==> !is_extra_sep(s[j]),
        },
    decreases s.len(),
{
    if s.len() != 0 && !is_extra_sep(s[0]) {
        lemma_find_sep(s.drop_first());
        assert(forall|j: int| 1 <= j < s.len() ==> s[j] == s.drop_first()[j - 1]);
    }
}

/// First extra-data separator in `s`, as executable code.
pub fn find_sep(s: &[u8]) -> (r: Option<usize>)
    ensures
        match r {
            Some(i) => spec_find_sep(s@) == Some(i as int),
            None => spec_find_sep(s@) is None,
        },
{
    let mut i: usize = 0;
    while i < s.len()
        invariant
            0 <= i <= s@.len(),
            forall|j: int| 0 <= j < i ==> !is_extra_sep(s@[j]),
        decreases s@.len() - i,
    {
        let c = s[i];
        if c == PLUS || c == DASH || c == UNDERSCORE {
            proof {
                lemma_find_sep_is(s@, i as int);
            }
            return Some(i);
        }
        i = i + 1;
    }
    proof {
        lemma_find_sep_is_none(s@);
    }
    None
}

/// Whether `b` is an ASCII decimal digit.
pub open spec fn is_digit(b: u8) -> bool {
    DIGIT_ZERO <= b <= DIGIT_NINE
}

/// Whether every byte of `s` is an ASCII decimal digit.
pub open spec fn all_digits(s: Seq<u8>) -> bool {
    forall|j: int| 0 <= j < s.len() ==> is_digit(#[trigger] s[j])
}

/// The number denoted by `s` read as a decimal numeral.
pub open spec fn dec_value(s: Seq<u8>) -> int
    decreases s.len(),
{
    if s.len() == 0 {
        0
    } else {
        dec_value(s.drop_last()) * 10 + (s.last() - DIGIT_ZERO)
    }
}

/// The canonical decimal numeral of `n`: no leading zero except for `0`
/// itself.
pub open spec fn spec_dec_digits(n: nat) -> Seq<u8>
    decreases n,
{
    if n < 10 {
        seq![(DIGIT_ZERO + n) as u8]
    } else {
        spec_dec_digits(n / 10).push((DIGIT_ZERO + n % 10) as u8)
    }
}

/// A numeral of digits denotes a nonnegative number.
pub proof fn lemma_dec_value_nonneg(s: Seq<u8>)
    requires
        all_digits(s),
    ensures
        dec_value(s) >= 0,
    decreases s.len(),
{
    if s.len() != 0 {
        assert(all_digits(s.drop_last()));
        lemma_dec_value_nonneg(s.drop_last());
    }
}

/// Extending a numeral by one digit does not decrease its value.
pub proof fn lemma_dec_value_extend(s: Seq<u8>, i: int)
    requires
        0 <= i < s.len(),
        all_digits(s.take(i + 1)),
    ensures
        dec_value(s.take(i + 1)) >= dec_value(s.take(i)),
        dec_value(s.take(i + 1)) == dec_value(s.take(i)) * 10 + (s[i] - DIGIT_ZERO),
{
    assert(s.take(i + 1).drop_last() =~= s.take(i));
    assert(s.take(i + 1).last() == s[i]);
    assert(forall|j: int| 0 <= j < i ==> s.take(i)[j] == s.take(i + 1)[j]);
    assert(all_digits(s.take(i)));
    lemma_dec_value_nonneg(s.take(i));
}

/// The value of a digit sequence is at least the value of any of its
/// prefixes.
pub proof fn lemma_dec_value_prefix(s: Seq<u8>, i: int)
    requires
        all_digits(s),
        0 <= i <= s.len(),
    ensures
        dec_value(s) >= dec_value(s.take(i)),
    decreases s.len() - i,
{
    if i < s.len() {
        assert(forall|j: int| 0 <= j < i + 1 ==> s.take(i + 1)[j] == s[j]);
        lemma_dec_value_extend(s, i);
        lemma_dec_value_prefix(s, i + 1);
    } else {
        assert(s.take(i) =~= s);
    }
}

/// What `spec_dec_digits` produces: a nonempty digit sequence denoting `n`,
/// without a leading zero unless `n` is zero.
pub proof fn lemma_dec_digits(n: nat)
    ensures
        spec_dec_digits(n).len() > 0,
        all_digits(spec_dec_digits(n)),
        dec_value(spec_dec_digits(n)) == n,
        n > 0 ==> spec_dec_digits(n)[0] != DIGIT_ZERO,
        n == 0 ==> spec_dec_digits(n) =~= seq![DIGIT_ZERO],
        n >= 10 ==> spec_dec_digits(n).len() >= 2,
    decreases n,
{
    if n < 10 {
        assert(spec_dec_digits(n) =~= seq![(DIGIT_ZERO + n) as u8]);
        assert(dec_value(seq![(DIGIT_ZERO + n) as u8].drop_last()) == 0);
    } else {
        lemma_dec_digits(n / 10);
        let prefix = spec_dec_digits(n / 10);
        let whole = prefix.push((DIGIT_ZERO + n % 10) as u8);
        assert(whole.drop_last() =~= prefix);
        assert(whole.last() == (DIGIT_ZERO + n % 10) as u8);
        assert(whole[0] == prefix[0]);
        assert(n / 10 > 0);
        assert(dec_value(whole) == (n / 10) * 10 + n % 10);
        assert((n / 10) * 10 + n % 10 == n) by (nonlinear_arith);
    }
}

/// Whether every byte of `s` is a digit, as executable code.
pub fn is_all_digits(s: &[u8]) -> (r: bool)
    ensures
        r == all_digits(s@),
{
    let mut i: usize = 0;
    while i < s.len()
        invariant
            0 <= i <= s@.len(),
            forall|j: int| 0 <= j < i ==> is_digit(#[trigger] s@[j]),
        decreases s@.len() - i,
    {
        let c = s[i];
        if c < DIGIT_ZERO || c > DIGIT_NINE {
            return false;
        }
        i = i + 1;
    }
    true
}

/// A numeral without a leading zero denotes at least one, and at least ten
/// when it has more than one digit.
pub proof fn lemma_dec_value_no_leading_zero(s: Seq<u8>)
    requires
        all_digits(s),
        s.len() >= 1,
        s[0] != DIGIT_ZERO,
    ensures
        dec_value(s) >= 1,
        s.len() >= 2 ==> dec_value(s) >= 10,
    decreases s.len(),
{
    if s.len() == 1 {
        assert(s.drop_last() =~= Seq::<u8>::empty());
        assert(s.last() == s[0]);
    } else {
        assert(forall|j: int| 0 <= j < s.len() - 1 ==> s.drop_last()[j] == s[j]);
        lemma_dec_value_no_leading_zero(s.drop_last());
        assert(dec_value(s) == dec_value(s.drop_last()) * 10 + (s.last() - DIGIT_ZERO));
        assert(dec_value(s.drop_last()) * 10 >= 10) by (nonlinear_arith)
            requires
                dec_value(s.drop_last()) >= 1,
        ;
    }
}

/// What splitting at a delimiter's first occurrence gives back: the part
/// before it is a clean prefix of the input.
pub proof fn lemma_split_optional_props(s: Seq<u8>, d: u8)
    ensures
        ({
            let (a, b) = spec_split_optional(s, d);
            &&& a.len() <= s.len()
            &&& forall|j: int| 0 <= j < a.len() ==> a[j] == s[j] && (#[trigger] a[j]) != d
        }),
{
    lemma_find(s, d);
}

/// The numeral parse that this crate's version grammar uses: digits only,
/// rejecting the empty string and values that do not fit in `u32`.
pub open spec fn spec_parse_u32(s: Seq<u8>) -> Option<u32> {
    if s.len() > 0 && all_digits(s) && dec_value(s) <= u32::MAX {
        Some(dec_value(s) as u32)
    } else {
        None
    }
}

/// Parse `s` as a decimal `u32`, as executable code.
pub fn parse_u32(s: &[u8]) -> (r: Option<u32>)
    ensures
        r == spec_parse_u32(s@),
{
    if s.len() == 0 {
        return None;
    }
    let mut acc: u32 = 0;
    let mut i: usize = 0;
    proof {
        assert(s@.take(0) =~= Seq::<u8>::empty());
    }
    while i < s.len()
        invariant
            0 <= i <= s@.len(),
            all_digits(s@.take(i as int)),
            acc == dec_value(s@.take(i as int)),
        decreases s@.len() - i,
    {
        let c = s[i];
        if c < DIGIT_ZERO || c > DIGIT_NINE {
            return None;
        }
        let d = c - DIGIT_ZERO;
        proof {
            assert(s@.take(i as int + 1) =~= s@.take(i as int).push(c));
            assert(all_digits(s@.take(i as int + 1)));
            lemma_dec_value_extend(s@, i as int);
        }
        if acc > (u32::MAX - d as u32) / 10 {
            proof {
                assert(dec_value(s@.take(i as int + 1)) > u32::MAX) by {
                    assert(acc * 10 + d > u32::MAX) by (nonlinear_arith)
                        requires
                            acc > (u32::MAX - d as u32) / 10,
                            0 <= d <= 9,
                    ;
                }
                if all_digits(s@) {
                    lemma_dec_value_prefix(s@, i as int + 1);
                }
            }
            return None;
        }
        proof {
            assert(acc * 10 + d <= u32::MAX) by (nonlinear_arith)
                requires
                    acc <= (u32::MAX - d as u32) / 10,
                    0 <= d <= 9,
            ;
        }
        acc = acc * 10 + d as u32;
        i = i + 1;
    }
    proof {
        assert(s@.take(s@.len() as int) =~= s@);
    }
    Some(acc)
}

/// Render `n` as its canonical decimal numeral.
pub fn render_u32(n: u32) -> (r: Vec<u8>)
    ensures
        r@ =~= spec_dec_digits(n as nat),
    decreases n,
{
    let mut r = if n >= 10 {
        render_u32(n / 10)
    } else {
        Vec::new()
    };
    r.push(DIGIT_ZERO + (n % 10) as u8);
    r
}

/// Copy `src` onto the end of `dst`.
pub fn push_all(dst: &mut Vec<u8>, src: &[u8])
    ensures
        final(dst)@ =~= old(dst)@ + src@,
{
    let mut i: usize = 0;
    while i < src.len()
        invariant
            0 <= i <= src@.len(),
            dst@ =~= old(dst)@ + src@.take(i as int),
        decreases src@.len() - i,
    {
        dst.push(src[i]);
        proof {
            assert(old(dst)@ + src@.take(i + 1) =~= (old(dst)@ + src@.take(i as int)).push(
                src@[i as int],
            ));
        }
        i = i + 1;
    }
    proof {
        assert(src@.take(src@.len() as int) =~= src@);
    }
}

/// Whether `a` and `b` hold the same bytes.
pub fn bytes_eq(a: &[u8], b: &[u8]) -> (r: bool)
    ensures
        r == (a@ =~= b@),
{
    if a.len() != b.len() {
        return false;
    }
    let mut i: usize = 0;
    while i < a.len()
        invariant
            0 <= i <= a@.len(),
            a@.len() == b@.len(),
            forall|j: int| 0 <= j < i ==> a@[j] == b@[j],
        decreases a@.len() - i,
    {
        if a[i] != b[i] {
            return false;
        }
        i = i + 1;
    }
    true
}

/// Whether `prefix` starts `s`.
pub open spec fn spec_starts_with(s: Seq<u8>, prefix: Seq<u8>) -> bool {
    prefix.len() <= s.len() && s.take(prefix.len() as int) =~= prefix
}

/// Whether `s` starts with `prefix`, as executable code.
pub fn starts_with(s: &[u8], prefix: &[u8]) -> (r: bool)
    ensures
        r == spec_starts_with(s@, prefix@),
{
    if prefix.len() > s.len() {
        return false;
    }
    let head = vstd::slice::slice_subrange(s, 0, prefix.len());
    bytes_eq(head, prefix)
}

/// Splitting `s` at every occurrence of `sep`: adjacent separators and
/// separators at either end produce empty parts.
pub open spec fn spec_split(s: Seq<u8>, sep: u8) -> Seq<Seq<u8>>
    decreases s.len(),
{
    if s.len() == 0 {
        seq![Seq::<u8>::empty()]
    } else if s[0] == sep {
        seq![Seq::<u8>::empty()] + spec_split(s.drop_first(), sep)
    } else {
        let r = spec_split(s.drop_first(), sep);
        seq![seq![s[0]] + r[0]] + r.drop_first()
    }
}

/// A split is never empty.
pub proof fn lemma_split_len(s: Seq<u8>, sep: u8)
    ensures
        spec_split(s, sep).len() >= 1,
    decreases s.len(),
{
    if s.len() != 0 && s[0] != sep {
        lemma_split_len(s.drop_first(), sep);
    }
}

/// A sequence free of the separator splits into itself alone.
pub proof fn lemma_split_clean(s: Seq<u8>, sep: u8)
    requires
        forall|j: int| 0 <= j < s.len() ==> s[j] != sep,
    ensures
        spec_split(s, sep) =~= seq![s],
    decreases s.len(),
{
    if s.len() != 0 {
        assert(forall|j: int| 0 <= j < s.len() - 1 ==> s.drop_first()[j] == s[j + 1]);
        lemma_split_clean(s.drop_first(), sep);
        let r = spec_split(s.drop_first(), sep);
        assert(r[0] == s.drop_first());
        assert(r.drop_first() =~= Seq::<Seq<u8>>::empty());
        assert(seq![s[0]] + r[0] =~= s);
        assert(spec_split(s, sep) =~= seq![seq![s[0]] + r[0]] + r.drop_first());
        assert(seq![seq![s[0]] + r[0]] + r.drop_first() =~= seq![s]);
    } else {
        assert(s =~= Seq::<u8>::empty());
        assert(spec_split(s, sep) =~= seq![s]);
    }
}

/// Splitting at the first separator peels off the clean part before it.
pub proof fn lemma_split_concat(a: Seq<u8>, b: Seq<u8>, sep: u8)
    requires
        forall|j: int| 0 <= j < a.len() ==> a[j] != sep,
    ensures
        spec_split(a + seq![sep] + b, sep) =~= seq![a] + spec_split(b, sep),
    decreases a.len(),
{
    let s = a + seq![sep] + b;
    if a.len() == 0 {
        assert(s =~= seq![sep] + b);
        assert(s[0] == sep);
        assert(s.drop_first() =~= b);
        assert(a =~= Seq::<u8>::empty());
        assert(spec_split(s, sep) =~= seq![Seq::<u8>::empty()] + spec_split(s.drop_first(), sep));
        assert(spec_split(s, sep) =~= seq![a] + spec_split(b, sep));
    } else {
        assert(s[0] == a[0]);
        assert(s.drop_first() =~= a.drop_first() + seq![sep] + b);
        assert(forall|j: int| 0 <= j < a.len() - 1 ==> a.drop_first()[j] == a[j + 1]);
        lemma_split_concat(a.drop_first(), b, sep);
        let r = spec_split(s.drop_first(), sep);
        assert(r =~= seq![a.drop_first()] + spec_split(b, sep));
        assert(r[0] == a.drop_first());
        assert(seq![s[0]] + r[0] =~= a);
        assert(r.drop_first() =~= spec_split(b, sep));
        assert(spec_split(s, sep) =~= seq![seq![s[0]] + r[0]] + r.drop_first());
        assert(spec_split(s, sep) =~= seq![a] + spec_split(b, sep));
    }
}

/// Split `s` at every occurrence of `sep`, as executable code.
pub fn split_bytes(s: &[u8], sep: u8) -> (r: Vec<Vec<u8>>)
    ensures
        r.deep_view() =~= spec_split(s@, sep),
{
    let mut res: Vec<Vec<u8>> = Vec::new();
    let mut start: usize = 0;
    proof {
        assert(res.deep_view() =~= Seq::<Seq<u8>>::empty());
        assert(s@.skip(0) =~= s@);
    }
    loop
        invariant
            0 <= start <= s@.len(),
            spec_split(s@, sep) =~= res.deep_view() + spec_split(s@.skip(start as int), sep),
        decreases s@.len() - start,
    {
        let tail = vstd::slice::slice_subrange(s, start, s.len());
        let ghost old_res = res.deep_view();
        match find_byte(tail, sep) {
            Some(i) => {
                proof {
                    lemma_find(tail@, sep);
                    assert(tail@ =~= tail@.take(i as int) + seq![sep] + tail@.skip(i as int + 1));
                    lemma_split_concat(tail@.take(i as int), tail@.skip(i as int + 1), sep);
                    assert(s@.skip(start as int + i as int + 1) =~= tail@.skip(i as int + 1));
                }
                let part = vstd::slice::slice_to_vec(vstd::slice::slice_subrange(tail, 0, i));
                res.push(part);
                proof {
                    assert(res.deep_view() =~~= old_res.push(part@));
                    assert(old_res + spec_split(s@.skip(start as int), sep) =~= res.deep_view()
                        + spec_split(s@.skip(start as int + i as int + 1), sep));
                }
                start = start + i + 1;
            },
            None => {
                let part = vstd::slice::slice_to_vec(tail);
                proof {
                    lemma_find(tail@, sep);
                    lemma_split_clean(tail@, sep);
                }
                res.push(part);
                proof {
                    assert(res.deep_view() =~~= old_res.push(part@));
                    assert(old_res + spec_split(s@.skip(start as int), sep) =~= res.deep_view());
                }
                return res;
            },
        }
    }
}

/// The parts joined with `sep` between them.
pub open spec fn spec_join(parts: Seq<Seq<u8>>, sep: u8) -> Seq<u8>
    decreases parts.len(),
{
    if parts.len() == 0 {
        Seq::<u8>::empty()
    } else if parts.len() == 1 {
        parts[0]
    } else {
        parts[0] + seq![sep] + spec_join(parts.drop_first(), sep)
    }
}

/// Splitting a join of separator-free parts gives the parts back.
pub proof fn lemma_split_join(parts: Seq<Seq<u8>>, sep: u8)
    requires
        parts.len() >= 1,
        forall|i: int|
            0 <= i < parts.len() ==> forall|j: int|
                0 <= j < (#[trigger] parts[i]).len() ==> parts[i][j] != sep,
    ensures
        spec_split(spec_join(parts, sep), sep) =~= parts,
    decreases parts.len(),
{
    if parts.len() == 1 {
        lemma_split_clean(parts[0], sep);
        assert(seq![parts[0]] =~= parts);
    } else {
        assert(forall|i: int|
            0 <= i < parts.drop_first().len() ==> parts.drop_first()[i] == parts[i + 1]);
        lemma_split_join(parts.drop_first(), sep);
        lemma_split_concat(parts[0], spec_join(parts.drop_first(), sep), sep);
        assert(seq![parts[0]] + parts.drop_first() =~= parts);
    }
}

/// Joining one more part appends a separator and the part.
pub proof fn lemma_join_push(parts: Seq<Seq<u8>>, x: Seq<u8>, sep: u8)
    requires
        parts.len() >= 1,
    ensures
        spec_join(parts.push(x), sep) =~= spec_join(parts, sep) + seq![sep] + x,
    decreases parts.len(),
{
    let pushed = parts.push(x);
    if parts.len() == 1 {
        assert(pushed.drop_first() =~= seq![x]);
        assert(spec_join(pushed.drop_first(), sep) == x);
        assert(pushed[0] == parts[0]);
    } else {
        assert(pushed.drop_first() =~= parts.drop_first().push(x));
        lemma_join_push(parts.drop_first(), x, sep);
        assert(pushed[0] == parts[0]);
        assert(spec_join(pushed, sep) =~= pushed[0] + seq![sep] + spec_join(
            pushed.drop_first(),
            sep,
        ));
        assert(parts[0] + seq![sep] + (spec_join(parts.drop_first(), sep) + seq![sep] + x) =~= (
        parts[0] + seq![sep] + spec_join(parts.drop_first(), sep)) + seq![sep] + x);
    }
}

/// Whether no byte of `s` is an extra-data separator.
pub open spec fn no_extra_sep(s: Seq<u8>) -> bool {
    forall|j: int| 0 <= j < s.len() ==> !is_extra_sep(#[trigger] s[j])
}

/// A concatenation of separator-free parts is separator-free.
pub proof fn lemma_no_extra_sep_concat(a: Seq<u8>, b: Seq<u8>)
    requires
        no_extra_sep(a),
        no_extra_sep(b),
    ensures
        no_extra_sep(a + b),
{
    assert(forall|j: int| 0 <= j < a.len() ==> (a + b)[j] == a[j]);
    assert(forall|j: int| a.len() <= j < (a + b).len() ==> (a + b)[j] == b[j - a.len()]);
}

/// Digits are neither extra-data separators nor dots.
pub proof fn lemma_digits_plain(s: Seq<u8>)
    requires
        all_digits(s),
    ensures
        no_extra_sep(s),
        forall|j: int| 0 <= j < s.len() ==> s[j] != DOT,
{
}

/// Splitting at the first occurrence of a delimiter: the part before it and,
/// when the delimiter occurs, the part after it.
pub open spec fn spec_split_optional(s: Seq<u8>, delimiter: u8) -> (Seq<u8>, Option<Seq<u8>>) {
    match spec_find(s, delimiter) {
        Some(i) => (s.take(i), Some(s.skip(i + 1))),
        None => (s, None),
    }
}

/// Splitting a byte string at the first occurrence of a delimiter.
pub trait SplittingExt {
    /// The byte sequence being split.
    spec fn split_view(&self) -> Seq<u8>;

    /// The part before the first occurrence of `delimiter` and, when the
    /// delimiter occurs, the part after it.
    fn split_optional(&self, delimiter: u8) -> (r: (Vec<u8>, Option<Vec<u8>>))
        ensures
            ({
                let (before, after) = spec_split_optional(self.split_view(), delimiter);
                &&& r.0@ =~= before
                &&& match (r.1, after) {
                    (Some(x), Some(y)) => x@ =~= y,
                    (None, None) => true,
                    _ => false,
                }
            }),
    ;
}

impl SplittingExt for [u8] {
    open spec fn split_view(&self) -> Seq<u8> {
        self@
    }

    fn split_optional(&self, delimiter: u8) -> (r: (Vec<u8>, Option<Vec<u8>>)) {
        let n = self.len();
        match find_byte(self, delimiter) {
            Some(i) => {
                proof {
                    lemma_find(self@, delimiter);
                }
                assert(i < n);
                let before = vstd::slice::slice_to_vec(
                    vstd::slice::slice_subrange(self, 0, i),
                );
                let after = vstd::slice::slice_to_vec(
                    vstd::slice::slice_subrange(self, i + 1, n),
                );
                (before, Some(after))
            },
            None => (vstd::slice::slice_to_vec(self), None),
        }
    }
}

/// The reverse of an ordering.
pub open spec fn spec_ord_reverse(o: Ordering) -> Ordering {
    match o {
        Ordering::Less => Ordering::Greater,
        Ordering::Equal => Ordering::Equal,
        Ordering::Greater => Ordering::Less,
    }
}

/// Lexicographic comparison of integer sequences: a strict prefix comes
/// first.
pub open spec fn spec_lex_cmp(a: Seq<int>, b: Seq<int>) -> Ordering
    decreases a.len(),
{
    if a.len() == 0 && b.len() == 0 {
        Ordering::Equal
    } else if a.len() == 0 {
        Ordering::Less
    } else if b.len() == 0 {
        Ordering::Greater
    } else if a[0] < b[0] {
        Ordering::Less
    } else if a[0] > b[0] {
        Ordering::Greater
    } else {
        spec_lex_cmp(a.drop_first(), b.drop_first())
    }
}

/// Lexicographic comparison finds equality exactly on equal sequences.
pub proof fn lemma_lex_cmp_eq(a: Seq<int>, b: Seq<int>)
    ensures
        (spec_lex_cmp(a, b) == Ordering::Equal) <==> a =~= b,
    decreases a.len(),
{
    if a.len() != 0 && b.len() != 0 && a[0] == b[0] {
        lemma_lex_cmp_eq(a.drop_first(), b.drop_first());
        assert(forall|j: int| 1 <= j < a.len() ==> a[j] == a.drop_first()[j - 1]);
        assert(forall|j: int| 1 <= j < b.len() ==> b[j] == b.drop_first()[j - 1]);
        if a.drop_first() =~= b.drop_first() {
            assert(a =~= b);
        }
        if a =~= b {
            assert(a.drop_first() =~= b.drop_first());
        }
    }
}

/// Swapping the operands reverses a lexicographic comparison.
pub proof fn lemma_lex_cmp_reverse(a: Seq<int>, b: Seq<int>)
    ensures
        spec_lex_cmp(b, a) == spec_ord_reverse(spec_lex_cmp(a, b)),
    decreases a.len(),
{
    if a.len() != 0 && b.len() != 0 && a[0] == b[0] {
        lemma_lex_cmp_reverse(a.drop_first(), b.drop_first());
    }
}

/// Lexicographic comparison is transitive.
pub proof fn lemma_lex_cmp_trans(a: Seq<int>, b: Seq<int>, c: Seq<int>)
    requires
        spec_lex_cmp(a, b) == Ordering::Less,
        spec_lex_cmp(b, c) == Ordering::Less,
    ensures
        spec_lex_cmp(a, c) == Ordering::Less,
    decreases a.len(),
{
    if a.len() != 0 && b.len() != 0 && c.len() != 0 && a[0] == b[0] && b[0] == c[0] {
        lemma_lex_cmp_trans(a.drop_first(), b.drop_first(), c.drop_first());
    }
}

/// The integers denoted by a byte sequence, element for element.
pub open spec fn seq_u8_to_int(s: Seq<u8>) -> Seq<int> {
    Seq::new(s.len(), |i: int| s[i] as int)
}

/// The integers denoted by a `u32` sequence, element for element.
pub open spec fn seq_u32_to_int(s: Seq<u32>) -> Seq<int> {
    Seq::new(s.len(), |i: int| s[i] as int)
}

/// Whether `b` is ASCII whitespace.
pub open spec fn is_ascii_ws(b: u8) -> bool {
    b == 0x20 || b == 0x09 || b == 0x0a || b == 0x0d
}

/// `s` without leading whitespace.
pub open spec fn spec_trim_front(s: Seq<u8>) -> Seq<u8>
    decreases s.len(),
{
    if s.len() > 0 && is_ascii_ws(s[0]) {
        spec_trim_front(s.drop_first())
    } else {
        s
    }
}

/// `s` without trailing whitespace.
pub open spec fn spec_trim_back(s: Seq<u8>) -> Seq<u8>
    decreases s.len(),
{
    if s.len() > 0 && is_ascii_ws(s.last()) {
        spec_trim_back(s.drop_last())
    } else {
        s
    }
}

/// `s` without leading or trailing ASCII whitespace.
pub open spec fn spec_trim(s: Seq<u8>) -> Seq<u8> {
    spec_trim_back(spec_trim_front(s))
}

/// Dropping leading whitespace keeps dropping it one byte at a time.
proof fn lemma_trim_front_skip(s: Seq<u8>, i: int)
    requires
        0 <= i <= s.len(),
        forall|k: int| 0 <= k < i ==> is_ascii_ws(#[trigger] s[k]),
    ensures
        spec_trim_front(s) == spec_trim_front(s.skip(i)),
    decreases i,
{
    if i > 0 {
        assert(is_ascii_ws(s[0]));
        assert(s.drop_first() =~= s.skip(1));
        assert(spec_trim_front(s) == spec_trim_front(s.skip(1)));
        assert(forall|k: int| 0 <= k < i - 1 ==> s.skip(1)[k] == s[k + 1]);
        lemma_trim_front_skip(s.skip(1), i - 1);
        assert(s.skip(1).skip(i - 1) =~= s.skip(i));
    } else {
        assert(s.skip(0) =~= s);
    }
}

/// Dropping trailing whitespace keeps dropping it one byte at a time.
proof fn lemma_trim_back_take(s: Seq<u8>, i: int)
    requires
        0 <= i <= s.len(),
        forall|k: int| i <= k < s.len() ==> is_ascii_ws(#[trigger] s[k]),
    ensures
        spec_trim_back(s) == spec_trim_back(s.take(i)),
    decreases s.len() - i,
{
    if i < s.len() {
        assert(is_ascii_ws(s.last()));
        assert(s.drop_last() =~= s.take(s.len() - 1));
        assert(spec_trim_back(s) == spec_trim_back(s.take(s.len() - 1)));
        assert(forall|k: int| 0 <= k < s.len() - 1 ==> s.take(s.len() - 1)[k] == s[k]);
        lemma_trim_back_take(s.take(s.len() - 1), i);
        assert(s.take(s.len() - 1).take(i) =~= s.take(i));
    } else {
        assert(s.take(i) =~= s);
    }
}

/// Trim leading and trailing ASCII whitespace, as executable code.
pub fn trim_ascii(s: &[u8]) -> (r: Vec<u8>)
    ensures
        r@ =~= spec_trim(s@),
{
    let n = s.len();
    let mut start: usize = 0;
    while start < n && (s[start] == 0x20 || s[start] == 0x09 || s[start] == 0x0a || s[start]
        == 0x0d)
        invariant
            0 <= start <= n,
            n == s@.len(),
            forall|k: int| 0 <= k < start ==> is_ascii_ws(#[trigger] s@[k]),
        decreases n - start,
    {
        start = start + 1;
    }
    proof {
        lemma_trim_front_skip(s@, start as int);
        if start < n {
            assert(!is_ascii_ws(s@.skip(start as int)[0]));
        }
    }
    let mut end: usize = n;
    while end > start && (s[end - 1] == 0x20 || s[end - 1] == 0x09 || s[end - 1] == 0x0a || s[end
        - 1] == 0x0d)
        invariant
            start <= end <= n,
            n == s@.len(),
            forall|k: int| 0 <= k < start ==> is_ascii_ws(#[trigger] s@[k]),
            forall|k: int| end <= k < n ==> is_ascii_ws(#[trigger] s@[k]),
        decreases end,
    {
        end = end - 1;
    }
    let out = vstd::slice::slice_to_vec(vstd::slice::slice_subrange(s, start, end));
    proof {
        let front = spec_trim_front(s@);
        let mid = s@.skip(start as int);
        assert(front == spec_trim_front(mid));
        if start < n && !is_ascii_ws(s@[start as int]) {
            assert(mid[0] == s@[start as int]);
        }
        if start == n {
            assert(mid =~= Seq::<u8>::empty());
        }
        assert(spec_trim_front(mid) == mid);
        assert(forall|k: int|
            end - start <= k < mid.len() ==> is_ascii_ws(#[trigger] mid[k]));
        lemma_trim_back_take(mid, end - start);
        assert(spec_trim_back(mid.take(end - start)) == mid.take(end - start)) by {
            if end > start {
                assert(!is_ascii_ws(mid.take(end - start).last()));
            } else {
                assert(mid.take(end - start) =~= Seq::<u8>::empty());
            }
        }
        assert(mid.take(end - start) =~= s@.subrange(start as int, end as int));
    }
    out
}

/// Byte sequences denoting the same integers are the same.
pub proof fn lemma_seq_u8_to_int_injective(a: Seq<u8>, b: Seq<u8>)
    requires
        seq_u8_to_int(a) == seq_u8_to_int(b),
    ensures
        a =~= b,
{
    assert(seq_u8_to_int(a).len() == a.len());
    assert(seq_u8_to_int(b).len() == b.len());
    assert(forall|i: int| 0 <= i < a.len() ==> (#[trigger] a[i]) as int == seq_u8_to_int(a)[i]);
    assert(forall|i: int| 0 <= i < b.len() ==> (#[trigger] b[i]) as int == seq_u8_to_int(b)[i]);
}

/// `u32` sequences denoting the same integers are the same.
pub proof fn lemma_seq_u32_to_int_injective(a: Seq<u32>, b: Seq<u32>)
    requires
        seq_u32_to_int(a) == seq_u32_to_int(b),
    ensures
        a =~= b,
{
    assert(seq_u32_to_int(a).len() == a.len());
    assert(seq_u32_to_int(b).len() == b.len());
    assert(forall|i: int| 0 <= i < a.len() ==> (#[trigger] a[i]) as int == seq_u32_to_int(a)[i]);
    assert(forall|i: int| 0 <= i < b.len() ==> (#[trigger] b[i]) as int == seq_u32_to_int(b)[i]);
}

/// Compare two byte strings lexicographically.
pub fn cmp_bytes(a: &[u8], b: &[u8]) -> (r: Ordering)
    ensures
        r == spec_lex_cmp(seq_u8_to_int(a@), seq_u8_to_int(b@)),
{
    let ghost am = seq_u8_to_int(a@);
    let ghost bm = seq_u8_to_int(b@);
    let mut i: usize = 0;
    proof {
        assert(am.skip(0) =~= am);
        assert(bm.skip(0) =~= bm);
    }
    while i < a.len() && i < b.len()
        invariant
            0 <= i <= a@.len(),
            0 <= i <= b@.len(),
            am == seq_u8_to_int(a@),
            bm == seq_u8_to_int(b@),
            spec_lex_cmp(am, bm) == spec_lex_cmp(am.skip(i as int), bm.skip(i as int)),
        decreases a@.len() - i,
    {
        if a[i] < b[i] {
            return Ordering::Less;
        }
        if a[i] > b[i] {
            return Ordering::Greater;
        }
        proof {
            assert(am.skip(i as int).drop_first() =~= am.skip(i + 1));
            assert(bm.skip(i as int).drop_first() =~= bm.skip(i + 1));
        }
        i = i + 1;
    }
    if a.len() == b.len() {
        Ordering::Equal
    } else if a.len() < b.len() {
        Ordering::Less
    } else {
        Ordering::Greater
    }
}

/// Compare two `u32` sequences lexicographically.
pub fn cmp_u32_slices(a: &[u32], b: &[u32]) -> (r: Ordering)
    ensures
        r == spec_lex_cmp(seq_u32_to_int(a@), seq_u32_to_int(b@)),
{
    let ghost am = seq_u32_to_int(a@);
    let ghost bm = seq_u32_to_int(b@);
    let mut i: usize = 0;
    proof {
        assert(am.skip(0) =~= am);
        assert(bm.skip(0) =~= bm);
    }
    while i < a.len() && i < b.len()
        invariant
            0 <= i <= a@.len(),
            0 <= i <= b@.len(),
            am == seq_u32_to_int(a@),
            bm == seq_u32_to_int(b@),
            spec_lex_cmp(am, bm) == spec_lex_cmp(am.skip(i as int), bm.skip(i as int)),
        decreases a@.len() - i,
    {
        if a[i] < b[i] {
            return Ordering::Less;
        }
        if a[i] > b[i] {
            return Ordering::Greater;
        }
        proof {
            assert(am.skip(i as int).drop_first() =~= am.skip(i + 1));
            assert(bm.skip(i as int).drop_first() =~= bm.skip(i + 1));
        }
        i = i + 1;
    }
    if a.len() == b.len() {
        Ordering::Equal
    } else if a.len() < b.len() {
        Ordering::Less
    } else {
        Ordering::Greater
    }
}

} // verus!
