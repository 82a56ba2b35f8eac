//! The legacy package index: building its query URLs and reading its
//! version listings. The HTTP calls themselves live outside the library.

use vstd::prelude::*;

use crate::text::{
    is_digit, push_all, render_u32, spec_dec_digits, spec_find, DASH, PLUS,
};

verus! {

/// Base URL of the legacy package index.
/// The bytes spell `https://api.adoptopenjdk.net/v3`.
pub const ADOPT_BASE_URL: [u8; 31] = [0x68, 0x74, 0x74, 0x70, 0x73, 0x3a, 0x2f, 0x2f, 0x61, 0x70, 0x69, 0x2e, 0x61, 0x64, 0x6f, 0x70, 0x74, 0x6f, 0x70, 0x65, 0x6e, 0x6a, 0x64, 0x6b, 0x2e, 0x6e, 0x65, 0x74, 0x2f, 0x76, 0x33];
/// Fixed part of the release-versions query: first page of ten general-availability releases, newest first.
/// The bytes spell `/info/release_versions?page=0&page_size=10&release_type=ga&sort_method=DEFAULT&sort_order=DESC&vendor=adoptopenjdk&version=%5B`.
pub const RV_FIXED: [u8; 126] = [0x2f, 0x69, 0x6e, 0x66, 0x6f, 0x2f, 0x72, 0x65, 0x6c, 0x65, 0x61, 0x73, 0x65, 0x5f, 0x76, 0x65, 0x72, 0x73, 0x69, 0x6f, 0x6e, 0x73, 0x3f, 0x70, 0x61, 0x67, 0x65, 0x3d, 0x30, 0x26, 0x70, 0x61, 0x67, 0x65, 0x5f, 0x73, 0x69, 0x7a, 0x65, 0x3d, 0x31, 0x30, 0x26, 0x72, 0x65, 0x6c, 0x65, 0x61, 0x73, 0x65, 0x5f, 0x74, 0x79, 0x70, 0x65, 0x3d, 0x67, 0x61, 0x26, 0x73, 0x6f, 0x72, 0x74, 0x5f, 0x6d, 0x65, 0x74, 0x68, 0x6f, 0x64, 0x3d, 0x44, 0x45, 0x46, 0x41, 0x55, 0x4c, 0x54, 0x26, 0x73, 0x6f, 0x72, 0x74, 0x5f, 0x6f, 0x72, 0x64, 0x65, 0x72, 0x3d, 0x44, 0x45, 0x53, 0x43, 0x26, 0x76, 0x65, 0x6e, 0x64, 0x6f, 0x72, 0x3d, 0x61, 0x64, 0x6f, 0x70, 0x74, 0x6f, 0x70, 0x65, 0x6e, 0x6a, 0x64, 0x6b, 0x26, 0x76, 0x65, 0x72, 0x73, 0x69, 0x6f, 0x6e, 0x3d, 0x25, 0x35, 0x42];
/// The encoded comma between the two bounds of a version range.
/// The bytes spell `%2C`.
pub const RANGE_MID: [u8; 3] = [0x25, 0x32, 0x43];
/// The encoded parenthesis closing a half-open version range.
/// The bytes spell `%29`.
pub const RANGE_END: [u8; 3] = [0x25, 0x32, 0x39];
/// Path prefix of the latest-binary query.
/// The bytes spell `/binary/latest/`.
pub const BINARY_LATEST: [u8; 15] = [0x2f, 0x62, 0x69, 0x6e, 0x61, 0x72, 0x79, 0x2f, 0x6c, 0x61, 0x74, 0x65, 0x73, 0x74, 0x2f];
/// Path segment pinning the general-availability channel.
/// The bytes spell `/ga/`.
pub const BINARY_GA: [u8; 4] = [0x2f, 0x67, 0x61, 0x2f];
/// A path separator.
/// The bytes spell `/`.
pub const PATH_SEP: [u8; 1] = [0x2f];
/// Path segments pinning a normal hotspot JDK image.
/// The bytes spell `/jdk/hotspot/normal/`.
pub const BINARY_TAIL: [u8; 20] = [0x2f, 0x6a, 0x64, 0x6b, 0x2f, 0x68, 0x6f, 0x74, 0x73, 0x70, 0x6f, 0x74, 0x2f, 0x6e, 0x6f, 0x72, 0x6d, 0x61, 0x6c, 0x2f];
/// Query parameter pinning the JDK project.
/// The bytes spell `?project=jdk`.
pub const PROJECT_JDK: [u8; 12] = [0x3f, 0x70, 0x72, 0x6f, 0x6a, 0x65, 0x63, 0x74, 0x3d, 0x6a, 0x64, 0x6b];
/// Start of the architecture-scoped release-versions query.
/// The bytes spell `/info/release_versions?architecture=`.
pub const RV_ARCH: [u8; 36] = [0x2f, 0x69, 0x6e, 0x66, 0x6f, 0x2f, 0x72, 0x65, 0x6c, 0x65, 0x61, 0x73, 0x65, 0x5f, 0x76, 0x65, 0x72, 0x73, 0x69, 0x6f, 0x6e, 0x73, 0x3f, 0x61, 0x72, 0x63, 0x68, 0x69, 0x74, 0x65, 0x63, 0x74, 0x75, 0x72, 0x65, 0x3d];
/// Parameter naming the operating system.
/// The bytes spell `&OS=`.
pub const PARAM_OS: [u8; 4] = [0x26, 0x4f, 0x53, 0x3d];
/// Middle of the release-versions query: first page of ten general-availability releases, newest first.
/// The bytes spell `&page=0&page_size=10&release_type=ga&sort_method=DEFAULT&sort_order=DESC&vendor=`.
pub const RV_MID: [u8; 80] = [0x26, 0x70, 0x61, 0x67, 0x65, 0x3d, 0x30, 0x26, 0x70, 0x61, 0x67, 0x65, 0x5f, 0x73, 0x69, 0x7a, 0x65, 0x3d, 0x31, 0x30, 0x26, 0x72, 0x65, 0x6c, 0x65, 0x61, 0x73, 0x65, 0x5f, 0x74, 0x79, 0x70, 0x65, 0x3d, 0x67, 0x61, 0x26, 0x73, 0x6f, 0x72, 0x74, 0x5f, 0x6d, 0x65, 0x74, 0x68, 0x6f, 0x64, 0x3d, 0x44, 0x45, 0x46, 0x41, 0x55, 0x4c, 0x54, 0x26, 0x73, 0x6f, 0x72, 0x74, 0x5f, 0x6f, 0x72, 0x64, 0x65, 0x72, 0x3d, 0x44, 0x45, 0x53, 0x43, 0x26, 0x76, 0x65, 0x6e, 0x64, 0x6f, 0x72, 0x3d];
/// Parameter opening a half-open version range.
/// The bytes spell `&version=%5B`.
pub const RV_VERSION: [u8; 12] = [0x26, 0x76, 0x65, 0x72, 0x73, 0x69, 0x6f, 0x6e, 0x3d, 0x25, 0x35, 0x42];
/// Start of the release-names query.
/// The bytes spell `/info/release_names?architecture=`.
pub const RN_ARCH: [u8; 33] = [0x2f, 0x69, 0x6e, 0x66, 0x6f, 0x2f, 0x72, 0x65, 0x6c, 0x65, 0x61, 0x73, 0x65, 0x5f, 0x6e, 0x61, 0x6d, 0x65, 0x73, 0x3f, 0x61, 0x72, 0x63, 0x68, 0x69, 0x74, 0x65, 0x63, 0x74, 0x75, 0x72, 0x65, 0x3d];
/// Middle of the release-names query: general-availability JDK images, newest first.
/// The bytes spell `&image_type=jdk&project=jdk&release_type=ga&sort_method=DEFAULT&sort_order=DESC&vendor=`.
pub const RN_MID: [u8; 87] = [0x26, 0x69, 0x6d, 0x61, 0x67, 0x65, 0x5f, 0x74, 0x79, 0x70, 0x65, 0x3d, 0x6a, 0x64, 0x6b, 0x26, 0x70, 0x72, 0x6f, 0x6a, 0x65, 0x63, 0x74, 0x3d, 0x6a, 0x64, 0x6b, 0x26, 0x72, 0x65, 0x6c, 0x65, 0x61, 0x73, 0x65, 0x5f, 0x74, 0x79, 0x70, 0x65, 0x3d, 0x67, 0x61, 0x26, 0x73, 0x6f, 0x72, 0x74, 0x5f, 0x6d, 0x65, 0x74, 0x68, 0x6f, 0x64, 0x3d, 0x44, 0x45, 0x46, 0x41, 0x55, 0x4c, 0x54, 0x26, 0x73, 0x6f, 0x72, 0x74, 0x5f, 0x6f, 0x72, 0x64, 0x65, 0x72, 0x3d, 0x44, 0x45, 0x53, 0x43, 0x26, 0x76, 0x65, 0x6e, 0x64, 0x6f, 0x72, 0x3d];
/// Parameter naming the page.
/// The bytes spell `&page=`.
pub const PARAM_PAGE: [u8; 6] = [0x26, 0x70, 0x61, 0x67, 0x65, 0x3d];
/// Parameter fixing twenty names per page.
/// The bytes spell `&page_size=20`.
pub const PAGE_SIZE_20: [u8; 13] = [0x26, 0x70, 0x61, 0x67, 0x65, 0x5f, 0x73, 0x69, 0x7a, 0x65, 0x3d, 0x32, 0x30];

/// The release-versions query for the majors `[major, major + 1)`: a page
/// holding the most recent such versions. Pre-release builds can be mixed
/// in, so the answer is filtered afterwards.
pub fn get_latest_jdk_version_url(major: u8) -> (r: Vec<u8>)
    requires
        major < 255,
    ensures
        r@ =~= ADOPT_BASE_URL@ + RV_FIXED@ + spec_dec_digits(major as nat) + RANGE_MID@
            + spec_dec_digits((major + 1) as nat) + RANGE_END@,
{
    let mut out = vstd::slice::slice_to_vec(ADOPT_BASE_URL.as_slice());
    push_all(&mut out, RV_FIXED.as_slice());
    let lo = render_u32(major as u32);
    push_all(&mut out, lo.as_slice());
    push_all(&mut out, RANGE_MID.as_slice());
    let hi = render_u32(major as u32 + 1);
    push_all(&mut out, hi.as_slice());
    push_all(&mut out, RANGE_END.as_slice());
    out
}

/// A configurable legacy index endpoint: its base URL and the vendor whose
/// builds are asked for.
#[derive(Debug, Clone, PartialEq, Eq)]
pub struct AdoptiumApi {
    pub base_url: Vec<u8>,
    pub vendor: Vec<u8>,
}

impl AdoptiumApi {
    /// The latest-binary query for one major version on one platform.
    pub fn get_jdk_url(&self, major: u8, os: &[u8], arch: &[u8]) -> (r: Vec<u8>)
        ensures
            r@ =~= self.base_url@ + BINARY_LATEST@ + spec_dec_digits(major as nat) + BINARY_GA@
                + os@ + PATH_SEP@ + arch@ + BINARY_TAIL@ + self.vendor@ + PROJECT_JDK@,
    {
        let mut out = vstd::slice::slice_to_vec(self.base_url.as_slice());
        push_all(&mut out, BINARY_LATEST.as_slice());
        let m = render_u32(major as u32);
        push_all(&mut out, m.as_slice());
        push_all(&mut out, BINARY_GA.as_slice());
        push_all(&mut out, os);
        push_all(&mut out, PATH_SEP.as_slice());
        push_all(&mut out, arch);
        push_all(&mut out, BINARY_TAIL.as_slice());
        push_all(&mut out, self.vendor.as_slice());
        push_all(&mut out, PROJECT_JDK.as_slice());
        out
    }

    /// The release-versions query for the majors `[major, major + 1)` on
    /// one platform.
    pub fn get_latest_jdk_version_url(&self, major: u8, os: &[u8], arch: &[u8]) -> (r: Vec<u8>)
        requires
            major < 255,
        ensures
            r@ =~= self.base_url@ + RV_ARCH@ + arch@ + PARAM_OS@ + os@ + RV_MID@ + self.vendor@
                + RV_VERSION@ + spec_dec_digits(major as nat) + RANGE_MID@ + spec_dec_digits(
                (major + 1) as nat,
            ) + RANGE_END@,
    {
        let mut out = vstd::slice::slice_to_vec(self.base_url.as_slice());
        push_all(&mut out, RV_ARCH.as_slice());
        push_all(&mut out, arch);
        push_all(&mut out, PARAM_OS.as_slice());
        push_all(&mut out, os);
        push_all(&mut out, RV_MID.as_slice());
        push_all(&mut out, self.vendor.as_slice());
        push_all(&mut out, RV_VERSION.as_slice());
        let lo = render_u32(major as u32);
        push_all(&mut out, lo.as_slice());
        push_all(&mut out, RANGE_MID.as_slice());
        let hi = render_u32(major as u32 + 1);
        push_all(&mut out, hi.as_slice());
        push_all(&mut out, RANGE_END.as_slice());
        out
    }

    /// The release-names query for one page on one platform.
    pub fn get_jdk_version_list_url(&self, page: u8, os: &[u8], arch: &[u8]) -> (r: Vec<u8>)
        ensures
            r@ =~= self.base_url@ + RN_ARCH@ + arch@ + PARAM_OS@ + os@ + RN_MID@ + self.vendor@
                + PARAM_PAGE@ + spec_dec_digits(page as nat) + PAGE_SIZE_20@,
    {
        let mut out = vstd::slice::slice_to_vec(self.base_url.as_slice());
        push_all(&mut out, RN_ARCH.as_slice());
        push_all(&mut out, arch);
        push_all(&mut out, PARAM_OS.as_slice());
        push_all(&mut out, os);
        push_all(&mut out, RN_MID.as_slice());
        push_all(&mut out, self.vendor.as_slice());
        push_all(&mut out, PARAM_PAGE.as_slice());
        let p = render_u32(page as u32);
        push_all(&mut out, p.as_slice());
        push_all(&mut out, PAGE_SIZE_20.as_slice());
        out
    }
}

/// What to make of a latest-version response.
#[derive(Debug, Clone, Copy, PartialEq, Eq)]
pub enum VersionQueryDisposition {
    /// Success: read the version listing out of the body.
    ReadListing,
    /// The index does not know this major version: there is no value —
    /// which is not a failure of the service.
    MajorUnknown,
    /// The service failed.
    Failed,
}

/// How a latest-version response status reads: a not-found answer means
/// the major version is unknown, reported distinctly from a service
/// failure.
pub fn classify_version_response(status: u16) -> (r: VersionQueryDisposition)
    ensures
        r == (if 200 <= status < 300 {
            VersionQueryDisposition::ReadListing
        } else if status == 404 {
            VersionQueryDisposition::MajorUnknown
        } else {
            VersionQueryDisposition::Failed
        }),
{
    if 200 <= status && status < 300 {
        VersionQueryDisposition::ReadListing
    } else if status == 404 {
        VersionQueryDisposition::MajorUnknown
    } else {
        VersionQueryDisposition::Failed
    }
}

/// One entry of the index's version listing.
#[derive(Debug, Clone, PartialEq, Eq)]
pub struct AdoptVersionEntry {
    pub openjdk_version: Vec<u8>,
    pub is_prerelease: bool,
}

/// A version string cut before its first dash or, failing one, its first
/// plus.
pub open spec fn spec_base_version(v: Seq<u8>) -> Seq<u8> {
    match spec_find(v, DASH) {
        Option::Some(i) => v.take(i),
        Option::None => match spec_find(v, PLUS) {
            Option::Some(i) => v.take(i),
            Option::None => v,
        },
    }
}

/// The base version of the newest general-availability entry, if any.
pub open spec fn spec_latest_ga(entries: Seq<AdoptVersionEntry>) -> Option<Seq<u8>>
    decreases entries.len(),
{
    if entries.len() == 0 {
        None
    } else if !entries[0].is_prerelease {
        Some(spec_base_version(entries[0].openjdk_version@))
    } else {
        spec_latest_ga(entries.drop_first())
    }
}

/// The newest general-availability version of a listing, cut down to its
/// base version, as executable code. Nothing comes back when every entry
/// is a pre-release.
pub fn latest_ga_version(entries: &Vec<AdoptVersionEntry>) -> (r: Option<Vec<u8>>)
    ensures
        match r {
            Some(v) => spec_latest_ga(entries@) == Some(v@),
            None => spec_latest_ga(entries@) is None,
        },
{
    let mut i: usize = 0;
    proof {
        assert(entries@.skip(0) =~= entries@);
    }
    while i < entries.len()
        invariant
            0 <= i <= entries@.len(),
            spec_latest_ga(entries@) == spec_latest_ga(entries@.skip(i as int)),
        decreases entries@.len() - i,
    {
        proof {
            assert(entries@.skip(i as int)[0] == entries@[i as int]);
            assert(entries@.skip(i as int).drop_first() =~= entries@.skip(i as int + 1));
        }
        let e = &entries[i];
        if !e.is_prerelease {
            let v = e.openjdk_version.as_slice();
            let cut = match crate::text::find_byte(v, DASH) {
                Some(c) => Some(c),
                None => crate::text::find_byte(v, PLUS),
            };
            proof {
                crate::text::lemma_find(v@, DASH);
                crate::text::lemma_find(v@, PLUS);
            }
            match cut {
                Some(c) => {
                    return Some(
                        vstd::slice::slice_to_vec(vstd::slice::slice_subrange(v, 0, c)),
                    );
                },
                None => {
                    return Some(vstd::slice::slice_to_vec(v));
                },
            }
        }
        i = i + 1;
    }
    proof {
        assert(entries@.skip(entries@.len() as int) =~= Seq::<AdoptVersionEntry>::empty());
    }
    None
}

/// The first digit position in `s`, if any.
pub open spec fn spec_find_digit(s: Seq<u8>) -> Option<int>
    decreases s.len(),
{
    if s.len() == 0 {
        None
    } else if is_digit(s[0]) {
        Some(0)
    } else {
        match spec_find_digit(s.drop_first()) {
            Option::Some(i) => Some(i + 1),
            Option::None => None,
        }
    }
}

/// The first non-digit position in `s`, if any.
pub open spec fn spec_find_nondigit(s: Seq<u8>) -> Option<int>
    decreases s.len(),
{
    if s.len() == 0 {
        None
    } else if !is_digit(s[0]) {
        Some(0)
    } else {
        match spec_find_nondigit(s.drop_first()) {
            Option::Some(i) => Some(i + 1),
            Option::None => None,
        }
    }
}

/// A position holding the first digit is the one `spec_find_digit`
/// returns.
proof fn lemma_find_digit_is(s: Seq<u8>, i: int)
    requires
        0 <= i < s.len(),
        is_digit(s[i]),
        forall|j: int| 0 <= j < i ==> !is_digit(s[j]),
    ensures
        spec_find_digit(s) == Some(i),
    decreases s.len(),
{
    if i > 0 {
        assert(forall|j: int| 0 <= j < i - 1 ==> s.drop_first()[j] == s[j + 1]);
        lemma_find_digit_is(s.drop_first(), i - 1);
    }
}

/// When no digit occurs, `spec_find_digit` returns `None`.
proof fn lemma_find_digit_is_none(s: Seq<u8>)
    requires
        forall|j: int| 0 <= j < s.len() ==> !is_digit(s[j]),
    ensures
        spec_find_digit(s) is None,
    decreases s.len(),
{
    if s.len() != 0 {
        assert(forall|j: int| 0 <= j < s.len() - 1 ==> s.drop_first()[j] == s[j + 1]);
        lemma_find_digit_is_none(s.drop_first());
    }
}

/// A position holding the first non-digit is the one `spec_find_nondigit`
/// returns.
proof fn lemma_find_nondigit_is(s: Seq<u8>, i: int)
    requires
        0 <= i < s.len(),
        !is_digit(s[i]),
        forall|j: int| 0 <= j < i ==> is_digit(s[j]),
    ensures
        spec_find_nondigit(s) == Some(i),
    decreases s.len(),
{
    if i > 0 {
        assert(forall|j: int| 0 <= j < i - 1 ==> s.drop_first()[j] == s[j + 1]);
        lemma_find_nondigit_is(s.drop_first(), i - 1);
    }
}

/// When every byte is a digit, `spec_find_nondigit` returns `None`.
proof fn lemma_find_nondigit_is_none(s: Seq<u8>)
    requires
        forall|j: int| 0 <= j < s.len() ==> is_digit(s[j]),
    ensures
        spec_find_nondigit(s) is None,
    decreases s.len(),
{
    if s.len() != 0 {
        assert(forall|j: int| 0 <= j < s.len() - 1 ==> s.drop_first()[j] == s[j + 1]);
        lemma_find_nondigit_is_none(s.drop_first());
    }
}

/// The major version digits inside a release name: the digit run starting
/// at the first digit. A name without a digit, or whose digit run reaches
/// the very end, yields nothing — the listing's names are expected to go
/// on after the number.
pub open spec fn spec_version_digits(name: Seq<u8>) -> Option<Seq<u8>> {
    match spec_find_digit(name) {
        Option::Some(st) => {
            let rest = name.skip(st);
            match spec_find_nondigit(rest) {
                Option::Some(e) => Some(rest.take(e)),
                Option::None => None,
            }
        },
        Option::None => None,
    }
}

/// The major version digits inside a release name, as executable code.
pub fn version_digits(name: &[u8]) -> (r: Option<Vec<u8>>)
    ensures
        match r {
            Some(v) => spec_version_digits(name@) == Some(v@),
            None => spec_version_digits(name@) is None,
        },
{
    let n = name.len();
    let mut st: usize = 0;
    while st < n && !(0x30 <= name[st] && name[st] <= 0x39)
        invariant
            0 <= st <= n,
            n == name@.len(),
            forall|j: int| 0 <= j < st ==> !is_digit(name@[j]),
        decreases n - st,
    {
        st = st + 1;
    }
    if st == n {
        proof {
            lemma_find_digit_is_none(name@);
        }
        return None;
    }
    proof {
        lemma_find_digit_is(name@, st as int);
    }
    let rest = vstd::slice::slice_subrange(name, st, n);
    proof {
        assert(rest@ =~= name@.skip(st as int));
    }
    let m = rest.len();
    let mut e: usize = 0;
    while e < m && 0x30 <= rest[e] && rest[e] <= 0x39
        invariant
            0 <= e <= m,
            m == rest@.len(),
            forall|j: int| 0 <= j < e ==> is_digit(rest@[j]),
        decreases m - e,
    {
        e = e + 1;
    }
    if e == m {
        proof {
            lemma_find_nondigit_is_none(rest@);
        }
        return None;
    }
    proof {
        lemma_find_nondigit_is(rest@, e as int);
    }
    Some(vstd::slice::slice_to_vec(vstd::slice::slice_subrange(rest, 0, e)))
}

} // verus!
