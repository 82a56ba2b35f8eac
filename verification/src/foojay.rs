//! The remote package index: the data the index reports and the rules this
//! crate applies to it — selecting a downloadable candidate, classifying its
//! checksum, probing for a missing checksum, validating distribution names,
//! interpreting response envelopes, and building query URLs. The HTTP
//! transport itself lives outside the library and hands these functions
//! plain values.

use vstd::prelude::*;

use crate::java_version::key::VersionKey;
use crate::java_version::{JavaVersion, PreRelease};
use crate::text::{
    bytes_eq, push_all, render_u32, spec_dec_digits, spec_trim, trim_ascii, DIGIT_NINE,
    DIGIT_ZERO,
};

verus! {

/// Base URL of the remote package index.
/// The bytes spell `https://api.foojay.io/disco/v3.0`.
pub const FOOJAY_BASE_URL: [u8; 32] = [0x68, 0x74, 0x74, 0x70, 0x73, 0x3a, 0x2f, 0x2f, 0x61, 0x70, 0x69, 0x2e, 0x66, 0x6f, 0x6f, 0x6a, 0x61, 0x79, 0x2e, 0x69, 0x6f, 0x2f, 0x64, 0x69, 0x73, 0x63, 0x6f, 0x2f, 0x76, 0x33, 0x2e, 0x30];

/// The message the index returns for an unknown distribution.
/// The bytes spell `Requested distribution not found`.
pub const DIST_NOT_FOUND_MSG: [u8; 32] = [0x52, 0x65, 0x71, 0x75, 0x65, 0x73, 0x74, 0x65, 0x64, 0x20, 0x64, 0x69, 0x73, 0x74, 0x72, 0x69, 0x62, 0x75, 0x74, 0x69, 0x6f, 0x6e, 0x20, 0x6e, 0x6f, 0x74, 0x20, 0x66, 0x6f, 0x75, 0x6e, 0x64];

/// The release channel of a version without a pre-release mark.
/// The bytes spell `ga`.
pub const GA_STATUS: [u8; 2] = [0x67, 0x61];

/// The operating system name that carries a libc flavor.
/// The bytes spell `linux`.
pub const OS_LINUX: [u8; 5] = [0x6c, 0x69, 0x6e, 0x75, 0x78];

/// The musl-flavored operating system name.
/// The bytes spell `linux-musl`.
pub const OS_LINUX_MUSL: [u8; 10] = [0x6c, 0x69, 0x6e, 0x75, 0x78, 0x2d, 0x6d, 0x75, 0x73, 0x6c];

/// Query path listing every distribution with its synonyms.
/// The bytes spell `/distributions?include_versions=false&include_synonyms=true`.
pub const Q_DISTRIBUTIONS: [u8; 59] = [0x2f, 0x64, 0x69, 0x73, 0x74, 0x72, 0x69, 0x62, 0x75, 0x74, 0x69, 0x6f, 0x6e, 0x73, 0x3f, 0x69, 0x6e, 0x63, 0x6c, 0x75, 0x64, 0x65, 0x5f, 0x76, 0x65, 0x72, 0x73, 0x69, 0x6f, 0x6e, 0x73, 0x3d, 0x66, 0x61, 0x6c, 0x73, 0x65, 0x26, 0x69, 0x6e, 0x63, 0x6c, 0x75, 0x64, 0x65, 0x5f, 0x73, 0x79, 0x6e, 0x6f, 0x6e, 0x79, 0x6d, 0x73, 0x3d, 0x74, 0x72, 0x75, 0x65];

/// Query path prefix for one distribution's versions.
/// The bytes spell `/distributions/`.
pub const Q_DISTRIBUTION_PREFIX: [u8; 15] = [0x2f, 0x64, 0x69, 0x73, 0x74, 0x72, 0x69, 0x62, 0x75, 0x74, 0x69, 0x6f, 0x6e, 0x73, 0x2f];

/// Query suffix asking for the latest build of each update.
/// The bytes spell `?latest_per_update=true`.
pub const Q_DISTRIBUTION_SUFFIX: [u8; 23] = [0x3f, 0x6c, 0x61, 0x74, 0x65, 0x73, 0x74, 0x5f, 0x70, 0x65, 0x72, 0x5f, 0x75, 0x70, 0x64, 0x61, 0x74, 0x65, 0x3d, 0x74, 0x72, 0x75, 0x65];

/// Fixed start of a package query: JDK packages only, bundled JavaFX when available, directly downloadable.
/// The bytes spell `/packages?package_type=jdk&with_javafx_if_available=true&directly_downloadable=true&jdk_version=`.
pub const Q_PACKAGES_PREFIX: [u8; 96] = [0x2f, 0x70, 0x61, 0x63, 0x6b, 0x61, 0x67, 0x65, 0x73, 0x3f, 0x70, 0x61, 0x63, 0x6b, 0x61, 0x67, 0x65, 0x5f, 0x74, 0x79, 0x70, 0x65, 0x3d, 0x6a, 0x64, 0x6b, 0x26, 0x77, 0x69, 0x74, 0x68, 0x5f, 0x6a, 0x61, 0x76, 0x61, 0x66, 0x78, 0x5f, 0x69, 0x66, 0x5f, 0x61, 0x76, 0x61, 0x69, 0x6c, 0x61, 0x62, 0x6c, 0x65, 0x3d, 0x74, 0x72, 0x75, 0x65, 0x26, 0x64, 0x69, 0x72, 0x65, 0x63, 0x74, 0x6c, 0x79, 0x5f, 0x64, 0x6f, 0x77, 0x6e, 0x6c, 0x6f, 0x61, 0x64, 0x61, 0x62, 0x6c, 0x65, 0x3d, 0x74, 0x72, 0x75, 0x65, 0x26, 0x6a, 0x64, 0x6b, 0x5f, 0x76, 0x65, 0x72, 0x73, 0x69, 0x6f, 0x6e, 0x3d];

/// Parameter naming the release channel.
/// The bytes spell `&release_status=`.
pub const Q_RELEASE_STATUS: [u8; 16] = [0x26, 0x72, 0x65, 0x6c, 0x65, 0x61, 0x73, 0x65, 0x5f, 0x73, 0x74, 0x61, 0x74, 0x75, 0x73, 0x3d];

/// Parameter naming the distribution.
/// The bytes spell `&distribution=`.
pub const Q_DISTRIBUTION: [u8; 14] = [0x26, 0x64, 0x69, 0x73, 0x74, 0x72, 0x69, 0x62, 0x75, 0x74, 0x69, 0x6f, 0x6e, 0x3d];

/// Parameter naming the operating system.
/// The bytes spell `&operating_system=`.
pub const Q_OPERATING_SYSTEM: [u8; 18] = [0x26, 0x6f, 0x70, 0x65, 0x72, 0x61, 0x74, 0x69, 0x6e, 0x67, 0x5f, 0x73, 0x79, 0x73, 0x74, 0x65, 0x6d, 0x3d];

/// Parameter naming the architecture.
/// The bytes spell `&architecture=`.
pub const Q_ARCHITECTURE: [u8; 14] = [0x26, 0x61, 0x72, 0x63, 0x68, 0x69, 0x74, 0x65, 0x63, 0x74, 0x75, 0x72, 0x65, 0x3d];

/// Parameter naming the libc flavor.
/// The bytes spell `&libc_type=`.
pub const Q_LIBC_TYPE: [u8; 11] = [0x26, 0x6c, 0x69, 0x62, 0x63, 0x5f, 0x74, 0x79, 0x70, 0x65, 0x3d];

/// An error from the remote package index.
#[derive(Debug, Clone, PartialEq, Eq)]
pub enum FoojayDiscoApiError {
    /// The index failed or answered with something unusable.
    Api,
    /// The index does not know the requested distribution.
    InvalidDistribution,
}

/// One distribution the index offers, with every name it answers to.
#[derive(Debug, Clone, PartialEq, Eq)]
pub struct FoojayDistributionListInfo {
    pub name: Vec<u8>,
    pub synonyms: Vec<Vec<u8>>,
}

/// The archive format of a package.
#[derive(Debug, Clone, PartialEq, Eq)]
pub enum ArchiveType {
    TarGz,
    Zip,
    Unknown(Vec<u8>),
}

/// The checksum algorithm of a package.
#[derive(Debug, Clone, PartialEq, Eq)]
pub enum ChecksumType {
    Sha256,
    Unknown(Vec<u8>),
}

/// One package in the index's package list.
#[derive(Debug, Clone, PartialEq, Eq)]
pub struct FoojayPackageListInfo {
    pub archive_type: ArchiveType,
    pub java_version: JavaVersion,
    pub latest_build_available: bool,
    pub pkg_info_uri: Vec<u8>,
}

/// The download details of one package.
#[derive(Debug, Clone, PartialEq, Eq)]
pub struct FoojayPackageInfo {
    pub direct_download_uri: Vec<u8>,
    pub checksum: Vec<u8>,
    pub checksum_type: ChecksumType,
}

/// A package the index resolved for an install: its full version, a known
/// archive format, and where to download it with which checksum.
#[derive(Debug, Clone, PartialEq, Eq)]
pub struct ResolvedPackage {
    pub version: JavaVersion,
    pub archive_type: ArchiveType,
    pub download_uri: Vec<u8>,
    pub checksum_hex: Vec<u8>,
}

/// A resolved package never carries an unknown archive format.
pub open spec fn spec_resolved_valid(p: ResolvedPackage) -> bool {
    !(p.archive_type is Unknown)
}

/// Whether a listed package can be used at all: its latest build is
/// available and its archive format is one this crate can unpack.
pub open spec fn spec_candidate_ok(p: FoojayPackageListInfo) -> bool {
    p.latest_build_available && !(p.archive_type is Unknown)
}

/// The first usable candidate at or after `from`, if any. Unusable
/// candidates are skipped, not fatal.
pub fn next_candidate(packages: &Vec<FoojayPackageListInfo>, from: usize) -> (r: Option<usize>)
    requires
        from <= packages@.len(),
    ensures
        match r {
            Some(i) => from <= i < packages@.len() && spec_candidate_ok(packages@[i as int])
                && (forall|j: int| from <= j < i ==> !spec_candidate_ok(#[trigger] packages@[j])),
            None => forall|j: int|
                from <= j < packages@.len() ==> !spec_candidate_ok(#[trigger] packages@[j]),
        },
{
    let mut i: usize = from;
    while i < packages.len()
        invariant
            from <= i <= packages@.len(),
            forall|j: int| from <= j < i ==> !spec_candidate_ok(#[trigger] packages@[j]),
        decreases packages@.len() - i,
    {
        let p = &packages[i];
        if p.latest_build_available && !matches!(p.archive_type, ArchiveType::Unknown(_)) {
            return Some(i);
        }
        i = i + 1;
    }
    None
}

/// What to do about a package's advertised checksum.
#[derive(Debug, Clone, Copy, PartialEq, Eq)]
pub enum ChecksumDecision {
    /// A SHA-256 checksum is advertised: verify against it.
    UseAdvertised,
    /// No checksum type at all: probe well-known checksum URLs first.
    ProbeFallback,
    /// An unrecognized checksum type: skip this candidate, not fatal.
    SkipCandidate,
}

/// Classify a package's checksum: an empty unknown type asks for the probe
/// fallback, any other unknown type skips the candidate.
pub fn classify_checksum(info: &FoojayPackageInfo) -> (r: ChecksumDecision)
    ensures
        r == match info.checksum_type {
            ChecksumType::Sha256 => ChecksumDecision::UseAdvertised,
            ChecksumType::Unknown(t) => if t@.len() == 0 {
                ChecksumDecision::ProbeFallback
            } else {
                ChecksumDecision::SkipCandidate
            },
        },
{
    match &info.checksum_type {
        ChecksumType::Sha256 => ChecksumDecision::UseAdvertised,
        ChecksumType::Unknown(t) => if t.len() == 0 {
            ChecksumDecision::ProbeFallback
        } else {
            ChecksumDecision::SkipCandidate
        },
    }
}

/// Whether the body of a probed checksum URL holds a usable checksum: its
/// trimmed text must be exactly the 64 hex digits of a SHA-256 sum.
pub fn checksum_from_probe(body: &[u8]) -> (r: Option<Vec<u8>>)
    ensures
        match r {
            Some(c) => spec_trim(body@).len() == 64 && c@ == spec_trim(body@),
            None => spec_trim(body@).len() != 64,
        },
{
    let trimmed = trim_ascii(body);
    if trimmed.len() == 64 {
        Some(trimmed)
    } else {
        None
    }
}

/// The release channel a key asks for: `ga` without a pre-release mark,
/// else the mark itself.
pub open spec fn spec_release_status(pre: crate::java_version::PreReleaseView) -> Seq<u8> {
    match pre {
        crate::java_version::PreReleaseView::Ga => GA_STATUS@,
        crate::java_version::PreReleaseView::Numeric(v) => spec_dec_digits(v as nat),
        crate::java_version::PreReleaseView::Other(v) => v,
    }
}

/// The release channel a key asks for, as executable code.
pub fn release_status_param(pre: &PreRelease) -> (r: Vec<u8>)
    ensures
        r@ =~= spec_release_status(pre@),
{
    match pre {
        PreRelease::Ga => vstd::slice::slice_to_vec(GA_STATUS.as_slice()),
        PreRelease::Numeric(v) => render_u32(*v),
        PreRelease::Other(v) => vstd::slice::slice_to_vec(v.as_slice()),
    }
}

/// How the index's response envelope reads: success between 200 and 299;
/// otherwise the distribution-not-found message maps to its own error, and
/// anything else is a plain index error.
pub fn interpret_envelope(status: u16, message: &[u8]) -> (r: Result<(), FoojayDiscoApiError>)
    ensures
        match r {
            Ok(_) => 200 <= status < 300,
            Err(e) => !(200 <= status < 300) && e == (if message@ == DIST_NOT_FOUND_MSG@ {
                FoojayDiscoApiError::InvalidDistribution
            } else {
                FoojayDiscoApiError::Api
            }),
        },
{
    if 200 <= status && status < 300 {
        Ok(())
    } else if bytes_eq(message, DIST_NOT_FOUND_MSG.as_slice()) {
        Err(FoojayDiscoApiError::InvalidDistribution)
    } else {
        Err(FoojayDiscoApiError::Api)
    }
}

/// Whether some distribution in the list answers to `name`, among its
/// synonyms.
pub open spec fn spec_name_known(list: Seq<FoojayDistributionListInfo>, name: Seq<u8>) -> bool {
    exists|i: int, j: int|
        0 <= i < list.len() && 0 <= j < list[i].synonyms@.len() && (#[trigger] list[i].synonyms@[j])@
            == name
}

/// Whether a user-chosen distribution name is valid, as executable code.
pub fn distribution_known(list: &Vec<FoojayDistributionListInfo>, name: &[u8]) -> (r: bool)
    ensures
        r == spec_name_known(list@, name@),
{
    let mut i: usize = 0;
    while i < list.len()
        invariant
            0 <= i <= list@.len(),
            forall|a: int, b: int|
                0 <= a < i && 0 <= b < list@[a].synonyms@.len() ==> (#[trigger] list@[a].synonyms@[b])@
                    != name@,
        decreases list@.len() - i,
    {
        let d = &list[i];
        let mut j: usize = 0;
        while j < d.synonyms.len()
            invariant
                0 <= j <= d.synonyms@.len(),
                d == &list[i as int],
                0 <= i < list@.len(),
                forall|b: int| 0 <= b < j ==> (#[trigger] d.synonyms@[b])@ != name@,
            decreases d.synonyms@.len() - j,
        {
            if bytes_eq(d.synonyms[j].as_slice(), name) {
                return true;
            }
            j = j + 1;
        }
        i = i + 1;
    }
    false
}

/// The requested names no distribution answers to, in order.
pub open spec fn spec_missing_names(
    list: Seq<FoojayDistributionListInfo>,
    req: Seq<Seq<u8>>,
) -> Seq<Seq<u8>>
    decreases req.len(),
{
    if req.len() == 0 {
        Seq::<Seq<u8>>::empty()
    } else {
        (if spec_name_known(list, req[0]) {
            Seq::<Seq<u8>>::empty()
        } else {
            seq![req[0]]
        }) + spec_missing_names(list, req.drop_first())
    }
}

/// The requested distribution names that the index does not know, in
/// order, as executable code.
pub fn missing_distributions(
    list: &Vec<FoojayDistributionListInfo>,
    requested: &Vec<Vec<u8>>,
) -> (r: Vec<Vec<u8>>)
    ensures
        r.deep_view() =~= spec_missing_names(list@, requested.deep_view()),
{
    let ghost dv = requested.deep_view();
    let mut out: Vec<Vec<u8>> = Vec::new();
    let mut i: usize = 0;
    proof {
        assert(dv.skip(0) =~= dv);
        assert(out.deep_view() =~= Seq::<Seq<u8>>::empty());
    }
    while i < requested.len()
        invariant
            0 <= i <= requested@.len(),
            dv == requested.deep_view(),
            dv.len() == requested@.len(),
            spec_missing_names(list@, dv) =~= out.deep_view() + spec_missing_names(
                list@,
                dv.skip(i as int),
            ),
        decreases requested@.len() - i,
    {
        proof {
            assert(dv.skip(i as int).drop_first() =~= dv.skip(i as int + 1));
            assert(dv.skip(i as int)[0] == dv[i as int]);
            assert(dv[i as int] == requested@[i as int].deep_view());
            assert(requested@[i as int].deep_view() =~= requested@[i as int]@);
        }
        let name = &requested[i];
        let ghost pre_out = out.deep_view();
        if !distribution_known(list, name.as_slice()) {
            let copy = vstd::slice::slice_to_vec(name.as_slice());
            out.push(copy);
            proof {
                assert(out.deep_view() =~~= pre_out.push(copy@));
                assert(pre_out + (seq![dv[i as int]] + spec_missing_names(
                    list@,
                    dv.skip(i as int + 1),
                )) =~= out.deep_view() + spec_missing_names(list@, dv.skip(i as int + 1)));
            }
        } else {
            proof {
                assert(pre_out + (Seq::<Seq<u8>>::empty() + spec_missing_names(
                    list@,
                    dv.skip(i as int + 1),
                )) =~= out.deep_view() + spec_missing_names(list@, dv.skip(i as int + 1)));
            }
        }
        i = i + 1;
    }
    proof {
        assert(dv.skip(dv.len() as int) =~= Seq::<Seq<u8>>::empty());
    }
    out
}

/// Whether a byte passes through a query value unencoded: letters, digits,
/// and the four unreserved marks.
pub open spec fn spec_is_unreserved(b: u8) -> bool {
    ||| DIGIT_ZERO <= b <= DIGIT_NINE
    ||| 0x41 <= b <= 0x5a
    ||| 0x61 <= b <= 0x7a
    ||| b == 0x2d  // -
    ||| b == 0x2e  // .
    ||| b == 0x5f  // _
    ||| b == 0x7e  // ~
}

/// The upper-case hex digit of a value below sixteen.
pub open spec fn spec_hex_digit(n: u8) -> u8 {
    if n < 10 {
        (DIGIT_ZERO + n) as u8
    } else {
        (0x41 + (n - 10)) as u8
    }
}

/// A query value percent-encoded: unreserved bytes pass through, every
/// other byte becomes a percent and two upper-case hex digits.
pub open spec fn spec_pct_encode(s: Seq<u8>) -> Seq<u8>
    decreases s.len(),
{
    if s.len() == 0 {
        Seq::<u8>::empty()
    } else {
        (if spec_is_unreserved(s[0]) {
            seq![s[0]]
        } else {
            seq![0x25u8, spec_hex_digit(s[0] / 16), spec_hex_digit(s[0] % 16)]
        }) + spec_pct_encode(s.drop_first())
    }
}

/// Percent-encode a query value, as executable code.
pub fn pct_encode(s: &[u8]) -> (r: Vec<u8>)
    ensures
        r@ =~= spec_pct_encode(s@),
{
    let mut out: Vec<u8> = Vec::new();
    let mut i: usize = 0;
    proof {
        assert(s@.skip(0) =~= s@);
    }
    while i < s.len()
        invariant
            0 <= i <= s@.len(),
            spec_pct_encode(s@) =~= out@ + spec_pct_encode(s@.skip(i as int)),
        decreases s@.len() - i,
    {
        proof {
            assert(s@.skip(i as int)[0] == s@[i as int]);
            assert(s@.skip(i as int).drop_first() =~= s@.skip(i as int + 1));
        }
        let b = s[i];
        let ghost pre_out = out@;
        let unreserved = (DIGIT_ZERO <= b && b <= DIGIT_NINE) || (0x41 <= b && b <= 0x5a) || (0x61
            <= b && b <= 0x7a) || b == 0x2d || b == 0x2e || b == 0x5f || b == 0x7e;
        if unreserved {
            out.push(b);
            proof {
                assert(pre_out + (seq![b] + spec_pct_encode(s@.skip(i as int + 1))) =~= out@
                    + spec_pct_encode(s@.skip(i as int + 1)));
            }
        } else {
            out.push(0x25);
            let hi = b / 16;
            let lo = b % 16;
            out.push(
                if hi < 10 {
                    DIGIT_ZERO + hi
                } else {
                    0x41 + (hi - 10)
                },
            );
            out.push(
                if lo < 10 {
                    DIGIT_ZERO + lo
                } else {
                    0x41 + (lo - 10)
                },
            );
            proof {
                assert(pre_out + (seq![0x25u8, spec_hex_digit(b / 16), spec_hex_digit(b % 16)]
                    + spec_pct_encode(s@.skip(i as int + 1))) =~= out@ + spec_pct_encode(
                    s@.skip(i as int + 1),
                ));
            }
        }
        i = i + 1;
    }
    proof {
        assert(s@.skip(s@.len() as int) =~= Seq::<u8>::empty());
        assert(out@ + Seq::<u8>::empty() =~= out@);
    }
    out
}

/// The query listing every distribution with its synonyms.
pub fn build_distributions_query() -> (r: Vec<u8>)
    ensures
        r@ =~= FOOJAY_BASE_URL@ + Q_DISTRIBUTIONS@,
{
    let mut out = vstd::slice::slice_to_vec(FOOJAY_BASE_URL.as_slice());
    push_all(&mut out, Q_DISTRIBUTIONS.as_slice());
    out
}

/// The query listing one distribution's version keys, the latest build of
/// each update.
pub fn build_distribution_info_query(distribution: &[u8]) -> (r: Vec<u8>)
    ensures
        r@ =~= FOOJAY_BASE_URL@ + Q_DISTRIBUTION_PREFIX@ + distribution@
            + Q_DISTRIBUTION_SUFFIX@,
{
    let mut out = vstd::slice::slice_to_vec(FOOJAY_BASE_URL.as_slice());
    push_all(&mut out, Q_DISTRIBUTION_PREFIX.as_slice());
    push_all(&mut out, distribution);
    push_all(&mut out, Q_DISTRIBUTION_SUFFIX.as_slice());
    out
}

/// The package query for one key on one platform: directly downloadable
/// JDK packages of the key's major and release channel, from one
/// distribution; Linux queries carry the libc flavor.
pub fn build_package_query(
    os: &[u8],
    arch: &[u8],
    libc: &[u8],
    distribution: &[u8],
    key: &VersionKey,
) -> (r: Vec<u8>)
    ensures
        r@ =~= FOOJAY_BASE_URL@ + Q_PACKAGES_PREFIX@ + spec_dec_digits(key.major as nat)
            + Q_RELEASE_STATUS@ + spec_pct_encode(spec_release_status(key.pre_release@))
            + Q_DISTRIBUTION@ + spec_pct_encode(distribution@) + Q_OPERATING_SYSTEM@
            + spec_pct_encode(os@) + Q_ARCHITECTURE@ + spec_pct_encode(arch@) + (if os@
            == OS_LINUX@ || os@ == OS_LINUX_MUSL@ {
            Q_LIBC_TYPE@ + spec_pct_encode(libc@)
        } else {
            Seq::<u8>::empty()
        }),
{
    let mut out = vstd::slice::slice_to_vec(FOOJAY_BASE_URL.as_slice());
    push_all(&mut out, Q_PACKAGES_PREFIX.as_slice());
    let major = render_u32(key.major);
    push_all(&mut out, major.as_slice());
    push_all(&mut out, Q_RELEASE_STATUS.as_slice());
    let status = release_status_param(&key.pre_release);
    let status_enc = pct_encode(status.as_slice());
    push_all(&mut out, status_enc.as_slice());
    push_all(&mut out, Q_DISTRIBUTION.as_slice());
    let dist_enc = pct_encode(distribution);
    push_all(&mut out, dist_enc.as_slice());
    push_all(&mut out, Q_OPERATING_SYSTEM.as_slice());
    let os_enc = pct_encode(os);
    push_all(&mut out, os_enc.as_slice());
    push_all(&mut out, Q_ARCHITECTURE.as_slice());
    let arch_enc = pct_encode(arch);
    push_all(&mut out, arch_enc.as_slice());
    if bytes_eq(os, OS_LINUX.as_slice()) || bytes_eq(os, OS_LINUX_MUSL.as_slice()) {
        push_all(&mut out, Q_LIBC_TYPE.as_slice());
        let libc_enc = pct_encode(libc);
        push_all(&mut out, libc_enc.as_slice());
    }
    out
}

/// One distribution's failure during the priority search.
#[derive(Debug, Clone, PartialEq, Eq)]
pub struct DistributionAttempt {
    pub distribution: Vec<u8>,
    pub error: FoojayDiscoApiError,
}

/// What resolving against one configured distribution produced.
pub struct DistributionOutcome {
    pub distribution: Vec<u8>,
    pub outcome: Result<ResolvedPackage, FoojayDiscoApiError>,
}

/// Every attempted distribution failed; each failure is kept, in the order
/// the distributions were configured.
#[derive(Debug, Clone, PartialEq, Eq)]
pub struct PriorityResolveError {
    pub attempts: Vec<DistributionAttempt>,
}

/// Whether `attempts` records exactly the failures of `done`, in order.
pub open spec fn spec_attempts_match(
    done: Seq<DistributionOutcome>,
    attempts: Seq<DistributionAttempt>,
) -> bool {
    &&& attempts.len() == done.len()
    &&& forall|i: int|
        0 <= i < done.len() ==> match (#[trigger] done[i]).outcome {
            Result::Err(e) => attempts[i].distribution == done[i].distribution && attempts[i].error
                == e,
            Result::Ok(_) => false,
        }
}

/// Resolve with distribution priority: the first success wins; when every
/// distribution fails, the error keeps each per-distribution failure, not
/// just the last.
pub fn resolve_with_priority(outcomes: Vec<DistributionOutcome>) -> (r: Result<
    ResolvedPackage,
    PriorityResolveError,
>)
    ensures
        match r {
            Ok(p) => exists|i: int|
                0 <= i < outcomes@.len() && (#[trigger] outcomes@[i]).outcome == Ok::<
                    ResolvedPackage,
                    FoojayDiscoApiError,
                >(p) && (forall|j: int| 0 <= j < i ==> outcomes@[j].outcome is Err),
            Err(pe) => spec_attempts_match(outcomes@, pe.attempts@),
        },
{
    let ghost orig = outcomes@;
    let mut rest = outcomes;
    let mut attempts: Vec<DistributionAttempt> = Vec::new();
    let ghost mut done: int = 0;
    proof {
        assert(orig.skip(0) =~= orig);
    }
    loop
        invariant
            orig == outcomes@,
            0 <= done <= orig.len(),
            rest@ =~= orig.skip(done),
            attempts@.len() == done,
            forall|i: int|
                0 <= i < done ==> match (#[trigger] orig[i]).outcome {
                    Result::Err(e) => attempts@[i].distribution == orig[i].distribution
                        && attempts@[i].error == e,
                    Result::Ok(_) => false,
                },
        decreases orig.len() - done,
    {
        if rest.len() == 0 {
            proof {
                assert(orig.skip(done) =~= Seq::<DistributionOutcome>::empty());
                assert(done == orig.len());
            }
            return Err(PriorityResolveError { attempts });
        }
        let first = rest.remove(0);
        proof {
            assert(orig.skip(done)[0] == orig[done]);
            assert(orig.skip(done).drop_first() =~= orig.skip(done + 1));
        }
        match first.outcome {
            Ok(p) => {
                proof {
                    assert(outcomes@[done].outcome == Ok::<ResolvedPackage, FoojayDiscoApiError>(
                        p,
                    ));
                    assert(forall|j: int| 0 <= j < done ==> outcomes@[j].outcome is Err);
                }
                return Ok(p);
            },
            Err(e) => {
                attempts.push(DistributionAttempt { distribution: first.distribution, error: e });
                proof {
                    done = done + 1;
                }
            },
        }
    }
}

} // verus!
