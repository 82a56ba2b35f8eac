//! The acquisition engine: checksum gate, archive safety, package
//! selection, priority fallback, and the install flow.

use jpre::archive::{choose_jdk_base, entry_action, visible_entries, EntryAction};
use jpre::checksum_verifier::ChecksumVerifier;
use jpre::foojay::{
    build_distribution_info_query, build_distributions_query, build_package_query,
    checksum_from_probe, classify_checksum, distribution_known, interpret_envelope,
    missing_distributions, next_candidate, release_status_param, resolve_with_priority,
    ArchiveType, ChecksumDecision, ChecksumType, DistributionOutcome, FoojayDiscoApiError,
    FoojayDistributionListInfo, FoojayPackageInfo, FoojayPackageListInfo, ResolvedPackage,
};
use jpre::java_version::key::VersionKey;
use jpre::java_version::{JavaVersion, PreRelease};
use jpre::jdk_manager::{
    full_version_from_marker, get_installed_jdks, is_installed, jdk_path, must_clear_binding,
    DownloadOutcome, InstallAction, InstallEvent, InstallFlow, InstallPhase, StoreEntry,
};

/// The SHA-256 digest of the three bytes `abc`, in hex.
const ABC_SHA256: &str = "ba7816bf8f01cfea414140de5dae2223b00361a396177a9cb410ff61f20015ad";

#[test]
fn checksum_accepts_matching_stream() {
    let mut v = ChecksumVerifier::new(ABC_SHA256.as_bytes()).unwrap();
    v.update(b"a");
    v.update(b"bc");
    assert!(v.verify());
}

#[test]
fn checksum_rejects_corrupted_stream() {
    // One corrupted byte must flip the verdict.
    let mut v = ChecksumVerifier::new(ABC_SHA256.as_bytes()).unwrap();
    v.update(b"abd");
    assert!(!v.verify());
}

#[test]
fn checksum_rejects_bad_expectations() {
    // Not hex at all.
    assert!(ChecksumVerifier::new(b"zz7816bf").is_none());
    // Hex, but not the size of a digest.
    assert!(ChecksumVerifier::new(b"ba7816bf").is_none());
    // Odd length.
    assert!(ChecksumVerifier::new(b"ba7").is_none());
}

#[test]
fn entry_safety() {
    assert_eq!(EntryAction::Extract, entry_action(b"jdk-17.0.2/bin/java"));
    assert_eq!(EntryAction::Extract, entry_action(b"./jdk/readme"));
    // Traversal and absolute paths are never written.
    assert_eq!(EntryAction::Skip, entry_action(b"../../etc/passwd"));
    assert_eq!(EntryAction::Skip, entry_action(b"/etc/passwd"));
    assert_eq!(EntryAction::Skip, entry_action(b"jdk/../../../x"));
    assert_eq!(EntryAction::Skip, entry_action(b""));
    assert_eq!(EntryAction::Skip, entry_action(b"jdk\\bin"));
    assert_eq!(EntryAction::Skip, entry_action(b"jdk\0bin"));
}

#[test]
fn jdk_root_choice() {
    // One visible entry: descend into it.
    let entries = vec![b".hidden".to_vec(), b"jdk-17.0.2".to_vec()];
    assert_eq!(Some(b"jdk-17.0.2".to_vec()), choose_jdk_base(&entries));
    // Several visible entries: the extraction root itself is the base.
    let entries = vec![b"bin".to_vec(), b"lib".to_vec()];
    assert_eq!(None, choose_jdk_base(&entries));
    assert_eq!(
        vec![b"bin".to_vec(), b"lib".to_vec()],
        visible_entries(&entries),
    );
}

#[test]
fn candidate_selection() {
    let packages = vec![
        FoojayPackageListInfo {
            archive_type: ArchiveType::TarGz,
            java_version: JavaVersion::parse(b"17.0.2").unwrap(),
            latest_build_available: false,
            pkg_info_uri: b"u0".to_vec(),
        },
        FoojayPackageListInfo {
            archive_type: ArchiveType::Unknown(b"pkg".to_vec()),
            java_version: JavaVersion::parse(b"17.0.2").unwrap(),
            latest_build_available: true,
            pkg_info_uri: b"u1".to_vec(),
        },
        FoojayPackageListInfo {
            archive_type: ArchiveType::Zip,
            java_version: JavaVersion::parse(b"17.0.2").unwrap(),
            latest_build_available: true,
            pkg_info_uri: b"u2".to_vec(),
        },
    ];
    assert_eq!(Some(2), next_candidate(&packages, 0));
    assert_eq!(None, next_candidate(&packages, 3));
}

#[test]
fn checksum_classification() {
    let sha = FoojayPackageInfo {
        direct_download_uri: b"u".to_vec(),
        checksum: b"ba".to_vec(),
        checksum_type: ChecksumType::Sha256,
    };
    assert_eq!(ChecksumDecision::UseAdvertised, classify_checksum(&sha));
    let empty = FoojayPackageInfo {
        direct_download_uri: b"u".to_vec(),
        checksum: b"".to_vec(),
        checksum_type: ChecksumType::Unknown(b"".to_vec()),
    };
    assert_eq!(ChecksumDecision::ProbeFallback, classify_checksum(&empty));
    let odd = FoojayPackageInfo {
        direct_download_uri: b"u".to_vec(),
        checksum: b"x".to_vec(),
        checksum_type: ChecksumType::Unknown(b"md5".to_vec()),
    };
    assert_eq!(ChecksumDecision::SkipCandidate, classify_checksum(&odd));
}

#[test]
fn checksum_probe() {
    let mut body = ABC_SHA256.as_bytes().to_vec();
    body.push(b'\n');
    assert_eq!(Some(ABC_SHA256.as_bytes().to_vec()), checksum_from_probe(&body));
    assert_eq!(None, checksum_from_probe(b"not a checksum\n"));
}

#[test]
fn envelope_interpretation() {
    assert!(interpret_envelope(200, b"").is_ok());
    assert!(interpret_envelope(299, b"whatever").is_ok());
    assert_eq!(
        Err(FoojayDiscoApiError::InvalidDistribution),
        interpret_envelope(404, b"Requested distribution not found"),
    );
    assert_eq!(Err(FoojayDiscoApiError::Api), interpret_envelope(500, b"boom"));
}

#[test]
fn distribution_validation() {
    let list = vec![
        FoojayDistributionListInfo {
            name: b"Temurin".to_vec(),
            synonyms: vec![b"temurin".to_vec(), b"adoptium".to_vec()],
        },
        FoojayDistributionListInfo {
            name: b"Zulu".to_vec(),
            synonyms: vec![b"zulu".to_vec()],
        },
    ];
    assert!(distribution_known(&list, b"adoptium"));
    assert!(distribution_known(&list, b"zulu"));
    assert!(!distribution_known(&list, b"nonesuch"));
    let missing = missing_distributions(
        &list,
        &vec![b"zulu".to_vec(), b"nonesuch".to_vec(), b"other".to_vec()],
    );
    assert_eq!(vec![b"nonesuch".to_vec(), b"other".to_vec()], missing);
}

fn package(version: &str) -> ResolvedPackage {
    ResolvedPackage {
        version: JavaVersion::parse(version.as_bytes()).unwrap(),
        archive_type: ArchiveType::TarGz,
        download_uri: b"https://example.invalid/jdk.tar.gz".to_vec(),
        checksum_hex: ABC_SHA256.as_bytes().to_vec(),
    }
}

#[test]
fn priority_fallback_first_success_wins() {
    // The first distribution fails, the second succeeds.
    let outcomes = vec![
        DistributionOutcome {
            distribution: b"a".to_vec(),
            outcome: Err(FoojayDiscoApiError::InvalidDistribution),
        },
        DistributionOutcome {
            distribution: b"b".to_vec(),
            outcome: Ok(package("17.0.2")),
        },
    ];
    let r = resolve_with_priority(outcomes).unwrap();
    assert_eq!(JavaVersion::parse(b"17.0.2").unwrap(), r.version);
}

#[test]
fn priority_fallback_keeps_every_failure() {
    let outcomes = vec![
        DistributionOutcome {
            distribution: b"a".to_vec(),
            outcome: Err(FoojayDiscoApiError::InvalidDistribution),
        },
        DistributionOutcome {
            distribution: b"b".to_vec(),
            outcome: Err(FoojayDiscoApiError::Api),
        },
    ];
    let e = resolve_with_priority(outcomes).unwrap_err();
    assert_eq!(2, e.attempts.len());
    assert_eq!(b"a".to_vec(), e.attempts[0].distribution);
    assert_eq!(FoojayDiscoApiError::InvalidDistribution, e.attempts[0].error);
    assert_eq!(b"b".to_vec(), e.attempts[1].distribution);
    assert_eq!(FoojayDiscoApiError::Api, e.attempts[1].error);
}

#[test]
fn release_status_forms() {
    assert_eq!(b"ga".to_vec(), release_status_param(&PreRelease::Ga));
    assert_eq!(b"2".to_vec(), release_status_param(&PreRelease::Numeric(2)));
    assert_eq!(b"ea".to_vec(), release_status_param(&PreRelease::Other(b"ea".to_vec())));
}

#[test]
fn query_building() {
    assert_eq!(
        b"https://api.foojay.io/disco/v3.0/distributions?include_versions=false&include_synonyms=true".to_vec(),
        build_distributions_query(),
    );
    assert_eq!(
        b"https://api.foojay.io/disco/v3.0/distributions/temurin?latest_per_update=true".to_vec(),
        build_distribution_info_query(b"temurin"),
    );
    let key = VersionKey::parse(b"17").unwrap();
    assert_eq!(
        b"https://api.foojay.io/disco/v3.0/packages?package_type=jdk&with_javafx_if_available=true&directly_downloadable=true&jdk_version=17&release_status=ga&distribution=temurin&operating_system=linux&architecture=x64&libc_type=glibc".to_vec(),
        build_package_query(b"linux", b"x64", b"glibc", b"temurin", &key),
    );
    // No libc parameter away from Linux, and values are percent-encoded.
    let ea = VersionKey::parse(b"21-ea").unwrap();
    assert_eq!(
        b"https://api.foojay.io/disco/v3.0/packages?package_type=jdk&with_javafx_if_available=true&directly_downloadable=true&jdk_version=21&release_status=ea&distribution=a%20b&operating_system=macos&architecture=arm64".to_vec(),
        build_package_query(b"macos", b"arm64", b"glibc", b"a b", &ea),
    );
}

#[test]
fn store_paths_and_listing() {
    let key = VersionKey::parse(b"17").unwrap();
    assert_eq!(b"/cache/jdks/17".to_vec(), jdk_path(b"/cache/jdks", &key));

    let entries = vec![
        StoreEntry { name: b"17".to_vec(), has_marker: true },
        // A directory without the marker is not installed, however complete
        // it looks.
        StoreEntry { name: b"11".to_vec(), has_marker: false },
        StoreEntry { name: b"21-ea".to_vec(), has_marker: true },
        StoreEntry { name: b"downloads".to_vec(), has_marker: true },
    ];
    let installed = get_installed_jdks(&entries);
    assert_eq!(2, installed.len());
    assert_eq!(b"17".to_vec(), installed[0].to_bytes());
    assert_eq!(b"21-ea".to_vec(), installed[1].to_bytes());

    assert!(is_installed(&installed, &VersionKey::parse(b"17").unwrap()));
    assert!(!is_installed(&installed, &VersionKey::parse(b"11").unwrap()));
}

#[test]
fn marker_reading() {
    assert_eq!(Ok(None), full_version_from_marker(None));
    let v = full_version_from_marker(Some(b"17.0.2+8")).unwrap().unwrap();
    assert_eq!(JavaVersion::parse(b"17.0.2+8").unwrap(), v);
    assert!(full_version_from_marker(Some(b"not a version")).is_err());
}

#[test]
fn binding_clearing() {
    assert!(must_clear_binding(Some(b"/cache/jdks/17"), b"/cache/jdks/17"));
    assert!(!must_clear_binding(Some(b"/cache/jdks/11"), b"/cache/jdks/17"));
    assert!(!must_clear_binding(None, b"/cache/jdks/17"));
}

/// Drive a flow through a fully successful install, returning the marker it
/// published.
fn drive_successful_install(key: &str, version: &str) -> (InstallFlow, Vec<u8>) {
    let mut flow = InstallFlow::new(VersionKey::parse(key.as_bytes()).unwrap());
    assert_eq!(InstallAction::RemoveExisting, flow.next_action());
    flow.on_event(InstallEvent::Removed(true));
    assert_eq!(InstallAction::ResolvePackage, flow.next_action());
    flow.on_event(InstallEvent::Resolved(Some(package(version))));
    assert_eq!(InstallAction::DownloadAndVerify, flow.next_action());
    flow.on_event(InstallEvent::Downloaded(DownloadOutcome::Finished {
        checksum_matched: true,
    }));
    assert_eq!(InstallAction::ExtractArchive, flow.next_action());
    flow.on_event(InstallEvent::Extracted(true));
    assert_eq!(InstallAction::LocateRoot, flow.next_action());
    flow.on_event(InstallEvent::RootLocated(true));
    assert_eq!(InstallAction::CommitRename, flow.next_action());
    flow.on_event(InstallEvent::Committed(true));
    // Temp artifacts are cleaned before the marker is published.
    assert_eq!(InstallAction::CleanupDownload, flow.next_action());
    flow.on_event(InstallEvent::CleanedUp);
    assert_eq!(InstallAction::CleanupUnpackDir, flow.next_action());
    flow.on_event(InstallEvent::CleanedUp);
    assert_eq!(InstallAction::WriteMarker, flow.next_action());
    let marker = flow.marker_bytes().unwrap();
    flow.on_event(InstallEvent::MarkerWritten(true));
    assert_eq!(InstallAction::Finish, flow.next_action());
    assert_eq!(InstallPhase::Done, flow.phase());
    (flow, marker)
}

#[test]
fn install_flow_success() {
    // A well-formed archive with a matching checksum installs, and the
    // marker holds the advertised full version.
    let (_, marker) = drive_successful_install("17", "17.0.2+8");
    assert_eq!(b"17.0.2+8".to_vec(), marker);
    let recorded = full_version_from_marker(Some(&marker)).unwrap().unwrap();
    assert_eq!(JavaVersion::parse(b"17.0.2+8").unwrap(), recorded);
}

#[test]
fn install_flow_idempotent() {
    // Two installs resolving the same package publish identical markers.
    let (_, first) = drive_successful_install("17", "17.0.2+8");
    let (_, second) = drive_successful_install("17", "17.0.2+8");
    assert_eq!(first, second);
}

#[test]
fn install_flow_checksum_gate() {
    // A corrupted download must prevent the commit: no rename, no marker.
    let mut flow = InstallFlow::new(VersionKey::parse(b"17").unwrap());
    flow.on_event(InstallEvent::Removed(true));
    flow.on_event(InstallEvent::Resolved(Some(package("17.0.2+8"))));
    flow.on_event(InstallEvent::Downloaded(DownloadOutcome::Finished {
        checksum_matched: false,
    }));
    assert_eq!(InstallPhase::Failed, flow.phase());
    // Only cleanup and the failure report remain, never a commit.
    assert_eq!(InstallAction::CleanupDownload, flow.next_action());
    flow.on_event(InstallEvent::CleanedUp);
    assert_eq!(InstallAction::Fail, flow.next_action());
}

#[test]
fn install_flow_resolution_failure_changes_nothing() {
    // A failed resolution aborts with no further filesystem action but the
    // failure report.
    let mut flow = InstallFlow::new(VersionKey::parse(b"17").unwrap());
    flow.on_event(InstallEvent::Removed(true));
    flow.on_event(InstallEvent::Resolved(None));
    assert_eq!(InstallPhase::Failed, flow.phase());
    assert_eq!(InstallAction::Fail, flow.next_action());
}

#[test]
fn install_flow_atomic_marker() {
    // Interrupted between the commit and the marker write, the key reads
    // as not installed, and a fresh install starts by overwriting.
    let mut flow = InstallFlow::new(VersionKey::parse(b"17").unwrap());
    flow.on_event(InstallEvent::Removed(true));
    flow.on_event(InstallEvent::Resolved(Some(package("17.0.2+8"))));
    flow.on_event(InstallEvent::Downloaded(DownloadOutcome::Finished {
        checksum_matched: true,
    }));
    flow.on_event(InstallEvent::Extracted(true));
    flow.on_event(InstallEvent::RootLocated(true));
    flow.on_event(InstallEvent::Committed(true));
    assert_eq!(InstallPhase::WritingMarker, flow.phase());
    // The process dies here: the directory exists, the marker does not.
    let entries = vec![StoreEntry { name: b"17".to_vec(), has_marker: false }];
    assert_eq!(0, get_installed_jdks(&entries).len());
    // The next install begins by removing the leftover directory.
    let retry = InstallFlow::new(VersionKey::parse(b"17").unwrap());
    assert_eq!(InstallAction::RemoveExisting, retry.next_action());
}

#[test]
fn install_flow_root_validation_failure() {
    // A missing java executable aborts before the commit.
    let mut flow = InstallFlow::new(VersionKey::parse(b"17").unwrap());
    flow.on_event(InstallEvent::Removed(true));
    flow.on_event(InstallEvent::Resolved(Some(package("17.0.2+8"))));
    flow.on_event(InstallEvent::Downloaded(DownloadOutcome::Finished {
        checksum_matched: true,
    }));
    flow.on_event(InstallEvent::Extracted(true));
    flow.on_event(InstallEvent::RootLocated(false));
    assert_eq!(InstallPhase::Failed, flow.phase());
    // Both temp artifacts are drained before the failure is reported.
    assert_eq!(InstallAction::CleanupDownload, flow.next_action());
    flow.on_event(InstallEvent::CleanedUp);
    assert_eq!(InstallAction::CleanupUnpackDir, flow.next_action());
    flow.on_event(InstallEvent::CleanedUp);
    assert_eq!(InstallAction::Fail, flow.next_action());
}
