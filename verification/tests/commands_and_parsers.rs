//! Command decisions and the auxiliary parsers.

use jpre::adoptjdk::{
    classify_version_response, get_latest_jdk_version_url, latest_ga_version, version_digits,
    AdoptVersionEntry, AdoptiumApi, VersionQueryDisposition,
};
use jpre::command::{ListVersions, SetDefault, UpdateInstalled, UpdateTarget, UseTarget};
use jpre::content_disposition_parser::parse_filename;
use jpre::java_version::key::VersionKey;
use jpre::java_version::{JavaVersion, PreRelease};
use jpre::release_file_parser::extract_java_version;

#[test]
fn update_target_parsing() {
    assert_eq!(Ok(UpdateTarget::All), UpdateTarget::parse(b"all"));
    assert_eq!(Ok(UpdateTarget::Default), UpdateTarget::parse(b"default"));
    assert_eq!(
        Ok(UpdateTarget::VersionKey(VersionKey::parse(b"17").unwrap())),
        UpdateTarget::parse(b"17"),
    );
    assert!(UpdateTarget::parse(b"not a key").is_err());
}

#[test]
fn update_target_coverage() {
    let d = VersionKey::parse(b"17").unwrap();
    let other = VersionKey::parse(b"11").unwrap();
    assert!(UpdateTarget::All.applies_to(&other, &Some(d.clone())));
    assert!(UpdateTarget::Default.applies_to(&d, &Some(d.clone())));
    assert!(!UpdateTarget::Default.applies_to(&other, &Some(d.clone())));
    assert!(!UpdateTarget::Default.applies_to(&other, &None));
    assert!(UpdateTarget::VersionKey(other.clone()).applies_to(&other, &None));
}

#[test]
fn update_decision() {
    let installed = JavaVersion::parse(b"17.0.1").unwrap();
    let latest = JavaVersion::parse(b"17.0.2").unwrap();
    let plain = UpdateInstalled { check: false, target: UpdateTarget::All, force: false };
    assert!(plain.should_update(&installed, &latest));
    assert!(!plain.should_update(&latest, &latest));
    assert!(!plain.should_update(&latest, &installed));
    let forced = UpdateInstalled { check: false, target: UpdateTarget::All, force: true };
    assert!(forced.should_update(&latest, &latest));
}

#[test]
fn use_target_resolution() {
    assert_eq!(Ok(UseTarget::Default), UseTarget::parse(b"default"));
    let t = UseTarget::parse(b"21-ea").unwrap();
    let d = VersionKey::parse(b"17").unwrap();
    assert_eq!(b"21-ea".to_vec(), t.resolve(&Some(d.clone())).unwrap().to_bytes());
    assert_eq!(b"17".to_vec(), UseTarget::Default.resolve(&Some(d)).unwrap().to_bytes());
    assert!(UseTarget::Default.resolve(&None).is_err());
    assert!(UseTarget::parse(b"not a key").is_err());
}

#[test]
fn listing_filters() {
    let keys = vec![
        VersionKey::parse(b"17").unwrap(),
        VersionKey::parse(b"21-ea").unwrap(),
        VersionKey::parse(b"22-2").unwrap(),
    ];
    let ga_only = ListVersions { distribution: None, pre_release: false, ga: true };
    let shown = ga_only.filter_versions(keys.clone());
    assert_eq!(1, shown.len());
    assert_eq!(b"17".to_vec(), shown[0].to_bytes());

    let pre_only = ListVersions { distribution: None, pre_release: true, ga: false };
    let shown = pre_only.filter_versions(keys.clone());
    assert_eq!(2, shown.len());
    assert_eq!(b"21-ea".to_vec(), shown[0].to_bytes());
    assert_eq!(b"22-2".to_vec(), shown[1].to_bytes());

    let both = ListVersions { distribution: None, pre_release: true, ga: true };
    assert_eq!(3, both.filter_versions(keys).len());
}

#[test]
fn default_noop_detection() {
    let cmd = SetDefault { jdk: VersionKey::parse(b"17").unwrap() };
    assert!(cmd.is_noop(&Some(VersionKey::parse(b"17").unwrap())));
    assert!(!cmd.is_noop(&Some(VersionKey::parse(b"11").unwrap())));
    assert!(!cmd.is_noop(&None));
}

#[test]
fn filename_parsing() {
    assert_eq!(
        Ok(b"jdk.tar.gz".to_vec()),
        parse_filename(b"attachment; filename=jdk.tar.gz"),
    );
    // A quoted value is returned with escaped quotes unescaped; the
    // surrounding quotes are kept as they are.
    assert_eq!(
        Ok(b"\"a \"b\".zip\"".to_vec()),
        parse_filename(b"attachment; filename=\"a \\\"b\\\".zip\""),
    );
    // The extended form is refused, and a header without a filename fails.
    assert!(parse_filename(b"attachment; filename*=UTF-8''x.zip").is_err());
    assert!(parse_filename(b"attachment").is_err());
    assert!(parse_filename(b"attachment; filename=\"unterminated").is_err());
}

#[test]
fn release_file_reading() {
    let lines = vec![
        b"IMPLEMENTOR=\"Eclipse Adoptium\"".to_vec(),
        b"  JAVA_VERSION=\"17.0.2\"".to_vec(),
        b"OS_NAME=\"Linux\"".to_vec(),
    ];
    assert_eq!(Some(b"17.0.2".to_vec()), extract_java_version(&lines));
    let unquoted = vec![b"JAVA_VERSION=9".to_vec()];
    assert_eq!(Some(b"9".to_vec()), extract_java_version(&unquoted));
    let none = vec![b"OS_NAME=\"Linux\"".to_vec()];
    assert_eq!(None, extract_java_version(&none));
}

#[test]
fn adopt_urls() {
    assert_eq!(
        b"https://api.adoptopenjdk.net/v3/info/release_versions?page=0&page_size=10&release_type=ga&sort_method=DEFAULT&sort_order=DESC&vendor=adoptopenjdk&version=%5B11%2C12%29".to_vec(),
        get_latest_jdk_version_url(11),
    );
    let api = AdoptiumApi {
        base_url: b"https://api.example.invalid/v3".to_vec(),
        vendor: b"eclipse".to_vec(),
    };
    assert_eq!(
        b"https://api.example.invalid/v3/binary/latest/17/ga/linux/x64/jdk/hotspot/normal/eclipse?project=jdk".to_vec(),
        api.get_jdk_url(17, b"linux", b"x64"),
    );
    assert_eq!(
        b"https://api.example.invalid/v3/info/release_versions?architecture=x64&OS=linux&page=0&page_size=10&release_type=ga&sort_method=DEFAULT&sort_order=DESC&vendor=eclipse&version=%5B17%2C18%29".to_vec(),
        api.get_latest_jdk_version_url(17, b"linux", b"x64"),
    );
    assert_eq!(
        b"https://api.example.invalid/v3/info/release_names?architecture=x64&OS=linux&image_type=jdk&project=jdk&release_type=ga&sort_method=DEFAULT&sort_order=DESC&vendor=eclipse&page=2&page_size=20".to_vec(),
        api.get_jdk_version_list_url(2, b"linux", b"x64"),
    );
}

#[test]
fn adopt_version_listing() {
    let entries = vec![
        AdoptVersionEntry { openjdk_version: b"18-ea+2".to_vec(), is_prerelease: true },
        AdoptVersionEntry { openjdk_version: b"17.0.2+8".to_vec(), is_prerelease: false },
        AdoptVersionEntry { openjdk_version: b"17.0.1+1".to_vec(), is_prerelease: false },
    ];
    // The first general-availability entry wins, trimmed to its base.
    assert_eq!(Some(b"17.0.2".to_vec()), latest_ga_version(&entries));
    let dashed = vec![AdoptVersionEntry {
        openjdk_version: b"1.8.0_322-b06".to_vec(),
        is_prerelease: false,
    }];
    assert_eq!(Some(b"1.8.0_322".to_vec()), latest_ga_version(&dashed));
    let pre_only = vec![AdoptVersionEntry {
        openjdk_version: b"18-ea".to_vec(),
        is_prerelease: true,
    }];
    assert_eq!(None, latest_ga_version(&pre_only));
}

#[test]
fn release_name_digits() {
    assert_eq!(Some(b"17".to_vec()), version_digits(b"jdk-17.0.2+8"));
    assert_eq!(Some(b"8".to_vec()), version_digits(b"jdk8u322-b06"));
    assert_eq!(None, version_digits(b"no-digits-here"));
    // A name whose digit run reaches the end yields nothing.
    assert_eq!(None, version_digits(b"jdk-17"));
}

#[test]
fn latest_version_status() {
    assert_eq!(VersionQueryDisposition::ReadListing, classify_version_response(200));
    // An unknown major is no value, not a failure.
    assert_eq!(VersionQueryDisposition::MajorUnknown, classify_version_response(404));
    assert_eq!(VersionQueryDisposition::Failed, classify_version_response(500));
}
