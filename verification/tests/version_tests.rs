use distore::version::{
    is_newer, latest_version_in_response, plain_version, update_available, Version3,
};

#[test]
fn newer_compares_most_significant_first() {
    let v = |major, minor, patch| Version3 { major, minor, patch };
    assert!(is_newer(&v(2, 0, 0), &v(1, 9, 9)));
    assert!(is_newer(&v(1, 2, 0), &v(1, 1, 9)));
    assert!(is_newer(&v(1, 1, 2), &v(1, 1, 1)));
    assert!(!is_newer(&v(1, 1, 1), &v(1, 1, 1)));
    assert!(!is_newer(&v(1, 1, 1), &v(1, 2, 0)));
}

#[test]
fn response_yields_the_newest_version() {
    let body = "{\"crate\":{\"newest_version\":\"1.2.3\"}}";
    let parts = latest_version_in_response(body).unwrap();
    assert_eq!((parts.major, parts.minor, parts.patch), (1, 2, 3));
    assert_eq!(parts.pre, "");
    assert_eq!(parts.build, "");
    let latest = plain_version(&parts).unwrap();
    assert_eq!(latest, Version3 { major: 1, minor: 2, patch: 3 });
    assert!(update_available(&Version3 { major: 1, minor: 2, patch: 2 }, &parts));
    assert!(!update_available(&Version3 { major: 1, minor: 2, patch: 3 }, &parts));
}

#[test]
fn bad_responses_yield_nothing() {
    assert!(latest_version_in_response("not json").is_none());
    assert!(latest_version_in_response("{}").is_none());
    assert!(latest_version_in_response("{\"crate\":{}}").is_none());
    assert!(latest_version_in_response("{\"crate\":{\"newest_version\":7}}").is_none());
    assert!(latest_version_in_response("{\"crate\":{\"newest_version\":\"seven\"}}").is_none());
}

#[test]
fn pre_release_versions_are_not_plain() {
    let body = "{\"crate\":{\"newest_version\":\"1.2.3-alpha.1\"}}";
    let parts = latest_version_in_response(body).unwrap();
    assert_eq!(parts.pre, "alpha.1");
    assert!(plain_version(&parts).is_none());
    // The numbers still decide whether an upgrade moves forward.
    assert!(update_available(&Version3 { major: 1, minor: 2, patch: 2 }, &parts));
}
