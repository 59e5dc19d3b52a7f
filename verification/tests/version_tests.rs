use nuget_manifest::version::normalize_version;
use nuget_manifest::version::version_in_listing;

#[test]
fn normalize_strips_build_metadata() {
    assert_eq!(normalize_version("1.2.3+build.5"), "1.2.3");
}

#[test]
fn normalize_keeps_plain_version() {
    assert_eq!(normalize_version("1.2.3"), "1.2.3");
}

#[test]
fn normalize_strips_from_first_plus() {
    assert_eq!(normalize_version("1.0.0+a+b"), "1.0.0");
    assert_eq!(normalize_version("+leading"), "");
    assert_eq!(normalize_version(""), "");
}

#[test]
fn normalize_keeps_prerelease_tag() {
    assert_eq!(normalize_version("2.0.0-beta.1+sha.abcdef"), "2.0.0-beta.1");
}

#[test]
fn membership_ignores_build_metadata_of_request() {
    let listing = vec!["1.0.0".to_string(), "2.0.0".to_string()];
    assert!(version_in_listing(&listing, "2.0.0+meta"));
    assert!(version_in_listing(&listing, "1.0.0"));
    assert!(!version_in_listing(&listing, "3.0.0"));
}

#[test]
fn membership_compares_listing_entries_as_given() {
    let listing = vec!["1.0.0+keep".to_string()];
    assert!(!version_in_listing(&listing, "1.0.0"));
    assert!(version_in_listing(&listing, "1.0.0+keep+more") == false);
}
