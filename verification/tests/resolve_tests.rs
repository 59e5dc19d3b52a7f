use nuget_manifest::nuget::manifest;
use nuget_manifest::nuget::NuGet;
use nuget_manifest::types::FailureCause;
use nuget_manifest::types::HttpOutcome;
use nuget_manifest::types::Package;
use nuget_manifest::types::RegistrySource;
use nuget_manifest::types::ResolutionResult;

const HELLO_HASH: &str = "094qif9n4cq4fdg459qzbhg1c6wywawwaaivx0k0x8xhbyx4vwic";

fn pkg(id: &str, version: &str, source: &str, path: &str) -> Package {
    Package {
        id: id.to_string(),
        version: version.to_string(),
        source: RegistrySource::Url(source.to_string()),
        nupkg_path: path.to_string(),
    }
}

fn response(status: u16, body: &str) -> HttpOutcome {
    HttpOutcome::Response { status, body: body.to_string() }
}

fn index_body(base: &str) -> String {
    format!(
        "{{\"version\":\"3.0.0\",\"resources\":[{{\"@id\":\"https://reg.example/search\",\"@type\":\"SearchQueryService\"}},{{\"@id\":\"{}\",\"@type\":\"PackageBaseAddress/3.0.0\"}}]}}",
        base
    )
}

#[test]
fn index_outcome_selects_and_normalizes_base_address() {
    let mut n = NuGet::new(Vec::new(), false, 1000).unwrap();
    let r = n.admit_index_outcome(
        "https://a.example/index.json",
        response(200, &index_body("https://a.example/flat")),
    );
    assert_eq!(r, Ok("https://a.example/flat/".to_string()));
}

#[test]
fn index_outcome_normalizes_path_before_query() {
    let mut n = NuGet::new(Vec::new(), false, 1000).unwrap();
    let r = n.admit_index_outcome(
        "https://a.example/index.json",
        response(200, &index_body("https://a.example/flat?sig=abc")),
    );
    assert_eq!(r, Ok("https://a.example/flat/?sig=abc".to_string()));
}

#[test]
fn index_outcome_without_base_entry_is_malformed() {
    let mut n = NuGet::new(Vec::new(), false, 1000).unwrap();
    let body = "{\"resources\":[{\"@id\":\"https://x/\",\"@type\":\"Other/1.0\"}]}";
    let r = n.admit_index_outcome("https://a.example/index.json", response(200, body));
    assert_eq!(r, Err(FailureCause::RegistryMalformed));
}

#[test]
fn index_outcome_with_undecodable_body_is_malformed() {
    let mut n = NuGet::new(Vec::new(), false, 1000).unwrap();
    let r = n.admit_index_outcome("https://a.example/index.json", response(200, "not json"));
    assert_eq!(r, Err(FailureCause::RegistryMalformed));
}

#[test]
fn index_outcome_with_error_status_is_unreachable() {
    let mut n = NuGet::new(Vec::new(), false, 1000).unwrap();
    let r = n.admit_index_outcome("https://a.example/index.json", response(503, "down"));
    assert_eq!(r, Err(FailureCause::RegistryUnreachable));
}

#[test]
fn index_outcome_without_response_is_unreachable() {
    let mut n = NuGet::new(Vec::new(), false, 1000).unwrap();
    let r = n.admit_index_outcome("https://a.example/index.json", HttpOutcome::NetworkFailure);
    assert_eq!(r, Err(FailureCause::RegistryUnreachable));
}

#[test]
fn listing_outcome_reads_flat_shape() {
    let mut n = NuGet::new(Vec::new(), true, 1000).unwrap();
    let body = "{\"versions\":[\"1.0.0\",\"2.0.0\"]}";
    let r = n.admit_listing_outcome("https://a.example/index.json", "pkg", response(200, body));
    assert_eq!(r, Ok(vec!["1.0.0".to_string(), "2.0.0".to_string()]));
}

#[test]
fn listing_outcome_flattens_paginated_shape_in_order() {
    let mut n = NuGet::new(Vec::new(), true, 1000).unwrap();
    let body = "{\"count\":2,\"items\":[{\"items\":[{\"catalogEntry\":{\"version\":\"1.0.0\"}},{\"catalogEntry\":{\"version\":\"1.1.0\"}}]},{\"items\":[{\"catalogEntry\":{\"version\":\"2.0.0\"}}]}]}";
    let r = n.admit_listing_outcome("https://a.example/index.json", "pkg", response(200, body));
    assert_eq!(
        r,
        Ok(vec!["1.0.0".to_string(), "1.1.0".to_string(), "2.0.0".to_string()])
    );
}

#[test]
fn listing_outcome_with_undecodable_body_fails_lookup() {
    let mut n = NuGet::new(Vec::new(), true, 1000).unwrap();
    let r = n.admit_listing_outcome("https://a.example/index.json", "pkg", response(200, "[]"));
    assert_eq!(r, Err(FailureCause::VersionLookupFailed));
}

#[test]
fn download_url_uses_cached_base_address() {
    let p = pkg("Serilog", "2.10.0", "https://a.example/index.json", "d/Serilog.nupkg");
    let mut n = NuGet::new(vec![p.clone()], false, 1000).unwrap();
    n.admit_index_outcome(
        "https://a.example/index.json",
        response(200, &index_body("https://a.example/flat")),
    );
    let url = n.get_download_url(&p).unwrap();
    assert_eq!(url, "https://a.example/flat/Serilog/2.10.0/Serilog.2.10.0.nupkg");
}

#[test]
fn malformed_registry_fails_every_package_on_it_without_refetch() {
    let a = pkg("Alpha", "1.0.0", "https://a.example/index.json", "d/Alpha.nupkg");
    let b = pkg("Beta", "2.0.0", "https://a.example/index.json", "d/Beta.nupkg");
    let mut n = NuGet::new(vec![a, b], false, 1000).unwrap();
    let body = "{\"resources\":[{\"@id\":\"https://x/\",\"@type\":\"Other/1.0\"}]}";
    n.admit_index_outcome("https://a.example/index.json", response(200, body));
    let artifacts = vec![Some(b"hello".to_vec()), Some(b"hello".to_vec())];
    let results = n.resolve_all(&artifacts, &Vec::new());
    // Both packages fail with the registry's one cached answer; had a second
    // fetch been attempted it could not have produced RegistryMalformed here.
    assert_eq!(results.len(), 2);
    for r in &results {
        assert!(matches!(
            r,
            ResolutionResult::Failed { cause: FailureCause::RegistryMalformed, .. }
        ));
    }
}

#[test]
fn end_to_end_collects_resolved_and_not_found() {
    let a = pkg("Alpha", "1.0.0+build", "https://a.example/index.json", "d/Alpha.nupkg");
    let b = pkg("Beta", "3.0.0", "https://b.example/index.json", "d/Beta.nupkg");
    let mut n = NuGet::new(vec![a, b], true, 1000).unwrap();
    n.admit_index_outcome(
        "https://a.example/index.json",
        response(200, &index_body("https://a.example/flat")),
    );
    n.admit_index_outcome(
        "https://b.example/index.json",
        response(200, &index_body("https://b.example/flat")),
    );
    n.admit_listing_outcome(
        "https://a.example/index.json",
        "Alpha",
        response(200, "{\"versions\":[\"0.9.0\",\"1.0.0\"]}"),
    );
    n.admit_listing_outcome(
        "https://b.example/index.json",
        "Beta",
        response(200, "{\"versions\":[\"1.0.0\",\"2.0.0\"]}"),
    );
    let artifacts = vec![Some(b"hello".to_vec()), Some(b"hello".to_vec())];
    let results = n.resolve_all(&artifacts, &Vec::new());
    assert_eq!(results.len(), 2);
    // Resolving went through the caches: a refetch would have found no
    // network and failed, not resolved.  The hash is computed after the URL
    // is built, from the artifact bytes.
    assert_eq!(
        results[0],
        ResolutionResult::Resolved {
            id: "Alpha".to_string(),
            version: "1.0.0+build".to_string(),
            url: "https://a.example/flat/Alpha/1.0.0%2Bbuild/Alpha.1.0.0%2Bbuild.nupkg"
                .to_string(),
            hash: HELLO_HASH.to_string(),
        }
    );
    assert_eq!(
        results[1],
        ResolutionResult::NotFound { id: "Beta".to_string(), version: "3.0.0".to_string() }
    );
    let m = manifest(&results);
    assert_eq!(m.len(), 1);
    assert!(matches!(&m[0], ResolutionResult::Resolved { id, .. } if id == "Alpha"));
}

#[test]
fn results_keep_input_order() {
    let a = pkg("Alpha", "1.0.0", "https://a.example/index.json", "d/Alpha.nupkg");
    let mut b = pkg("Beta", "2.0.0", "https://a.example/index.json", "d/Beta.nupkg");
    b.source = RegistrySource::NonResolvable;
    let c = pkg("Gamma", "3.0.0", "https://a.example/index.json", "d/Gamma.nupkg");
    let mut n = NuGet::new(vec![a, b, c], false, 1000).unwrap();
    n.admit_index_outcome(
        "https://a.example/index.json",
        response(200, &index_body("https://a.example/flat")),
    );
    let artifacts = vec![Some(b"hello".to_vec()), Some(b"hello".to_vec()), None];
    let results = n.resolve_all(&artifacts, &Vec::new());
    assert_eq!(results.len(), 3);
    assert!(matches!(&results[0], ResolutionResult::Resolved { id, .. } if id == "Alpha"));
    assert!(matches!(&results[1], ResolutionResult::Skipped { id, .. } if id == "Beta"));
    assert!(matches!(
        &results[2],
        ResolutionResult::Failed { id, cause: FailureCause::HashIoError, .. } if id == "Gamma"
    ));
}

#[test]
fn excluded_package_is_skipped() {
    let a = pkg("Alpha", "1.0.0", "https://a.example/index.json", "dir/Alpha.1.0.0.nupkg");
    let mut n = NuGet::new(vec![a], false, 1000).unwrap();
    let excluded = vec!["Alpha.1.0.0.nupkg".to_string()];
    let artifacts = vec![Some(b"hello".to_vec())];
    let results = n.resolve_all(&artifacts, &excluded);
    assert_eq!(
        results[0],
        ResolutionResult::Skipped { id: "Alpha".to_string(), version: "1.0.0".to_string() }
    );
}

#[test]
fn unreachable_registry_fails_resolution() {
    let a = pkg("Alpha", "1.0.0", "http://127.0.0.1:9/index.json", "d/Alpha.nupkg");
    let mut n = NuGet::new(vec![a], false, 1000).unwrap();
    let artifacts = vec![Some(b"hello".to_vec())];
    let results = n.resolve_all(&artifacts, &Vec::new());
    assert_eq!(
        results[0],
        ResolutionResult::Failed {
            id: "Alpha".to_string(),
            version: "1.0.0".to_string(),
            cause: FailureCause::RegistryUnreachable,
        }
    );
}

#[test]
fn verify_failure_reports_version_lookup_failed() {
    let a = pkg("Alpha", "1.0.0", "https://a.example/index.json", "d/Alpha.nupkg");
    let mut n = NuGet::new(vec![a], true, 1000).unwrap();
    n.admit_index_outcome(
        "https://a.example/index.json",
        response(200, &index_body("https://a.example/flat")),
    );
    n.admit_listing_outcome(
        "https://a.example/index.json",
        "Alpha",
        HttpOutcome::NetworkFailure,
    );
    let artifacts = vec![Some(b"hello".to_vec())];
    let results = n.resolve_all(&artifacts, &Vec::new());
    assert_eq!(
        results[0],
        ResolutionResult::Failed {
            id: "Alpha".to_string(),
            version: "1.0.0".to_string(),
            cause: FailureCause::VersionLookupFailed,
        }
    );
}

#[test]
fn listing_url_lowercases_the_id() {
    let url = nuget_manifest::listing::build_listing_url("https://a.example/flat/", "MyPkg");
    assert_eq!(url, "https://a.example/flat/mypkg/index.json");
}
