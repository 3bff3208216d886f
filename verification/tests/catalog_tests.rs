use yen::catalog::{
    capture_cpython_version, catalog_from_json, list_pythons, resolve_python_version, Asset,
    GithubResp,
};
use yen::errors::YenError;
use yen::platform::MachineSuffix;
use yen::version::Version;

fn glibc_suffixes() -> Vec<String> {
    MachineSuffix::LinuxX64GlibC.get_suffixes()
}

fn gnu_url(version: &str) -> String {
    format!(
        "https://example.invalid/cpython-{version}-x86_64-unknown-linux-gnu-install_only.tar.gz"
    )
}

fn v3_url(version: &str) -> String {
    format!(
        "https://example.invalid/cpython-{version}-x86_64_v3-unknown-linux-gnu-install_only.tar.gz"
    )
}

#[test]
fn capture_finds_the_version() {
    assert_eq!(
        capture_cpython_version("cpython-3.12.4-x86_64-unknown-linux-gnu-install_only.tar.gz"),
        Some("3.12.4".to_owned())
    );
    assert_eq!(capture_cpython_version(gnu_url("3.11.9").as_str()), Some("3.11.9".to_owned()));
}

#[test]
fn capture_needs_the_marker_and_three_components() {
    assert_eq!(capture_cpython_version("python-3.12.4.tar.gz"), None);
    assert_eq!(capture_cpython_version("cpython-3.12-x86_64.tar.gz"), None);
    assert_eq!(capture_cpython_version("cpython-.1.2.3"), None);
}

#[test]
fn capture_takes_the_leftmost_match() {
    assert_eq!(
        capture_cpython_version("cpython-abc/cpython-1.2.3/cpython-4.5.6"),
        Some("1.2.3".to_owned())
    );
}

#[test]
fn capture_stops_at_the_third_component() {
    assert_eq!(
        capture_cpython_version("cpython-1.22.333.4-x86_64"),
        Some("1.22.333".to_owned())
    );
}

#[test]
fn urls_come_out_of_the_release_metadata_in_order() {
    let resp = GithubResp {
        assets: vec![
            Asset { browser_download_url: "https://a.invalid/one".to_owned() },
            Asset { browser_download_url: "https://a.invalid/two".to_owned() },
        ],
    };
    assert_eq!(
        resp.into_urls(),
        vec!["https://a.invalid/one".to_owned(), "https://a.invalid/two".to_owned()]
    );
}

#[test]
fn build_keeps_only_matching_suffixes() {
    let releases = vec![
        gnu_url("3.12.4"),
        "https://example.invalid/cpython-3.12.4-aarch64-apple-darwin-install_only.tar.gz"
            .to_owned(),
        "https://example.invalid/README.md".to_owned(),
    ];
    let catalog = list_pythons(&releases, &glibc_suffixes()).unwrap();
    assert_eq!(catalog.entries.len(), 1);
    assert_eq!(catalog.entries[0].url, gnu_url("3.12.4"));
}

#[test]
fn build_orders_by_version() {
    let releases = vec![gnu_url("3.12.4"), gnu_url("3.9.1"), gnu_url("3.11.9")];
    let catalog = list_pythons(&releases, &glibc_suffixes()).unwrap();
    let versions: Vec<String> =
        catalog.entries.iter().map(|e| e.version.to_string()).collect();
    assert_eq!(versions, vec!["3.9.1", "3.11.9", "3.12.4"]);
}

#[test]
fn resolve_picks_highest_match() {
    // The scenario for the highest-match rule: 3.11.0 and 3.11.9 are both
    // cataloged, and requesting "3.11" resolves to 3.11.9.
    let releases = vec![gnu_url("3.11.0"), gnu_url("3.11.9")];
    let catalog = list_pythons(&releases, &glibc_suffixes()).unwrap();
    let requested = Version::parse("3.11").unwrap();
    let (v, url) = resolve_python_version(&catalog, &requested).unwrap();
    assert_eq!(v.to_string(), "3.11.9");
    assert_eq!(url, gnu_url("3.11.9"));
}

#[test]
fn resolve_fails_without_a_match() {
    let releases = vec![gnu_url("3.11.0")];
    let catalog = list_pythons(&releases, &glibc_suffixes()).unwrap();
    let requested = Version::parse("3.12").unwrap();
    assert!(matches!(
        resolve_python_version(&catalog, &requested),
        Err(YenError::VersionNotFound)
    ));
}

#[test]
fn vectorized_build_preferred_over_generic() {
    // Simulated Linux x86_64 glibc platform: the vectorized suffix stands
    // first in the table, and wins for a release that publishes both
    // builds, in either listing order.
    let suffixes = glibc_suffixes();
    assert!(suffixes[0].contains("x86_64_v3"));

    let generic_first = vec![gnu_url("3.12.1"), v3_url("3.12.1")];
    let catalog = list_pythons(&generic_first, &suffixes).unwrap();
    assert_eq!(catalog.entries.len(), 1);
    assert_eq!(catalog.entries[0].url, v3_url("3.12.1"));

    let v3_first = vec![v3_url("3.12.1"), gnu_url("3.12.1")];
    let catalog2 = list_pythons(&v3_first, &suffixes).unwrap();
    assert_eq!(catalog2.entries.len(), 1);
    assert_eq!(catalog2.entries[0].url, v3_url("3.12.1"));
}

#[test]
fn catalog_from_json_reads_assets() {
    let json = format!(
        "{{\"assets\":[{{\"browser_download_url\":\"{}\"}},{{\"browser_download_url\":\"{}\"}}]}}",
        gnu_url("3.11.9"),
        gnu_url("3.12.4")
    );
    let catalog = catalog_from_json(json.as_str(), &glibc_suffixes()).unwrap();
    assert_eq!(catalog.entries.len(), 2);
    assert_eq!(catalog.entries[0].version.to_string(), "3.11.9");
    assert_eq!(catalog.entries[1].version.to_string(), "3.12.4");
}

#[test]
fn catalog_from_json_rejects_malformed_documents() {
    let sufs = glibc_suffixes();
    assert!(matches!(
        catalog_from_json("not json at all", &sufs),
        Err(YenError::CatalogUnavailable)
    ));
    assert!(matches!(
        catalog_from_json("{\"assets\":7}", &sufs),
        Err(YenError::CatalogUnavailable)
    ));
    assert!(matches!(
        catalog_from_json("{\"other\":[]}", &sufs),
        Err(YenError::CatalogUnavailable)
    ));
}
