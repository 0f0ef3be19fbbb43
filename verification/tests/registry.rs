use aeris::registry::{
    accept_manifest, adapter_path, any_stale, cache_is_stale, cache_path, cached_all, checked_registry,
    fetch_all, from, host_of, source_or_default, is_remote, local_path, manifest_source, merge, same_adapter, search_paths,
    update_for, verify_checksum, PluginEntry, Registry, RegistryMeta, Source, DEFAULT_REGISTRY_NAME,
    DEFAULT_REGISTRY_URL,
};
use aeris::version::at_least;

fn offered(id: &str, version: &str) -> PluginEntry {
    PluginEntry {
        id: id.to_string(),
        name: id.to_string(),
        version: version.to_string(),
        description: String::new(),
        manifest_url: String::new(),
        manifest_checksum_sha256: String::new(),
        repo_url: String::new(),
        source: String::new(),
    }
}

fn from_source(name: &str, ids: &[(&str, &str)]) -> Vec<PluginEntry> {
    from(
        name,
        ids.iter().map(|(id, version)| offered(id, version)).collect(),
    )
}

fn registry_of(version: u32, ids: &[(&str, &str)]) -> Registry {
    Registry {
        registry: RegistryMeta { version, updated: "now".to_string() },
        plugins: ids.iter().map(|(id, v)| offered(id, v)).collect(),
    }
}

#[test]
fn the_registry_named_first_is_the_one_offering_an_adapter() {
    let merged = merge(vec![
        from_source("work", &[("am", "1.0.0"), ("internal", "2.0.0")]),
        from_source("pkgforge", &[("am", "9.9.9"), ("pacstall", "6.4.5")]),
    ]);

    let named: Vec<(&str, &str, &str)> = merged
        .iter()
        .map(|e| (e.id.as_str(), e.version.as_str(), e.source.as_str()))
        .collect();

    assert_eq!(
        named,
        [
            ("am", "1.0.0", "work"),
            ("internal", "2.0.0", "work"),
            ("pacstall", "6.4.5", "pkgforge"),
        ]
    );
}

#[test]
fn a_registry_is_named_after_itself_when_it_is_not_named() {
    assert_eq!(
        Source::Named {
            name: "work".into(),
            url: "https://example.invalid/r.toml".into(),
        }
        .name(),
        "work"
    );
    assert_eq!(
        Source::Url(DEFAULT_REGISTRY_URL.to_string()).name(),
        DEFAULT_REGISTRY_NAME
    );
    assert_eq!(
        Source::Url("https://adapters.example.invalid/r.toml".into()).name(),
        "adapters.example.invalid"
    );
    assert_eq!(
        Source::Url("/srv/aeris/internal.toml".into()).name(),
        "internal"
    );
    assert_eq!(Source::Url("file:///srv/r.toml".into()).name(), "r");
}

#[test]
fn an_adapter_nobody_has_is_not_an_update() {
    assert_eq!(update_for(&offered("absent-adapter-test", "2.0"), None), None);
}

#[test]
fn a_newer_version_in_the_registry_is_offered() {
    let id = "update-check-test";
    let installed = || Some("1.0".to_string());

    assert_eq!(update_for(&offered(id, "1.1"), installed()).as_deref(), Some("1.1"));
    // The same version, and an older one, are both nothing to do.
    assert_eq!(update_for(&offered(id, "1.0"), installed()), None);
    assert_eq!(update_for(&offered(id, "0.9"), installed()), None);
}

#[test]
fn http_is_remote_and_a_path_is_not() {
    assert!(is_remote("https://example.com/registry.toml"));
    assert!(is_remote("http://example.com/registry.toml"));
    assert!(!is_remote("/etc/aeris/registry.toml"));
    assert!(!is_remote("./registry.toml"));
    assert!(!is_remote("file:///etc/aeris/registry.toml"));
}

#[test]
fn a_named_source_is_read_from_its_url() {
    let named = Source::Named { name: "work".into(), url: "file:///srv/r.toml".into() };
    assert_eq!(named.url(), "file:///srv/r.toml");
    assert_eq!(Source::Url("https://x.invalid/r.toml".into()).url(), "https://x.invalid/r.toml");
}

#[test]
fn a_host_stands_in_for_a_name_and_a_file_where_there_is_no_host() {
    assert_eq!(host_of("https://host.invalid"), "host.invalid");
    assert_eq!(host_of("https:///r.toml"), "r");
    assert_eq!(host_of("registry.toml"), "registry");
    assert_eq!(host_of("/srv/.hidden"), ".hidden");
    assert_eq!(host_of("/"), "/");
}

#[test]
fn a_registry_that_cannot_be_read_is_named_and_the_rest_still_offered() {
    let sources = vec![
        Source::Named { name: "work".into(), url: "/srv/work.toml".into() },
        Source::Url("https://down.invalid/r.toml".into()),
        Source::Url(DEFAULT_REGISTRY_URL.to_string()),
    ];
    let fetched = vec![
        Ok(registry_of(1, &[("am", "1.0")])),
        Err("Download failed: refused".to_string()),
        Ok(registry_of(1, &[("am", "2.0"), ("soar", "3.0")])),
    ];
    let (offered, errors) = fetch_all(&sources, fetched);
    let named: Vec<(&str, &str, &str)> = offered
        .iter()
        .map(|e| (e.id.as_str(), e.version.as_str(), e.source.as_str()))
        .collect();
    assert_eq!(named, [("am", "1.0", "work"), ("soar", "3.0", "pkgforge")]);
    assert_eq!(errors, ["down.invalid: Download failed: refused"]);
}

#[test]
fn the_oldest_copy_says_how_old_the_listing_is() {
    let sources = vec![
        Source::Url("/a.toml".into()),
        Source::Url("/b.toml".into()),
        Source::Url("/c.toml".into()),
    ];
    let cached = vec![
        Some((registry_of(1, &[("am", "1.0")]), 500i128)),
        None,
        Some((registry_of(1, &[("am", "2.0"), ("x", "1")]), 200i128)),
    ];
    let (offered, oldest) = cached_all(&sources, cached);
    assert_eq!(oldest, Some(200));
    let named: Vec<(&str, &str)> = offered.iter().map(|e| (e.id.as_str(), e.source.as_str())).collect();
    assert_eq!(named, [("am", "a"), ("x", "c")]);

    let (nothing, none) = cached_all(&sources, vec![None, None, None]);
    assert!(nothing.is_empty());
    assert_eq!(none, None);
}

#[test]
fn a_missing_or_ageless_copy_is_stale() {
    assert!(cache_is_stale(None, 10));
    assert!(cache_is_stale(Some(11), 10));
    assert!(!cache_is_stale(Some(10), 10));
    assert!(!any_stale(&vec![Some(1), Some(2)], 10));
    assert!(any_stale(&vec![Some(1), None], 10));
    assert!(!any_stale(&vec![], 10));
}

#[test]
fn a_registry_in_a_newer_format_is_refused() {
    assert!(checked_registry(registry_of(1, &[])).is_ok());
    match checked_registry(registry_of(2, &[])) {
        Err(e) => assert_eq!(
            e,
            "the registry is written in version 2, and this aeris reads up to 1"
        ),
        Ok(_) => panic!("a newer format should be refused"),
    }
}

#[test]
fn a_checksum_is_the_sha256_of_what_was_sent() {
    let empty = "e3b0c44298fc1c149afbf4c8996fb92427ae41e4649b934ca495991b7852b855";
    assert_eq!(verify_checksum(b"", empty), Ok(()));
    let abc = "ba7816bf8f01cfea414140de5dae2223b00361a396177a9cb410ff61f20015ad";
    assert_eq!(verify_checksum(b"abc", abc), Ok(()));
    assert_eq!(
        verify_checksum(b"abc", empty),
        Err(format!("Checksum mismatch: expected {empty}, got {abc}"))
    );
}

#[test]
fn a_copy_is_kept_under_the_digest_of_where_it_came_from() {
    // The first eight bytes of the SHA-256 digest of "abc".
    assert_eq!(
        cache_path("abc", "/home/me/.cache"),
        "/home/me/.cache/aeris/registry-ba7816bf8f01cfea.toml"
    );
    assert_ne!(cache_path("a", "/c"), cache_path("b", "/c"));
}

#[test]
fn a_source_is_read_as_a_path_with_home_expanded() {
    let home = || Some("/home/me".to_string());
    assert_eq!(local_path("file:///srv/r.toml", home()), "/srv/r.toml");
    assert_eq!(local_path("~/r.toml", home()), "/home/me/r.toml");
    assert_eq!(local_path("file://~/r.toml", home()), "/home/me/r.toml");
    assert_eq!(local_path("~", home()), "/home/me");
    assert_eq!(local_path("~other/r.toml", home()), "~other/r.toml");
    assert_eq!(local_path("~/r.toml", None), "~/r.toml");
    assert_eq!(local_path("./r.toml", home()), "./r.toml");
}

#[test]
fn a_manifest_goes_where_manifests_are_read_first() {
    let search = search_paths("/home/me/.local/share", &vec!["/usr/share".to_string()]);
    assert_eq!(
        search,
        [
            "/home/me/.local/share/aeris/adapters",
            "/usr/share/aeris/adapters",
            "./adapters"
        ]
    );
    assert_eq!(
        adapter_path(&search, "soar"),
        "/home/me/.local/share/aeris/adapters/soar.toml"
    );
    assert_eq!(adapter_path(&vec![], "soar"), "./adapters/soar.toml");
}

#[test]
fn a_download_is_held_to_its_checksum_and_its_id() {
    let mut entry = offered("soar", "1.0");
    assert_eq!(manifest_source(&entry), Err("soar offers no manifest".to_string()));
    entry.manifest_url = "https://x.invalid/soar.toml".to_string();
    assert_eq!(manifest_source(&entry), Ok("https://x.invalid/soar.toml".to_string()));

    assert_eq!(accept_manifest(&entry, b"id = \"soar\""), Ok("id = \"soar\"".to_string()));
    assert_eq!(
        accept_manifest(&entry, &[0xff, 0xfe]),
        Err("soar sent a manifest that is not text".to_string())
    );
    entry.manifest_checksum_sha256 =
        "ba7816bf8f01cfea414140de5dae2223b00361a396177a9cb410ff61f20015ad".to_string();
    assert_eq!(accept_manifest(&entry, b"abc"), Ok("abc".to_string()));
    assert!(accept_manifest(&entry, b"abd").unwrap_err().starts_with("Checksum mismatch"));

    assert_eq!(same_adapter(&entry, "soar"), Ok(()));
    assert_eq!(
        same_adapter(&entry, "am"),
        Err("the registry calls this soar and the manifest calls it am".to_string())
    );
}

#[test]
fn versions_are_compared_piece_by_piece() {
    assert!(at_least("1.10", "1.9"));
    assert!(!at_least("1.9", "1.10"));
    assert!(at_least("1.0", "1.0"));
    assert!(at_least("1.0.1", "1.0"));
    assert!(!at_least("1.0", "1.0.1"));
    assert!(at_least("1.0b", "1.0a"));
    assert!(at_least("2", "10a"));
}

#[test]
fn no_source_falls_back_to_the_built_in_registry() {
    assert_eq!(source_or_default(""), DEFAULT_REGISTRY_URL);
    assert_eq!(source_or_default("/srv/r.toml"), "/srv/r.toml");
}

fn ids_of(entries: &[PluginEntry]) -> Vec<(String, String, String)> {
    entries.iter().map(|e| (e.id.clone(), e.version.clone(), e.source.clone())).collect()
}

#[test]
fn merging_a_merged_listing_again_changes_nothing() {
    let listings = vec![
        from_source("work", &[("am", "1.0.0"), ("internal", "2.0.0"), ("am", "1.5.0")]),
        from_source("pkgforge", &[("am", "9.9.9"), ("pacstall", "6.4.5")]),
    ];
    let once = merge(listings);
    let twice = merge(vec![once.clone()]);
    assert_eq!(ids_of(&twice), ids_of(&once));
    assert_eq!(
        ids_of(&once),
        vec![
            ("am".to_string(), "1.0.0".to_string(), "work".to_string()),
            ("internal".to_string(), "2.0.0".to_string(), "work".to_string()),
            ("pacstall".to_string(), "6.4.5".to_string(), "pkgforge".to_string()),
        ]
    );
    assert!(merge(Vec::new()).is_empty());
}
