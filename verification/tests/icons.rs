use aeris::icons::{
    digest_of, icon_candidates, icon_source, is_fetchable, is_stale, names, received, IconIndex,
    IconMap, REFRESH_AFTER,
};
use aeris::table::Table;

fn table(pairs: &[(&str, &str)]) -> Table<String> {
    let mut t = Table::new();
    for (k, v) in pairs {
        t.insert(k.to_string(), v.to_string());
    }
    t
}

fn exceptions() -> IconMap {
    let mut per_adapter = Table::new();
    per_adapter.insert("am".to_string(), table(&[("firefox-bin", "firefox-nightly")]));
    IconMap::new(table(&[("krita-devel", "krita")]), per_adapter)
}

fn index() -> IconIndex {
    IconIndex::new(
        "https://example.invalid/icons".to_string(),
        table(&[("krita", "png"), ("soar", "svg")]),
    )
}

#[test]
fn a_package_nobody_has_spoken_for_is_drawn_with_its_own_name() {
    assert_eq!(
        exceptions().icon_of("soar", "krita"),
        "krita",
        "the ordinary case needs no entry at all"
    );
}

#[test]
fn one_package_can_be_drawn_with_another_name() {
    assert_eq!(
        exceptions().icon_of("soar", "krita-devel"),
        "krita",
        "so the set carries one icon rather than a copy per package"
    );
}

#[test]
fn saying_it_of_a_name_says_it_of_how_that_was_packaged() {
    let map = IconMap::new(
        table(&[("firefox-developer-edition", "firefox-devedition")]),
        Table::new(),
    );

    for package in [
        "firefox-developer-edition",
        "firefox-developer-edition-bin",
        "firefox-developer-edition-deb",
    ] {
        assert_eq!(
            map.icon_of("am", package),
            "firefox-devedition",
            "{package} is the same program, built another way"
        );
    }
}

#[test]
fn a_manager_that_means_something_else_by_a_name_wins() {
    let map = exceptions();

    assert_eq!(map.icon_of("am", "firefox-bin"), "firefox-nightly");
    assert_eq!(
        map.icon_of("soar", "firefox-bin"),
        "firefox-bin",
        "a manager with no say of its own is drawn with its own name"
    );
}

#[test]
fn an_icon_is_asked_for_where_the_index_says_it_is() {
    let index = index();

    assert_eq!(
        index.url_of("soar").as_deref(),
        Some("https://example.invalid/icons/soar.svg"),
        "the extension comes from the index rather than from a guess"
    );
    assert_eq!(index.file_name("krita").as_deref(), Some("krita.png"));
}

#[test]
fn a_suffix_saying_how_it_was_packaged_is_not_part_of_the_name() {
    let index = index();

    assert_eq!(
        index.url_of("krita-bin").as_deref(),
        Some("https://example.invalid/icons/krita.png"),
        "the same program, built another way"
    );
    assert_eq!(index.file_name("krita-deb").as_deref(), Some("krita.png"));
    assert_eq!(
        index.url_of("krita-git").as_deref(),
        Some("https://example.invalid/icons/krita.png"),
        "built from a repository, still the same program"
    );
    assert_eq!(
        index.url_of("krita-nightly"),
        None,
        "a channel a project brands apart is left alone"
    );
}

#[test]
fn more_than_one_suffix_comes_off() {
    let index = IconIndex::new(
        "https://example.invalid/icons".to_string(),
        table(&[("zed-editor", "svg")]),
    );

    assert_eq!(
        index.file_name("zed-editor-stable-bin").as_deref(),
        Some("zed-editor.svg"),
        "a channel and a way of building are both only how it was packaged"
    );
}

#[test]
fn a_package_with_an_icon_of_its_own_keeps_it() {
    let index = IconIndex::new(
        "https://example.invalid/icons".to_string(),
        table(&[("soar", "svg"), ("soar-bin", "png")]),
    );

    assert_eq!(
        index.file_name("soar-bin").as_deref(),
        Some("soar-bin.png"),
        "trimming is a fallback, never an override"
    );
}

#[test]
fn a_package_the_index_does_not_name_is_never_asked_for() {
    let index = index();

    assert_eq!(index.url_of("ripgrep"), None);
    assert!(
        icon_source(&index, "ripgrep").is_err(),
        "asking anyway is an error rather than a request that will 404"
    );
}

#[test]
fn an_icon_named_outright_is_kept_under_the_digest_of_where_it_came_from() {
    let one = digest_of("https://example.invalid/a.png");
    let other = digest_of("https://example.invalid/b.png");

    assert_eq!(one, digest_of("https://example.invalid/a.png"));
    assert_ne!(one, other);
    assert!(!one.contains('/'), "a digest has to be a usable file name");
}

#[test]
fn a_digest_is_the_first_half_of_the_sha256_in_hex() {
    assert_eq!(digest_of("abc"), "ba7816bf8f01cfea414140de5dae2223");
}

#[test]
fn the_names_an_icon_might_go_by_come_off_one_suffix_at_a_time() {
    assert_eq!(names("zed-editor-stable-bin"), ["zed-editor-stable-bin", "zed-editor-stable", "zed-editor"]);
    assert_eq!(names("-bin"), ["-bin"]);
    assert_eq!(names("krita"), ["krita"]);
}

#[test]
fn a_kept_icon_is_looked_for_under_each_name_and_format() {
    assert_eq!(
        icon_candidates("/c/icons", "krita-bin"),
        [
            "/c/icons/krita-bin.svg",
            "/c/icons/krita-bin.png",
            "/c/icons/krita.svg",
            "/c/icons/krita.png"
        ]
    );
    assert_eq!(
        icon_candidates("/c/icons", "https://example.invalid/a.png"),
        [format!("/c/icons/{}", digest_of("https://example.invalid/a.png"))]
    );
}

#[test]
fn an_icon_named_by_address_is_fetched_from_it() {
    let index = IconIndex::empty();
    let url = "https://example.invalid/a.png";
    assert!(is_fetchable(url));
    assert_eq!(
        icon_source(&index, url),
        Ok((url.to_string(), digest_of(url)))
    );
    assert_eq!(
        icon_source(&index, "ripgrep"),
        Err("nothing publishes an icon for ripgrep".to_string())
    );
    assert_eq!(
        icon_source(&exceptions_index(), "soar-bin"),
        Ok((
            "https://example.invalid/icons/soar.svg".to_string(),
            "soar.svg".to_string()
        ))
    );
}

fn exceptions_index() -> IconIndex {
    index()
}

#[test]
fn an_index_with_no_base_publishes_no_address() {
    let index = IconIndex::new(String::new(), table(&[("soar", "svg")]));
    assert_eq!(index.url_of("soar"), None);
    assert_eq!(index.file_name("soar").as_deref(), Some("soar.svg"));
    assert!(!index.is_empty());
    assert!(IconIndex::empty().is_empty());
}

#[test]
fn nothing_sent_is_no_icon() {
    assert_eq!(received("u", vec![]), Err("u: nothing was sent".to_string()));
    assert_eq!(received("u", vec![1]), Ok(vec![1]));
}

#[test]
fn the_index_is_read_again_after_a_day() {
    assert!(is_stale(None, REFRESH_AFTER));
    assert!(!is_stale(Some(REFRESH_AFTER), REFRESH_AFTER));
    assert!(is_stale(Some(REFRESH_AFTER + 1), REFRESH_AFTER));
    assert!(IconMap::empty().icon_of("am", "x-bin") == "x-bin");
}
