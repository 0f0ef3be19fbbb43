use aeris::browse::{
    added_rows, description_or, detail_install, floating_action_bar, held_label, icons_to_start,
    install_failed, install_status, is_held, is_installing, join, listing_rows, lookup_section,
    manager_filter, on_query, package_icon, result_count_text, results_content,
    should_load_installed, shown_version, want_icons_for, worth_fetching, DetailButton,
    DetailFacts, InstallStatus, PackageFacts, QueryChange,
};
use aeris::desktop::{Desktop, DesktopEntry};
use aeris::frame::{cursor_for, resize_edges, Edge, Pointer, Tiling};
use aeris::icons::{IconIndex, IconMap};
use aeris::output::{output_title, OutputLogs};
use aeris::privilege::PackageMode;
use aeris::table::Table;
use aeris::updates::{
    limit_note, limit_notes, should_check, sync_label, update_button, updates_content, updates_header,
    ManagerLimit, NoteAction, UpdateButton,
};

fn strings(v: &[&str]) -> Vec<String> {
    v.iter().map(|s| s.to_string()).collect()
}

fn logs() -> OutputLogs {
    let mut lines = Table::new();
    lines.insert("pacman:ripgrep".to_string(), strings(&["downloading", "installing"]));
    lines.insert("pacman:fd".to_string(), Vec::new());
    OutputLogs { lines, open: Some("pacman:ripgrep".to_string()) }
}

#[test]
fn output_is_offered_only_once_something_was_written() {
    let logs = logs();
    assert!(logs.has_output("pacman:ripgrep"));
    assert!(!logs.has_output("pacman:fd"));
    assert!(!logs.has_output("pacman:bat"));
}

#[test]
fn only_the_open_panel_reads_as_open() {
    let logs = logs();
    assert!(logs.output_is_open("pacman:ripgrep"));
    assert!(!logs.output_is_open("pacman:fd"));
    let closed = OutputLogs { lines: Table::new(), open: None };
    assert!(!closed.output_is_open("pacman:ripgrep"));
}

#[test]
fn a_status_with_lines_behind_it_says_whether_they_are_shown() {
    let mut logs = logs();
    assert_eq!(logs.status_text("pacman:ripgrep", "Installing"), "Installing ▴");
    assert_eq!(logs.status_text("pacman:fd", "Installing"), "Installing");
    logs.open = None;
    assert_eq!(logs.status_text("pacman:ripgrep", "Installing"), "Installing ▾");
}

#[test]
fn an_output_panel_is_titled_with_whose_package_it_is() {
    assert_eq!(output_title("flatpak", "krita"), "flatpak · krita");
}

#[test]
fn the_updates_page_is_titled_by_mode() {
    let user = updates_header(PackageMode::User, &None, false, true, false);
    assert_eq!(user.title, "Updates (User)");
    assert_eq!(user.subtitle, "Available updates for your user packages.");
    assert!(user.update_all);
    assert!(user.check);
    assert_eq!(user.sync_label, "Sync");
    let system = updates_header(PackageMode::System, &None, false, false, true);
    assert_eq!(system.title, "Updates (System)");
    assert_eq!(system.subtitle, "Available updates for system packages.");
    assert!(!system.update_all);
    assert_eq!(system.sync_label, "Syncing...");
}

#[test]
fn a_busy_page_offers_neither_update_all_nor_check() {
    let updating = updates_header(PackageMode::User, &Some("__all__".to_string()), false, true, false);
    assert!(!updating.update_all);
    assert!(!updating.check);
    let checking = updates_header(PackageMode::User, &None, true, true, false);
    assert!(!checking.update_all);
    assert!(!checking.check);
}

#[test]
fn the_page_checks_once_by_itself() {
    assert!(should_check(false, false));
    assert!(!should_check(false, true));
    assert!(!should_check(true, false));
    assert_eq!(sync_label(true), "Syncing...");
}

#[test]
fn the_updates_page_says_where_the_check_stands() {
    assert_eq!(updates_content(true, &None, false, false).as_deref(), Some("Checking for updates..."));
    assert_eq!(
        updates_content(false, &Some("no network".to_string()), true, true).as_deref(),
        Some("Failed: no network")
    );
    assert_eq!(updates_content(false, &None, false, true).as_deref(), Some("All packages are up to date"));
    assert_eq!(
        updates_content(false, &None, false, false).as_deref(),
        Some("Click Check to look for updates")
    );
    assert_eq!(updates_content(false, &None, true, true), None);
}

fn limit(can_update_all: bool) -> ManagerLimit {
    ManagerLimit {
        adapter_id: "apt".to_string(),
        adapter_name: "APT".to_string(),
        said: "cannot update one package alone.".to_string(),
        can_update_all,
    }
}

#[test]
fn a_note_on_a_limit_names_the_manager_and_offers_what_it_can() {
    let (said, action) = limit_note(&limit(true), None, false);
    assert_eq!(said, "APT cannot update one package alone.");
    assert!(matches!(action, NoteAction::UpdateAll));
    assert!(matches!(limit_note(&limit(true), None, true).1, NoteAction::Nothing));
    assert!(matches!(limit_note(&limit(false), None, false).1, NoteAction::Nothing));
    match limit_note(&limit(true), Some("Upgrading 3 of 9".to_string()), false).1 {
        NoteAction::Working(status) => assert_eq!(status, "Upgrading 3 of 9"),
        _ => panic!("the manager's own work is shown while it runs"),
    }
}

#[test]
fn an_update_card_shows_the_update_that_takes_it_in() {
    assert!(matches!(update_button(false, &None, "fd", None), UpdateButton::Hidden));
    assert!(matches!(update_button(true, &None, "fd", None), UpdateButton::Update));
    match update_button(true, &Some("fd".to_string()), "fd", None) {
        UpdateButton::Working(label) => assert_eq!(label, "Updating..."),
        _ => panic!("the package's own update takes it in"),
    }
    match update_button(true, &Some("__all__".to_string()), "fd", Some("Done".to_string())) {
        UpdateButton::Working(label) => assert_eq!(label, "Done"),
        _ => panic!("updating everything takes it in"),
    }
    assert!(matches!(update_button(true, &Some("__batch__".to_string()), "fd", None), UpdateButton::Update));
    assert!(matches!(
        update_button(true, &Some("__batch__".to_string()), "fd", Some("Queued".to_string())),
        UpdateButton::Working(_)
    ));
    assert!(matches!(update_button(true, &Some("bat".to_string()), "fd", None), UpdateButton::Update));
}

#[test]
fn what_is_typed_decides_whether_to_search() {
    assert_eq!(on_query("ripgrep", "ripgrep"), QueryChange::Unchanged);
    assert_eq!(on_query("ripgre", "ripgrep"), QueryChange::Search);
    assert_eq!(on_query("", "ripgrep"), QueryChange::Abandon);
    assert!(should_load_installed(false, false));
    assert!(!should_load_installed(true, false));
}

#[test]
fn the_count_of_results_agrees_with_its_noun() {
    assert_eq!(result_count_text(true, 3), "Searching...");
    assert_eq!(result_count_text(false, 0), "");
    assert_eq!(result_count_text(false, 1), "1 package found");
    assert_eq!(result_count_text(false, 42), "42 packages found");
}

#[test]
fn the_filter_is_offered_only_where_there_is_a_choice() {
    assert_eq!(manager_filter(&strings(&["pacman"]), &Vec::new()), None);
    assert_eq!(
        manager_filter(&strings(&["pacman", "flatpak", "cargo"]), &Vec::new()),
        Some(vec![true, true, true])
    );
    assert_eq!(
        manager_filter(&strings(&["pacman", "flatpak", "cargo"]), &strings(&["flatpak"])),
        Some(vec![false, true, false])
    );
    assert_eq!(
        manager_filter(&strings(&["pacman", "flatpak"]), &strings(&["snap"])),
        Some(vec![true, true])
    );
}

#[test]
fn the_results_area_says_how_the_search_went() {
    assert_eq!(results_content(true, &None, false, false), Some(("Searching...".to_string(), None)));
    assert_eq!(
        results_content(false, &Some("timed out".to_string()), false, true),
        Some(("Search failed".to_string(), Some("timed out".to_string())))
    );
    assert_eq!(
        results_content(false, &None, false, true),
        Some(("No packages found".to_string(), None))
    );
    assert_eq!(
        results_content(false, &None, false, false),
        Some(("Type to search for packages".to_string(), None))
    );
    assert_eq!(results_content(false, &None, true, true), None);
    assert_eq!(install_failed("exit status 1"), "Install failed: exit status 1");
}

#[test]
fn a_package_is_held_by_its_own_word_or_by_the_list() {
    let held = strings(&["pacman:ripgrep", "soar:krita"]);
    assert!(is_held(true, &held, "pacman:fd", "pacman:fd"));
    assert!(is_held(false, &held, "pacman:ripgrep", "pacman:rg"));
    assert!(is_held(false, &held, "soar:krita#x", "soar:krita"));
    assert!(!is_held(false, &held, "pacman:fd", "pacman:fd"));
}

#[test]
fn a_card_is_installing_while_its_install_runs() {
    assert!(is_installing(&Some("fd".to_string()), "fd", false));
    assert!(is_installing(&Some("bat".to_string()), "fd", true));
    assert!(!is_installing(&Some("bat".to_string()), "fd", false));
    assert!(!is_installing(&None, "fd", true));
}

#[test]
fn a_card_offers_the_first_thing_that_applies() {
    assert!(matches!(install_status(true, true, true, true, None, true), InstallStatus::UpdateAvailable));
    assert!(matches!(install_status(true, false, true, false, None, true), InstallStatus::Installed));
    match install_status(false, false, false, true, None, true) {
        InstallStatus::Working(label) => assert_eq!(label, "Installing..."),
        _ => panic!("a running install is shown"),
    }
    assert!(matches!(install_status(false, false, false, false, None, false), InstallStatus::Hidden));
    assert!(matches!(install_status(false, false, false, false, None, true), InstallStatus::Install));
}

#[test]
fn the_detail_panel_fills_in_a_missing_version() {
    assert_eq!(shown_version("14.1.0", &Some("14.0".to_string())), "14.1.0");
    assert_eq!(shown_version("", &Some("14.0".to_string())), "14.0");
    assert_eq!(shown_version("", &None), "");
    assert_eq!(description_or(&None, "No description available"), "No description available");
    assert_eq!(description_or(&Some("Fast grep".to_string()), "No description"), "Fast grep");
    assert_eq!(held_label(true), "Installed");
    assert_eq!(held_label(false), "Not installed");
}

fn facts() -> PackageFacts {
    PackageFacts {
        homepage: Some("https://example.invalid".to_string()),
        license: None,
        size: Some("1.2 MB".to_string()),
        category: None,
        tags: strings(&["cli", "search", "grep"]),
    }
}

fn pairs(v: &[(&str, &str)]) -> Vec<(String, String)> {
    v.iter().map(|(a, b)| (a.to_string(), b.to_string())).collect()
}

#[test]
fn the_listing_fills_the_rows_it_has_values_for() {
    assert_eq!(
        listing_rows(&facts()),
        pairs(&[
            ("Homepage", "https://example.invalid"),
            ("Size", "1.2 MB"),
            ("Tags", "cli, search, grep"),
        ])
    );
    assert_eq!(join(&Vec::new(), ", "), "");
    assert_eq!(join(&strings(&["one"]), ", "), "one");
}

fn detail() -> DetailFacts {
    DetailFacts {
        homepage: Some("https://other.invalid".to_string()),
        license: Some("MIT".to_string()),
        category: None,
        kind: Some("binary".to_string()),
        source: None,
        build_date: Some("2026-04-05T06:37:57+00:00".to_string()),
        extra: pairs(&[("Maintainer", "someone")]),
    }
}

#[test]
fn a_lookup_adds_only_what_the_listing_left_out() {
    assert_eq!(
        added_rows(&facts(), &detail()),
        pairs(&[
            ("License", "MIT"),
            ("Type", "binary"),
            ("Build date", "2026-04-05"),
            ("Maintainer", "someone"),
        ])
    );
}

#[test]
fn the_lookup_section_says_how_the_lookup_went() {
    let (note, rows) = lookup_section(&facts(), true, &None, &Some(detail()));
    assert_eq!(note.as_deref(), Some("Loading details..."));
    assert!(rows.is_empty());
    let (note, rows) = lookup_section(&facts(), false, &Some("not found".to_string()), &Some(detail()));
    assert_eq!(note.as_deref(), Some("not found"));
    assert!(rows.is_empty());
    let (note, rows) = lookup_section(&facts(), false, &None, &Some(detail()));
    assert_eq!(note, None);
    assert_eq!(rows.len(), 4);
    let (note, rows) = lookup_section(&facts(), false, &None, &None);
    assert_eq!(note, None);
    assert!(rows.is_empty());
}

#[test]
fn a_finished_install_does_not_stand_in_for_the_button() {
    assert!(matches!(detail_install(true, true, &None, &None, "fd"), DetailButton::Hidden));
    assert!(matches!(detail_install(false, false, &None, &None, "fd"), DetailButton::Hidden));
    assert!(matches!(
        detail_install(false, true, &Some(("Done".to_string(), true)), &None, "fd"),
        DetailButton::Install
    ));
    match detail_install(false, true, &Some(("3/9".to_string(), false)), &None, "fd") {
        DetailButton::Working(label) => assert_eq!(label, "3/9"),
        _ => panic!("a running install is shown"),
    }
    match detail_install(false, true, &None, &Some("fd".to_string()), "fd") {
        DetailButton::Working(label) => assert_eq!(label, "Installing..."),
        _ => panic!("the install just started is shown"),
    }
}

#[test]
fn the_action_bar_counts_what_is_picked() {
    assert_eq!(
        floating_action_bar(3, "Install"),
        ("3 selected".to_string(), "Install 3".to_string())
    );
}

fn icon_map() -> IconMap {
    let mut default = Table::new();
    default.insert("krita-devel".to_string(), "krita".to_string());
    IconMap::new(default, Table::new())
}

#[test]
fn icons_are_asked_for_once_in_the_order_shown() {
    let mut fetched = Table::new();
    fetched.insert("firefox".to_string(), "/cache/firefox.png".to_string());
    let wanted = want_icons_for(
        &icon_map(),
        &pairs(&[("soar", "krita-devel"), ("pacman", "firefox"), ("pacman", "gimp"), ("am", "inkscape")]),
        &fetched,
        &strings(&["inkscape"]),
    );
    assert_eq!(wanted, strings(&["krita", "gimp"]));
}

#[test]
fn only_published_or_addressed_icons_are_fetched() {
    let mut icons = Table::new();
    icons.insert("krita".to_string(), "png".to_string());
    let index = IconIndex::new("https://example.invalid/icons".to_string(), icons);
    assert!(worth_fetching(&index, "krita"));
    assert!(worth_fetching(&index, "https://example.invalid/x.svg"));
    assert!(!worth_fetching(&index, "ripgrep"));
}

#[test]
fn no_more_icons_are_started_than_may_be_in_flight() {
    assert_eq!(icons_to_start(0, 10), 4);
    assert_eq!(icons_to_start(3, 10), 1);
    assert_eq!(icons_to_start(1, 2), 2);
    assert_eq!(icons_to_start(4, 10), 0);
    assert_eq!(icons_to_start(6, 10), 0);
}

#[test]
fn an_installed_application_lends_its_icon_first() {
    let mut desktop = Desktop::new();
    desktop.add(
        Some("krita".to_string()),
        None,
        DesktopEntry { comment: None, icon: Some("/usr/share/icons/krita.png".to_string()) },
    );
    desktop.add(Some("gimp".to_string()), None, DesktopEntry { comment: None, icon: None });
    let mut fetched = Table::new();
    fetched.insert("krita".to_string(), "/cache/krita.png".to_string());
    fetched.insert("gimp".to_string(), "/cache/gimp.png".to_string());
    let map = icon_map();
    assert_eq!(
        package_icon(&desktop, &fetched, &map, "soar", "krita").as_deref(),
        Some("/usr/share/icons/krita.png")
    );
    assert_eq!(package_icon(&desktop, &fetched, &map, "soar", "gimp").as_deref(), Some("/cache/gimp.png"));
    assert_eq!(package_icon(&desktop, &fetched, &map, "soar", "ripgrep"), None);
}

#[test]
fn a_tiled_side_takes_its_corners_with_it() {
    let free = Tiling { top: false, bottom: false, left: false, right: false };
    assert_eq!(resize_edges(free).len(), 8);
    let left = Tiling { top: false, bottom: false, left: true, right: false };
    assert_eq!(
        resize_edges(left),
        vec![Edge::Top, Edge::Bottom, Edge::Right, Edge::TopRight, Edge::BottomRight]
    );
    let all = Tiling { top: true, bottom: true, left: true, right: true };
    assert!(resize_edges(all).is_empty());
}

#[test]
fn the_pointer_says_which_way_an_edge_resizes() {
    assert_eq!(cursor_for(Edge::Top), Pointer::ResizeUp);
    assert_eq!(cursor_for(Edge::Right), Pointer::ResizeRight);
    assert_eq!(cursor_for(Edge::TopLeft), Pointer::ResizeUpLeftDownRight);
    assert_eq!(cursor_for(Edge::BottomRight), Pointer::ResizeUpLeftDownRight);
    assert_eq!(cursor_for(Edge::BottomLeft), Pointer::ResizeUpRightDownLeft);
}

#[test]
fn limit_notes_wait_for_a_check_and_keep_their_order() {
    let limits = vec![limit(true), ManagerLimit { adapter_id: "snap".to_string(), adapter_name: "Snap".to_string(), said: "updates on its own.".to_string(), can_update_all: false }];
    let mut working = Table::new();
    working.insert("apt".to_string(), "Upgrading".to_string());
    assert!(limit_notes(false, &limits, &working, false).is_empty());
    let notes = limit_notes(true, &limits, &working, false);
    assert_eq!(notes.len(), 2);
    assert_eq!(notes[0].0, "APT cannot update one package alone.");
    assert!(matches!(&notes[0].1, NoteAction::Working(s) if s == "Upgrading"));
    assert_eq!(notes[1].0, "Snap updates on its own.");
    assert!(matches!(notes[1].1, NoteAction::Nothing));
    let idle = limit_notes(true, &limits, &Table::new(), false);
    assert!(matches!(idle[0].1, NoteAction::UpdateAll));
}
