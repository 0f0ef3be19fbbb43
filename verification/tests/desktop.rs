use aeris::desktop::{
    application_dirs, better, binary_of, desktop_file_stem, flat_candidates, icon_dirs, parse,
    size_of, Desktop, DesktopEntry, PREFERRED_ICON_SIZE,
};

#[test]
fn only_the_first_group_is_read() {
    let parsed = parse(
        "[Desktop Entry]\n\
         Name=FireDragon\n\
         Comment=Browse the World Wide Web\n\
         Icon=firedragon\n\
         Exec=/home/me/.local/bin/firedragon %u\n\
         \n\
         [Desktop Action new-window]\n\
         Name=New Window\n\
         Comment=Open a window\n\
         Icon=window-new\n\
         Exec=/home/me/.local/bin/firedragon --new-window %u\n",
    )
    .expect("the entry should be read");

    assert_eq!(parsed.comment.as_deref(), Some("Browse the World Wide Web"));
    assert_eq!(parsed.icon.as_deref(), Some("firedragon"));
}

#[test]
fn a_command_is_named_without_its_path_or_arguments() {
    assert_eq!(
        binary_of("/home/me/.local/share/soar/bin/newpipe ").as_deref(),
        Some("newpipe")
    );
    assert_eq!(
        binary_of("\"/usr/bin/my app\" %U").as_deref(),
        Some("my app")
    );
    assert_eq!(binary_of("").as_deref(), None);
}

#[test]
fn an_entry_that_asks_not_to_be_shown_is_skipped() {
    assert!(parse("[Desktop Entry]\nName=Hidden\nNoDisplay=true\n").is_none());
}

#[test]
fn the_size_a_theme_directory_holds_is_read_from_its_name() {
    assert_eq!(size_of("128x128"), 128);
    assert_eq!(size_of("67x80"), 67);
    assert_eq!(size_of("64x64@2"), 64);
    assert_eq!(size_of("scalable"), PREFERRED_ICON_SIZE);
    assert_eq!(size_of("apps"), 0);
}

#[test]
fn the_size_nearest_the_one_drawn_wins() {
    let small = better(None, (32, String::from("small")));
    let near = better(small, (64, String::from("near")));
    let large = better(near, (512, String::from("large")));

    assert_eq!(large.map(|(_, path)| path), Some(String::from("near")));
}

#[test]
fn of_two_equally_far_off_the_larger_wins() {
    let small = better(None, (32, "small"));
    assert_eq!(better(small, (96, "large")), Some((96, "large")));
    assert_eq!(better(Some((96, "large")), (32, "small")), Some((96, "large")));
}

#[test]
fn the_trimmed_and_unusual_sizes_read_as_written() {
    assert_eq!(size_of("+48x48"), 48);
    assert_eq!(size_of("symbolic"), 64);
    assert_eq!(size_of("x"), 0);
    assert_eq!(size_of("99999999999x1"), 0);
}

#[test]
fn an_entry_without_a_name_is_not_one() {
    assert!(parse("[Desktop Entry]\nComment=Nothing\n").is_none());
    assert!(parse("Name=Outside\n[Desktop Entry]\nComment=x\n").is_none());
    assert!(parse("[Desktop Entry]\nName=Shown\nHidden=false\n").is_some());
}

#[test]
fn try_exec_is_preferred_to_exec() {
    let parsed = parse(
        "[Desktop Entry]\r\nName = Tool\r\nExec=/usr/bin/tool-launcher --x\r\nTryExec=/opt/tool/bin/tool\r\n",
    )
    .expect("the entry should be read");
    assert_eq!(parsed.binary.as_deref(), Some("tool"));
    assert_eq!(parsed.comment, None);
}

#[test]
fn the_command_is_a_surer_match_than_the_file_name() {
    let mut desktop = Desktop::new();
    let entry = |c: &str| DesktopEntry { comment: Some(c.to_string()), icon: None };
    desktop.add(Some("firefox".into()), Some("org.mozilla.firefox".into()), entry("first"));
    desktop.add(Some("other".into()), Some("firefox".into()), entry("by file"));
    desktop.add(Some("firefox".into()), None, entry("later"));

    assert_eq!(desktop.find("firefox").and_then(|e| e.comment.as_deref()), Some("first"));
    assert_eq!(
        desktop.find("org.mozilla.firefox").and_then(|e| e.comment.as_deref()),
        Some("first")
    );
    assert!(desktop.find("nothing").is_none());
}

#[test]
fn a_desktop_file_is_known_by_its_extension() {
    assert_eq!(
        desktop_file_stem("/usr/share/applications/org.kde.krita.desktop").as_deref(),
        Some("org.kde.krita")
    );
    assert_eq!(desktop_file_stem("/usr/share/applications/readme.txt"), None);
    assert_eq!(desktop_file_stem("/usr/share/applications/.desktop"), None);
}

#[test]
fn entries_and_icons_are_looked_for_in_the_order_the_specification_gives() {
    let shared = vec!["/usr/local/share".to_string(), "/usr/share".to_string()];
    assert_eq!(
        application_dirs("/home/me/.local/share", &shared),
        [
            "/home/me/.local/share/applications",
            "/usr/local/share/applications",
            "/usr/share/applications"
        ]
    );
    assert_eq!(
        icon_dirs("/home/me/.local/share", &Some("/home/me".to_string()), &shared),
        [
            "/home/me/.local/share/icons",
            "/home/me/.icons",
            "/usr/local/share/icons",
            "/usr/local/share/pixmaps",
            "/usr/share/icons",
            "/usr/share/pixmaps"
        ]
    );
    assert_eq!(
        flat_candidates("/usr/share/pixmaps", "krita"),
        [
            "/usr/share/pixmaps/krita.svg",
            "/usr/share/pixmaps/krita.png",
            "/usr/share/pixmaps/krita.xpm"
        ]
    );
}

#[test]
fn only_what_the_entry_group_says_counts() {
    let parsed = parse(
        "Name=Before\n\
         [Other]\n\
         Name=Other\n\
         [Desktop Entry]\n\
         Name=First\n\
         a line without a value\n\
         Comment=old\n\
         Comment=new\n\
         Exec=/usr/bin/editor %f\n\
         TryExec=tryable\n\
         [Desktop Action New]\n\
         NoDisplay=true\n\
         Exec=other\n",
    )
    .expect("the entry group names the entry and hides nothing");
    assert_eq!(parsed.comment.as_deref(), Some("new"));
    assert_eq!(parsed.binary.as_deref(), Some("tryable"));
    assert_eq!(parsed.icon, None);
    assert!(parse("[Desktop Entry]\nComment=no name\n").is_none());
    assert!(parse("Name=outside\n").is_none());
    assert!(parse("[Desktop Entry]\nName=x\nHidden=false\nNoDisplay=true\n").is_none());
}

#[test]
fn a_blank_command_names_nothing() {
    assert_eq!(binary_of(""), None);
    assert_eq!(binary_of("   "), None);
    assert_eq!(binary_of("/usr/bin/"), Some("bin".to_string()));
}
