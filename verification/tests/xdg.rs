use aeris::paths::join_str;
use aeris::xdg::{cache_home, config_home, data_dirs, data_home, home_relative, shared};

#[test]
fn a_relative_override_is_ignored() {
    // The specification says a relative value is invalid, and treating it
    // as valid would scatter files wherever the program was started.
    let home = Some("/home/me".to_string());
    assert!(home_relative(&Some("relative".to_string()), &home, ".config").starts_with('/'));
    assert!(home_relative(&None, &home, ".config").starts_with('/'));
}

#[test]
fn an_unset_list_falls_back_to_what_the_specification_names() {
    assert_eq!(shared(""), vec!["/usr/local/share".to_string(), "/usr/share".to_string()]);
}

#[test]
fn shared_directories_keep_the_order_they_were_listed_in() {
    assert_eq!(
        shared("/opt/aeris/share:/usr/share"),
        vec!["/opt/aeris/share".to_string(), "/usr/share".to_string()]
    );
}

#[test]
fn a_relative_entry_is_dropped_rather_than_searched() {
    assert_eq!(shared("share:/usr/share"), vec!["/usr/share".to_string()]);
}

#[test]
fn each_directory_falls_back_under_home() {
    let home = Some("/home/me".to_string());
    assert_eq!(config_home(&None, &home), "/home/me/.config");
    assert_eq!(data_home(&None, &home), "/home/me/.local/share");
    assert_eq!(cache_home(&None, &home), "/home/me/.cache");
    assert_eq!(cache_home(&Some("/var/cache/me".to_string()), &home), "/var/cache/me");
    assert_eq!(config_home(&None, &None), ".config");
    assert_eq!(data_dirs(&None), vec!["/usr/local/share".to_string(), "/usr/share".to_string()]);
}

#[test]
fn paths_are_joined_as_std_joins_them() {
    assert_eq!(join_str("/a", "b"), "/a/b");
    assert_eq!(join_str("/a/", "b"), "/a/b");
    assert_eq!(join_str("", "b"), "b");
    assert_eq!(join_str("/a", "/b"), "/b");
    assert_eq!(join_str("a", ""), "a/");
}
