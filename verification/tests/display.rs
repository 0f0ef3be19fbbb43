use aeris::assets::Assets;
use aeris::display::{adapter_hue, on_day};

#[test]
fn a_timestamp_is_shown_as_the_day_it_names() {
    assert_eq!(on_day("2026-04-05T06:37:57.756197230+00:00"), "2026-04-05");
    assert_eq!(on_day("2026-04-05"), "2026-04-05");
    assert_eq!(on_day(""), "");
}

#[test]
fn an_adapter_is_always_drawn_in_the_same_hue() {
    // "am": ((0 * 31 + 97) * 31 + 109) % 360.
    assert_eq!(adapter_hue("am"), (97 * 31 + 109) % 360);
    assert_eq!(adapter_hue(""), 0);
    assert_eq!(adapter_hue("soar"), adapter_hue("soar"));
    assert!(adapter_hue("a-very-long-adapter-identifier-that-wraps") < 360);
}

#[test]
fn the_compiled_in_icons_are_found_by_path() {
    assert_eq!(Assets.load("icons/close.svg"), Some(0));
    assert_eq!(Assets.load("icons/open.svg"), None);
    assert_eq!(Assets.list("icons/"), ["icons/close.svg"]);
    assert!(Assets.list("fonts/").is_empty());
}
