use last_stop::bus_puzzle::localization::{
    game_title, get_text, get_text_with_args, objective_max_cost, station_a, CurrentLanguage,
    Language, LocalizedText, LocalizedTextComponent,
};
use last_stop::bus_puzzle::text::{
    fill_placeholders, placeholder_text, prefixed_number, prefixed_padded_number,
    replace_all, text_contains, text_eq,
};
use last_stop::bus_puzzle::utils::format_time;

#[test]
fn numbers_are_written_in_decimal() {
    assert_eq!(prefixed_number("", 0), "0");
    assert_eq!(prefixed_number("", 42), "42");
    assert_eq!(prefixed_number("", -7), "-7");
    assert_eq!(prefixed_number("", 1234567890123), "1234567890123");
}

#[test]
fn prefixed_numbers() {
    assert_eq!(prefixed_number("route_", 12), "route_12");
    assert_eq!(prefixed_number("x", -3), "x-3");
    assert_eq!(prefixed_padded_number("bus_", 1), "bus_001");
    assert_eq!(prefixed_padded_number("bus_", 42), "bus_042");
    assert_eq!(prefixed_padded_number("route_", 1234), "route_1234");
}

#[test]
fn replace_all_replaces_every_occurrence_left_to_right() {
    assert_eq!(replace_all("a{0}b{0}c", "{0}", "X"), "aXbXc");
    assert_eq!(replace_all("aaa", "aa", "b"), "ba");
    assert_eq!(replace_all("no match", "{1}", "Y"), "no match");
    assert_eq!(replace_all("", "x", "y"), "");
}

#[test]
fn placeholders_are_filled_in_order() {
    assert_eq!(placeholder_text(0), "{0}");
    assert_eq!(placeholder_text(12), "{12}");
    assert_eq!(fill_placeholders("{0} of {1}", &["3", "5"]), "3 of 5");
    assert_eq!(fill_placeholders("{1}-{0}-{1}", &["a", "b"]), "b-a-b");
    assert_eq!(fill_placeholders("{0}", &[]), "{0}");
}

#[test]
fn substring_and_equality() {
    assert!(text_contains("passengers gave up", "gave"));
    assert!(text_contains("abc", ""));
    assert!(!text_contains("abc", "abcd"));
    assert!(text_eq("站点", "站点"));
    assert!(!text_eq("站点", "站"));
}

#[test]
fn format_time_pads_minutes_and_seconds() {
    assert_eq!(format_time(0), "00:00");
    assert_eq!(format_time(65), "01:05");
    assert_eq!(format_time(599), "09:59");
    assert_eq!(format_time(6000), "100:00");
}

#[test]
fn language_codes_and_names() {
    assert_eq!(Language::English.code(), "en");
    assert_eq!(Language::Chinese.code(), "zh");
    assert_eq!(Language::English.display_name(), "English");
    assert_eq!(Language::Chinese.display_name(), "中文");
    assert_eq!(CurrentLanguage::default().language, Language::Chinese);
}

#[test]
fn localized_texts_pick_the_language() {
    assert_eq!(game_title().get(Language::English), "Last Stop");
    assert_eq!(game_title().get(Language::Chinese), "下一站");
    assert_eq!(get_text(&station_a(), Language::Chinese), "A站");
    let t = LocalizedText::new("{0} left", "剩余{0}");
    assert_eq!(get_text_with_args(&t, Language::English, &["4"]), "4 left");
    assert_eq!(get_text_with_args(&t, Language::Chinese, &["4"]), "剩余4");
}

#[test]
fn text_component_with_and_without_arguments() {
    let plain = LocalizedTextComponent::new(station_a());
    assert!(plain.format_args.is_none());
    assert_eq!(plain.get_text(Language::English), "Station A");
    let with = LocalizedTextComponent::with_args(objective_max_cost(), vec!["20".to_string()]);
    let en = with.get_text(Language::English);
    assert!(en.contains("20"));
    assert!(!en.contains("{0}"));
}
