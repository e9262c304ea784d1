use tv_rename::cleaner::{parse_rules, Cleaner};
use tv_rename::exclude_rules::{default_rules, rules_text};

#[test]
fn test_clean() {
    let cleaner = Cleaner::new(vec!["lol", "ac3", "h264", "hdtv"]);

    assert_eq!(4, cleaner.size());

    let actual = cleaner.clean("yep.okay.SURe[H264][AC3]-LOL");
    let expected = "Yep Okay Sure";

    assert_eq!(expected, actual);
}

#[test]
fn test_load() {
    let text = rules_text(&default_rules());
    let cleaner = Cleaner::load(&text);

    assert_eq!(26, cleaner.size());
}

#[test]
fn clean_text_stays_clean() {
    let cleaner = Cleaner::new(vec!["lol", "ac3", "h264", "hdtv"]);
    let once = cleaner.clean("yep.okay.SURe[H264][AC3]-LOL");
    let twice = cleaner.clean(&once);
    assert_eq!(once, twice);
    assert_eq!(cleaner.clean("Yep Okay Sure"), "Yep Okay Sure");
}

#[test]
fn cleaned_titles_are_title_shaped() {
    let cleaner = Cleaner::new(vec!["x264"]);
    let actual = cleaner.clean("the.one_with-THE  x264 baby..shower-");
    assert_eq!(actual, "The One With The Baby Shower");
}

#[test]
fn rules_remove_inside_words() {
    let cleaner = Cleaner::new(vec!["hd"]);
    assert_eq!(cleaner.clean("shdow"), "Sow");
}

#[test]
fn rules_apply_in_order() {
    let first = Cleaner::new(vec!["ab", "b"]);
    let second = Cleaner::new(vec!["b", "ab"]);
    assert_eq!(first.clean("xaby"), "Xy");
    assert_eq!(second.clean("xaby"), "Xay");
}

#[test]
fn empty_rule_removes_nothing() {
    let cleaner = Cleaner::new(vec![""]);
    assert_eq!(cleaner.clean("one.two"), "One Two");
    assert_eq!(cleaner.clean(""), "");
}

#[test]
fn parse_rules_lowercases_and_trims() {
    let rules = parse_rules("  LOL \nAC3\n\n \t\nHdTv\r\n");
    assert_eq!(rules, vec!["lol", "ac3", "hdtv"]);
    assert_eq!(parse_rules(""), Vec::<String>::new());
}

#[test]
fn default_rules_text_has_one_rule_per_line() {
    let rules = default_rules();
    assert_eq!(rules.len(), 26);
    assert_eq!(rules[0], "aac");
    assert_eq!(rules[25], "hd");
    let text = rules_text(&vec!["a", "b"]);
    assert_eq!(text, "a\nb\n");
}
