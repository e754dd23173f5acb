use strscan::StringScanner;

#[test]
fn return_true_if_the_scan_pointer_is_at_the_beginning_of_the_line_false_otherwise() {
    let mut s = StringScanner::new("This is a test");
    assert!(s.beginning_of_line());
    assert_eq!(s.set_position(1), Ok(()));
    assert!(!s.beginning_of_line());

    let mut s = StringScanner::new("hello\nworld");
    assert!(s.beginning_of_line());
    assert_eq!(s.set_position(1), Ok(()));
    assert!(!s.beginning_of_line());
    assert_eq!(s.set_position(6), Ok(()));
    assert!(s.beginning_of_line());
}

#[test]
fn returns_the_value_that_scan_would_return_without_advancing_the_scan_pointer() {
    let mut s = StringScanner::new("This is a test");
    assert_eq!(s.check(r#"This"#), Ok(Some("This")));
    assert_eq!(s.matched(), Some("This"));
    assert_eq!(s.position(), 0);
    assert_eq!(s.check(r#"^is"#), Ok(None));
    assert_eq!(s.matched(), None);
}

#[test]
fn returns_the_same_value_of_scan_until_but_don_t_advances_the_scan_pointer() {
    let mut s = StringScanner::new("This is a test");
    assert_eq!(s.check_until(r#"a"#), Ok(Some("This is a")));
    assert_eq!(s.position(), 0);
    assert_eq!(s.matched(), Some("a"));
    assert_eq!(s.check_until(r#"test"#), Ok(Some("This is a test")));
}

#[test]
fn set_the_scan_pointer_to_the_end_of_the_string() {
    let mut s = StringScanner::new("This is a test");
    assert_eq!(s.terminate(), Ok(()));
    assert!(!s.bol());
    assert!(s.eos());
}

#[test]
fn scans_one_character_and_returns_it() {
    let mut s = StringScanner::new("abc");
    assert_eq!(s.getch(), Some("a"));
    assert_eq!(s.getch(), Some("b"));
    assert_eq!(s.getch(), Some("c"));
}

#[test]
fn it_returns_nil_at_the_end_of_the_string() {
    let mut s = StringScanner::new("");
    assert_eq!(s.getch(), None);

    let mut s = StringScanner::new("a");
    s.getch();
    assert_eq!(s.getch(), None);
}

#[test]
fn returns_the_last_matched_string() {
    let mut s = StringScanner::new("This is a test");
    s.scan(r#"\w+"#).unwrap();
    assert_eq!(s.matched(), Some("This"));
    s.getch();
    assert_eq!(s.matched(), Some(" "));
    assert_eq!(s.scan(r#""#), Ok(Some("")));
}

#[test]
fn returns_nil_if_theres_no_match() {
    let mut s = StringScanner::new("This is a test");
    s.scan(r#"\d+"#).unwrap();
    assert_eq!(s.matched(), None);
}

#[test]
fn return_the_matched_string() {
    let mut s = StringScanner::new("This is a test");
    assert_eq!(s.scan(r#"\w+"#), Ok(Some("This")));
    assert_eq!(s.scan(r#"..."#), Ok(Some(" is")));
    assert_eq!(s.scan(r#""#), Ok(Some("")));
    assert_eq!(s.scan(r#"\s+"#), Ok(Some(" ")));
}

#[test]
fn can_drop_string_scanner() {
    let string = "This is a test";
    let mut s = StringScanner::new(string);
    let found_substring = s.scan(r#"\w+"#);
    drop(s);
    assert_eq!(found_substring, Ok(Some("This")));
}

#[test]
fn treats_caret_as_matching_from_the_beginning_of_the_current_position() {
    let mut s = StringScanner::new("This is a test");

    assert_eq!(s.scan(r#"\w+"#), Ok(Some("This")));
    assert_eq!(s.scan(r#"^\d"#), Ok(None));
    assert_eq!(s.scan(r#"^\s"#), Ok(Some(" ")));
}

#[test]
fn returns_none_if_there_is_no_match() {
    let mut s = StringScanner::new("This is a test");

    assert_eq!(s.scan(r#"\d"#), Ok(None));
}

#[test]
fn returns_non_if_there_is_no_more_to_scan() {
    let mut s = StringScanner::new("This is a test");

    assert_eq!(s.scan(r#"[\w\s]+"#), Ok(Some("This is a test")));
    assert_eq!(s.scan(r#"\w+"#), Ok(None));
}

#[test]
fn returns_an_empty_string_when_the_pattern_matches_empty() {
    let mut s = StringScanner::new("This is a test");

    assert_eq!(s.scan(r#".*"#), Ok(Some("This is a test")));
    assert_eq!(s.scan(r#".*"#), Ok(Some("")));
    assert_eq!(s.scan(r#"."#), Ok(None));
}

#[test]
fn return_the_substring_up_to_and_including_the_end_of_the_match() {
    let mut s = StringScanner::new("This is a test");
    assert_eq!(s.scan_until(r#"a"#), Ok(Some("This is a")));
    assert_eq!(s.pre_match(), Some("This is "));
    assert_eq!(s.post_match(), Some(" test"));
}

#[test]
fn return_none_if_theres_no_match() {
    let mut s = StringScanner::new("This is a test");

    assert_eq!(s.scan_until(r#"\d"#), Ok(None));
}

#[test]
fn match_anchors_properly() {
    let mut s = StringScanner::new("This is a test");

    s.scan(r#"T"#).unwrap();
    assert_eq!(s.scan_until(r#"^h"#), Ok(Some("h")));
}

#[test]
fn return_the_pre_match_in_the_regular_expression_sense_of_the_last_scan() {
    let mut s = StringScanner::new("This is a test");
    assert_eq!(s.pre_match(), None);
    s.scan(r#"\w+\s"#).unwrap();
    assert_eq!(s.pre_match(), Some(""));
    s.getch();
    assert_eq!(s.pre_match(), Some("This "));
}

#[test]
fn return_nil_if_theres_no_match() {
    let mut s = StringScanner::new("This is a test");
    s.scan(r#"^\s+"#).unwrap();
    assert_eq!(s.pre_match(), None);
}

#[test]
fn be_more_than_just_the_data_from_the_last_match() {
    let mut s = StringScanner::new("This is a test");
    s.scan(r#"\w+"#).unwrap();
    s.scan_until(r#"a te"#).unwrap();
    assert_eq!(s.pre_match(), Some("This is "));
}

#[test]
fn be_invalidated_when_the_scanners_position_changes() {
    let mut s = StringScanner::new("This is a test");
    s.scan_until(r#"\s+"#).unwrap();
    assert_eq!(s.pre_match(), Some("This"));
    assert_eq!(s.set_position(0), Ok(()));
    assert_eq!(s.pre_match(), None);
}

#[test]
fn return_the_post_match_in_the_regular_expression_sense_of_the_last_scan() {
    let mut s = StringScanner::new("This is a test");
    assert_eq!(s.post_match(), None);
    s.scan(r#"\w+\s"#).unwrap();
    assert_eq!(s.post_match(), Some("is a test"));
    s.getch();
    assert_eq!(s.post_match(), Some("s a test"));
}

#[test]
fn lib_return_nil_if_theres_no_match() {
    let mut s = StringScanner::new("This is a test");
    s.scan(r#"^\s+"#).unwrap();
    assert_eq!(s.post_match(), None);
}
