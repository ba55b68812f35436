use video_questions::link::build_link;
use video_questions::search::search_filter;
use video_questions::timestamp::extract_timestamps;

#[test]
fn two_lines_in_order() {
    let ms = extract_timestamps("1:02:03 What is a B-tree?\n0:00:05 What is a heap?").unwrap();
    assert_eq!(ms.len(), 2);
    assert_eq!(ms[0].total_seconds, 3723);
    assert_eq!(ms[0].text, "What is a B-tree?");
    assert_eq!(ms[1].total_seconds, 5);
    assert_eq!(ms[1].text, "What is a heap?");
}

#[test]
fn one_well_formed_line() {
    let ms = extract_timestamps("12:34:56 tail text").unwrap();
    assert_eq!(ms.len(), 1);
    assert_eq!(ms[0].hours, 12);
    assert_eq!(ms[0].minutes, 34);
    assert_eq!(ms[0].seconds, 56);
    assert_eq!(ms[0].total_seconds, 12 * 3600 + 34 * 60 + 56);
    assert_eq!(ms[0].text, "tail text");
}

#[test]
fn empty_hours_count_as_zero() {
    let ms = extract_timestamps(":01:02 short").unwrap();
    assert_eq!(ms.len(), 1);
    assert_eq!(ms[0].hours, 0);
    assert_eq!(ms[0].total_seconds, 62);
}

#[test]
fn text_stops_at_line_break() {
    let ms = extract_timestamps("intro\n0:00:10 first\r\nno stamp here\n0:01:00 second").unwrap();
    assert_eq!(ms.len(), 2);
    assert_eq!(ms[0].text, "first\r");
    assert_eq!(ms[1].text, "second");
    assert_eq!(ms[1].total_seconds, 60);
}

#[test]
fn stamp_inside_a_line() {
    let ms = extract_timestamps("see 2:00:00 later").unwrap();
    assert_eq!(ms.len(), 1);
    assert_eq!(ms[0].total_seconds, 7200);
    assert_eq!(ms[0].text, "later");
}

#[test]
fn second_stamp_on_a_line_is_text() {
    let ms = extract_timestamps("0:00:01 a 0:00:02 b").unwrap();
    assert_eq!(ms.len(), 1);
    assert_eq!(ms[0].text, "a 0:00:02 b");
}

#[test]
fn duplicates_are_kept() {
    let ms = extract_timestamps("0:00:01 x\n0:00:01 x").unwrap();
    assert_eq!(ms.len(), 2);
}

#[test]
fn malformed_lines_are_skipped() {
    assert_eq!(extract_timestamps("").unwrap().len(), 0);
    assert_eq!(extract_timestamps("1:2:03 x").unwrap().len(), 0);
    assert_eq!(extract_timestamps("1:02:03x").unwrap().len(), 0);
    assert_eq!(extract_timestamps("1:02:03").unwrap().len(), 0);
}

#[test]
fn empty_text_after_space() {
    let ms = extract_timestamps("0:00:09 ").unwrap();
    assert_eq!(ms.len(), 1);
    assert_eq!(ms[0].text, "");
}

#[test]
fn long_hours_with_leading_zeros() {
    let ms = extract_timestamps("0000000000000000000000001:00:00 x").unwrap();
    assert_eq!(ms[0].total_seconds, 3600);
}

#[test]
fn offset_too_large_for_u64() {
    assert!(extract_timestamps("99999999999999999999:00:00 x").is_none());
    assert!(extract_timestamps("5124095576030432:00:00 x").is_none());
    let ms = extract_timestamps("5124095576030431:00:00 x").unwrap();
    assert_eq!(ms[0].total_seconds, 5124095576030431 * 3600);
}

#[test]
fn link_format() {
    assert_eq!(build_link("abc", 60), "https://www.youtube.com/watch?v=abc&t=60");
    assert_eq!(build_link("x_Y-9", 0), "https://www.youtube.com/watch?v=x_Y-9&t=0");
    assert_eq!(
        build_link("id", u64::MAX),
        "https://www.youtube.com/watch?v=id&t=18446744073709551615"
    );
}

#[test]
fn links_differ_in_offset_only() {
    let a = build_link("vid", 3723);
    let b = build_link("vid", 5);
    assert_ne!(a, b);
    assert!(a.starts_with("https://www.youtube.com/watch?v=vid&t="));
    assert!(b.starts_with("https://www.youtube.com/watch?v=vid&t="));
}

#[test]
fn filter_rules() {
    assert!(search_filter(None, "anything"));
    assert!(search_filter(Some(""), "anything"));
    assert!(search_filter(Some(""), ""));
    assert!(search_filter(Some("B-tree"), "What is a B-tree?"));
    assert!(!search_filter(Some("b-tree"), "What is a B-tree?"));
    assert!(!search_filter(Some("longer than text"), "short"));
    assert!(search_filter(Some("ab"), "aab"));
    assert!(search_filter(Some("é"), "café"));
}
