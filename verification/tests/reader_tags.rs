use miryam::reader::store::Highlight;
use miryam::reader::tags::{collect_tags, matches_filter, parse_tags};

fn hl(tags: &[&str]) -> Highlight<[f64; 4], u64> {
    Highlight {
        id: "x".into(),
        page: 0,
        color: "yellow".into(),
        rects: vec![[0.0, 0.0, 0.1, 0.1]],
        quote: "q".into(),
        memo: String::new(),
        tags: tags.iter().map(|s| s.to_string()).collect(),
        llm: vec![],
        created_at: 0,
    }
}

#[test]
fn parse_tags_trims_and_drops_empties() {
    assert_eq!(parse_tags(" 重要 , あとで読む ,, "), vec!["重要", "あとで読む"]);
}

#[test]
fn parse_tags_drops_duplicates_keeping_the_first() {
    assert_eq!(parse_tags("a, b, a"), vec!["a", "b"]);
}

#[test]
fn parse_tags_of_an_empty_string_is_empty() {
    assert!(parse_tags("   ").is_empty());
}

#[test]
fn parse_tags_is_case_sensitive() {
    assert_eq!(parse_tags("A, a"), vec!["A", "a"]);
}

#[test]
fn parse_tags_trims_full_width_space() {
    assert_eq!(parse_tags("　重要　"), vec!["重要"]);
}

#[test]
fn no_filter_matches_everything() {
    assert!(matches_filter(&[], None));
    assert!(matches_filter(&["重要".into()], None));
}

#[test]
fn a_filter_matches_only_rows_carrying_that_tag() {
    let tags = vec!["重要".to_string(), "あとで".to_string()];
    assert!(matches_filter(&tags, Some("重要")));
    assert!(!matches_filter(&tags, Some("保留")));
    assert!(!matches_filter(&[], Some("重要")), "タグ無しは絞り込みに残らない");
}

#[test]
fn collect_tags_is_deduped_and_in_first_seen_order() {
    let hs = vec![hl(&["b", "a"]), hl(&["a", "c"]), hl(&[])];
    assert_eq!(collect_tags(&hs), vec!["b", "a", "c"]);
}

#[test]
fn empty_string_filter_matches_nothing_unless_the_tag_itself_is_empty() {
    assert!(!matches_filter(&["重要".into()], Some("")));
}

#[test]
fn collect_tags_of_no_highlights_is_empty() {
    let none: Vec<Highlight<[f64; 4], u64>> = vec![];
    assert!(collect_tags(&none).is_empty());
}

#[test]
fn matches_filter_is_case_sensitive() {
    assert!(!matches_filter(&["A".into()], Some("a")));
    assert!(matches_filter(&["a".into()], Some("a")));
}

#[test]
fn collect_tags_is_case_sensitive() {
    let hs = vec![hl(&["A"]), hl(&["a"])];
    assert_eq!(collect_tags(&hs), vec!["A", "a"]);
}

#[test]
fn parsed_tags_never_repeat_nor_are_empty() {
    let tags = parse_tags(",x,, y ,x,\t,y,z,");
    assert_eq!(tags, vec!["x", "y", "z"]);
}
