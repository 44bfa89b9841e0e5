use miryam::reader::outline::{outline_rows, zero_based, OutlineItem, MAX_DEPTH};

fn item(title: &str, page: Option<usize>, children: Vec<OutlineItem>) -> OutlineItem {
    OutlineItem { title: title.to_string(), page, children }
}

#[test]
fn flatten_walks_depth_first_and_tracks_depth() {
    let items = vec![
        item("A", Some(0), vec![item("A1", Some(1), vec![]), item("A2", None, vec![])]),
        item("B", Some(2), vec![]),
    ];
    let rows = outline_rows(&items);
    let titles_and_depths: Vec<(&str, usize)> = rows.iter().map(|r| (r.title.as_str(), r.depth)).collect();
    assert_eq!(
        titles_and_depths,
        vec![("A", 0), ("A1", 1), ("A2", 1), ("B", 0)],
        "深さ優先で、子は親の直後に並ぶこと"
    );
    assert_eq!(rows[2].page, None);
}

#[test]
fn a_blank_title_is_shown_as_untitled() {
    let rows = outline_rows(&vec![item("  ", Some(3), vec![])]);
    assert_eq!(rows[0].title, "(無題)");
}

#[test]
fn a_page_number_of_zero_or_less_is_rejected() {
    assert_eq!(zero_based(1), Some(0));
    assert_eq!(zero_based(12), Some(11));
    assert_eq!(zero_based(0), None);
    assert_eq!(zero_based(-3), None);
}

#[test]
fn the_outline_is_followed_sixteen_levels_deep() {
    assert_eq!(MAX_DEPTH, 16);
}
