use miryam::reader::ui_logic::{advance, selected_index, should_restart, status_text, STATUS_IDLE};

#[test]
fn advance_without_hits_goes_nowhere() {
    assert_eq!(advance(None, 0, 1), None);
    assert_eq!(advance(None, 0, -1), None);
    assert_eq!(advance(Some(0), 0, 1), None, "一覧を捨てた直後でも落ちない");
}

#[test]
fn advance_from_nothing_starts_at_the_first_when_going_forward() {
    assert_eq!(advance(None, 3, 1), Some(0));
}

#[test]
fn advance_from_nothing_starts_at_the_last_when_going_backward() {
    assert_eq!(advance(None, 3, -1), Some(2));
}

#[test]
fn advance_steps_one_at_a_time() {
    assert_eq!(advance(Some(0), 3, 1), Some(1));
    assert_eq!(advance(Some(1), 3, 1), Some(2));
    assert_eq!(advance(Some(2), 3, -1), Some(1));
}

#[test]
fn advance_wraps_around_at_both_ends() {
    assert_eq!(advance(Some(2), 3, 1), Some(0), "末尾の次は先頭");
    assert_eq!(advance(Some(0), 3, -1), Some(2), "先頭の前は末尾");
}

#[test]
fn advance_with_a_single_hit_stays_put() {
    assert_eq!(advance(Some(0), 1, 1), Some(0));
    assert_eq!(advance(Some(0), 1, -1), Some(0));
    assert_eq!(advance(None, 1, 1), Some(0));
    assert_eq!(advance(None, 1, -1), Some(0));
}

#[test]
fn advance_keeps_a_stale_index_inside_the_list() {
    let next = advance(Some(9), 3, 1).expect("一致があるので進める");
    assert!(next < 3, "はみ出した位置から進んでも一覧の中に収まること: {next}");
    let prev = advance(Some(9), 3, -1).expect("一致があるので戻れる");
    assert!(prev < 3, "戻る側も同じ: {prev}");
}

#[test]
fn forward_then_back_returns_to_the_start() {
    for len in 1..6usize {
        for i in 0..len {
            let j = advance(Some(i), len, 1).unwrap();
            assert_eq!(advance(Some(j), len, -1), Some(i));
        }
    }
}

#[test]
fn status_while_running_shows_the_running_total() {
    assert_eq!(status_text(true, true, 2, 5), "検索中… (5 件)");
}

#[test]
fn running_wins_over_every_other_message() {
    assert_eq!(status_text(true, false, 0, 0), "検索中… (0 件)", "始めた直後もまず検索中");
    assert_eq!(status_text(true, true, 0, 0), "検索中… (0 件)");
}

#[test]
fn status_before_any_search_is_the_idle_message() {
    assert_eq!(status_text(false, false, 0, 0), STATUS_IDLE);
}

#[test]
fn status_after_a_fruitless_search_says_so() {
    assert_eq!(status_text(false, true, 0, 0), "見つかりませんでした");
}

#[test]
fn status_after_a_search_counts_marks_and_pages() {
    assert_eq!(status_text(false, true, 2, 5), "5 件見つかりました (2 ページ)");
}

#[test]
fn status_does_not_confuse_marks_with_pages() {
    assert_eq!(status_text(false, true, 1, 7), "7 件見つかりました (1 ページ)");
}

#[test]
fn the_first_enter_starts_a_search() {
    assert!(should_restart(None, "重要"));
}

#[test]
fn the_same_query_moves_on_instead_of_searching_again() {
    assert!(!should_restart(Some("重要"), "重要"));
}

#[test]
fn a_changed_query_starts_over() {
    assert!(should_restart(Some("重要"), "重要な"));
    assert!(should_restart(Some("重要"), ""), "空にしたのも別の語");
}

#[test]
fn should_restart_compares_the_text_as_typed() {
    assert!(should_restart(Some("abc"), "ABC"));
    assert!(should_restart(Some("abc"), "abc "));
}

#[test]
fn never_searched_differs_from_having_searched_for_nothing() {
    assert!(should_restart(None, ""));
    assert!(!should_restart(Some(""), ""));
}

fn tags(items: &[&str]) -> Vec<String> {
    items.iter().map(|s| s.to_string()).collect()
}

#[test]
fn no_filter_selects_the_first_item() {
    assert_eq!(selected_index(&tags(&["a", "b"]), None), 0);
}

#[test]
fn a_filter_selects_its_tag_one_below_the_all_item() {
    let all = tags(&["a", "b", "c"]);
    assert_eq!(selected_index(&all, Some("a")), 1);
    assert_eq!(selected_index(&all, Some("b")), 2);
    assert_eq!(selected_index(&all, Some("c")), 3);
}

#[test]
fn an_unknown_filter_falls_back_to_the_all_item() {
    assert_eq!(selected_index(&tags(&["a"]), Some("b")), 0);
    assert_eq!(selected_index(&[], Some("a")), 0);
}

#[test]
fn the_first_tag_is_never_at_index_zero() {
    assert_ne!(selected_index(&tags(&["a", "b"]), Some("a")), 0);
}

#[test]
fn selected_index_is_case_sensitive() {
    assert_eq!(selected_index(&tags(&["A"]), Some("a")), 0, "違うタグなので「すべて」");
}

#[test]
fn selected_index_picks_the_first_of_duplicates() {
    assert_eq!(selected_index(&tags(&["a", "b", "a"]), Some("a")), 1);
}

#[test]
fn stepping_back_then_forward_returns_at_both_ends() {
    for len in 1..5usize {
        for i in 0..len {
            let back = advance(Some(i), len, -1).unwrap();
            assert_eq!(advance(Some(back), len, 1), Some(i));
        }
    }
}
