use miryam::reader::present::{neighbors, page_label, Layout, PresentState};

#[test]
fn neighbors_covers_previous_and_next_within_bounds() {
    assert_eq!(neighbors(0, 5), vec![0, 1]);
    assert_eq!(neighbors(2, 5), vec![1, 2, 3]);
    assert_eq!(neighbors(4, 5), vec![3, 4]);
    assert_eq!(neighbors(0, 1), vec![0]);
}

#[test]
fn neighbors_of_a_stale_page_are_clamped() {
    assert_eq!(neighbors(9, 5), Vec::<usize>::new());
    assert_eq!(neighbors(5, 5), vec![4]);
}

#[test]
fn the_page_label_counts_from_one() {
    assert_eq!(page_label(1, 12), "1 / 12");
}

#[test]
fn navigation_clamps_and_reports_changes() {
    let mut s = PresentState::new(3);
    assert_eq!(s.current(), 0);
    assert_eq!(s.step(-1), None, "先頭より前へは行かない");
    assert_eq!(s.step(1), Some(1));
    assert_eq!(s.go(99), Some(2), "末尾で止まる");
    assert_eq!(s.step(1), None);
    assert_eq!(s.go(-5), Some(0));
    assert_eq!(s.total(), 3);
}

#[test]
fn layout_and_mascot_toggle() {
    let mut s = PresentState::new(1);
    assert!(!s.set_layout(Layout::Full), "既に全画面");
    assert!(s.set_layout(Layout::Half));
    assert!(!s.toggle_mascot(), "最初は出ているので隠れる");
    assert!(s.toggle_mascot());
}

#[test]
fn long_steps_stop_at_either_end() {
    let mut s = PresentState::new(10);
    assert_eq!(s.step(4), Some(4));
    assert_eq!(s.step(isize::MAX), Some(9));
    assert_eq!(s.step(-3), Some(6));
    assert_eq!(s.step(isize::MIN), Some(0));
}

#[test]
fn a_pdf_without_pages_stays_on_page_zero() {
    let mut s = PresentState::new(0);
    assert_eq!(s.current(), 0);
    assert_eq!(s.total(), 0);
    assert_eq!(s.step(1), None);
    assert_eq!(s.go(3), None);
    assert_eq!(s.current(), 0);
}
