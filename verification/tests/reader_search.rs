use miryam::reader::search::{Search, CHUNK_PAGES};

type Rect = [f64; 4];

#[test]
fn chunks_walk_the_document_and_then_stop() {
    let mut s: Search<Rect> = Search::new("x".into(), 70);
    assert_eq!(s.take_chunk(32), 0..32);
    assert_eq!(s.take_chunk(32), 32..64);
    assert_eq!(s.take_chunk(32), 64..70, "端は総ページ数で止まる");
    assert!(s.is_done());
    assert_eq!(s.take_chunk(32), 70..70, "終わったあとは空の範囲");
}

#[test]
fn a_document_with_no_pages_is_done_immediately() {
    let s: Search<Rect> = Search::new("x".into(), 0);
    assert!(s.is_done());
}

#[test]
fn hits_are_kept_per_page_in_the_order_they_are_found() {
    let mut s: Search<Rect> = Search::new("x".into(), 3);
    s.push_hits(2, vec![[0.0, 0.0, 0.1, 0.1]]);
    s.push_hits(0, vec![[0.0, 0.2, 0.1, 0.3], [0.0, 0.4, 0.1, 0.5]]);
    assert_eq!(s.hits.len(), 2);
    assert_eq!(s.hits[0].page, 2, "見つかった順に積む");
    assert_eq!(s.hits[1].rects.len(), 2);
}

#[test]
fn empty_hit_lists_are_not_recorded() {
    let mut s: Search<Rect> = Search::new("x".into(), 3);
    s.push_hits(1, vec![]);
    assert!(s.hits.is_empty());
}

#[test]
fn hits_for_a_page_picks_only_that_page() {
    let mut s: Search<Rect> = Search::new("x".into(), 3);
    s.push_hits(0, vec![[0.0, 0.0, 0.1, 0.1]]);
    s.push_hits(2, vec![[0.0, 0.2, 0.1, 0.3]]);
    s.push_hits(0, vec![[0.0, 0.6, 0.1, 0.7]]);
    assert_eq!(s.hits_for(0).len(), 2);
    assert_eq!(s.hits_for(1).len(), 0);
    assert_eq!(s.hits_for(2).len(), 1);
}

#[test]
fn chunk_size_zero_does_not_hang() {
    let mut s: Search<Rect> = Search::new("x".into(), 5);
    assert_eq!(s.take_chunk(0), 0..0);
    assert!(!s.is_done(), "進まないが終わってもいない");
}

#[test]
fn consecutive_chunks_meet_and_cover_every_page_once() {
    let total = 3 * CHUNK_PAGES + 7;
    let mut s: Search<Rect> = Search::new("x".into(), total);
    let mut covered = 0;
    while !s.is_done() {
        let r = s.take_chunk(CHUNK_PAGES);
        assert_eq!(r.start, covered);
        covered = r.end;
    }
    assert_eq!(covered, total);
}
