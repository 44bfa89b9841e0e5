use miryam::reader::render_cache::PageRenderCache;

fn z(zoom: f64) -> u64 {
    zoom.to_bits()
}

type Surface = (i32, i32);

#[test]
fn get_returns_none_until_inserted() {
    let mut c: PageRenderCache<Surface> = PageRenderCache::new(2);
    assert!(c.get(0, z(1.0)).is_none());
    assert!(c.get(5, z(1.5)).is_none());
}

#[test]
fn get_returns_the_inserted_surface() {
    let mut c = PageRenderCache::new(2);
    c.insert(0, z(1.0), (10, 10));
    assert_eq!(c.get(0, z(1.0)), Some(&(10, 10)));
}

#[test]
fn zoom_is_part_of_the_key() {
    let mut c = PageRenderCache::new(2);
    c.insert(0, z(1.0), (10, 10));
    assert!(c.get(0, z(1.5)).is_none(), "同じページでも倍率が違えば別物");
    assert!(c.get(1, z(1.0)).is_none(), "同じ倍率でもページが違えば別物");
}

#[test]
fn inserting_the_same_key_replaces_the_surface() {
    let mut c = PageRenderCache::new(2);
    c.insert(0, z(1.0), (10, 10));
    c.insert(0, z(1.0), (20, 20));
    assert_eq!(c.get(0, z(1.0)), Some(&(20, 20)));
    assert_eq!(c.len(), 1);
}

#[test]
fn evicts_the_oldest_when_over_cap() {
    let mut c = PageRenderCache::new(2);
    c.insert(0, z(1.0), (10, 10));
    c.insert(1, z(1.0), (20, 20));
    c.insert(2, z(1.0), (30, 30));
    assert!(c.get(0, z(1.0)).is_none(), "最初に入れたものが追い出される");
    assert!(c.get(1, z(1.0)).is_some());
    assert!(c.get(2, z(1.0)).is_some());
    assert_eq!(c.len(), 2);
}

#[test]
fn a_hit_makes_the_entry_fresh() {
    let mut c = PageRenderCache::new(2);
    c.insert(0, z(1.0), (10, 10));
    c.insert(1, z(1.0), (20, 20));
    c.get(0, z(1.0)).expect("あるはず");
    c.insert(2, z(1.0), (30, 30));
    assert!(c.get(1, z(1.0)).is_none(), "触らなかったものが追い出される");
    assert!(c.get(0, z(1.0)).is_some(), "触ったものは残る");
}

#[test]
fn clear_empties_the_cache() {
    let mut c = PageRenderCache::new(2);
    c.insert(0, z(1.0), (10, 10));
    c.clear();
    assert!(c.get(0, z(1.0)).is_none());
    assert_eq!(c.len(), 0);
}

#[test]
fn a_cache_without_room_keeps_nothing() {
    let mut c = PageRenderCache::new(0);
    c.insert(0, z(1.0), (10, 10));
    assert_eq!(c.len(), 0);
    assert!(c.get(0, z(1.0)).is_none());
}
