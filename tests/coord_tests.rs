use paraselene::coord::{active_window, chunk_file, half_extent, should_evict, ChunkCoord, Window};

#[test]
fn chunk_file_names_both_coordinates() {
    assert_eq!(chunk_file(ChunkCoord::new(3, 4)), "3,4.json");
    assert_eq!(chunk_file(ChunkCoord::new(0, 0)), "0,0.json");
    assert_eq!(chunk_file(ChunkCoord::new(1250, 17)), "1250,17.json");
    assert_eq!(chunk_file(ChunkCoord::new(u32::MAX, 9)), "4294967295,9.json");
}

#[test]
fn window_around_viewpoint_is_half_open() {
    let w = active_window(ChunkCoord::new(50, 50), 3, 3, 2, 1250);
    assert_eq!(w.min, ChunkCoord::new(47, 47));
    assert_eq!(w.max, ChunkCoord::new(53, 53));
}

#[test]
fn window_is_clamped_at_both_ends() {
    let low = active_window(ChunkCoord::new(1, 4), 3, 3, 2, 1250);
    assert_eq!(low.min, ChunkCoord::new(2, 2));
    assert_eq!(low.max, ChunkCoord::new(4, 7));
    let high = active_window(ChunkCoord::new(1249, u32::MAX), 3, 3, 2, 1250);
    assert_eq!(high.min, ChunkCoord::new(1246, u32::MAX - 3));
    assert_eq!(high.max, ChunkCoord::new(1250, 1250));
}

#[test]
fn eviction_margin_is_symmetric() {
    let w = active_window(ChunkCoord::new(50, 50), 3, 3, 2, 1250);
    assert!(should_evict(&w, ChunkCoord::new(56, 50), 2));
    assert!(!should_evict(&w, ChunkCoord::new(54, 50), 2));
    assert!(!should_evict(&w, ChunkCoord::new(55, 50), 2));
    assert!(should_evict(&w, ChunkCoord::new(44, 50), 2));
    assert!(!should_evict(&w, ChunkCoord::new(45, 50), 2));
    assert!(should_evict(&w, ChunkCoord::new(50, 56), 2));
    assert!(should_evict(&w, ChunkCoord::new(50, 44), 2));
    assert!(!should_evict(&w, ChunkCoord::new(46, 54), 2));
}

#[test]
fn eviction_below_zero_never_happens() {
    let w = Window { min: ChunkCoord::new(2, 2), max: ChunkCoord::new(5, 5) };
    assert!(!should_evict(&w, ChunkCoord::new(0, 0), 8));
    assert!(should_evict(&w, ChunkCoord::new(14, 0), 8));
}

#[test]
fn half_extent_rounds_up() {
    assert_eq!(half_extent(20, 8, 1), 3);
    assert_eq!(half_extent(16, 8, 1), 2);
    assert_eq!(half_extent(0, 8, 1), 0);
    assert_eq!(half_extent(17, 8, 2), 5);
    assert_eq!(half_extent(u32::MAX, 1, 2), u32::MAX);
}
