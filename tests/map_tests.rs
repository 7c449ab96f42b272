use paraselene::chunk::Chunk;
use paraselene::coord::ChunkCoord;
use paraselene::map::WorldMap;

fn c(x: u32, y: u32) -> ChunkCoord {
    ChunkCoord::new(x, y)
}

#[test]
fn queue_load_twice_keeps_one_entry() {
    let mut m = WorldMap::new();
    m.queue_load(c(1, 2));
    m.queue_load(c(1, 2));
    assert_eq!(m.load_queue(), &vec![c(1, 2)]);
    assert!(m.is_queued(c(1, 2)));
}

#[test]
fn queue_load_skips_resident_chunks() {
    let mut m = WorldMap::new();
    m.mark_loaded(c(3, 3), 9, Chunk::new());
    m.queue_load(c(3, 3));
    assert!(m.load_queue().is_empty());
    assert!(m.is_loaded(c(3, 3)));
    assert_eq!(m.handle(c(3, 3)), Some(9));
}

#[test]
fn drain_is_fifo() {
    let mut m = WorldMap::new();
    for i in 0..5 {
        m.queue_load(c(i, 0));
    }
    assert_eq!(m.drain(2), vec![c(0, 0), c(1, 0)]);
    assert_eq!(m.load_queue(), &vec![c(2, 0), c(3, 0), c(4, 0)]);
    assert_eq!(m.drain(10), vec![c(2, 0), c(3, 0), c(4, 0)]);
    assert!(m.drain(1).is_empty());
}

#[test]
fn requeue_front_restores_order() {
    let mut m = WorldMap::new();
    m.queue_load(c(5, 5));
    m.requeue_front(vec![c(1, 1), c(2, 2)]);
    assert_eq!(m.load_queue(), &vec![c(1, 1), c(2, 2), c(5, 5)]);
}

#[test]
fn mark_unloaded_returns_handle_once() {
    let mut m = WorldMap::new();
    m.mark_loaded(c(1, 1), 4, Chunk::new());
    m.mark_loaded(c(2, 1), 5, Chunk::new());
    assert_eq!(m.mark_unloaded(c(1, 1)), Some(4));
    assert_eq!(m.mark_unloaded(c(1, 1)), None);
    assert!(!m.is_loaded(c(1, 1)));
    assert_eq!(m.handle(c(2, 1)), Some(5));
    let mut coords = m.loaded_coords();
    coords.sort_by_key(|k| (k.x, k.y));
    assert_eq!(coords, vec![c(2, 1)]);
}

#[test]
fn resident_grid_is_readable() {
    let mut m = WorldMap::new();
    let mut chunk = Chunk::new();
    chunk.grid[2][3] = Some("rock".to_string());
    m.mark_loaded(c(7, 7), 1, chunk);
    let g = &m.chunk(c(7, 7)).unwrap().grid;
    assert_eq!(g[2][3], Some("rock".to_string()));
    assert_eq!(g[0][0], None);
    assert!(m.chunk(c(8, 7)).is_none());
}

#[test]
fn new_chunk_is_empty_space() {
    let chunk = Chunk::new();
    assert_eq!(chunk.grid.len(), 8);
    assert!(chunk.grid.iter().all(|row| row.len() == 8 && row.iter().all(|t| t.is_none())));
}
