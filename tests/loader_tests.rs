use noise::{NoiseFn, Perlin};
use paraselene::catalog::{Tile, TileCatalog};
use paraselene::chunk::{Chunk, CHUNK_SIZE};
use paraselene::coord::ChunkCoord;
use paraselene::loader::{ChunkLoader, LoadError};

fn samples_for(loader: &ChunkLoader, coord: ChunkCoord) -> Vec<Vec<i32>> {
    let perlin = Perlin::new(loader.noise_seed());
    let size = CHUNK_SIZE as usize;
    (0..size)
        .map(|i| {
            (0..size)
                .map(|j| {
                    let x = coord.x as f64 * size as f64 + i as f64;
                    let y = coord.y as f64 * size as f64 + j as f64;
                    (perlin.get([x / 25.0, y / 25.0, 0.0]) * 1_000_000.0).floor() as i32
                })
                .collect()
        })
        .collect()
}

fn rock_catalog() -> TileCatalog {
    let mut c = TileCatalog::new();
    c.add(Tile::new("rock".to_string(), 250_000, 1_000_000, 1, 1));
    c
}

#[test]
fn same_seed_gives_same_grid() {
    let mut a = ChunkLoader::new(42);
    let mut b = ChunkLoader::new(42);
    assert_eq!(a.noise_seed(), b.noise_seed());
    let catalog = TileCatalog::standard();
    let samples = samples_for(&a, ChunkCoord::new(3, 5));
    let ga = a.load(None, &samples, &catalog).unwrap();
    let gb = b.load(None, &samples, &catalog).unwrap();
    assert!(ga.fresh && gb.fresh);
    assert_eq!(ga.grid, gb.grid);
}

#[test]
fn rock_scenario_and_persisted_grid_survives_catalog_change() {
    let mut loader = ChunkLoader::new(42);
    let mut catalog = rock_catalog();
    let coord = ChunkCoord::new(0, 0);
    let samples = samples_for(&loader, coord);
    let first = loader.load(None, &samples, &catalog).unwrap();
    assert!(first.fresh);
    assert_eq!(first.grid.len(), 8);
    for i in 0..8 {
        assert_eq!(first.grid[i].len(), 8);
        for j in 0..8 {
            let s = samples[i][j];
            if (250_000..=1_000_000).contains(&s) {
                assert_eq!(first.grid[i][j], Some("rock".to_string()));
            } else {
                assert_eq!(first.grid[i][j], None);
            }
        }
    }
    catalog.remove("rock");
    let second = loader.load(Some(first.grid.clone()), &samples, &catalog).unwrap();
    assert!(!second.fresh);
    assert_eq!(second.grid, first.grid);
}

#[test]
fn persisted_grid_is_returned_verbatim() {
    let mut loader = ChunkLoader::new(5);
    let mut chunk = Chunk::new();
    chunk.grid[1][6] = Some("metal".to_string());
    let catalog = TileCatalog::standard();
    let samples = vec![vec![900_000; 8]; 8];
    let r = loader.load(Some(chunk.grid.clone()), &samples, &catalog).unwrap();
    assert!(!r.fresh);
    assert_eq!(r.grid, chunk.grid);
}

#[test]
fn malformed_persisted_grid_is_rejected() {
    let mut loader = ChunkLoader::new(5);
    let catalog = TileCatalog::standard();
    let samples = vec![vec![0; 8]; 8];
    let short = vec![vec![None; 8]; 7];
    assert_eq!(loader.load(Some(short), &samples, &catalog).err(), Some(LoadError::Deserialization));
    let ragged = {
        let mut g = vec![vec![None; 8]; 8];
        g[3].push(None);
        g
    };
    assert_eq!(loader.load(Some(ragged), &samples, &catalog).err(), Some(LoadError::Deserialization));
}

#[test]
fn bad_samples_or_catalog_fail_generation() {
    let mut loader = ChunkLoader::new(5);
    let catalog = TileCatalog::standard();
    let samples = vec![vec![0; 8]; 9];
    assert_eq!(loader.load(None, &samples, &catalog).err(), Some(LoadError::Generation));
    let mut bad = TileCatalog::standard();
    bad.tiles[0].denominator = 0;
    let samples = vec![vec![0; 8]; 8];
    assert_eq!(loader.load(None, &samples, &bad).err(), Some(LoadError::Generation));
}

#[test]
fn generated_cells_follow_the_catalog() {
    let mut loader = ChunkLoader::new(9);
    let catalog = TileCatalog::standard();
    let mut samples = vec![vec![0; 8]; 8];
    samples[0][0] = 900_000;
    samples[7][7] = 300_000;
    let g = loader.generate(&samples, &catalog);
    assert!(g[0][0].is_some());
    let low = g[7][7].clone().unwrap();
    assert!(low == "asteroid_1" || low == "asteroid_2");
    assert_eq!(g[3][3], None);
}

#[test]
fn standard_catalog_rules() {
    let c = TileCatalog::standard();
    let rules: Vec<(&str, i32, i32, u32, u32)> = c
        .tiles
        .iter()
        .map(|t| (t.id.as_str(), t.min, t.max, t.numerator, t.denominator))
        .collect();
    assert_eq!(
        rules,
        vec![
            ("asteroid_1", 250_000, 1_000_000, 1, 1),
            ("asteroid_2", 250_000, 1_000_000, 1, 1),
            ("metal", 666_667, 1_000_000, 2, 3),
        ]
    );
}
