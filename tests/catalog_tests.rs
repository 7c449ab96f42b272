use paraselene::catalog::{Tile, TileCatalog};
use rand::rngs::StdRng;
use rand::SeedableRng;

fn rock() -> Tile {
    Tile::new("rock".to_string(), 250_000, 1_000_000, 1, 1)
}

#[test]
fn pass_needs_both_the_draw_and_the_interval() {
    let t = rock();
    assert_eq!(t.pass(250_000, true), Some("rock".to_string()));
    assert_eq!(t.pass(1_000_000, true), Some("rock".to_string()));
    assert_eq!(t.pass(1_000_001, true), None);
    assert_eq!(t.pass(249_999, true), None);
    assert_eq!(t.pass(500_000, false), None);
}

#[test]
fn certain_rule_is_always_kept() {
    let mut rng = StdRng::seed_from_u64(7);
    let t = rock();
    for _ in 0..100 {
        assert_eq!(t.check(&mut rng, 400_000), Some("rock".to_string()));
        assert_eq!(t.check(&mut rng, -400_000), None);
    }
}

#[test]
fn impossible_rule_is_never_kept() {
    let mut rng = StdRng::seed_from_u64(7);
    let t = Tile::new("ghost".to_string(), -1_000_000, 1_000_000, 0, 5);
    for _ in 0..100 {
        assert_eq!(t.check(&mut rng, 0), None);
    }
}

#[test]
fn retained_keeps_catalog_order() {
    let mut c = TileCatalog::new();
    c.add(rock());
    c.add(Tile::new("ore".to_string(), 600_000, 1_000_000, 1, 2));
    c.add(Tile::new("ice".to_string(), -1_000_000, 300_000, 1, 1));
    let r = c.retained(700_000, &vec![true, true, true]);
    assert_eq!(r, vec!["rock".to_string(), "ore".to_string()]);
    let r = c.retained(700_000, &vec![false, true, true]);
    assert_eq!(r, vec!["ore".to_string()]);
    let r = c.retained(260_000, &vec![true, true, true]);
    assert_eq!(r, vec!["rock".to_string(), "ice".to_string()]);
    let r = c.retained(-2_000_000, &vec![true, true, true]);
    assert!(r.is_empty());
}

#[test]
fn classify_picks_among_retained() {
    let mut rng = StdRng::seed_from_u64(42);
    let c = TileCatalog::standard();
    for _ in 0..200 {
        let r = c.classify(&mut rng, 800_000);
        let id = r.expect("the rock rules are certain at this sample");
        assert!(id == "asteroid_1" || id == "asteroid_2" || id == "metal");
        assert_eq!(c.classify(&mut rng, 100_000), None);
        let low = c.classify(&mut rng, 300_000).unwrap();
        assert!(low == "asteroid_1" || low == "asteroid_2");
    }
}

#[test]
fn classify_empty_catalog_gives_space() {
    let mut rng = StdRng::seed_from_u64(1);
    let c = TileCatalog::new();
    assert_eq!(c.classify(&mut rng, 500_000), None);
}

#[test]
fn remove_drops_every_rule_of_that_id() {
    let mut c = TileCatalog::standard();
    c.add(Tile::metal());
    c.remove("metal");
    let ids: Vec<String> = c.tiles.iter().map(|t| t.id.clone()).collect();
    assert_eq!(ids, vec!["asteroid_1".to_string(), "asteroid_2".to_string()]);
    c.remove("nothing");
    assert_eq!(c.tiles.len(), 2);
}

#[test]
fn validity_of_catalog() {
    let mut c = TileCatalog::standard();
    assert!(c.is_valid());
    c.tiles.push(Tile { id: "bad".to_string(), min: 0, max: 1, numerator: 3, denominator: 2 });
    assert!(!c.is_valid());
}

#[test]
fn standard_rules() {
    let m = Tile::metal();
    assert_eq!((m.min, m.max, m.numerator, m.denominator), (666_667, 1_000_000, 2, 3));
    let a = Tile::asteroid_2();
    assert_eq!((a.id.as_str(), a.min, a.max), ("asteroid_2", 250_000, 1_000_000));
}
