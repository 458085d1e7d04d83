use particles::rng::Prng;
use particles::tile::{
    base_color, materials, tile_color, Rgba, Tile, TileType, COLOR_VARIATION, FIRE_STRENGTH,
};

#[test]
fn empty_template_is_a_displaceable_gas() {
    let t = Tile::from_type(TileType::Empty);
    assert_eq!(t.tile_type, TileType::Empty);
    assert!(t.gas && !t.solid && !t.gravity && !t.flows && !t.piles && !t.flammable);
    assert_eq!(t.strength, None);
}

#[test]
fn sand_template_falls_and_piles() {
    let t = Tile::from_type(TileType::Sand);
    assert!(t.solid && t.gravity && t.piles);
    assert!(!t.gas && !t.flows && !t.flammable);
    assert_eq!(t.strength, None);
}

#[test]
fn wall_template_has_no_active_flags() {
    let t = Tile::from_type(TileType::Wall);
    assert!(t.solid);
    assert!(!t.gas && !t.gravity && !t.flows && !t.piles && !t.flammable);
}

#[test]
fn water_and_acid_templates_flow_fall_and_pile() {
    for kind in [TileType::Water, TileType::Acid] {
        let t = Tile::from_type(kind);
        assert_eq!(t.tile_type, kind);
        assert!(t.gravity && t.flows && t.piles);
        assert!(!t.solid && !t.gas && !t.flammable);
    }
}

#[test]
fn rock_and_dirt_templates_only_fall() {
    for kind in [TileType::Rock, TileType::Dirt] {
        let t = Tile::from_type(kind);
        assert!(t.solid && t.gravity);
        assert!(!t.gas && !t.flows && !t.piles && !t.flammable);
    }
}

#[test]
fn wood_template_is_flammable_and_falls() {
    let t = Tile::from_type(TileType::Wood);
    assert!(t.solid && t.gravity && t.flammable);
    assert!(!t.gas && !t.flows && !t.piles);
}

#[test]
fn fire_template_burns_at_default_strength() {
    let t = Tile::from_type(TileType::Fire);
    assert_eq!(t.tile_type, TileType::Fire);
    assert_eq!(t.strength, Some(FIRE_STRENGTH));
    assert!(!t.solid && !t.gas && !t.gravity && !t.flows && !t.piles && !t.flammable);
}

#[test]
fn fire_with_strength_overrides_only_the_counter() {
    let t = Tile::fire_with_strength(2);
    assert_eq!(t.tile_type, TileType::Fire);
    assert_eq!(t.strength, Some(2));
    assert!(!t.solid && !t.gas);
}

#[test]
fn default_tile_is_the_empty_template() {
    let t = Tile::default();
    assert_eq!(t.tile_type, TileType::Empty);
    assert!(t.gas && !t.solid);
}

#[test]
fn materials_catalog_lists_every_kind_with_its_name() {
    let m = materials();
    assert_eq!(m.len(), 9);
    assert_eq!(m[0].tile_type, TileType::Empty);
    assert_eq!(m[0].name, "Clear");
    assert_eq!(m[3].tile_type, TileType::Sand);
    assert_eq!(m[3].name, "Sand");
    assert_eq!(m[8].tile_type, TileType::Acid);
    assert_eq!(m[8].name, "Acid");
}

#[test]
fn base_colors_match_the_catalog() {
    assert_eq!(
        base_color(TileType::Wall),
        Rgba { red: 0x30, green: 0x32, blue: 0x33, alpha: 0xff }
    );
    assert_eq!(
        base_color(TileType::Water),
        Rgba { red: 0x80, green: 0xad, blue: 0xe9, alpha: 0x77 }
    );
}

#[test]
fn jittered_colors_stay_within_the_variation_band() {
    let mut rng = Prng::from_seed(7);
    for _ in 0..200 {
        let c = tile_color(TileType::Dirt, &mut rng);
        let b = base_color(TileType::Dirt);
        assert!(c.alpha == b.alpha);
        assert!((c.red as i32 - b.red as i32).abs() <= COLOR_VARIATION as i32);
        assert!((c.green as i32 - b.green as i32).abs() <= COLOR_VARIATION as i32);
        assert!((c.blue as i32 - b.blue as i32).abs() <= COLOR_VARIATION as i32);
    }
}

#[test]
fn sand_color_is_one_of_the_five_hues() {
    let hues = [
        Rgba { red: 0xf6, green: 0xd7, blue: 0xb0, alpha: 0xff },
        Rgba { red: 0xf2, green: 0xd2, blue: 0xa9, alpha: 0xff },
        Rgba { red: 0xec, green: 0xcc, blue: 0xa2, alpha: 0xff },
        Rgba { red: 0xe7, green: 0xc4, blue: 0x96, alpha: 0xff },
        Rgba { red: 0xe1, green: 0xbf, blue: 0x92, alpha: 0xff },
    ];
    let mut rng = Prng::from_seed(11);
    let mut seen = [false; 5];
    for _ in 0..200 {
        let c = tile_color(TileType::Sand, &mut rng);
        let idx = hues.iter().position(|h| *h == c).expect("not a sand hue");
        seen[idx] = true;
    }
    assert!(seen.iter().all(|s| *s));
}

#[test]
fn prng_is_deterministic_per_seed() {
    let mut a = Prng::from_seed(123);
    let mut b = Prng::from_seed(123);
    for _ in 0..50 {
        assert_eq!(a.coin(), b.coin());
        assert_eq!(a.below(17), b.below(17));
        assert_eq!(a.one_in(3), b.one_in(3));
    }
    assert_ne!(Prng::from_seed(0).state, 0);
}

#[test]
fn one_in_three_fires_about_a_third_of_the_time() {
    let mut rng = Prng::from_seed(31);
    let mut hits = 0;
    for _ in 0..3000 {
        if rng.one_in(3) {
            hits += 1;
        }
    }
    assert!((800..=1200).contains(&hits), "hits {hits}");
}

#[test]
fn entropy_seeded_generator_is_usable() {
    let mut rng = Prng::from_entropy();
    assert_ne!(rng.state, 0);
    let v = rng.below(10);
    assert!(v < 10);
}
