//! The material catalog: the closed set of material kinds and the canonical
//! behavior-flag bundle each kind carries. A cell's behavior is fully
//! determined by its kind; cells change behavior only by being replaced
//! wholesale with a fresh canonical instance of another kind.

use vstd::prelude::*;

verus! {

/// The default number of ticks a freshly created fire cell burns for.
pub const FIRE_STRENGTH: u8 = 5;

/// The closed set of material kinds a cell can hold.
#[derive(Clone, Copy, Debug, PartialEq, Eq, Structural)]
pub enum TileType {
    Empty,
    Sand,
    Wall,
    Rock,
    Water,
    Fire,
    Wood,
    Acid,
    Dirt,
}

/// One grid cell: its material kind plus the behavior flags derived from it.
///
/// `solid` blocks displacement by non-gas neighbors; `gas` marks the cell as
/// freely displaceable; `gravity`, `flows` and `piles` enable the vertical
/// fall, horizontal liquid-flow and diagonal settling rules; `flammable`
/// cells may ignite. `strength` is present only on fire and counts the
/// remaining ticks before extinction.
#[derive(Clone, Copy, Debug)]
pub struct Tile {
    pub tile_type: TileType,
    pub solid: bool,
    pub flows: bool,
    pub gravity: bool,
    pub gas: bool,
    pub piles: bool,
    pub flammable: bool,
    pub strength: Option<u8>,
}

/// The canonical cell template for each material kind.
pub open spec fn spec_from_type(tile_type: TileType) -> Tile {
    match tile_type {
        TileType::Empty => Tile {
            tile_type: TileType::Empty,
            solid: false,
            flows: false,
            gravity: false,
            gas: true,
            piles: false,
            flammable: false,
            strength: None,
        },
        TileType::Sand => Tile {
            tile_type: TileType::Sand,
            solid: true,
            flows: false,
            gravity: true,
            gas: false,
            piles: true,
            flammable: false,
            strength: None,
        },
        TileType::Wall => Tile {
            tile_type: TileType::Wall,
            solid: true,
            flows: false,
            gravity: false,
            gas: false,
            piles: false,
            flammable: false,
            strength: None,
        },
        TileType::Rock => Tile {
            tile_type: TileType::Rock,
            solid: true,
            flows: false,
            gravity: true,
            gas: false,
            piles: false,
            flammable: false,
            strength: None,
        },
        TileType::Water => Tile {
            tile_type: TileType::Water,
            solid: false,
            flows: true,
            gravity: true,
            gas: false,
            piles: true,
            flammable: false,
            strength: None,
        },
        TileType::Fire => Tile {
            tile_type: TileType::Fire,
            solid: false,
            flows: false,
            gravity: false,
            gas: false,
            piles: false,
            flammable: false,
            strength: Some(FIRE_STRENGTH),
        },
        TileType::Wood => Tile {
            tile_type: TileType::Wood,
            solid: true,
            flows: false,
            gravity: true,
            gas: false,
            piles: false,
            flammable: true,
            strength: None,
        },
        TileType::Acid => Tile {
            tile_type: TileType::Acid,
            solid: false,
            flows: true,
            gravity: true,
            gas: false,
            piles: true,
            flammable: false,
            strength: None,
        },
        TileType::Dirt => Tile {
            tile_type: TileType::Dirt,
            solid: true,
            flows: false,
            gravity: true,
            gas: false,
            piles: false,
            flammable: false,
            strength: None,
        },
    }
}

/// A well-formed cell carries exactly the canonical flag bundle of its kind;
/// only fire cells may override the template's strength counter.
pub open spec fn tile_wf(t: Tile) -> bool {
    if t.tile_type == TileType::Fire {
        t.strength is Some && t == (Tile { strength: t.strength, ..spec_from_type(TileType::Fire) })
    } else {
        t == spec_from_type(t.tile_type)
    }
}

impl Tile {
    /// Builds the canonical cell for a material kind.
    pub fn from_type(tile_type: TileType) -> (r: Tile)
        ensures
            r == spec_from_type(tile_type),
            tile_wf(r),
    {
        let r = match tile_type {
            TileType::Empty => Tile {
                tile_type: TileType::Empty,
                solid: false,
                flows: false,
                gravity: false,
                gas: true,
                piles: false,
                flammable: false,
                strength: None,
            },
            TileType::Sand => Tile {
                tile_type: TileType::Sand,
                solid: true,
                flows: false,
                gravity: true,
                gas: false,
                piles: true,
                flammable: false,
                strength: None,
            },
            TileType::Wall => Tile {
                tile_type: TileType::Wall,
                solid: true,
                flows: false,
                gravity: false,
                gas: false,
                piles: false,
                flammable: false,
                strength: None,
            },
            TileType::Rock => Tile {
                tile_type: TileType::Rock,
                solid: true,
                flows: false,
                gravity: true,
                gas: false,
                piles: false,
                flammable: false,
                strength: None,
            },
            TileType::Water => Tile {
                tile_type: TileType::Water,
                solid: false,
                flows: true,
                gravity: true,
                gas: false,
                piles: true,
                flammable: false,
                strength: None,
            },
            TileType::Fire => Tile {
                tile_type: TileType::Fire,
                solid: false,
                flows: false,
                gravity: false,
                gas: false,
                piles: false,
                flammable: false,
                strength: Some(FIRE_STRENGTH),
            },
            TileType::Wood => Tile {
                tile_type: TileType::Wood,
                solid: true,
                flows: false,
                gravity: true,
                gas: false,
                piles: false,
                flammable: true,
                strength: None,
            },
            TileType::Acid => Tile {
                tile_type: TileType::Acid,
                solid: false,
                flows: true,
                gravity: true,
                gas: false,
                piles: true,
                flammable: false,
                strength: None,
            },
            TileType::Dirt => Tile {
                tile_type: TileType::Dirt,
                solid: true,
                flows: false,
                gravity: true,
                gas: false,
                piles: false,
                flammable: false,
                strength: None,
            },
        };
        r
    }

    /// The canonical cell with the fire template's burn counter replaced;
    /// used when fire spreads with less strength than a fresh flame.
    pub fn fire_with_strength(strength: u8) -> (r: Tile)
        ensures
            r == (Tile { strength: Some(strength), ..spec_from_type(TileType::Fire) }),
            tile_wf(r),
    {
        let mut r = Tile::from_type(TileType::Fire);
        r.strength = Some(strength);
        r
    }
}

/// A selectable material: its kind and the display name a settings panel
/// shows for it.
#[derive(Clone, Copy, Debug)]
pub struct Material {
    pub tile_type: TileType,
    pub name: &'static str,
}

/// The catalog of selectable materials, in display order.
pub fn materials() -> (r: Vec<Material>)
    ensures
        r@.len() == 9,
        r@[0].tile_type == TileType::Empty && r@[0].name == "Clear",
        r@[1].tile_type == TileType::Rock && r@[1].name == "Rock",
        r@[2].tile_type == TileType::Dirt && r@[2].name == "Dirt",
        r@[3].tile_type == TileType::Sand && r@[3].name == "Sand",
        r@[4].tile_type == TileType::Wall && r@[4].name == "Wall",
        r@[5].tile_type == TileType::Water && r@[5].name == "Water",
        r@[6].tile_type == TileType::Wood && r@[6].name == "Wood",
        r@[7].tile_type == TileType::Fire && r@[7].name == "Fire",
        r@[8].tile_type == TileType::Acid && r@[8].name == "Acid",
{
    let mut v: Vec<Material> = Vec::new();
    v.push(Material { tile_type: TileType::Empty, name: "Clear" });
    v.push(Material { tile_type: TileType::Rock, name: "Rock" });
    v.push(Material { tile_type: TileType::Dirt, name: "Dirt" });
    v.push(Material { tile_type: TileType::Sand, name: "Sand" });
    v.push(Material { tile_type: TileType::Wall, name: "Wall" });
    v.push(Material { tile_type: TileType::Water, name: "Water" });
    v.push(Material { tile_type: TileType::Wood, name: "Wood" });
    v.push(Material { tile_type: TileType::Fire, name: "Fire" });
    v.push(Material { tile_type: TileType::Acid, name: "Acid" });
    v
}

/// How far (in 8-bit channel steps) a jittered color may stray from its
/// base in each color channel.
pub const COLOR_VARIATION: u8 = 25;

/// An RGBA color; cosmetic only, with no effect on simulation behavior.
#[derive(Clone, Copy, Debug, PartialEq, Eq, Structural)]
pub struct Rgba {
    pub red: u8,
    pub green: u8,
    pub blue: u8,
    pub alpha: u8,
}

/// The base display color of each material kind.
pub open spec fn spec_base_color(t: TileType) -> Rgba {
    match t {
        TileType::Empty => Rgba { red: 0x00, green: 0x00, blue: 0x00, alpha: 0xff },
        TileType::Sand => Rgba { red: 0xf6, green: 0xd7, blue: 0xb0, alpha: 0xff },
        TileType::Wall => Rgba { red: 0x30, green: 0x32, blue: 0x33, alpha: 0xff },
        TileType::Rock => Rgba { red: 0x5a, green: 0x5a, blue: 0x5a, alpha: 0xff },
        TileType::Water => Rgba { red: 0x80, green: 0xad, blue: 0xe9, alpha: 0x77 },
        TileType::Fire => Rgba { red: 0xf7, green: 0xb5, blue: 0x38, alpha: 0xff },
        TileType::Wood => Rgba { red: 0x8c, green: 0x5f, blue: 0x33, alpha: 0xff },
        TileType::Acid => Rgba { red: 0x70, green: 0xab, blue: 0x5d, alpha: 0x77 },
        TileType::Dirt => Rgba { red: 0x76, green: 0x55, blue: 0x2b, alpha: 0xff },
    }
}

/// The five sand hues, picked from uniformly for visual variety.
pub open spec fn spec_sand_color(i: int) -> Rgba {
    if i == 0 {
        Rgba { red: 0xf6, green: 0xd7, blue: 0xb0, alpha: 0xff }
    } else if i == 1 {
        Rgba { red: 0xf2, green: 0xd2, blue: 0xa9, alpha: 0xff }
    } else if i == 2 {
        Rgba { red: 0xec, green: 0xcc, blue: 0xa2, alpha: 0xff }
    } else if i == 3 {
        Rgba { red: 0xe7, green: 0xc4, blue: 0x96, alpha: 0xff }
    } else {
        Rgba { red: 0xe1, green: 0xbf, blue: 0x92, alpha: 0xff }
    }
}

/// One 8-bit channel moved by a signed offset and clamped to its range.
pub open spec fn spec_clamp_channel(c: u8, off: int) -> u8 {
    if c + off < 0 {
        0
    } else if c + off > 255 {
        255
    } else {
        (c + off) as u8
    }
}

/// A color with every color channel moved by the same offset, clamped;
/// the alpha channel is kept.
pub open spec fn spec_vary(c: Rgba, off: int) -> Rgba {
    Rgba {
        red: spec_clamp_channel(c.red, off),
        green: spec_clamp_channel(c.green, off),
        blue: spec_clamp_channel(c.blue, off),
        alpha: c.alpha,
    }
}

/// The display color one generator step assigns to a kind: sand picks one
/// of its five hues; every other kind jitters its base color by an offset
/// of at most `COLOR_VARIATION` per channel.
pub open spec fn spec_tile_color(t: TileType, s: u64) -> Rgba {
    if t == TileType::Sand {
        spec_sand_color(crate::rng::spec_below(s, 5) as int)
    } else {
        spec_vary(spec_base_color(t), crate::rng::spec_below(s, 51) as int - 25)
    }
}

/// The base display color of a material kind.
pub fn base_color(t: TileType) -> (c: Rgba)
    ensures
        c == spec_base_color(t),
{
    match t {
        TileType::Empty => Rgba { red: 0x00, green: 0x00, blue: 0x00, alpha: 0xff },
        TileType::Sand => Rgba { red: 0xf6, green: 0xd7, blue: 0xb0, alpha: 0xff },
        TileType::Wall => Rgba { red: 0x30, green: 0x32, blue: 0x33, alpha: 0xff },
        TileType::Rock => Rgba { red: 0x5a, green: 0x5a, blue: 0x5a, alpha: 0xff },
        TileType::Water => Rgba { red: 0x80, green: 0xad, blue: 0xe9, alpha: 0x77 },
        TileType::Fire => Rgba { red: 0xf7, green: 0xb5, blue: 0x38, alpha: 0xff },
        TileType::Wood => Rgba { red: 0x8c, green: 0x5f, blue: 0x33, alpha: 0xff },
        TileType::Acid => Rgba { red: 0x70, green: 0xab, blue: 0x5d, alpha: 0x77 },
        TileType::Dirt => Rgba { red: 0x76, green: 0x55, blue: 0x2b, alpha: 0xff },
    }
}

/// One 8-bit channel moved by a signed offset and clamped.
fn clamp_channel(c: u8, off: i32) -> (r: u8)
    requires
        -255 <= off <= 255,
    ensures
        r == spec_clamp_channel(c, off as int),
{
    let v: i32 = c as i32 + off;
    if v < 0 {
        0
    } else if v > 255 {
        255
    } else {
        v as u8
    }
}

/// Draws the display color of a material kind: one of the five sand hues
/// for sand, else the base color jittered by at most `COLOR_VARIATION` per
/// color channel, with the alpha channel kept. Consumes exactly one
/// generator step.
pub fn tile_color(t: TileType, rng: &mut crate::rng::Prng) -> (c: Rgba)
    ensures
        final(rng).state == crate::rng::spec_next_state(old(rng).state),
        c == spec_tile_color(t, old(rng).state),
        t != TileType::Sand ==> {
            let base = spec_base_color(t);
            &&& c.alpha == base.alpha
            &&& base.red - COLOR_VARIATION <= c.red <= base.red + COLOR_VARIATION
            &&& base.green - COLOR_VARIATION <= c.green <= base.green + COLOR_VARIATION
            &&& base.blue - COLOR_VARIATION <= c.blue <= base.blue + COLOR_VARIATION
        },
{
    if t == TileType::Sand {
        let i = rng.below(5);
        if i == 0 {
            Rgba { red: 0xf6, green: 0xd7, blue: 0xb0, alpha: 0xff }
        } else if i == 1 {
            Rgba { red: 0xf2, green: 0xd2, blue: 0xa9, alpha: 0xff }
        } else if i == 2 {
            Rgba { red: 0xec, green: 0xcc, blue: 0xa2, alpha: 0xff }
        } else if i == 3 {
            Rgba { red: 0xe7, green: 0xc4, blue: 0x96, alpha: 0xff }
        } else {
            Rgba { red: 0xe1, green: 0xbf, blue: 0x92, alpha: 0xff }
        }
    } else {
        let raw = rng.below(51);
        let off: i32 = raw as i32 - 25;
        let base = base_color(t);
        let c = Rgba {
            red: clamp_channel(base.red, off),
            green: clamp_channel(base.green, off),
            blue: clamp_channel(base.blue, off),
            alpha: base.alpha,
        };
        c
    }
}

impl Default for Tile {
    /// An empty cell: the canonical template of `TileType::Empty`.
    fn default() -> (r: Tile)
        ensures
            r == spec_from_type(TileType::Empty),
    {
        Tile::from_type(TileType::Empty)
    }
}

} // verus!
