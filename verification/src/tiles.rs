//! Voxel tile kinds and their static properties.
//!
//! A `Tile` is a small integer naming one voxel material; `TileProperties`
//! records what the mesher needs to know about it (whether faces behind it
//! are visible).

use vstd::prelude::*;

verus! {

/// One voxel material, identified by a small integer.
#[derive(Clone, Copy, Debug, PartialEq, Eq, Structural)]
pub struct Tile(pub u16);

/// Static description of one tile kind.
#[derive(Clone, Copy, Debug)]
pub struct TileProperties {
    pub name: &'static str,
    pub is_transparent: bool,
}

/// How many tile kinds are defined.
pub const TILE_KIND_COUNT: u16 = 9;

impl Tile {
    /// Whether faces of neighbouring voxels seen through this tile are drawn.
    pub fn transparent(&self) -> (r: bool)
        requires
            self.0 < TILE_KIND_COUNT,
        ensures
            r == spec_tile_transparent(self.0),
    {
        self.properties().is_transparent
    }

    /// The static properties of this tile kind.
    pub fn properties(&self) -> (p: TileProperties)
        requires
            self.0 < TILE_KIND_COUNT,
        ensures
            p.is_transparent == spec_tile_transparent(self.0),
    {
        match self.0 {
            0u16 => TileProperties { name: "air", is_transparent: true },
            1u16 => TileProperties { name: "stone", is_transparent: false },
            2u16 => TileProperties { name: "dirt", is_transparent: false },
            3u16 => TileProperties { name: "grass", is_transparent: false },
            4u16 => TileProperties { name: "sand", is_transparent: false },
            5u16 => TileProperties { name: "glass", is_transparent: true },
            6u16 => TileProperties { name: "wood", is_transparent: false },
            7u16 => TileProperties { name: "leaf", is_transparent: true },
            _ => TileProperties { name: "snow", is_transparent: false },
        }
    }
}

/// Which tile kinds let light and neighbouring faces show through.
pub open spec fn spec_tile_transparent(kind: u16) -> bool {
    kind == 0 || kind == 5 || kind == 7
}

} // verus!
