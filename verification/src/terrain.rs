//! The precomputed heightmap the world is built over.
//!
//! Terrain is consumed as data: a square grid of fixed-point
//! elevations in `[0, SCALE]` milliunits and one biome code per cell.
//! Classifying a cell's biome from its elevation and moisture is this
//! module's decision logic; producing the raw noise samples is not.

use vstd::prelude::*;
use crate::fixed::{SCALE, spec_clamp, clamp_i64};

verus! {

/// The biome of one terrain cell.
#[derive(Clone, Copy, Debug, PartialEq, Eq, Structural)]
pub enum TerrainType {
    Bare,
    Beach,
    Grassland,
    Ocean,
    Scorched,
    Shrubland,
    Snow,
    SubtropicalDesert,
    Taiga,
    TemperateDeciduousForest,
    TemperateDesert,
    TemperateRainForest,
    TropicalRainForest,
    TropicalSeasonalForest,
    Tundra,
}

/// The wire code of each biome.
pub open spec fn spec_terrain_code(t: TerrainType) -> u8 {
    match t {
        TerrainType::Bare => 0x0,
        TerrainType::Beach => 0x1,
        TerrainType::Grassland => 0x2,
        TerrainType::Ocean => 0x3,
        TerrainType::Scorched => 0x4,
        TerrainType::Shrubland => 0x5,
        TerrainType::Snow => 0x6,
        TerrainType::SubtropicalDesert => 0x7,
        TerrainType::Taiga => 0x8,
        TerrainType::TemperateDeciduousForest => 0x9,
        TerrainType::TemperateDesert => 0xa,
        TerrainType::TemperateRainForest => 0xb,
        TerrainType::TropicalRainForest => 0xc,
        TerrainType::TropicalSeasonalForest => 0xd,
        TerrainType::Tundra => 0xe,
    }
}

/// The wire code of each biome.
pub fn terrain_code(t: TerrainType) -> (r: u8)
    ensures
        r == spec_terrain_code(t),
{
    match t {
        TerrainType::Bare => 0x0,
        TerrainType::Beach => 0x1,
        TerrainType::Grassland => 0x2,
        TerrainType::Ocean => 0x3,
        TerrainType::Scorched => 0x4,
        TerrainType::Shrubland => 0x5,
        TerrainType::Snow => 0x6,
        TerrainType::SubtropicalDesert => 0x7,
        TerrainType::Taiga => 0x8,
        TerrainType::TemperateDeciduousForest => 0x9,
        TerrainType::TemperateDesert => 0xa,
        TerrainType::TemperateRainForest => 0xb,
        TerrainType::TropicalRainForest => 0xc,
        TerrainType::TropicalSeasonalForest => 0xd,
        TerrainType::Tundra => 0xe,
    }
}

/// The map color of each biome, as an RGB triple.
pub open spec fn spec_terrain_color(t: TerrainType) -> (u8, u8, u8) {
    match t {
        TerrainType::Ocean => (0, 153, 152),
        TerrainType::Beach => (153, 255, 255),
        TerrainType::Bare => (128, 128, 128),
        TerrainType::Grassland => (102, 255, 102),
        TerrainType::Scorched => (192, 192, 192),
        TerrainType::Shrubland => (204, 204, 0),
        TerrainType::Snow => (255, 255, 255),
        TerrainType::SubtropicalDesert => (255, 204, 153),
        TerrainType::Taiga => (0, 204, 102),
        TerrainType::TemperateDeciduousForest => (102, 204, 0),
        TerrainType::TemperateDesert => (255, 153, 51),
        TerrainType::TemperateRainForest => (0, 204, 0),
        TerrainType::TropicalRainForest => (0, 255, 0),
        TerrainType::TropicalSeasonalForest => (51, 255, 51),
        TerrainType::Tundra => (204, 229, 255),
    }
}

/// The map color of each biome, as an RGB triple.
pub fn terrain_color(t: TerrainType) -> (r: (u8, u8, u8))
    ensures
        r == spec_terrain_color(t),
{
    match t {
        TerrainType::Ocean => (0, 153, 152),
        TerrainType::Beach => (153, 255, 255),
        TerrainType::Bare => (128, 128, 128),
        TerrainType::Grassland => (102, 255, 102),
        TerrainType::Scorched => (192, 192, 192),
        TerrainType::Shrubland => (204, 204, 0),
        TerrainType::Snow => (255, 255, 255),
        TerrainType::SubtropicalDesert => (255, 204, 153),
        TerrainType::Taiga => (0, 204, 102),
        TerrainType::TemperateDeciduousForest => (102, 204, 0),
        TerrainType::TemperateDesert => (255, 153, 51),
        TerrainType::TemperateRainForest => (0, 204, 0),
        TerrainType::TropicalRainForest => (0, 255, 0),
        TerrainType::TropicalSeasonalForest => (51, 255, 51),
        TerrainType::Tundra => (204, 229, 255),
    }
}

/// The biome chosen for a cell, from elevation and moisture in
/// `[0, SCALE]` milliunits; thresholds are the classifier's rules.
pub open spec fn spec_calc_biome(elevation: int, moisture: int) -> TerrainType {
    if elevation < 100 {
        TerrainType::Ocean
    } else if elevation < 120 {
        TerrainType::Beach
    } else if elevation > 800 {
        if moisture < 100 {
            TerrainType::Scorched
        } else if moisture < 200 {
            TerrainType::Bare
        } else if moisture < 500 {
            TerrainType::Tundra
        } else {
            TerrainType::Snow
        }
    } else if elevation > 600 {
        if moisture < 330 {
            TerrainType::TemperateDesert
        } else if moisture < 660 {
            TerrainType::Shrubland
        } else {
            TerrainType::Taiga
        }
    } else if elevation > 300 {
        if moisture < 160 {
            TerrainType::TemperateDesert
        } else if moisture < 600 {
            TerrainType::Grassland
        } else if moisture < 830 {
            TerrainType::TemperateDeciduousForest
        } else {
            TerrainType::TemperateRainForest
        }
    } else {
        if moisture < 160 {
            TerrainType::SubtropicalDesert
        } else if moisture < 330 {
            TerrainType::Grassland
        } else if moisture < 660 {
            TerrainType::TropicalSeasonalForest
        } else {
            TerrainType::TropicalRainForest
        }
    }
}

/// The biome chosen for a cell, from elevation and moisture in
/// `[0, SCALE]` milliunits.
pub fn calc_biome(elevation: i64, moisture: i64) -> (r: TerrainType)
    ensures
        r == spec_calc_biome(elevation as int, moisture as int),
{
    if elevation < 100 {
        TerrainType::Ocean
    } else if elevation < 120 {
        TerrainType::Beach
    } else if elevation > 800 {
        if moisture < 100 {
            TerrainType::Scorched
        } else if moisture < 200 {
            TerrainType::Bare
        } else if moisture < 500 {
            TerrainType::Tundra
        } else {
            TerrainType::Snow
        }
    } else if elevation > 600 {
        if moisture < 330 {
            TerrainType::TemperateDesert
        } else if moisture < 660 {
            TerrainType::Shrubland
        } else {
            TerrainType::Taiga
        }
    } else if elevation > 300 {
        if moisture < 160 {
            TerrainType::TemperateDesert
        } else if moisture < 600 {
            TerrainType::Grassland
        } else if moisture < 830 {
            TerrainType::TemperateDeciduousForest
        } else {
            TerrainType::TemperateRainForest
        }
    } else {
        if moisture < 160 {
            TerrainType::SubtropicalDesert
        } else if moisture < 330 {
            TerrainType::Grassland
        } else if moisture < 660 {
            TerrainType::TropicalSeasonalForest
        } else {
            TerrainType::TropicalRainForest
        }
    }
}

/// Largest accepted terrain side length: its square still fits the
/// smallest machine word.
pub const MAX_TERRAIN_SIZE: u32 = 46_340;

/// A square heightmap with one elevation and one biome code per cell,
/// in row-major order with index `size * y + x`.
pub struct Terrain {
    pub size: u32,
    pub elevation_map: Vec<i64>,
    pub terrain_map: Vec<u8>,
}

impl Terrain {
    /// A usable terrain: square, nonempty, with every elevation in
    /// `[0, SCALE]` milliunits.
    pub open spec fn wf(&self) -> bool {
        &&& 1 <= self.size <= MAX_TERRAIN_SIZE
        &&& self.elevation_map@.len() == self.size * self.size
        &&& self.terrain_map@.len() == self.size * self.size
        &&& forall|i: int| 0 <= i < self.elevation_map@.len() ==> 0 <= #[trigger] self.elevation_map@[i]
            <= SCALE
    }

    /// Build a terrain from raw elevation and moisture samples in
    /// milliunits: each sample is clamped into `[0, SCALE]`, and the
    /// biome of each cell is classified from the clamped pair.
    pub fn from_samples(size: u32, elevations: &Vec<i64>, moistures: &Vec<i64>) -> (r: Terrain)
        requires
            1 <= size <= MAX_TERRAIN_SIZE,
            elevations@.len() == size * size,
            moistures@.len() == size * size,
        ensures
            r.wf(),
            r.size == size,
            forall|i: int| 0 <= i < size * size ==> #[trigger] r.elevation_map@[i] == spec_clamp(
                elevations@[i] as int,
                0,
                SCALE as int,
            ),
            forall|i: int| 0 <= i < size * size ==> #[trigger] r.terrain_map@[i]
                == spec_terrain_code(
                spec_calc_biome(
                    spec_clamp(elevations@[i] as int, 0, SCALE as int),
                    spec_clamp(moistures@[i] as int, 0, SCALE as int),
                ),
            ),
    {
        let n = elevations.len();
        let mut elevation_map: Vec<i64> = Vec::new();
        let mut terrain_map: Vec<u8> = Vec::new();
        let mut i: usize = 0;
        while i < n
            invariant
                n == elevations@.len(),
                moistures@.len() == n,
                0 <= i <= n,
                elevation_map@.len() == i,
                terrain_map@.len() == i,
                forall|j: int| 0 <= j < i ==> #[trigger] elevation_map@[j] == spec_clamp(
                    elevations@[j] as int,
                    0,
                    SCALE as int,
                ),
                forall|j: int| 0 <= j < i ==> #[trigger] terrain_map@[j] == spec_terrain_code(
                    spec_calc_biome(
                        spec_clamp(elevations@[j] as int, 0, SCALE as int),
                        spec_clamp(moistures@[j] as int, 0, SCALE as int),
                    ),
                ),
            decreases n - i,
        {
            let e = clamp_i64(elevations[i], 0, SCALE);
            let m = clamp_i64(moistures[i], 0, SCALE);
            elevation_map.push(e);
            terrain_map.push(terrain_code(calc_biome(e, m)));
            i = i + 1;
        }
        Terrain { size, elevation_map, terrain_map }
    }

    /// A flat terrain of uniform elevation, for setups that need no
    /// heightmap.
    pub fn flat(size: u32, elevation: i64) -> (r: Terrain)
        requires
            1 <= size <= MAX_TERRAIN_SIZE,
            0 <= elevation <= SCALE,
        ensures
            r.wf(),
            r.size == size,
            forall|i: int| 0 <= i < size * size ==> #[trigger] r.elevation_map@[i] == elevation,
    {
        proof {
            assert(size * size <= 46_340 * 46_340) by (nonlinear_arith)
                requires 1 <= size <= 46_340;
        }
        let n = (size as usize) * (size as usize);
        let mut elevation_map: Vec<i64> = Vec::new();
        let mut terrain_map: Vec<u8> = Vec::new();
        let code = terrain_code(calc_biome(elevation, 0));
        let mut i: usize = 0;
        while i < n
            invariant
                0 <= i <= n,
                elevation_map@.len() == i,
                terrain_map@.len() == i,
                forall|j: int| 0 <= j < i ==> #[trigger] elevation_map@[j] == elevation,
            decreases n - i,
        {
            elevation_map.push(elevation);
            terrain_map.push(code);
            i = i + 1;
        }
        Terrain { size, elevation_map, terrain_map }
    }

    /// The elevation at a grid point, with the coordinates clamped to
    /// the grid as the heightmap consumers expect.
    pub fn get_elevation(&self, x: u32, y: u32) -> (r: i64)
        requires
            self.wf(),
        ensures
            ({
                let cx = spec_clamp(x as int, 0, self.size - 1);
                let cy = spec_clamp(y as int, 0, self.size - 1);
                r == self.elevation_map@[self.size * cy + cx]
            }),
            0 <= r <= SCALE,
    {
        let x = if x > self.size - 1 {
            self.size - 1
        } else {
            x
        };
        let y = if y > self.size - 1 {
            self.size - 1
        } else {
            y
        };
        proof {
            assert(self.size * y + x < self.size * self.size) by (nonlinear_arith)
                requires 0 <= x < self.size, 0 <= y < self.size;
            assert(self.size * self.size <= 46_340 * 46_340) by (nonlinear_arith)
                requires 1 <= self.size <= 46_340;
        }
        let idx = (self.size as usize) * (y as usize) + (x as usize);
        self.elevation_map[idx]
    }
}

} // verus!
