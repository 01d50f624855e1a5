use vstd::prelude::*;
use crate::chunk_rand::MCVersion;

verus! {

/// Biome tag: it selects the decorator salts.
#[derive(Clone, Copy, Debug, PartialEq, Eq, Structural)]
pub enum BiomeType {
    NotDesert,
    Desert,
    Unknown,
}

/// The size of the observed dungeon floor.
#[derive(Clone, Copy, Debug, PartialEq, Eq, Structural)]
pub enum FloorSize {
    S9x9,
    S7x9,
    S9x7,
    S7x7,
}

impl FloorSize {
    /// First x column of the floor within the 9x9 grid.
    pub open spec fn x_min_spec(&self) -> usize {
        match self {
            FloorSize::S7x7 | FloorSize::S7x9 => 1,
            _ => 0,
        }
    }

    pub open spec fn z_min_spec(&self) -> usize {
        match self {
            FloorSize::S7x7 | FloorSize::S9x7 => 1,
            _ => 0,
        }
    }

    pub open spec fn x_max_spec(&self) -> usize {
        match self {
            FloorSize::S7x7 | FloorSize::S7x9 => 8,
            _ => 9,
        }
    }

    pub open spec fn z_max_spec(&self) -> usize {
        match self {
            FloorSize::S7x7 | FloorSize::S9x7 => 8,
            _ => 9,
        }
    }

    pub fn x_min(&self) -> (r: usize)
        ensures
            r == self.x_min_spec(),
    {
        match self {
            FloorSize::S7x7 | FloorSize::S7x9 => 1,
            _ => 0,
        }
    }

    pub fn z_min(&self) -> (r: usize)
        ensures
            r == self.z_min_spec(),
    {
        match self {
            FloorSize::S7x7 | FloorSize::S9x7 => 1,
            _ => 0,
        }
    }

    pub fn x_max(&self) -> (r: usize)
        ensures
            r == self.x_max_spec(),
    {
        match self {
            FloorSize::S7x7 | FloorSize::S7x9 => 8,
            _ => 9,
        }
    }

    pub fn z_max(&self) -> (r: usize)
        ensures
            r == self.z_max_spec(),
    {
        match self {
            FloorSize::S7x7 | FloorSize::S9x7 => 8,
            _ => 9,
        }
    }
}

/// Seeds recovered by a cracking run: candidate internal states at the first
/// floor call, 48-bit structure seeds, and 64-bit world seeds.
pub struct CrackResult {
    pub dungeon_seeds: Vec<i64>,
    pub structure_seeds: Vec<i64>,
    pub world_seeds: Vec<i64>,
}

/// Read the floor tiles column-major (x outer, z inner) inside the floor-size
/// window and emit one ASCII digit per tile.
pub fn get_sequence(floor: &Vec<Vec<u8>>, floor_size: FloorSize) -> (r: Vec<u8>)
    requires
        floor@.len() == 9,
        forall|z: int| 0 <= z < 9 ==> #[trigger] floor@[z]@.len() == 9,
        forall|z: int, x: int| 0 <= z < 9 && 0 <= x < 9 ==> #[trigger] floor@[z]@[x] <= 9,
    ensures
        ({
            let xn = floor_size.x_min_spec() as int;
            let zn = floor_size.z_min_spec() as int;
            let xw = floor_size.x_max_spec() - floor_size.x_min_spec();
            let zw = floor_size.z_max_spec() - floor_size.z_min_spec();
            &&& r@.len() == xw * zw
            &&& forall|xi: int, zi: int|
                0 <= xi < xw && 0 <= zi < zw ==> r@[xi * zw + zi] == #[trigger] floor@[zn + zi]@[xn
                    + xi] + 48
        }),
{
    let x_min = floor_size.x_min();
    let x_max = floor_size.x_max();
    let z_min = floor_size.z_min();
    let z_max = floor_size.z_max();
    let ghost zw = z_max - z_min;
    let mut seq: Vec<u8> = Vec::new();
    let mut x = x_min;
    while x < x_max
        invariant
            floor@.len() == 9,
            forall|z: int| 0 <= z < 9 ==> #[trigger] floor@[z]@.len() == 9,
            forall|z: int, xx: int| 0 <= z < 9 && 0 <= xx < 9 ==> #[trigger] floor@[z]@[xx] <= 9,
            x_min == floor_size.x_min_spec(),
            x_max == floor_size.x_max_spec(),
            z_min == floor_size.z_min_spec(),
            z_max == floor_size.z_max_spec(),
            zw == z_max - z_min,
            x_min <= x <= x_max,
            x_max <= 9,
            z_min < z_max <= 9,
            seq@.len() == (x - x_min) * zw,
            forall|xi: int, zi: int|
                0 <= xi < x - x_min && 0 <= zi < zw ==> seq@[xi * zw + zi]
                    == #[trigger] floor@[z_min + zi]@[x_min + xi] + 48,
        decreases x_max - x,
    {
        let mut z = z_min;
        while z < z_max
            invariant
                floor@.len() == 9,
                forall|zz: int| 0 <= zz < 9 ==> #[trigger] floor@[zz]@.len() == 9,
                forall|zz: int, xx: int|
                    0 <= zz < 9 && 0 <= xx < 9 ==> #[trigger] floor@[zz]@[xx] <= 9,
                x_min <= x < x_max,
                x_max <= 9,
                z_min <= z <= z_max,
                z_min < z_max <= 9,
                zw == z_max - z_min,
                seq@.len() == (x - x_min) * zw + (z - z_min),
                forall|xi: int, zi: int|
                    0 <= xi < x - x_min && 0 <= zi < zw ==> seq@[xi * zw + zi]
                        == #[trigger] floor@[z_min + zi]@[x_min + xi] + 48,
                forall|zi: int|
                    0 <= zi < z - z_min ==> seq@[(x - x_min) * zw + zi] == #[trigger] floor@[z_min
                        + zi]@[x_min + (x - x_min)] + 48,
            decreases z_max - z,
        {
            seq.push(floor[z][x] + 48);
            proof {
                assert forall|xi: int, zi: int|
                    0 <= xi < x - x_min && 0 <= zi < zw implies #[trigger] seq@[xi * zw + zi]
                    == floor@[z_min + zi]@[x_min + xi] + 48 by {
                    assert(xi * zw + zi < (x - x_min) * zw) by (nonlinear_arith)
                        requires
                            0 <= zi < zw,
                            xi < x - x_min,
                            0 <= xi,
                    ;
                    assert(0 <= xi * zw + zi) by (nonlinear_arith)
                        requires
                            0 <= xi,
                            0 <= zi,
                            zw >= 1,
                    ;
                }
            }
            z = z + 1;
        }
        proof {
            assert((x + 1 - x_min) * zw == (x - x_min) * zw + zw) by (nonlinear_arith);
            assert forall|xi: int, zi: int|
                0 <= xi < x + 1 - x_min && 0 <= zi < zw implies #[trigger] seq@[xi * zw + zi]
                == floor@[z_min + zi]@[x_min + xi] + 48 by {
                if xi < x - x_min {
                    assert(xi * zw + zi < (x - x_min) * zw) by (nonlinear_arith)
                        requires
                            0 <= zi < zw,
                            xi < x - x_min,
                            0 <= xi,
                    ;
                    assert(0 <= xi * zw + zi) by (nonlinear_arith)
                        requires
                            0 <= xi,
                            0 <= zi,
                            zw >= 1,
                    ;
                }
            }
        }
        x = x + 1;
    }
    seq
}

/// The decorator salts a version and biome imply: versions up to 1.14 use
/// 20003; from 1.15 on, 30002 outside deserts, 30003 in them, and both when
/// the biome is unknown.
pub fn get_salts(version: MCVersion, biome: BiomeType) -> (r: Vec<i64>)
    ensures
        version.ordinal_spec() < 7 ==> r@ =~= seq![20003i64],
        version.ordinal_spec() >= 7 && biome == BiomeType::Desert ==> r@ =~= seq![30003i64],
        version.ordinal_spec() >= 7 && biome == BiomeType::NotDesert ==> r@ =~= seq![30002i64],
        version.ordinal_spec() >= 7 && biome == BiomeType::Unknown ==> r@ =~= seq![
            30002i64,
            30003i64,
        ],
{
    let mut salts: Vec<i64> = Vec::new();
    if !version.is_older_than(MCVersion::V1_15) {
        match biome {
            BiomeType::Desert => {
                salts.push(30003);
            },
            BiomeType::NotDesert => {
                salts.push(30002);
            },
            BiomeType::Unknown => {
                salts.push(30002);
                salts.push(30003);
            },
        }
    } else {
        salts.push(20003);
    }
    salts
}

} // verus!
