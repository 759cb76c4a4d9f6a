//! The integer side of terrain generation: seeding the noise layers from the
//! world seed, and laying the lattice of a chunk out in world lattice units.
//! The densities themselves are computed by the caller's sampler.

use crate::chunk_system::ChunkCoord;
use crate::error::ConfigError;
use crate::matrix_3d::{in_bounds, Index3, Matrix3D};
use rand::rngs::StdRng;
use rand::{Rng, SeedableRng};
use vstd::prelude::*;

verus! {

#[verifier::external_type_specification]
#[verifier::external_body]
pub struct ExStdRng(StdRng);

/// Relies on rand's `SeedableRng::from_seed` for `StdRng`: a generator
/// started from the 32 seed bytes.
#[verifier::external_body]
fn seeded_rng(seed: [u8; 32]) -> StdRng {
    StdRng::from_seed(seed)
}

/// Relies on rand's `Rng::gen::<u32>`: the next word the generator draws.
#[verifier::external_body]
fn draw_word(rng: &mut StdRng) -> u32 {
    rng.gen::<u32>()
}

/// Byte `k` (0 = most significant) of the big-endian form of `seed`.
pub open spec fn be_byte(seed: u128, k: int) -> u8 {
    ((seed >> ((8 * (15 - k)) as u128)) & 0xff) as u8
}

/// The generator seed of a world seed: its 16 big-endian bytes, twice.
pub fn seed_bytes(seed: u128) -> (r: [u8; 32])
    ensures
        forall|i: int| 0 <= i < 32 ==> #[trigger] r@[i] == be_byte(seed, i % 16),
{
    let mut bytes: [u8; 32] = [0; 32];
    let mut i: usize = 0;
    while i < 32
        invariant
            i <= 32,
            forall|k: int| 0 <= k < i ==> #[trigger] bytes@[k] == be_byte(seed, k % 16),
        decreases 32 - i,
    {
        let k = i % 16;
        let shift: u128 = (8 * (15 - k)) as u128;
        bytes[i] = ((seed >> shift) & 0xff) as u8;
        i = i + 1;
    }
    bytes
}

/// One seed per noise layer, drawn in order from a generator started from
/// `seed_bytes(seed)`.
pub fn noise_seeds(seed: u128, layers: usize) -> (r: Vec<u32>)
    ensures
        r@.len() == layers,
{
    let mut rng = seeded_rng(seed_bytes(seed));
    let mut seeds: Vec<u32> = Vec::new();
    let mut i: usize = 0;
    while i < layers
        invariant
            i <= layers,
            seeds@.len() == i,
        decreases layers - i,
    {
        seeds.push(draw_word(&mut rng));
        i = i + 1;
    }
    seeds
}

/// Checks the integer shape of a terrain: a chunk holds at least one cube,
/// and every noise layer has both a weight and a scale.
pub fn check_terrain(points_per_chunk: u8, weight_count: usize, scale_count: usize) -> (r: Result<
    (),
    ConfigError,
>)
    ensures
        r is Ok <==> points_per_chunk > 0 && weight_count == scale_count,
        r == Err::<(), ConfigError>(ConfigError::ChunkSize) <==> points_per_chunk == 0,
        r == Err::<(), ConfigError>(ConfigError::LayerCount) <==> points_per_chunk > 0 && weight_count
            != scale_count,
{
    if points_per_chunk == 0 {
        return Err(ConfigError::ChunkSize);
    }
    if weight_count != scale_count {
        return Err(ConfigError::LayerCount);
    }
    Ok(())
}

/// Chunk coordinates small enough that every lattice point of the chunk
/// fits in `i64`.
pub open spec fn chunk_fits(chunk: ChunkCoord) -> bool {
    &&& -0x40_0000_0000_0000 <= chunk.x <= 0x40_0000_0000_0000
    &&& -0x40_0000_0000_0000 <= chunk.y <= 0x40_0000_0000_0000
    &&& -0x40_0000_0000_0000 <= chunk.z <= 0x40_0000_0000_0000
}

/// The world lattice point of grid point `p` of `chunk`: the chunk's origin,
/// `points_per_chunk` lattice steps per chunk, plus `p`.
pub open spec fn lattice_x(chunk: ChunkCoord, points_per_chunk: int, p: Index3) -> i64 {
    (chunk.x * points_per_chunk + p.x) as i64
}

pub open spec fn lattice_y(chunk: ChunkCoord, points_per_chunk: int, p: Index3) -> i64 {
    (chunk.y * points_per_chunk + p.y) as i64
}

pub open spec fn lattice_z(chunk: ChunkCoord, points_per_chunk: int, p: Index3) -> i64 {
    (chunk.z * points_per_chunk + p.z) as i64
}

/// `m` holds, at every point of the `(points_per_chunk + 1)^3` lattice of
/// `chunk`, a value that `sample` may return for that point's world lattice
/// coordinates.
pub open spec fn sampled_grid<T: Copy, F: Fn(i64, i64, i64) -> T>(
    m: Matrix3D<T>,
    chunk: ChunkCoord,
    points_per_chunk: u8,
    sample: F,
) -> bool {
    &&& m.wf()
    &&& m.extent() == (Index3 {
        x: (points_per_chunk + 1) as usize,
        y: (points_per_chunk + 1) as usize,
        z: (points_per_chunk + 1) as usize,
    })
    &&& forall|p: Index3|
        in_bounds(m.extent(), p) ==> sample.ensures(
            (
                lattice_x(chunk, points_per_chunk as int, p),
                lattice_y(chunk, points_per_chunk as int, p),
                lattice_z(chunk, points_per_chunk as int, p),
            ),
            #[trigger] m.at(p),
        )
}

/// Building a chunk's grid twice with a sampler that gives one value per
/// point yields the same grid, cell for cell.
pub proof fn lemma_grid_deterministic<T: Copy, F: Fn(i64, i64, i64) -> T>(
    chunk: ChunkCoord,
    points_per_chunk: u8,
    sample: F,
    first: Matrix3D<T>,
    second: Matrix3D<T>,
)
    requires
        forall|a: i64, b: i64, c: i64, r1: T, r2: T|
            sample.ensures((a, b, c), r1) && sample.ensures((a, b, c), r2) ==> r1 == r2,
        sampled_grid(first, chunk, points_per_chunk, sample),
        sampled_grid(second, chunk, points_per_chunk, sample),
    ensures
        first.extent() == second.extent(),
        forall|p: Index3| in_bounds(first.extent(), p) ==> #[trigger] first.at(p) == second.at(p),
{
    assert forall|p: Index3| in_bounds(first.extent(), p) implies #[trigger] first.at(p) == second.at(p) by {
        assert(sample.ensures(
            (
                lattice_x(chunk, points_per_chunk as int, p),
                lattice_y(chunk, points_per_chunk as int, p),
                lattice_z(chunk, points_per_chunk as int, p),
            ),
            first.at(p),
        ));
        assert(sample.ensures(
            (
                lattice_x(chunk, points_per_chunk as int, p),
                lattice_y(chunk, points_per_chunk as int, p),
                lattice_z(chunk, points_per_chunk as int, p),
            ),
            second.at(p),
        ));
    }
}

/// Grid point `p` comes before `(x, y, z)` in the order z, then y, then x.
spec fn filled_before(p: Index3, x: usize, y: usize, z: usize) -> bool {
    p.z < z || (p.z == z && (p.y < y || (p.y == y && p.x < x)))
}

proof fn lemma_lattice_fits(c: i64, ppc: int, k: int)
    requires
        -0x40_0000_0000_0000 <= c <= 0x40_0000_0000_0000,
        0 <= ppc <= 255,
        0 <= k <= 256,
    ensures
        i64::MIN <= c * ppc + k <= i64::MAX,
        i64::MIN <= c * ppc <= i64::MAX,
{
    assert(-0x40_0000_0000_0000 * 255 <= c * ppc <= 0x40_0000_0000_0000 * 255) by (nonlinear_arith)
        requires -0x40_0000_0000_0000 <= c <= 0x40_0000_0000_0000, 0 <= ppc <= 255;
}

/// Samples `sample` at every point of the `(points_per_chunk + 1)^3` lattice
/// of `chunk`, given in world lattice units; the caller scales them to world
/// space.
pub fn get_matrix<T: Copy, F: Fn(i64, i64, i64) -> T>(
    chunk: ChunkCoord,
    points_per_chunk: u8,
    sample: F,
) -> (r: Matrix3D<T>)
    requires
        chunk_fits(chunk),
        forall|a: i64, b: i64, c: i64| sample.requires((a, b, c)),
    ensures
        sampled_grid(r, chunk, points_per_chunk, sample),
{
    let ppc = points_per_chunk as i64;
    let n: usize = points_per_chunk as usize + 1;
    let dim = Index3 { x: n, y: n, z: n };
    proof {
        lemma_lattice_fits(chunk.x, ppc as int, 0);
        lemma_lattice_fits(chunk.y, ppc as int, 0);
        lemma_lattice_fits(chunk.z, ppc as int, 0);
        assert(n * n * n <= 256 * 256 * 256) by (nonlinear_arith)
            requires 0 <= n <= 256;
    }
    let ox = chunk.x * ppc;
    let oy = chunk.y * ppc;
    let oz = chunk.z * ppc;
    let first = sample(ox, oy, oz);
    let mut m = Matrix3D::new(dim, first);
    let mut z: usize = 0;
    while z < n
        invariant
            chunk_fits(chunk),
            forall|a: i64, b: i64, c: i64| sample.requires((a, b, c)),
            ppc == points_per_chunk,
            n == ppc + 1,
            ox == chunk.x * ppc,
            oy == chunk.y * ppc,
            oz == chunk.z * ppc,
            m.wf(),
            m.extent() == dim,
            dim == (Index3 { x: n, y: n, z: n }),
            z <= n,
            forall|p: Index3|
                in_bounds(dim, p) && p.z < z ==> sample.ensures(
                    (
                        lattice_x(chunk, ppc as int, p),
                        lattice_y(chunk, ppc as int, p),
                        lattice_z(chunk, ppc as int, p),
                    ),
                    #[trigger] m.at(p),
                ),
        decreases n - z,
    {
        let mut y: usize = 0;
        while y < n
            invariant
                chunk_fits(chunk),
                forall|a: i64, b: i64, c: i64| sample.requires((a, b, c)),
                ppc == points_per_chunk,
                n == ppc + 1,
                ox == chunk.x * ppc,
                oy == chunk.y * ppc,
                oz == chunk.z * ppc,
                m.wf(),
                m.extent() == dim,
                dim == (Index3 { x: n, y: n, z: n }),
                z < n,
                y <= n,
                forall|p: Index3|
                    in_bounds(dim, p) && filled_before(p, 0, y, z) ==> sample.ensures(
                        (
                            lattice_x(chunk, ppc as int, p),
                            lattice_y(chunk, ppc as int, p),
                            lattice_z(chunk, ppc as int, p),
                        ),
                        #[trigger] m.at(p),
                    ),
            decreases n - y,
        {
            let mut x: usize = 0;
            while x < n
                invariant
                    chunk_fits(chunk),
                    forall|a: i64, b: i64, c: i64| sample.requires((a, b, c)),
                    ppc == points_per_chunk,
                    n == ppc + 1,
                    ox == chunk.x * ppc,
                    oy == chunk.y * ppc,
                    oz == chunk.z * ppc,
                    m.wf(),
                    m.extent() == dim,
                    dim == (Index3 { x: n, y: n, z: n }),
                    z < n,
                    y < n,
                    x <= n,
                    forall|p: Index3|
                        in_bounds(dim, p) && filled_before(p, x, y, z) ==> sample.ensures(
                            (
                                lattice_x(chunk, ppc as int, p),
                                lattice_y(chunk, ppc as int, p),
                                lattice_z(chunk, ppc as int, p),
                            ),
                            #[trigger] m.at(p),
                        ),
                decreases n - x,
            {
                proof {
                    lemma_lattice_fits(chunk.x, ppc as int, x as int);
                    lemma_lattice_fits(chunk.y, ppc as int, y as int);
                    lemma_lattice_fits(chunk.z, ppc as int, z as int);
                }
                let p = Index3 { x, y, z };
                let v = sample(ox + x as i64, oy + y as i64, oz + z as i64);
                m.set(p, v);
                x = x + 1;
            }
            y = y + 1;
        }
        z = z + 1;
    }
    m
}

} // verus!
