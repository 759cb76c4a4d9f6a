use voxel_terrain::chunk_system::ChunkCoord;
use voxel_terrain::error::ConfigError;
use voxel_terrain::low_poly_shader::{MyFlatPassDef, VertexAttribute};
use voxel_terrain::matrix_3d::Index3;
use voxel_terrain::perlin::{cell_index, perlin_seed, sample_span, SampleSpan};
use voxel_terrain::terrain::{check_terrain, get_matrix, noise_seeds, seed_bytes};

#[test]
fn seed_bytes_repeat_big_endian_form() {
    let seed: u128 = 0x0102_0304_0506_0708_090a_0b0c_0d0e_0f10;
    let b = seed_bytes(seed);
    for i in 0..32 {
        assert_eq!(b[i] as usize, i % 16 + 1);
    }
    assert_eq!(seed_bytes(0), [0u8; 32]);
}

#[test]
fn noise_seeds_are_reproducible() {
    let a = noise_seeds(42, 3);
    let b = noise_seeds(42, 3);
    assert_eq!(a.len(), 3);
    assert_eq!(a, b);
    assert_eq!(noise_seeds(42, 5)[..3], a[..]);
    assert!(noise_seeds(7, 0).is_empty());
}

#[test]
fn terrain_shape_checks() {
    assert_eq!(check_terrain(15, 3, 3), Ok(()));
    assert_eq!(check_terrain(0, 3, 3), Err(ConfigError::ChunkSize));
    assert_eq!(check_terrain(4, 2, 3), Err(ConfigError::LayerCount));
}

#[test]
fn matrix_samples_world_lattice() {
    let chunk = ChunkCoord { x: 1, y: 0, z: -1 };
    let m = get_matrix(chunk, 2, |x: i64, y: i64, z: i64| x * 10_000 + y * 100 + z);
    assert_eq!((m.x(), m.y(), m.z()), (3, 3, 3));
    assert_eq!(m.get(Index3::new(0, 0, 0)), 2 * 10_000 - 2);
    assert_eq!(m.get(Index3::new(2, 1, 0)), 4 * 10_000 + 100 - 2);
    assert_eq!(m.get(Index3::new(1, 2, 2)), 3 * 10_000 + 200);
}

#[test]
fn matrix_neighbouring_chunks_share_faces() {
    let f = |x: i64, y: i64, z: i64| x * 31 + y * 17 + z * 7;
    let a = get_matrix(ChunkCoord { x: 0, y: 0, z: 0 }, 4, f);
    let b = get_matrix(ChunkCoord { x: 1, y: 0, z: 0 }, 4, f);
    for z in 0..5 {
        for y in 0..5 {
            assert_eq!(a.get(Index3::new(4, y, z)), b.get(Index3::new(0, y, z)));
        }
    }
}

#[test]
fn perlin_seed_little_endian_then_zeros() {
    let b = perlin_seed(0x0102_0304_0506_0708);
    assert_eq!(&b[..8], &[8, 7, 6, 5, 4, 3, 2, 1]);
    assert!(b[8..].iter().all(|&v| v == 0));
    let m = perlin_seed(-1);
    assert!(m[..8].iter().all(|&v| v == 255));
}

#[test]
fn sample_spans() {
    assert_eq!(sample_span(5, 8, 1), SampleSpan { start: 4, end: 6, offset: 1, period: 2 });
    assert_eq!(sample_span(7, 8, 1), SampleSpan { start: 6, end: 0, offset: 1, period: 2 });
    assert_eq!(sample_span(3, 8, 0), SampleSpan { start: 3, end: 4, offset: 0, period: 1 });
    assert_eq!(sample_span(13, 16, 3), SampleSpan { start: 8, end: 0, offset: 5, period: 8 });
    assert_eq!(sample_span(2, 5, 4), SampleSpan { start: 0, end: 1, offset: 2, period: 16 });
}

#[test]
fn cell_indices_are_row_major() {
    assert_eq!(cell_index(4, 3, 2), 11);
    assert_eq!(cell_index(7, 0, 0), 0);
}

#[test]
fn flat_pass_layout() {
    assert_eq!(MyFlatPassDef::name(), "Flat");
    assert_eq!(
        MyFlatPassDef::base_format(),
        vec![VertexAttribute::Position, VertexAttribute::Normal, VertexAttribute::TexCoord]
    );
    assert_eq!(MyFlatPassDef::skinned_format().len(), 4);
    assert_eq!(MyFlatPassDef::skinned_format()[3], VertexAttribute::JointCombined);
}
