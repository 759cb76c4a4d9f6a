use voxel_terrain::chunk_system::{ChunkCoord, ChunkSystem};
use voxel_terrain::error::ConfigError;

fn c(x: i64, y: i64, z: i64) -> ChunkCoord {
    ChunkCoord { x, y, z }
}

#[test]
fn eviction_radius_must_reach_cube_corners() {
    assert_eq!(ChunkSystem::new(1, 1).err(), Some(ConfigError::EvictionRadius));
    assert_eq!(ChunkSystem::new(3, 5).err(), Some(ConfigError::EvictionRadius));
    assert!(ChunkSystem::new(1, 2).is_ok());
    assert!(ChunkSystem::new(3, 6).is_ok());
    assert!(ChunkSystem::new(0, 0).is_ok());
}

#[test]
fn first_tick_creates_view_cube_in_order() {
    let mut s = ChunkSystem::new(1, 2).unwrap();
    let r = s.run(c(0, 0, 0));
    assert!(r.destroyed.is_empty());
    assert_eq!(r.created.len(), 27);
    assert_eq!(r.created[0], c(-1, -1, -1));
    assert_eq!(r.created[1], c(-1, -1, 0));
    assert_eq!(r.created[3], c(-1, 0, -1));
    assert_eq!(r.created[26], c(1, 1, 1));
    for w in r.created.windows(2) {
        assert!((w[0].x, w[0].y, w[0].z) < (w[1].x, w[1].y, w[1].z));
    }
    assert_eq!(s.active_chunks().len(), 27);
    assert!(s.is_active(c(1, -1, 0)));
    assert!(!s.is_active(c(2, 0, 0)));
}

#[test]
fn second_tick_in_place_is_quiet() {
    let mut s = ChunkSystem::new(2, 4).unwrap();
    let first = s.run(c(5, -3, 7));
    assert_eq!(first.created.len(), 125);
    let second = s.run(c(5, -3, 7));
    assert!(second.created.is_empty());
    assert!(second.destroyed.is_empty());
    assert_eq!(s.active_chunks().len(), 125);
}

#[test]
fn moving_evicts_far_chunks_and_fills_new_cube() {
    let mut s = ChunkSystem::new(1, 2).unwrap();
    s.run(c(0, 0, 0));
    let r = s.run(c(3, 0, 0));
    // only (1, 0, 0) is within distance 2 of (3, 0, 0)
    assert_eq!(r.destroyed.len(), 26);
    assert!(!r.destroyed.contains(&c(1, 0, 0)));
    assert!(r.destroyed.contains(&c(-1, -1, -1)));
    assert_eq!(r.created.len(), 27);
    assert_eq!(r.created[0], c(2, -1, -1));
    assert_eq!(s.active_chunks().len(), 28);
    assert!(s.is_active(c(1, 0, 0)));
    assert!(!s.is_active(c(0, 0, 0)));
    for x in 2..=4 {
        for y in -1..=1 {
            for z in -1..=1 {
                assert!(s.is_active(c(x, y, z)));
            }
        }
    }
}

#[test]
fn hysteresis_keeps_chunks_near_the_boundary() {
    let mut s = ChunkSystem::new(1, 3).unwrap();
    s.run(c(0, 0, 0));
    let r = s.run(c(1, 0, 0));
    // every chunk of the old cube is within distance 3 of (1, 0, 0)
    assert!(r.destroyed.is_empty());
    assert_eq!(r.created.len(), 9);
    assert!(r.created.iter().all(|k| k.x == 2));
    assert_eq!(s.active_chunks().len(), 36);
}

#[test]
fn zero_radius_tracks_single_chunk() {
    let mut s = ChunkSystem::new(0, 0).unwrap();
    let r = s.run(c(-7, 2, 9));
    assert_eq!(r.created, vec![c(-7, 2, 9)]);
    let r = s.run(c(-6, 2, 9));
    assert_eq!(r.destroyed, vec![c(-7, 2, 9)]);
    assert_eq!(r.created, vec![c(-6, 2, 9)]);
    assert_eq!(s.view_radius(), 0);
    assert_eq!(s.evict_radius(), 0);
}
