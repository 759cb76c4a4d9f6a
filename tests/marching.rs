use std::collections::HashMap;
use voxel_terrain::cube::CubeGeometry;
use voxel_terrain::error::ConfigError;
use voxel_terrain::marching_cubes::{
    cube_configuration, get_cube_tris, get_mesh_data, MeshVertex, VertexSource,
};
use voxel_terrain::matrix_3d::{Index3, Matrix3D};
use voxel_terrain::triangulation::{DeserTriangulation, Triangulation, TriangulationMethod};

fn points() -> Vec<(usize, usize, usize)> {
    vec![
        (0, 0, 0),
        (1, 0, 0),
        (1, 0, 1),
        (0, 0, 1),
        (0, 1, 0),
        (1, 1, 0),
        (1, 1, 1),
        (0, 1, 1),
    ]
}

fn edges() -> Vec<(usize, usize)> {
    vec![
        (0, 1),
        (1, 2),
        (2, 3),
        (3, 0),
        (4, 5),
        (5, 6),
        (6, 7),
        (7, 4),
        (0, 4),
        (1, 5),
        (2, 6),
        (3, 7),
    ]
}

fn geometry() -> CubeGeometry {
    CubeGeometry::new(points(), edges()).unwrap()
}

fn table(entries: Vec<(u8, Vec<u8>)>, connect_points: bool) -> Result<Triangulation, ConfigError> {
    let mut m = HashMap::new();
    for (k, v) in entries {
        m.insert(k, v);
    }
    DeserTriangulation { triangulation_table: m, connect_points }.convert()
}

fn one_corner_table() -> Triangulation {
    table(vec![(1, vec![0, 8, 3]), (254, vec![0, 3, 8])], false).unwrap()
}

fn flags(dim: (usize, usize, usize), inside: &[(usize, usize, usize)]) -> Matrix3D<bool> {
    let mut m = Matrix3D::new(Index3::new(dim.0, dim.1, dim.2), false);
    for p in inside {
        m.set(Index3::new(p.0, p.1, p.2), true);
    }
    m
}

#[test]
fn geometry_accepts_unit_cube() {
    let g = geometry();
    assert_eq!(g.point(6), Index3::new(1, 1, 1));
    assert_eq!(g.edge(11), (3, 7));
}

#[test]
fn geometry_rejects_wrong_point_count() {
    let mut p = points();
    p.pop();
    assert_eq!(CubeGeometry::new(p, edges()).err(), Some(ConfigError::CubePoints));
}

#[test]
fn geometry_rejects_point_off_cube() {
    let mut p = points();
    p[3] = (0, 2, 1);
    assert_eq!(CubeGeometry::new(p, edges()).err(), Some(ConfigError::CubePoints));
}

#[test]
fn geometry_rejects_wrong_edge_count() {
    let mut e = edges();
    e.push((0, 1));
    assert_eq!(CubeGeometry::new(points(), e).err(), Some(ConfigError::CubeEdges));
}

#[test]
fn geometry_rejects_diagonal_edge() {
    let mut e = edges();
    e[4] = (0, 6);
    assert_eq!(CubeGeometry::new(points(), e).err(), Some(ConfigError::CubeEdges));
}

#[test]
fn geometry_rejects_edge_past_corners() {
    let mut e = edges();
    e[0] = (0, 8);
    assert_eq!(CubeGeometry::new(points(), e).err(), Some(ConfigError::CubeEdges));
}

#[test]
fn geometry_decodes_from_text() {
    let pts = "[(0,0,0),(1,0,0),(1,0,1),(0,0,1),(0,1,0),(1,1,0),(1,1,1),(0,1,1)]";
    let eds = "[(0,1),(1,2),(2,3),(3,0),(4,5),(5,6),(6,7),(7,4),(0,4),(1,5),(2,6),(3,7)]";
    let g = CubeGeometry::from_ron(pts, eds).unwrap();
    assert_eq!(g.point(2), Index3::new(1, 0, 1));
    assert_eq!(g.point(7), Index3::new(0, 1, 1));
    assert_eq!(g.edge(8), (0, 4));
}

#[test]
fn geometry_text_errors() {
    let eds = "[(0,1),(1,2),(2,3),(3,0),(4,5),(5,6),(6,7),(7,4),(0,4),(1,5),(2,6),(3,7)]";
    assert_eq!(CubeGeometry::from_ron("not a list", eds).err(), Some(ConfigError::CubePoints));
    let pts = "[(0,0,0),(1,0,0),(1,0,1),(0,0,1),(0,1,0),(1,1,0),(1,1,1),(0,1,1)]";
    assert_eq!(CubeGeometry::from_ron(pts, "[(0,1)").err(), Some(ConfigError::CubeEdges));
}

#[test]
fn triangulation_lays_out_entries() {
    let t = one_corner_table();
    assert_eq!(t.entry_of(1), &vec![0u8, 8, 3]);
    assert_eq!(t.entry_of(254), &vec![0u8, 3, 8]);
    assert!(t.entry_of(7).is_empty());
    assert!(!t.connect_points());
}

#[test]
fn triangulation_rejects_partial_triangle() {
    assert_eq!(table(vec![(3, vec![1, 2])], false).err(), Some(ConfigError::Triangulation));
}

#[test]
fn triangulation_rejects_edge_reference_out_of_range() {
    assert_eq!(table(vec![(3, vec![1, 2, 12])], false).err(), Some(ConfigError::Triangulation));
}

#[test]
fn triangulation_corner_references_stop_at_eight() {
    assert_eq!(table(vec![(3, vec![1, 2, 8])], true).err(), Some(ConfigError::Triangulation));
    assert!(table(vec![(3, vec![1, 2, 7])], true).is_ok());
}

#[test]
fn triangulation_rejects_surface_in_uniform_cube() {
    assert_eq!(table(vec![(0, vec![0, 1, 2])], false).err(), Some(ConfigError::Triangulation));
    assert_eq!(table(vec![(255, vec![0, 1, 2])], false).err(), Some(ConfigError::Triangulation));
}

#[test]
fn triangulation_method_asset() {
    assert_eq!(TriangulationMethod::BASIC.asset_path(), "triangulation/methods/basic.ron");
}

#[test]
fn configuration_bits_follow_corners() {
    let g = geometry();
    let origin = Index3::new(0, 0, 0);
    assert_eq!(cube_configuration(&flags((2, 2, 2), &[]), &g, origin), 0);
    assert_eq!(cube_configuration(&flags((2, 2, 2), &[(0, 0, 0)]), &g, origin), 1);
    // corner 2 is (1, 0, 1), corner 7 is (0, 1, 1)
    assert_eq!(cube_configuration(&flags((2, 2, 2), &[(1, 0, 1), (0, 1, 1)]), &g, origin), 4 + 128);
    let all: Vec<(usize, usize, usize)> = points();
    assert_eq!(cube_configuration(&flags((2, 2, 2), &all), &g, origin), 255);
}

#[test]
fn uniform_cubes_have_no_triangles() {
    let g = geometry();
    let t = one_corner_table();
    let origin = Index3::new(0, 0, 0);
    assert!(get_cube_tris(&flags((2, 2, 2), &[]), origin, &g, &t).is_empty());
    assert!(get_cube_tris(&flags((2, 2, 2), &points()), origin, &g, &t).is_empty());
}

#[test]
fn one_inside_corner_gives_one_triangle() {
    let g = geometry();
    let t = one_corner_table();
    let tris = get_cube_tris(&flags((2, 2, 2), &[(0, 0, 0)]), Index3::new(0, 0, 0), &g, &t);
    let cell = Index3::new(0, 0, 0);
    assert_eq!(
        tris,
        vec![
            MeshVertex { cell, source: VertexSource::Edge(0, 1) },
            MeshVertex { cell, source: VertexSource::Edge(0, 4) },
            MeshVertex { cell, source: VertexSource::Edge(3, 0) },
        ]
    );
}

#[test]
fn midpoints_are_exact_edge_midpoints() {
    let g = geometry();
    let t = one_corner_table();
    let mesh = get_mesh_data(&flags((2, 2, 2), &[(0, 0, 0)]), &g, &t);
    let halves: Vec<Index3> = mesh.vertex_list().iter().map(|v| v.half_position(&g)).collect();
    assert_eq!(halves, vec![Index3::new(1, 0, 0), Index3::new(0, 1, 0), Index3::new(0, 0, 1)]);
}

#[test]
fn mesh_walks_cells_in_z_y_x_order() {
    let g = geometry();
    let t = one_corner_table();
    // corner (1, 0, 0) is corner 0 of cell (1, 0, 0) and corner 1 of cell (0, 0, 0)
    let grid = flags((3, 2, 2), &[(1, 0, 0)]);
    let mesh = get_mesh_data(&grid, &g, &t);
    assert_eq!(mesh.vertex_list().len(), 3);
    for v in mesh.vertex_list() {
        assert_eq!(v.cell, Index3::new(1, 0, 0));
        let h = v.half_position(&g);
        assert!(h.x >= 2 && h.x <= 4 && h.y <= 2 && h.z <= 2);
    }
}

#[test]
fn mesh_vertices_stay_in_their_cells() {
    let g = geometry();
    let t = table(vec![(1, vec![0, 8, 3]), (2, vec![0, 1, 9]), (254, vec![0, 3, 8])], false).unwrap();
    let grid = flags((4, 3, 3), &[(0, 0, 0), (2, 1, 1), (3, 2, 2)]);
    let mesh = get_mesh_data(&grid, &g, &t);
    assert_eq!(mesh.vertex_list().len() % 3, 0);
    for v in mesh.vertex_list() {
        let h = v.half_position(&g);
        let c = v.cell;
        assert!(c.x + 1 < 4 && c.y + 1 < 3 && c.z + 1 < 3);
        assert!(2 * c.x <= h.x && h.x <= 2 * c.x + 2);
        assert!(2 * c.y <= h.y && h.y <= 2 * c.y + 2);
        assert!(2 * c.z <= h.z && h.z <= 2 * c.z + 2);
    }
}

#[test]
fn corner_mode_emits_corners() {
    let g = geometry();
    let t = table(vec![(1, vec![0, 1, 4])], true).unwrap();
    let mesh = get_mesh_data(&flags((2, 2, 2), &[(0, 0, 0)]), &g, &t);
    let cell = Index3::new(0, 0, 0);
    assert_eq!(
        mesh.vertex_list(),
        &vec![
            MeshVertex { cell, source: VertexSource::Corner(0) },
            MeshVertex { cell, source: VertexSource::Corner(1) },
            MeshVertex { cell, source: VertexSource::Corner(4) },
        ]
    );
    assert_eq!(mesh.vertex_list()[2].half_position(&g), Index3::new(0, 2, 0));
}

#[test]
fn empty_chunk_has_no_geometry() {
    let g = geometry();
    let t = one_corner_table();
    let mesh = get_mesh_data(&flags((3, 3, 3), &[]), &g, &t);
    assert!(mesh.is_empty());
    let (indices, vertices) = mesh.get_mesh_data();
    assert!(indices.is_empty() && vertices.is_empty());
}

#[test]
fn degenerate_grid_has_no_cubes() {
    let g = geometry();
    let t = one_corner_table();
    assert!(get_mesh_data(&flags((0, 0, 0), &[]), &g, &t).is_empty());
    assert!(get_mesh_data(&flags((1, 5, 5), &[(0, 0, 0)]), &g, &t).is_empty());
}

#[test]
fn indices_count_up_from_zero() {
    let g = geometry();
    let t = table(vec![(1, vec![0, 8, 3]), (64, vec![5, 10, 6])], false).unwrap();
    let mesh = get_mesh_data(&flags((3, 2, 2), &[(0, 0, 0), (2, 1, 1)]), &g, &t);
    let (indices, vertices) = mesh.get_mesh_data();
    assert_eq!(vertices.len(), 6);
    assert_eq!(indices, vec![0u16, 1, 2, 3, 4, 5]);
}
