//! Marching cubes over a grid of inside/outside flags. The mesh is built of
//! symbolic vertices: a cube corner, or a point on a cube edge, of a given
//! cell. Turning them into coordinates is left to the caller, who holds the
//! densities that place a point along its edge.

use crate::cube::{axes_apart, CubeGeometry, CORNERS};
use crate::matrix_3d::{in_bounds, Index3, Matrix3D};
use crate::triangulation::Triangulation;
use vstd::prelude::*;

verus! {

/// Where a mesh vertex comes from, in terms of the cube's corners.
#[derive(Clone, Copy, Debug, PartialEq, Eq, Structural)]
pub enum VertexSource {
    /// The cube corner with this index.
    Corner(usize),
    /// A point on the edge from the first corner to the second.
    Edge(usize, usize),
}

/// A vertex of the extracted surface: where it lies in which grid cell.
#[derive(Clone, Copy, Debug, PartialEq, Eq, Structural)]
pub struct MeshVertex {
    /// The minimum corner of the cell (unit cube) the vertex belongs to.
    pub cell: Index3,
    pub source: VertexSource,
}

/// `cell` is the minimum corner of a whole unit cube of a grid of extent `dim`.
pub open spec fn cell_in_grid(dim: Index3, cell: Index3) -> bool {
    cell.x + 1 < dim.x && cell.y + 1 < dim.y && cell.z + 1 < dim.z
}

/// The lattice point at corner `i` of `cell`.
pub open spec fn corner_of(geom: CubeGeometry, cell: Index3, i: int) -> Index3 {
    let p = geom.points_view()[i];
    Index3 { x: (cell.x + p.0) as usize, y: (cell.y + p.1) as usize, z: (cell.z + p.2) as usize }
}

/// Weight of corner `i` in the configuration number: `2^i`.
pub open spec fn corner_weight(i: int) -> int
    decreases i,
{
    if i <= 0 {
        1
    } else {
        2 * corner_weight(i - 1)
    }
}

/// Sum of the weights of those of the first `n` corners of `cell` that are
/// flagged inside.
pub open spec fn config_sum(grid: Matrix3D<bool>, geom: CubeGeometry, cell: Index3, n: int) -> int
    decreases n,
{
    if n <= 0 {
        0
    } else {
        config_sum(grid, geom, cell, n - 1) + if grid.at(corner_of(geom, cell, n - 1)) {
            corner_weight(n - 1)
        } else {
            0
        }
    }
}

/// The configuration number of `cell`: bit `i` is set iff corner `i` is inside.
pub open spec fn cube_config(grid: Matrix3D<bool>, geom: CubeGeometry, cell: Index3) -> int {
    config_sum(grid, geom, cell, CORNERS as int)
}

/// The vertex that table reference `r` stands for in `cell`.
pub open spec fn vertex_of(geom: CubeGeometry, connect_points: bool, cell: Index3, r: u8) -> MeshVertex {
    if connect_points {
        MeshVertex { cell, source: VertexSource::Corner(r as usize) }
    } else {
        let e = geom.edges_view()[r as int];
        MeshVertex { cell, source: VertexSource::Edge(e.0, e.1) }
    }
}

/// The vertices of the triangles of `cell`, in table order.
pub open spec fn cube_vertices(
    grid: Matrix3D<bool>,
    geom: CubeGeometry,
    tri: Triangulation,
    cell: Index3,
) -> Seq<MeshVertex> {
    tri.entry(cube_config(grid, geom, cell)).map_values(
        |r: u8| vertex_of(geom, tri.connects_points(), cell, r),
    )
}

/// Number of whole cubes along an axis with `n` lattice points.
pub open spec fn cubes_along(n: usize) -> int {
    if n == 0 {
        0
    } else {
        n - 1
    }
}

/// Vertices of the cubes `x < xe` of row `(y, z)`.
pub open spec fn row_vertices(
    grid: Matrix3D<bool>,
    geom: CubeGeometry,
    tri: Triangulation,
    y: usize,
    z: usize,
    xe: int,
) -> Seq<MeshVertex>
    decreases xe,
{
    if xe <= 0 {
        Seq::empty()
    } else {
        row_vertices(grid, geom, tri, y, z, xe - 1) + cube_vertices(
            grid,
            geom,
            tri,
            Index3 { x: (xe - 1) as usize, y, z },
        )
    }
}

/// Vertices of the rows `y < ye` of layer `z`.
pub open spec fn layer_vertices(
    grid: Matrix3D<bool>,
    geom: CubeGeometry,
    tri: Triangulation,
    z: usize,
    ye: int,
) -> Seq<MeshVertex>
    decreases ye,
{
    if ye <= 0 {
        Seq::empty()
    } else {
        layer_vertices(grid, geom, tri, z, ye - 1) + row_vertices(
            grid,
            geom,
            tri,
            (ye - 1) as usize,
            z,
            cubes_along(grid.extent().x),
        )
    }
}

/// Vertices of the layers `z < ze`.
pub open spec fn grid_vertices(
    grid: Matrix3D<bool>,
    geom: CubeGeometry,
    tri: Triangulation,
    ze: int,
) -> Seq<MeshVertex>
    decreases ze,
{
    if ze <= 0 {
        Seq::empty()
    } else {
        grid_vertices(grid, geom, tri, ze - 1) + layer_vertices(
            grid,
            geom,
            tri,
            (ze - 1) as usize,
            cubes_along(grid.extent().y),
        )
    }
}

/// The whole surface of `grid`: cubes in order of z, then y, then x.
pub open spec fn surface(grid: Matrix3D<bool>, geom: CubeGeometry, tri: Triangulation) -> Seq<
    MeshVertex,
> {
    grid_vertices(grid, geom, tri, cubes_along(grid.extent().z))
}

/// The vertex names corners of the cube, and an edge joins two corners
/// that differ along one axis.
pub open spec fn source_ok(geom: CubeGeometry, s: VertexSource) -> bool {
    match s {
        VertexSource::Corner(c) => c < CORNERS,
        VertexSource::Edge(a, b) => a < CORNERS && b < CORNERS && axes_apart(
            geom.points_view()[a as int],
            geom.points_view()[b as int],
        ) == 1,
    }
}

/// Position of a vertex in half lattice units, for a surface that runs
/// through edge midpoints: twice a corner's lattice point, or the sum of an
/// edge's two lattice points.
pub open spec fn half_position(geom: CubeGeometry, v: MeshVertex) -> (int, int, int) {
    let pts = geom.points_view();
    match v.source {
        VertexSource::Corner(c) => (
            2 * (v.cell.x + pts[c as int].0),
            2 * (v.cell.y + pts[c as int].1),
            2 * (v.cell.z + pts[c as int].2),
        ),
        VertexSource::Edge(a, b) => (
            2 * v.cell.x + pts[a as int].0 + pts[b as int].0,
            2 * v.cell.y + pts[a as int].1 + pts[b as int].1,
            2 * v.cell.z + pts[a as int].2 + pts[b as int].2,
        ),
    }
}

/// A position in half lattice units lies in the closed unit cube at `cell`.
pub open spec fn within_cell(h: (int, int, int), cell: Index3) -> bool {
    &&& 2 * cell.x <= h.0 <= 2 * cell.x + 2
    &&& 2 * cell.y <= h.1 <= 2 * cell.y + 2
    &&& 2 * cell.z <= h.2 <= 2 * cell.z + 2
}

/// Every vertex whose source is a corner or an edge of the cube lies in the
/// closed bounding cube of its cell.
pub proof fn lemma_vertex_within_cell(geom: CubeGeometry, v: MeshVertex)
    requires
        geom.wf(),
        source_ok(geom, v.source),
    ensures
        within_cell(half_position(geom, v), v.cell),
{
    match v.source {
        VertexSource::Corner(c) => {
            assert(crate::cube::is_corner(geom.points_view()[c as int]));
        },
        VertexSource::Edge(a, b) => {
            assert(crate::cube::is_corner(geom.points_view()[a as int]));
            assert(crate::cube::is_corner(geom.points_view()[b as int]));
        },
    }
}

/// A vertex on an edge sits at the edge's exact midpoint when the surface
/// runs through midpoints: its half-unit position is the sum of the lattice
/// points of the edge's two corners, whatever the densities there. It lies
/// one half step from each of them along the edge's axis.
pub proof fn lemma_edge_vertex_is_midpoint(geom: CubeGeometry, v: MeshVertex, a: usize, b: usize)
    requires
        geom.wf(),
        v.source == VertexSource::Edge(a, b),
        source_ok(geom, v.source),
    ensures
        half_position(geom, v) == (
            (v.cell.x + geom.points_view()[a as int].0) + (v.cell.x + geom.points_view()[b as int].0),
            (v.cell.y + geom.points_view()[a as int].1) + (v.cell.y + geom.points_view()[b as int].1),
            (v.cell.z + geom.points_view()[a as int].2) + (v.cell.z + geom.points_view()[b as int].2),
        ),
        ({
            let h = half_position(geom, v);
            let pa = geom.points_view()[a as int];
            let pb = geom.points_view()[b as int];
            let da = (h.0 - 2 * (v.cell.x + pa.0)) * (h.0 - 2 * (v.cell.x + pa.0)) + (h.1 - 2 * (
            v.cell.y + pa.1)) * (h.1 - 2 * (v.cell.y + pa.1)) + (h.2 - 2 * (v.cell.z + pa.2)) * (h.2
                - 2 * (v.cell.z + pa.2));
            let db = (h.0 - 2 * (v.cell.x + pb.0)) * (h.0 - 2 * (v.cell.x + pb.0)) + (h.1 - 2 * (
            v.cell.y + pb.1)) * (h.1 - 2 * (v.cell.y + pb.1)) + (h.2 - 2 * (v.cell.z + pb.2)) * (h.2
                - 2 * (v.cell.z + pb.2));
            da == 1 && db == 1
        }),
{
    let pa = geom.points_view()[a as int];
    let pb = geom.points_view()[b as int];
    assert(crate::cube::is_corner(pa));
    assert(crate::cube::is_corner(pb));
    let dx = pb.0 - pa.0;
    let dy = pb.1 - pa.1;
    let dz = pb.2 - pa.2;
    assert(dx * dx == (if dx != 0 { 1int } else { 0 }) && (-dx) * (-dx) == dx * dx) by (nonlinear_arith)
        requires -1 <= dx <= 1;
    assert(dy * dy == (if dy != 0 { 1int } else { 0 }) && (-dy) * (-dy) == dy * dy) by (nonlinear_arith)
        requires -1 <= dy <= 1;
    assert(dz * dz == (if dz != 0 { 1int } else { 0 }) && (-dz) * (-dz) == dz * dz) by (nonlinear_arith)
        requires -1 <= dz <= 1;
}

impl MeshVertex {
    /// Position in half lattice units: twice a corner's lattice point, or the
    /// sum of the two lattice points of an edge, which is exactly twice the
    /// edge's midpoint whatever the densities at its ends.
    pub fn half_position(&self, geom: &CubeGeometry) -> (r: Index3)
        requires
            geom.wf(),
            source_ok(*geom, self.source),
            2 * self.cell.x + 2 <= usize::MAX,
            2 * self.cell.y + 2 <= usize::MAX,
            2 * self.cell.z + 2 <= usize::MAX,
        ensures
            (r.x as int, r.y as int, r.z as int) == half_position(*geom, *self),
    {
        proof {
            lemma_vertex_within_cell(*geom, *self);
        }
        let c = self.cell;
        match self.source {
            VertexSource::Corner(i) => {
                let p = geom.point(i);
                Index3 { x: 2 * (c.x + p.x), y: 2 * (c.y + p.y), z: 2 * (c.z + p.z) }
            },
            VertexSource::Edge(a, b) => {
                let p = geom.point(a);
                let q = geom.point(b);
                Index3 { x: 2 * c.x + p.x + q.x, y: 2 * c.y + p.y + q.y, z: 2 * c.z + p.z + q.z }
            },
        }
    }
}

proof fn lemma_corner_weights()
    ensures
        corner_weight(0) == 1,
        corner_weight(1) == 2,
        corner_weight(2) == 4,
        corner_weight(3) == 8,
        corner_weight(4) == 16,
        corner_weight(5) == 32,
        corner_weight(6) == 64,
        corner_weight(7) == 128,
        corner_weight(8) == 256,
{
    assert(corner_weight(0) == 1);
    assert(corner_weight(1) == 2);
    assert(corner_weight(2) == 4);
    assert(corner_weight(3) == 8);
    assert(corner_weight(4) == 16);
    assert(corner_weight(5) == 32);
    assert(corner_weight(6) == 64);
    assert(corner_weight(7) == 128);
    assert(corner_weight(8) == 256);
}

proof fn lemma_config_sum_range(grid: Matrix3D<bool>, geom: CubeGeometry, cell: Index3, n: int)
    requires
        0 <= n,
    ensures
        0 <= config_sum(grid, geom, cell, n) < corner_weight(n),
    decreases n,
{
    if n > 0 {
        lemma_config_sum_range(grid, geom, cell, n - 1);
    }
}

proof fn lemma_config_sum_uniform(
    grid: Matrix3D<bool>,
    geom: CubeGeometry,
    cell: Index3,
    n: int,
    inside: bool,
)
    requires
        0 <= n,
        forall|i: int| 0 <= i < n ==> grid.at(#[trigger] corner_of(geom, cell, i)) == inside,
    ensures
        config_sum(grid, geom, cell, n) == if inside {
            corner_weight(n) - 1
        } else {
            0
        },
    decreases n,
{
    if n > 0 {
        lemma_config_sum_uniform(grid, geom, cell, n - 1, inside);
        assert(grid.at(corner_of(geom, cell, n - 1)) == inside);
    }
}

/// A cube whose corners are all inside, or all outside, has configuration
/// 255 or 0, and yields no triangle.
pub proof fn lemma_uniform_cube_has_no_triangles(
    grid: Matrix3D<bool>,
    geom: CubeGeometry,
    tri: Triangulation,
    cell: Index3,
    inside: bool,
)
    requires
        tri.wf(),
        forall|i: int| 0 <= i < CORNERS ==> grid.at(#[trigger] corner_of(geom, cell, i)) == inside,
    ensures
        cube_config(grid, geom, cell) == if inside {
            255int
        } else {
            0
        },
        cube_vertices(grid, geom, tri, cell).len() == 0,
{
    lemma_corner_weights();
    lemma_config_sum_uniform(grid, geom, cell, CORNERS as int, inside);
}

/// Configuration number of `cell`: bit `i` is set iff corner `i` is flagged
/// inside.
pub fn cube_configuration(grid: &Matrix3D<bool>, geom: &CubeGeometry, cell: Index3) -> (r: u8)
    requires
        grid.wf(),
        geom.wf(),
        cell_in_grid(grid.extent(), cell),
    ensures
        r as int == cube_config(*grid, *geom, cell),
{
    proof {
        lemma_corner_weights();
    }
    let mut id: usize = 0;
    let mut weight: usize = 1;
    let mut i: usize = 0;
    while i < CORNERS
        invariant
            grid.wf(),
            geom.wf(),
            cell_in_grid(grid.extent(), cell),
            i <= CORNERS,
            id as int == config_sum(*grid, *geom, cell, i as int),
            weight as int == corner_weight(i as int),
            corner_weight(8) == 256,
        decreases CORNERS - i,
    {
        proof {
            lemma_config_sum_range(*grid, *geom, cell, i as int);
            assert(crate::cube::is_corner(geom.points_view()[i as int]));
            if i < 7 {
                lemma_corner_weights();
            }
        }
        let p = geom.point(i);
        let corner = Index3 { x: cell.x + p.x, y: cell.y + p.y, z: cell.z + p.z };
        assert(corner == corner_of(*geom, cell, i as int));
        if grid.get(corner) {
            id = id + weight;
        }
        assert(weight <= 128) by {
            lemma_corner_weights();
        }
        weight = weight * 2;
        i = i + 1;
    }
    proof {
        lemma_config_sum_range(*grid, *geom, cell, 8);
    }
    id as u8
}

/// The triangle vertices of one cube, three per triangle, in table order.
pub fn get_cube_tris(
    grid: &Matrix3D<bool>,
    cell: Index3,
    geom: &CubeGeometry,
    tri: &Triangulation,
) -> (r: Vec<MeshVertex>)
    requires
        grid.wf(),
        geom.wf(),
        tri.wf(),
        cell_in_grid(grid.extent(), cell),
    ensures
        r@ == cube_vertices(*grid, *geom, *tri, cell),
        r@.len() % 3 == 0,
        forall|i: int|
            0 <= i < r@.len() ==> (#[trigger] r@[i]).cell == cell && source_ok(*geom, r@[i].source),
        cube_config(*grid, *geom, cell) == 0 || cube_config(*grid, *geom, cell) == 255 ==> r@.len()
            == 0,
{
    let id = cube_configuration(grid, geom, cell);
    let entry = tri.entry_of(id);
    let connect = tri.connect_points();
    let ghost expected = cube_vertices(*grid, *geom, *tri, cell);
    assert(crate::triangulation::entry_ok(tri.entry(id as int), connect));
    let mut out: Vec<MeshVertex> = Vec::new();
    let mut j: usize = 0;
    while j < entry.len()
        invariant
            geom.wf(),
            entry@ == tri.entry(id as int),
            crate::triangulation::entry_ok(entry@, connect),
            connect == tri.connects_points(),
            expected == entry@.map_values(|r: u8| vertex_of(*geom, connect, cell, r)),
            j <= entry@.len(),
            out@ == expected.subrange(0, j as int),
            forall|i: int|
                0 <= i < out@.len() ==> (#[trigger] out@[i]).cell == cell && source_ok(
                    *geom,
                    out@[i].source,
                ),
        decreases entry@.len() - j,
    {
        let r = entry[j];
        let v = if connect {
            MeshVertex { cell, source: VertexSource::Corner(r as usize) }
        } else {
            let e = geom.edge(r as usize);
            MeshVertex { cell, source: VertexSource::Edge(e.0, e.1) }
        };
        assert(v == vertex_of(*geom, connect, cell, r));
        assert(source_ok(*geom, v.source)) by {
            assert((entry@[j as int] as int) < crate::triangulation::reference_limit(connect));
        }
        out.push(v);
        assert(out@ =~= expected.subrange(0, j + 1));
        j = j + 1;
    }
    assert(out@ =~= expected);
    out
}

/// Every vertex belongs to a whole cube of the grid, names corners or an
/// edge of that cube, and lies in the cube's closed bounds.
pub open spec fn vertices_in_cells(dim: Index3, geom: CubeGeometry, vs: Seq<MeshVertex>) -> bool {
    forall|i: int|
        0 <= i < vs.len() ==> {
            let v = #[trigger] vs[i];
            &&& cell_in_grid(dim, v.cell)
            &&& source_ok(geom, v.source)
            &&& within_cell(half_position(geom, v), v.cell)
        }
}

/// The surface of a grid of inside/outside flags, as triangles of symbolic
/// vertices.
pub struct MeshData {
    vertices: Vec<MeshVertex>,
}

impl MeshData {
    /// The triangle vertices, three per triangle.
    pub closed spec fn vertices(&self) -> Seq<MeshVertex> {
        self.vertices@
    }

    /// The triangle vertices, three per triangle.
    pub fn vertex_list(&self) -> (r: &Vec<MeshVertex>)
        ensures
            r@ == self.vertices(),
    {
        &self.vertices
    }

    /// True when the surface has no triangle: such a chunk has no visible
    /// geometry.
    pub fn is_empty(&self) -> (r: bool)
        ensures
            r == (self.vertices().len() == 0),
    {
        self.vertices.len() == 0
    }

    /// The index sequence `0..n` beside the `n` vertices.
    pub fn get_mesh_data(self) -> (r: (Vec<u16>, Vec<MeshVertex>))
        requires
            self.vertices().len() <= 65536,
        ensures
            r.1@ == self.vertices(),
            r.0@.len() == self.vertices().len(),
            forall|i: int| 0 <= i < r.0@.len() ==> #[trigger] r.0@[i] as int == i,
    {
        let n = self.vertices.len();
        let mut indices: Vec<u16> = Vec::new();
        let mut i: usize = 0;
        while i < n
            invariant
                n <= 65536,
                i <= n,
                indices@.len() == i,
                forall|k: int| 0 <= k < i ==> #[trigger] indices@[k] as int == k,
            decreases n - i,
        {
            indices.push(i as u16);
            i = i + 1;
        }
        (indices, self.vertices)
    }
}

proof fn lemma_cube_vertices_in_cell(
    grid: Matrix3D<bool>,
    geom: CubeGeometry,
    cube: Seq<MeshVertex>,
    cell: Index3,
)
    requires
        geom.wf(),
        cell_in_grid(grid.extent(), cell),
        forall|i: int|
            0 <= i < cube.len() ==> (#[trigger] cube[i]).cell == cell && source_ok(geom, cube[i].source),
    ensures
        vertices_in_cells(grid.extent(), geom, cube),
{
    assert forall|i: int| 0 <= i < cube.len() implies within_cell(half_position(geom, #[trigger] cube[i]), cube[i].cell) by {
        lemma_vertex_within_cell(geom, cube[i]);
    }
}

/// Walks every unit cube of `grid`, in order of z, then y, then x, and
/// collects the triangles that the table gives for its configuration.
pub fn get_mesh_data(grid: &Matrix3D<bool>, geom: &CubeGeometry, tri: &Triangulation) -> (r: MeshData)
    requires
        grid.wf(),
        geom.wf(),
        tri.wf(),
    ensures
        r.vertices() == surface(*grid, *geom, *tri),
        r.vertices().len() % 3 == 0,
        vertices_in_cells(grid.extent(), *geom, r.vertices()),
{
    let cx: usize = if grid.x() == 0 { 0 } else { grid.x() - 1 };
    let cy: usize = if grid.y() == 0 { 0 } else { grid.y() - 1 };
    let cz: usize = if grid.z() == 0 { 0 } else { grid.z() - 1 };
    let ghost dim = grid.extent();
    let mut out: Vec<MeshVertex> = Vec::new();
    let mut z: usize = 0;
    while z < cz
        invariant
            grid.wf(),
            geom.wf(),
            tri.wf(),
            dim == grid.extent(),
            cx == cubes_along(dim.x),
            cy == cubes_along(dim.y),
            cz == cubes_along(dim.z),
            z <= cz,
            out@ == grid_vertices(*grid, *geom, *tri, z as int),
            out@.len() % 3 == 0,
            vertices_in_cells(dim, *geom, out@),
        decreases cz - z,
    {
        let mut y: usize = 0;
        while y < cy
            invariant
                grid.wf(),
                geom.wf(),
                tri.wf(),
                dim == grid.extent(),
                cx == cubes_along(dim.x),
                cy == cubes_along(dim.y),
                cz == cubes_along(dim.z),
                z < cz,
                y <= cy,
                out@ == grid_vertices(*grid, *geom, *tri, z as int) + layer_vertices(
                    *grid,
                    *geom,
                    *tri,
                    z,
                    y as int,
                ),
                out@.len() % 3 == 0,
                vertices_in_cells(dim, *geom, out@),
            decreases cy - y,
        {
            let mut x: usize = 0;
            while x < cx
                invariant
                    grid.wf(),
                    geom.wf(),
                    tri.wf(),
                    dim == grid.extent(),
                    cx == cubes_along(dim.x),
                    cy == cubes_along(dim.y),
                    cz == cubes_along(dim.z),
                    z < cz,
                    y < cy,
                    x <= cx,
                    out@ == grid_vertices(*grid, *geom, *tri, z as int) + layer_vertices(
                        *grid,
                        *geom,
                        *tri,
                        z,
                        y as int,
                    ) + row_vertices(*grid, *geom, *tri, y, z, x as int),
                    out@.len() % 3 == 0,
                    vertices_in_cells(dim, *geom, out@),
                decreases cx - x,
            {
                let cell = Index3 { x, y, z };
                let mut cube = get_cube_tris(grid, cell, geom, tri);
                proof {
                    lemma_cube_vertices_in_cell(*grid, *geom, cube@, cell);
                }
                let ghost before = out@;
                out.append(&mut cube);
                proof {
                    assert(out@ == before + cube_vertices(*grid, *geom, *tri, cell));
                    assert(vertices_in_cells(dim, *geom, out@)) by {
                        assert forall|i: int| 0 <= i < out@.len() implies {
                            let v = #[trigger] out@[i];
                            &&& cell_in_grid(dim, v.cell)
                            &&& source_ok(*geom, v.source)
                            &&& within_cell(half_position(*geom, v), v.cell)
                        } by {
                            if i >= before.len() {
                                assert(out@[i] == cube_vertices(*grid, *geom, *tri, cell)[i - before.len()]);
                            } else {
                                assert(out@[i] == before[i]);
                            }
                        }
                    }
                    vstd::seq_lib::lemma_concat_associative(
                        grid_vertices(*grid, *geom, *tri, z as int) + layer_vertices(*grid, *geom, *tri, z, y as int),
                        row_vertices(*grid, *geom, *tri, y, z, x as int),
                        cube_vertices(*grid, *geom, *tri, cell),
                    );
                }
                x = x + 1;
            }
            proof {
                vstd::seq_lib::lemma_concat_associative(
                    grid_vertices(*grid, *geom, *tri, z as int),
                    layer_vertices(*grid, *geom, *tri, z, y as int),
                    row_vertices(*grid, *geom, *tri, y, z, cx as int),
                );
            }
            y = y + 1;
        }
        z = z + 1;
    }
    MeshData { vertices: out }
}

} // verus!
