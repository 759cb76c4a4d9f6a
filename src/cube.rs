//! The unit cube that marching cubes walks: its corner offsets and its edges.

use crate::error::ConfigError;
use crate::matrix_3d::Index3;
use vstd::prelude::*;

verus! {

/// Number of corners of the cube.
pub const CORNERS: usize = 8;

/// Number of edges of the cube.
pub const EDGES: usize = 12;

/// What the configuration text of the corner offsets decodes to.
pub uninterp spec fn ron_corner_list(text: Seq<char>) -> Option<Seq<(usize, usize, usize)>>;

/// What the configuration text of the edges decodes to.
pub uninterp spec fn ron_edge_list(text: Seq<char>) -> Option<Seq<(usize, usize)>>;

/// Relies on `ron::from_str` to decode a list of integer triples; the result
/// depends on the text alone.
#[verifier::external_body]
fn decode_corner_list(text: &str) -> (r: Option<Vec<(usize, usize, usize)>>)
    ensures
        match r {
            Some(v) => ron_corner_list(text@) == Some(v@),
            None => ron_corner_list(text@) is None,
        },
{
    ron::from_str::<Vec<(usize, usize, usize)>>(text).ok()
}

/// Relies on `ron::from_str` to decode a list of integer pairs; the result
/// depends on the text alone.
#[verifier::external_body]
fn decode_edge_list(text: &str) -> (r: Option<Vec<(usize, usize)>>)
    ensures
        match r {
            Some(v) => ron_edge_list(text@) == Some(v@),
            None => ron_edge_list(text@) is None,
        },
{
    ron::from_str::<Vec<(usize, usize)>>(text).ok()
}

/// A corner offset of the unit cube: every coordinate is 0 or 1.
pub open spec fn is_corner(p: (usize, usize, usize)) -> bool {
    p.0 <= 1 && p.1 <= 1 && p.2 <= 1
}

/// Number of axes along which two corner offsets differ.
pub open spec fn axes_apart(p: (usize, usize, usize), q: (usize, usize, usize)) -> int {
    (if p.0 != q.0 { 1int } else { 0 }) + (if p.1 != q.1 { 1int } else { 0 }) + (if p.2
        != q.2 { 1int } else { 0 })
}

/// Eight corner offsets of the unit cube.
pub open spec fn points_ok(points: Seq<(usize, usize, usize)>) -> bool {
    &&& points.len() == CORNERS
    &&& forall|i: int| 0 <= i < points.len() ==> is_corner(#[trigger] points[i])
}

/// Twelve edges, each joining two of the given corners that differ along
/// exactly one axis.
pub open spec fn edges_ok(points: Seq<(usize, usize, usize)>, edges: Seq<(usize, usize)>) -> bool {
    &&& edges.len() == EDGES
    &&& forall|i: int|
        0 <= i < edges.len() ==> {
            let e = #[trigger] edges[i];
            &&& e.0 < CORNERS
            &&& e.1 < CORNERS
            &&& axes_apart(points[e.0 as int], points[e.1 as int]) == 1
        }
}

/// The corner offsets and edges of the unit cube, in the order that a
/// triangulation table refers to them.
pub struct CubeGeometry {
    points: Vec<(usize, usize, usize)>,
    edges: Vec<(usize, usize)>,
}

impl CubeGeometry {
    /// Corner offsets, indexed by corner.
    pub closed spec fn points_view(&self) -> Seq<(usize, usize, usize)> {
        self.points@
    }

    /// Edges as pairs of corners, indexed by edge.
    pub closed spec fn edges_view(&self) -> Seq<(usize, usize)> {
        self.edges@
    }

    pub open spec fn wf(&self) -> bool {
        points_ok(self.points_view()) && edges_ok(self.points_view(), self.edges_view())
    }

    /// Checks and keeps decoded corner offsets and edges.
    pub fn new(points: Vec<(usize, usize, usize)>, edges: Vec<(usize, usize)>) -> (r: Result<
        CubeGeometry,
        ConfigError,
    >)
        ensures
            match r {
                Ok(g) => g.wf() && g.points_view() == points@ && g.edges_view() == edges@,
                Err(e) => !points_ok(points@) && e == ConfigError::CubePoints || points_ok(points@)
                    && !edges_ok(points@, edges@) && e == ConfigError::CubeEdges,
            },
            r is Ok <==> points_ok(points@) && edges_ok(points@, edges@),
    {
        if points.len() != CORNERS {
            return Err(ConfigError::CubePoints);
        }
        let mut i: usize = 0;
        while i < points.len()
            invariant
                i <= points@.len(),
                forall|k: int| 0 <= k < i ==> is_corner(#[trigger] points@[k]),
            decreases points@.len() - i,
        {
            let p = points[i];
            if p.0 > 1 || p.1 > 1 || p.2 > 1 {
                return Err(ConfigError::CubePoints);
            }
            i = i + 1;
        }
        if edges.len() != EDGES {
            return Err(ConfigError::CubeEdges);
        }
        let mut j: usize = 0;
        while j < edges.len()
            invariant
                points_ok(points@),
                j <= edges@.len(),
                forall|k: int|
                    0 <= k < j ==> {
                        let e = #[trigger] edges@[k];
                        &&& e.0 < CORNERS
                        &&& e.1 < CORNERS
                        &&& axes_apart(points@[e.0 as int], points@[e.1 as int]) == 1
                    },
            decreases edges@.len() - j,
        {
            let e = edges[j];
            if e.0 >= CORNERS || e.1 >= CORNERS {
                return Err(ConfigError::CubeEdges);
            }
            let a = points[e.0];
            let b = points[e.1];
            let apart: usize = (if a.0 != b.0 { 1 } else { 0 }) + (if a.1 != b.1 { 1 } else { 0 })
                + (if a.2 != b.2 { 1 } else { 0 });
            if apart != 1 {
                return Err(ConfigError::CubeEdges);
            }
            j = j + 1;
        }
        Ok(CubeGeometry { points, edges })
    }

    /// Decodes the corner offsets and the edges from their configuration
    /// texts and checks them.
    pub fn from_ron(points_text: &str, edges_text: &str) -> (r: Result<CubeGeometry, ConfigError>)
        ensures
            r is Ok <==> {
                &&& ron_corner_list(points_text@) matches Some(p)
                &&& ron_edge_list(edges_text@) matches Some(e)
                &&& points_ok(p)
                &&& edges_ok(p, e)
            },
            r matches Ok(g) ==> Some(g.points_view()) == ron_corner_list(points_text@) && Some(
                g.edges_view(),
            ) == ron_edge_list(edges_text@),
            r matches Err(e) ==> (e == ConfigError::CubePoints || e == ConfigError::CubeEdges),
            (ron_corner_list(points_text@) is None) ==> r == Err::<CubeGeometry, ConfigError>(
                ConfigError::CubePoints,
            ),
    {
        let points = match decode_corner_list(points_text) {
            Some(p) => p,
            None => return Err(ConfigError::CubePoints),
        };
        let edges = match decode_edge_list(edges_text) {
            Some(e) => e,
            None => {
                if points.len() != CORNERS {
                    return Err(ConfigError::CubePoints);
                }
                return Err(ConfigError::CubeEdges);
            },
        };
        CubeGeometry::new(points, edges)
    }

    /// Offset of corner `i` from a cube's minimum corner.
    pub fn point(&self, i: usize) -> (r: Index3)
        requires
            i < self.points_view().len(),
        ensures
            r.x == self.points_view()[i as int].0,
            r.y == self.points_view()[i as int].1,
            r.z == self.points_view()[i as int].2,
    {
        let p = self.points[i];
        Index3 { x: p.0, y: p.1, z: p.2 }
    }

    /// The two corners that edge `i` joins, start first.
    pub fn edge(&self, i: usize) -> (r: (usize, usize))
        requires
            i < self.edges_view().len(),
        ensures
            r == self.edges_view()[i as int],
    {
        self.edges[i]
    }
}

} // verus!
