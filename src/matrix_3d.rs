//! A dense three-dimensional grid stored in one flat vector.

use vstd::prelude::*;

verus! {

/// A lattice position, or the extent of a lattice along each axis.
#[derive(Clone, Copy, Debug, PartialEq, Eq, Structural)]
pub struct Index3 {
    pub x: usize,
    pub y: usize,
    pub z: usize,
}

impl Index3 {
    pub fn new(x: usize, y: usize, z: usize) -> (r: Index3)
        ensures
            r == (Index3 { x, y, z }),
    {
        Index3 { x, y, z }
    }
}

/// Number of cells of a grid with the given extent.
pub open spec fn cell_count(dim: Index3) -> int {
    dim.x * dim.y * dim.z
}

/// Whether `p` addresses a cell of a grid with extent `dim`.
pub open spec fn in_bounds(dim: Index3, p: Index3) -> bool {
    p.x < dim.x && p.y < dim.y && p.z < dim.z
}

/// Row-major position of `p` in the flat storage: x varies fastest, then y, then z.
pub open spec fn flat_index(dim: Index3, p: Index3) -> int {
    p.z * dim.x * dim.y + p.y * dim.x + p.x
}

/// The value of cell `p` in the flat storage `cells` of a grid with extent `dim`.
pub open spec fn cell_at<T>(cells: Seq<T>, dim: Index3, p: Index3) -> T {
    cells[flat_index(dim, p)]
}

proof fn lemma_flat_index_bounds(dim: Index3, p: Index3)
    requires
        in_bounds(dim, p),
    ensures
        0 <= flat_index(dim, p) < cell_count(dim),
{
    let dx = dim.x as int;
    let dy = dim.y as int;
    let dz = dim.z as int;
    let (x, y, z) = (p.x as int, p.y as int, p.z as int);
    assert(0 <= z * dx * dy) by (nonlinear_arith)
        requires 0 <= z, 0 <= dx, 0 <= dy;
    assert(0 <= y * dx) by (nonlinear_arith)
        requires 0 <= y, 0 <= dx;
    assert(y * dx + x < (y + 1) * dx) by (nonlinear_arith)
        requires x < dx;
    assert((y + 1) * dx <= dy * dx) by (nonlinear_arith)
        requires y + 1 <= dy, 0 <= dx;
    assert(z * dx * dy + dy * dx <= dx * dy * dz) by (nonlinear_arith)
        requires z + 1 <= dz, 0 <= dx, 0 <= dy;
}

proof fn lemma_flat_index_injective(dim: Index3, p: Index3, q: Index3)
    requires
        in_bounds(dim, p),
        in_bounds(dim, q),
        flat_index(dim, p) == flat_index(dim, q),
    ensures
        p == q,
{
    let dx = dim.x as int;
    let dy = dim.y as int;
    let rp = p.y * dx + p.x;
    let rq = q.y * dx + q.x;
    assert(0 <= rp < dx * dy) by (nonlinear_arith)
        requires p.x < dx, p.y < dy, 0 <= p.x, 0 <= p.y, rp == p.y * dx + p.x;
    assert(0 <= rq < dx * dy) by (nonlinear_arith)
        requires q.x < dx, q.y < dy, 0 <= q.x, 0 <= q.y, rq == q.y * dx + q.x;
    assert(p.z * dx * dy == (p.z * (dx * dy))) by (nonlinear_arith);
    assert(q.z * dx * dy == (q.z * (dx * dy))) by (nonlinear_arith);
    lemma_unique_split(dx * dy, p.z as int, rp, q.z as int, rq);
    lemma_unique_split(dx, p.y as int, p.x as int, q.y as int, q.x as int);
}

/// Writing `a = hi * m + lo` with `0 <= lo < m` determines `hi` and `lo`.
proof fn lemma_unique_split(m: int, h1: int, l1: int, h2: int, l2: int)
    requires
        0 <= l1 < m,
        0 <= l2 < m,
        0 <= h1,
        0 <= h2,
        h1 * m + l1 == h2 * m + l2,
    ensures
        h1 == h2,
        l1 == l2,
{
    if h1 < h2 {
        assert(h1 * m + m <= h2 * m) by (nonlinear_arith)
            requires h1 + 1 <= h2, 0 <= m;
    } else if h2 < h1 {
        assert(h2 * m + m <= h1 * m) by (nonlinear_arith)
            requires h2 + 1 <= h1, 0 <= m;
    }
}

/// Reading a cell right after writing `v` to it gives `v`, and the write
/// leaves every other cell as it was.
pub proof fn lemma_get_after_set<T>(cells: Seq<T>, dim: Index3, p: Index3, v: T)
    requires
        cells.len() == cell_count(dim),
        in_bounds(dim, p),
    ensures
        cell_at(cells.update(flat_index(dim, p), v), dim, p) == v,
        forall|q: Index3|
            in_bounds(dim, q) && q != p ==> cell_at(cells.update(flat_index(dim, p), v), dim, q)
                == cell_at(cells, dim, q),
{
    lemma_flat_index_bounds(dim, p);
    assert forall|q: Index3| in_bounds(dim, q) && q != p implies cell_at(
        cells.update(flat_index(dim, p), v),
        dim,
        q,
    ) == cell_at(cells, dim, q) by {
        lemma_flat_index_bounds(dim, q);
        if flat_index(dim, q) == flat_index(dim, p) {
            lemma_flat_index_injective(dim, p, q);
        }
    }
}

/// A dense grid of `dim.x * dim.y * dim.z` values, indexed by `Index3`.
pub struct Matrix3D<T> {
    dim: Index3,
    elems: Vec<T>,
}

impl<T: Copy> Matrix3D<T> {
    /// The grid's extent.
    pub closed spec fn extent(&self) -> Index3 {
        self.dim
    }

    /// The grid's values in row-major order.
    pub closed spec fn cells(&self) -> Seq<T> {
        self.elems@
    }

    /// The storage holds exactly one value per cell.
    pub open spec fn wf(&self) -> bool {
        self.cells().len() == cell_count(self.extent())
    }

    /// The value of cell `p`.
    pub open spec fn at(&self, p: Index3) -> T {
        cell_at(self.cells(), self.extent(), p)
    }

    /// A grid of extent `dim` with every cell holding `fill`.
    pub fn new(dim: Index3, fill: T) -> (r: Self)
        requires
            cell_count(dim) <= usize::MAX,
        ensures
            r.wf(),
            r.extent() == dim,
            forall|p: Index3| in_bounds(dim, p) ==> r.at(p) == fill,
    {
        let n: usize = if dim.x == 0 || dim.y == 0 || dim.z == 0 {
            proof {
                assert(cell_count(dim) == 0) by (nonlinear_arith)
                    requires dim.x == 0 || dim.y == 0 || dim.z == 0, cell_count(dim) == dim.x * dim.y * dim.z;
            }
            0
        } else {
            proof {
                assert(dim.x * dim.y <= dim.x * dim.y * dim.z) by (nonlinear_arith)
                    requires 1 <= dim.x, 1 <= dim.y, 1 <= dim.z;
            }
            dim.x * dim.y * dim.z
        };
        let mut elems: Vec<T> = Vec::new();
        let mut i: usize = 0;
        while i < n
            invariant
                i <= n,
                elems@.len() == i,
                forall|k: int| 0 <= k < i ==> elems@[k] == fill,
            decreases n - i,
        {
            elems.push(fill);
            i = i + 1;
        }
        let r = Matrix3D { dim, elems };
        assert forall|p: Index3| in_bounds(dim, p) implies r.at(p) == fill by {
            lemma_flat_index_bounds(dim, p);
        }
        r
    }

    fn index(&self, p: Index3) -> (r: usize)
        requires
            self.wf(),
            in_bounds(self.extent(), p),
        ensures
            r == flat_index(self.extent(), p),
            r < self.cells().len(),
    {
        let len = self.elems.len();
        proof {
            lemma_flat_index_bounds(self.dim, p);
            assert(cell_count(self.dim) == len);
            let dx = self.dim.x as int;
            let dy = self.dim.y as int;
            assert(0 <= p.z * dx <= p.z * dx * dy) by (nonlinear_arith)
                requires 0 <= p.z, 0 <= dx, 1 <= dy;
            assert(0 <= p.y * dx) by (nonlinear_arith)
                requires 0 <= p.y, 0 <= dx;
        }
        p.z * self.dim.x * self.dim.y + p.y * self.dim.x + p.x
    }

    /// The value of cell `p`.
    pub fn get(&self, p: Index3) -> (r: T)
        requires
            self.wf(),
            in_bounds(self.extent(), p),
        ensures
            r == self.at(p),
    {
        let i = self.index(p);
        self.elems[i]
    }

    /// Stores `val` in cell `p`; every other cell keeps its value.
    pub fn set(&mut self, p: Index3, val: T)
        requires
            old(self).wf(),
            in_bounds(old(self).extent(), p),
        ensures
            final(self).wf(),
            final(self).extent() == old(self).extent(),
            final(self).cells() == old(self).cells().update(flat_index(old(self).extent(), p), val),
            final(self).at(p) == val,
            forall|q: Index3|
                in_bounds(old(self).extent(), q) && q != p ==> final(self).at(q) == old(self).at(q),
    {
        let i = self.index(p);
        self.elems.set(i, val);
        proof {
            lemma_get_after_set(old(self).cells(), self.dim, p, val);
        }
    }

    /// A grid of the same extent whose cells hold `f` of this grid's cells.
    pub fn map<U: Copy, F: Fn(T) -> U>(&self, f: F) -> (r: Matrix3D<U>)
        requires
            self.wf(),
            forall|v: T| f.requires((v,)),
        ensures
            r.wf(),
            r.extent() == self.extent(),
            forall|p: Index3| in_bounds(self.extent(), p) ==> f.ensures((self.at(p),), #[trigger] r.at(p)),
    {
        let mut out: Vec<U> = Vec::new();
        let mut i: usize = 0;
        while i < self.elems.len()
            invariant
                i <= self.elems@.len(),
                forall|v: T| f.requires((v,)),
                out@.len() == i,
                forall|k: int| 0 <= k < i ==> f.ensures((self.elems@[k],), #[trigger] out@[k]),
            decreases self.elems@.len() - i,
        {
            out.push(f(self.elems[i]));
            i = i + 1;
        }
        let r = Matrix3D { dim: self.dim, elems: out };
        assert forall|p: Index3| in_bounds(self.extent(), p) implies f.ensures((self.at(p),), #[trigger] r.at(p)) by {
            lemma_flat_index_bounds(self.dim, p);
        }
        r
    }

    /// Extent along x.
    pub fn x(&self) -> (r: usize)
        ensures
            r == self.extent().x,
    {
        self.dim.x
    }

    /// Extent along y.
    pub fn y(&self) -> (r: usize)
        ensures
            r == self.extent().y,
    {
        self.dim.y
    }

    /// Extent along z.
    pub fn z(&self) -> (r: usize)
        ensures
            r == self.extent().z,
    {
        self.dim.z
    }
}

} // verus!
