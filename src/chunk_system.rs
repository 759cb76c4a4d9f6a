//! Chunk streaming: which chunks must exist around a reference chunk, and
//! which may go.

use crate::error::ConfigError;
use vstd::prelude::*;

verus! {

/// A chunk's position in chunk space; its world position is this times the
/// chunk size.
#[derive(Clone, Copy, Debug, PartialEq, Eq, Hash, Structural)]
pub struct ChunkCoord {
    pub x: i64,
    pub y: i64,
    pub z: i64,
}

/// `a` comes before `b` in lexicographic order of (x, y, z).
pub open spec fn lex_lt(a: ChunkCoord, b: ChunkCoord) -> bool {
    a.x < b.x || (a.x == b.x && (a.y < b.y || (a.y == b.y && a.z < b.z)))
}

/// `c` lies in the cube of half-width `radius` (in chunks) around `base`.
pub open spec fn in_view(base: ChunkCoord, radius: int, c: ChunkCoord) -> bool {
    &&& base.x - radius <= c.x <= base.x + radius
    &&& base.y - radius <= c.y <= base.y + radius
    &&& base.z - radius <= c.z <= base.z + radius
}

/// Squared straight-line distance between two chunks, in chunk units.
pub open spec fn dist2(a: ChunkCoord, b: ChunkCoord) -> int {
    (a.x - b.x) * (a.x - b.x) + (a.y - b.y) * (a.y - b.y) + (a.z - b.z) * (a.z - b.z)
}

/// `c` lies beyond the eviction radius around `base`.
pub open spec fn beyond(base: ChunkCoord, evict_radius: int, c: ChunkCoord) -> bool {
    dist2(c, base) > evict_radius * evict_radius
}

/// The eviction radius reaches every chunk of the view cube.
pub open spec fn radii_ok(view_radius: int, evict_radius: int) -> bool {
    evict_radius * evict_radius >= 3 * (view_radius * view_radius)
}

/// The view cube around `base` can be enumerated without leaving `i64`.
pub open spec fn view_fits(base: ChunkCoord, radius: int) -> bool {
    &&& i64::MIN <= base.x - radius && base.x + radius < i64::MAX
    &&& i64::MIN <= base.y - radius && base.y + radius < i64::MAX
    &&& i64::MIN <= base.z - radius && base.z + radius < i64::MAX
}

/// Strictly increasing in lexicographic order, hence free of duplicates.
pub open spec fn lex_sorted(s: Seq<ChunkCoord>) -> bool {
    forall|i: int, j: int| 0 <= i < j < s.len() ==> lex_lt(#[trigger] s[i], #[trigger] s[j])
}

/// One reconciliation step from the active set `before` to `after`, with
/// reference chunk `base`: chunks beyond the eviction radius are destroyed,
/// the view cube is filled, and the chunks it lacked are created in
/// lexicographic order.
pub open spec fn reconciled(
    before: Seq<ChunkCoord>,
    base: ChunkCoord,
    view_radius: int,
    evict_radius: int,
    after: Seq<ChunkCoord>,
    destroyed: Seq<ChunkCoord>,
    created: Seq<ChunkCoord>,
) -> bool {
    &&& after.no_duplicates()
    &&& destroyed.no_duplicates()
    &&& lex_sorted(created)
    &&& forall|c: ChunkCoord|
        #[trigger] after.contains(c) <==> in_view(base, view_radius, c) || (before.contains(c)
            && !beyond(base, evict_radius, c))
    &&& forall|c: ChunkCoord|
        #[trigger] destroyed.contains(c) <==> before.contains(c) && beyond(base, evict_radius, c)
    &&& forall|c: ChunkCoord|
        #[trigger] created.contains(c) <==> in_view(base, view_radius, c) && !(before.contains(c)
            && !beyond(base, evict_radius, c))
}

/// What one reconciliation step asks of the world: chunks to drop and chunks
/// to build, the latter in lexicographic order.
pub struct Reconciliation {
    pub destroyed: Vec<ChunkCoord>,
    pub created: Vec<ChunkCoord>,
}

/// The set of chunks that currently exist, and the radii that govern it.
pub struct ChunkSystem {
    chunk_posns: Vec<ChunkCoord>,
    view_radius: u32,
    evict_radius: u32,
}

proof fn lemma_square_bound(d: int, r: int)
    requires
        0 <= r,
        -r <= d <= r,
    ensures
        d * d <= r * r,
{
    if d >= 0 {
        assert(d * d <= r * r) by (nonlinear_arith)
            requires 0 <= d <= r;
    } else {
        assert(d * d <= r * r) by (nonlinear_arith)
            requires 0 <= -d <= r;
    }
}

/// A chunk of the view cube is never beyond an eviction radius that reaches
/// the cube's corners.
pub proof fn lemma_view_within_eviction(base: ChunkCoord, view_radius: int, evict_radius: int, c: ChunkCoord)
    requires
        0 <= view_radius,
        radii_ok(view_radius, evict_radius),
        in_view(base, view_radius, c),
    ensures
        !beyond(base, evict_radius, c),
{
    lemma_square_bound(c.x - base.x, view_radius);
    lemma_square_bound(c.y - base.y, view_radius);
    lemma_square_bound(c.z - base.z, view_radius);
}

proof fn lemma_push_contains<A>(s: Seq<A>, v: A, c: A)
    ensures
        s.push(v).contains(c) <==> s.contains(c) || c == v,
{
    if c == v {
        assert(s.push(v)[s.len() as int] == v);
    }
    if s.contains(c) {
        let k = choose|k: int| 0 <= k < s.len() && s[k] == c;
        assert(s.push(v)[k] == c);
    }
    if s.push(v).contains(c) && c != v {
        let k = choose|k: int| 0 <= k < s.push(v).len() && s.push(v)[k] == c;
        assert(s[k] == c);
    }
}

proof fn lemma_push_no_duplicates<A>(s: Seq<A>, v: A)
    requires
        s.no_duplicates(),
        !s.contains(v),
    ensures
        s.push(v).no_duplicates(),
{
    assert forall|i: int, j: int| 0 <= i < s.push(v).len() && 0 <= j < s.push(v).len() && i != j
        implies s.push(v)[i] != s.push(v)[j] by {
        if i == s.len() as int {
            assert(s[j] == s.push(v)[j]);
        } else if j == s.len() as int {
            assert(s[i] == s.push(v)[i]);
        }
    }
}

proof fn lemma_prefix_contains<A>(s: Seq<A>, i: int, c: A)
    requires
        0 <= i < s.len(),
    ensures
        s.subrange(0, i + 1).contains(c) <==> s.subrange(0, i).contains(c) || s[i] == c,
{
    assert(s.subrange(0, i + 1) =~= s.subrange(0, i).push(s[i]));
    lemma_push_contains(s.subrange(0, i), s[i], c);
}

/// Two reconciliation steps in a row around the same reference chunk: the
/// second one destroys nothing, creates nothing, and keeps the active set.
pub proof fn lemma_second_step_is_quiet(
    before: Seq<ChunkCoord>,
    base: ChunkCoord,
    view_radius: int,
    evict_radius: int,
    mid: Seq<ChunkCoord>,
    destroyed1: Seq<ChunkCoord>,
    created1: Seq<ChunkCoord>,
    after: Seq<ChunkCoord>,
    destroyed2: Seq<ChunkCoord>,
    created2: Seq<ChunkCoord>,
)
    requires
        0 <= view_radius,
        radii_ok(view_radius, evict_radius),
        reconciled(before, base, view_radius, evict_radius, mid, destroyed1, created1),
        reconciled(mid, base, view_radius, evict_radius, after, destroyed2, created2),
    ensures
        destroyed2.len() == 0,
        created2.len() == 0,
        forall|c: ChunkCoord| #[trigger] after.contains(c) <==> mid.contains(c),
{
    assert forall|c: ChunkCoord| #[trigger] mid.contains(c) implies !beyond(base, evict_radius, c) by {
        if in_view(base, view_radius, c) {
            lemma_view_within_eviction(base, view_radius, evict_radius, c);
        }
    }
    if destroyed2.len() > 0 {
        assert(destroyed2.contains(destroyed2[0]));
    }
    if created2.len() > 0 {
        let c = created2[0];
        assert(created2.contains(c));
        lemma_view_within_eviction(base, view_radius, evict_radius, c);
    }
    assert forall|c: ChunkCoord| #[trigger] after.contains(c) <==> mid.contains(c) by {
        if in_view(base, view_radius, c) {
            lemma_view_within_eviction(base, view_radius, evict_radius, c);
        }
    }
}

/// Whether `c` is beyond `evict_radius` chunks from `base`.
fn is_beyond(base: ChunkCoord, evict_radius: u32, c: ChunkCoord) -> (r: bool)
    ensures
        r == beyond(base, evict_radius as int, c),
{
    let dx: i128 = c.x as i128 - base.x as i128;
    let dy: i128 = c.y as i128 - base.y as i128;
    let dz: i128 = c.z as i128 - base.z as i128;
    let ax: u128 = if dx < 0 { (-dx) as u128 } else { dx as u128 };
    let ay: u128 = if dy < 0 { (-dy) as u128 } else { dy as u128 };
    let az: u128 = if dz < 0 { (-dz) as u128 } else { dz as u128 };
    let rr: u128 = evict_radius as u128;
    assert(ax * ax == dx * dx && ay * ay == dy * dy && az * az == dz * dz) by (nonlinear_arith)
        requires
            ax == dx || ax == -dx,
            ay == dy || ay == -dy,
            az == dz || az == -dz;
    if ax > rr || ay > rr || az > rr {
        proof {
            let m: int = if ax > rr { ax as int } else if ay > rr { ay as int } else { az as int };
            assert(m * m > rr * rr) by (nonlinear_arith)
                requires m > rr, rr >= 0;
            assert(0 <= ax * ax && 0 <= ay * ay && 0 <= az * az) by (nonlinear_arith);
        }
        return true;
    }
    assert(ax * ax <= rr * rr && ay * ay <= rr * rr && az * az <= rr * rr && rr * rr <= 0xffff_ffff * 0xffff_ffff)
        by (nonlinear_arith)
        requires ax <= rr, ay <= rr, az <= rr, rr <= 0xffff_ffff, 0 <= ax, 0 <= ay, 0 <= az;
    ax * ax + ay * ay + az * az > rr * rr
}

/// Whether `v` holds `c`.
fn holds(v: &Vec<ChunkCoord>, c: ChunkCoord) -> (r: bool)
    ensures
        r == v@.contains(c),
{
    let mut i: usize = 0;
    while i < v.len()
        invariant
            i <= v@.len(),
            forall|k: int| 0 <= k < i ==> v@[k] != c,
        decreases v@.len() - i,
    {
        if v[i] == c {
            return true;
        }
        i = i + 1;
    }
    false
}

/// Every chunk of the view cube around `base`, in lexicographic order.
fn view_cube(base: ChunkCoord, radius: u32) -> (r: Vec<ChunkCoord>)
    requires
        view_fits(base, radius as int),
    ensures
        lex_sorted(r@),
        forall|c: ChunkCoord| #[trigger] r@.contains(c) <==> in_view(base, radius as int, c),
{
    let rad = radius as i64;
    let lo = ChunkCoord { x: base.x - rad, y: base.y - rad, z: base.z - rad };
    let hi = ChunkCoord { x: base.x + rad, y: base.y + rad, z: base.z + rad };
    let ghost ri = radius as int;
    let mut out: Vec<ChunkCoord> = Vec::new();
    let mut x: i64 = lo.x;
    while x <= hi.x
        invariant
            view_fits(base, ri),
            ri == rad,
            lo.x == base.x - ri && lo.y == base.y - ri && lo.z == base.z - ri,
            hi.x == base.x + ri && hi.y == base.y + ri && hi.z == base.z + ri,
            lo.x <= x <= hi.x + 1,
            lex_sorted(out@),
            out@.len() > 0 ==> lex_lt(out@.last(), ChunkCoord { x, y: lo.y, z: lo.z }),
            forall|c: ChunkCoord|
                #[trigger] out@.contains(c) <==> in_view(base, ri, c) && c.x < x,
        decreases hi.x + 1 - x,
    {
        let mut y: i64 = lo.y;
        while y <= hi.y
            invariant
                view_fits(base, ri),
                lo.x == base.x - ri && lo.y == base.y - ri && lo.z == base.z - ri,
                hi.x == base.x + ri && hi.y == base.y + ri && hi.z == base.z + ri,
                lo.x <= x <= hi.x,
                lo.y <= y <= hi.y + 1,
                lex_sorted(out@),
                out@.len() > 0 ==> lex_lt(out@.last(), ChunkCoord { x, y, z: lo.z }),
                forall|c: ChunkCoord|
                    #[trigger] out@.contains(c) <==> in_view(base, ri, c) && (c.x < x || (c.x == x
                        && c.y < y)),
            decreases hi.y + 1 - y,
        {
            let mut z: i64 = lo.z;
            while z <= hi.z
                invariant
                    view_fits(base, ri),
                    lo.x == base.x - ri && lo.y == base.y - ri && lo.z == base.z - ri,
                    hi.x == base.x + ri && hi.y == base.y + ri && hi.z == base.z + ri,
                    lo.x <= x <= hi.x,
                    lo.y <= y <= hi.y,
                    lo.z <= z <= hi.z + 1,
                    lex_sorted(out@),
                    out@.len() > 0 ==> lex_lt(out@.last(), ChunkCoord { x, y, z }),
                    forall|c: ChunkCoord|
                        #[trigger] out@.contains(c) <==> in_view(base, ri, c) && lex_lt(
                            c,
                            ChunkCoord { x, y, z },
                        ),
                decreases hi.z + 1 - z,
            {
                let c = ChunkCoord { x, y, z };
                let ghost before = out@;
                out.push(c);
                proof {
                    assert forall|i: int, j: int| 0 <= i < j < out@.len() implies lex_lt(
                        #[trigger] out@[i],
                        #[trigger] out@[j],
                    ) by {
                        if j == out@.len() - 1 && i < j {
                            assert(lex_lt(before[i], before.last()) || i == before.len() - 1);
                        }
                    }
                    assert forall|d: ChunkCoord| #[trigger] out@.contains(d) <==> in_view(base, ri, d)
                        && lex_lt(d, ChunkCoord { x, y, z: (z + 1) as i64 }) by {
                        if d == c {
                            assert(out@[out@.len() - 1] == d);
                        }
                        if before.contains(d) {
                            let k = choose|k: int| 0 <= k < before.len() && before[k] == d;
                            assert(out@[k] == d);
                        }
                        if out@.contains(d) && d != c {
                            let k = choose|k: int| 0 <= k < out@.len() && out@[k] == d;
                            assert(before[k] == d);
                        }
                    }
                }
                z = z + 1;
            }
            y = y + 1;
        }
        x = x + 1;
    }
    out
}

impl ChunkSystem {
    /// The chunks that currently exist.
    pub closed spec fn active(&self) -> Seq<ChunkCoord> {
        self.chunk_posns@
    }

    pub closed spec fn view(&self) -> int {
        self.view_radius as int
    }

    pub closed spec fn evict(&self) -> int {
        self.evict_radius as int
    }

    pub open spec fn wf(&self) -> bool {
        &&& self.active().no_duplicates()
        &&& radii_ok(self.view(), self.evict())
    }

    /// An empty active set that fills the cube of half-width `view_radius`
    /// around the reference chunk and drops chunks farther than
    /// `evict_radius`; the latter must reach the cube's corners.
    pub fn new(view_radius: u32, evict_radius: u32) -> (r: Result<ChunkSystem, ConfigError>)
        ensures
            r is Ok <==> radii_ok(view_radius as int, evict_radius as int),
            r matches Ok(s) ==> s.wf() && s.active().len() == 0 && s.view() == view_radius
                && s.evict() == evict_radius,
            r matches Err(e) ==> e == ConfigError::EvictionRadius,
    {
        let v = view_radius as u128;
        let e = evict_radius as u128;
        assert(v * v <= 0xffff_ffff * 0xffff_ffff && e * e <= 0xffff_ffff * 0xffff_ffff)
            by (nonlinear_arith)
            requires v <= 0xffff_ffff, e <= 0xffff_ffff, 0 <= v, 0 <= e;
        if e * e < 3 * (v * v) {
            return Err(ConfigError::EvictionRadius);
        }
        let r = ChunkSystem { chunk_posns: Vec::new(), view_radius, evict_radius };
        assert(r.active().no_duplicates());
        Ok(r)
    }

    /// Half-width of the view cube, in chunks.
    pub fn view_radius(&self) -> (r: u32)
        ensures
            r == self.view(),
    {
        self.view_radius
    }

    /// Distance in chunks beyond which a chunk is dropped.
    pub fn evict_radius(&self) -> (r: u32)
        ensures
            r == self.evict(),
    {
        self.evict_radius
    }

    /// Whether chunk `c` currently exists.
    pub fn is_active(&self, c: ChunkCoord) -> (r: bool)
        ensures
            r == self.active().contains(c),
    {
        holds(&self.chunk_posns, c)
    }

    /// The chunks that currently exist.
    pub fn active_chunks(&self) -> (r: &Vec<ChunkCoord>)
        ensures
            r@ == self.active(),
    {
        &self.chunk_posns
    }

    /// One reconciliation step around the reference chunk `base`: drops the
    /// chunks beyond the eviction radius, then adds the chunks of the view
    /// cube that are missing, in lexicographic order.
    pub fn run(&mut self, base: ChunkCoord) -> (r: Reconciliation)
        requires
            old(self).wf(),
            view_fits(base, old(self).view()),
        ensures
            final(self).wf(),
            final(self).view() == old(self).view(),
            final(self).evict() == old(self).evict(),
            reconciled(
                old(self).active(),
                base,
                old(self).view(),
                old(self).evict(),
                final(self).active(),
                r.destroyed@,
                r.created@,
            ),
            forall|c: ChunkCoord| #[trigger]
                final(self).active().contains(c) ==> !beyond(base, old(self).evict(), c),
            r.destroyed@ == old(self).active().filter(|c: ChunkCoord| beyond(base, old(self).evict(), c)),
            final(self).active() == old(self).active().filter(
                |c: ChunkCoord| !beyond(base, old(self).evict(), c),
            ) + r.created@,
    {
        let ghost before = self.chunk_posns@;
        let ghost ev = self.evict_radius as int;
        let ghost vr = self.view_radius as int;
        let mut kept: Vec<ChunkCoord> = Vec::new();
        let mut destroyed: Vec<ChunkCoord> = Vec::new();
        let ghost far = |c: ChunkCoord| beyond(base, ev, c);
        let ghost near = |c: ChunkCoord| !beyond(base, ev, c);
        let mut i: usize = 0;
        while i < self.chunk_posns.len()
            invariant
                self.chunk_posns@ == before,
                far == (|c: ChunkCoord| beyond(base, ev, c)),
                destroyed@ == before.subrange(0, i as int).filter(far),
                near == (|c: ChunkCoord| !beyond(base, ev, c)),
                kept@ == before.subrange(0, i as int).filter(near),
                before.no_duplicates(),
                ev == self.evict_radius,
                i <= before.len(),
                kept@.no_duplicates(),
                destroyed@.no_duplicates(),
                forall|c: ChunkCoord| #[trigger]
                    kept@.contains(c) <==> before.subrange(0, i as int).contains(c) && !beyond(base, ev, c),
                forall|c: ChunkCoord| #[trigger]
                    destroyed@.contains(c) <==> before.subrange(0, i as int).contains(c) && beyond(base, ev, c),
            decreases before.len() - i,
        {
            let c = self.chunk_posns[i];
            let ghost k0 = kept@;
            let ghost d0 = destroyed@;
            proof {
                if before.subrange(0, i as int).contains(c) {
                    let k = choose|k: int| 0 <= k < i && before.subrange(0, i as int)[k] == c;
                    assert(before[k] == before[i as int]);
                }
            }
            if is_beyond(base, self.evict_radius, c) {
                proof {
                    lemma_push_no_duplicates(destroyed@, c);
                }
                destroyed.push(c);
            } else {
                proof {
                    lemma_push_no_duplicates(kept@, c);
                }
                kept.push(c);
            }
            proof {
                assert(before.subrange(0, i as int + 1) =~= before.subrange(0, i as int).push(c));
                before.subrange(0, i as int).lemma_filter_push(c, far);
                before.subrange(0, i as int).lemma_filter_push(c, near);
                assert forall|d: ChunkCoord| #[trigger] kept@.contains(d) <==> before.subrange(0, i as int + 1).contains(d) && !beyond(base, ev, d) by {
                    lemma_prefix_contains(before, i as int, d);
                    lemma_push_contains(k0, c, d);
                    assert(k0.contains(d) <==> before.subrange(0, i as int).contains(d) && !beyond(base, ev, d));
                }
                assert forall|d: ChunkCoord| #[trigger] destroyed@.contains(d) <==> before.subrange(0, i as int + 1).contains(d) && beyond(base, ev, d) by {
                    lemma_prefix_contains(before, i as int, d);
                    lemma_push_contains(d0, c, d);
                    assert(d0.contains(d) <==> before.subrange(0, i as int).contains(d) && beyond(base, ev, d));
                }
            }
            i = i + 1;
        }
        assert(before.subrange(0, before.len() as int) =~= before);
        assert(destroyed@ == before.filter(far));
        assert(kept@ == before.filter(near));
        let ghost survivors = kept@;
        let desired = view_cube(base, self.view_radius);
        let mut created: Vec<ChunkCoord> = Vec::new();
        let mut j: usize = 0;
        while j < desired.len()
            invariant
                lex_sorted(desired@),
                kept@ == survivors + created@,
                forall|c: ChunkCoord| #[trigger] desired@.contains(c) <==> in_view(base, vr, c),
                j <= desired@.len(),
                kept@.no_duplicates(),
                lex_sorted(created@),
                created@.len() > 0 ==> exists|m: int| 0 <= m < j && created@.last() == desired@[m],
                forall|c: ChunkCoord| #[trigger]
                    kept@.contains(c) <==> (before.contains(c) && !beyond(base, ev, c))
                        || desired@.subrange(0, j as int).contains(c),
                forall|c: ChunkCoord| #[trigger]
                    created@.contains(c) <==> desired@.subrange(0, j as int).contains(c) && !(
                    before.contains(c) && !beyond(base, ev, c)),
            decreases desired@.len() - j,
        {
            let d = desired[j];
            let ghost k0 = kept@;
            let ghost c0 = created@;
            proof {
                if desired@.subrange(0, j as int).contains(d) {
                    let k = choose|k: int| 0 <= k < j && desired@.subrange(0, j as int)[k] == d;
                    assert(lex_lt(desired@[k], desired@[j as int]));
                }
                if created@.len() > 0 {
                    let m = choose|m: int| 0 <= m < j && created@.last() == desired@[m];
                    assert(lex_lt(desired@[m], desired@[j as int]));
                }
            }
            if !holds(&kept, d) {
                proof {
                    lemma_push_no_duplicates(kept@, d);
                    assert forall|a: int, b: int| 0 <= a < b < created@.push(d).len() implies lex_lt(
                        #[trigger] created@.push(d)[a],
                        #[trigger] created@.push(d)[b],
                    ) by {
                        if b == created@.len() as int && a < b - 1 {
                            assert(lex_lt(created@[a], created@.last()));
                        }
                    }
                }
                created.push(d);
                kept.push(d);
                assert(kept@ =~= survivors + created@);
                assert(created@.last() == desired@[j as int]);
            }
            proof {
                if created@.len() > 0 && created@ == c0 {
                    let m = choose|m: int| 0 <= m < j && created@.last() == desired@[m];
                    assert(0 <= m < j + 1);
                }
                assert forall|c: ChunkCoord| #[trigger] kept@.contains(c) <==> (before.contains(c) && !beyond(base, ev, c))
                        || desired@.subrange(0, j as int + 1).contains(c) by {
                    lemma_prefix_contains(desired@, j as int, c);
                    lemma_push_contains(k0, d, c);
                    assert(k0.contains(c) <==> (before.contains(c) && !beyond(base, ev, c))
                        || desired@.subrange(0, j as int).contains(c));
                }
                assert forall|c: ChunkCoord| #[trigger] created@.contains(c) <==> desired@.subrange(0, j as int + 1).contains(c) && !(
                    before.contains(c) && !beyond(base, ev, c)) by {
                    lemma_prefix_contains(desired@, j as int, c);
                    lemma_push_contains(c0, d, c);
                    assert(c0.contains(c) <==> desired@.subrange(0, j as int).contains(c) && !(
                    before.contains(c) && !beyond(base, ev, c)));
                    assert(k0.contains(c) <==> (before.contains(c) && !beyond(base, ev, c))
                        || desired@.subrange(0, j as int).contains(c));
                }
            }
            j = j + 1;
        }
        assert(desired@.subrange(0, desired@.len() as int) =~= desired@);
        proof {
            assert forall|c: ChunkCoord| #[trigger] kept@.contains(c) implies !beyond(base, ev, c) by {
                if in_view(base, vr, c) {
                    lemma_view_within_eviction(base, vr, ev, c);
                }
            }
        }
        self.chunk_posns = kept;
        Reconciliation { destroyed, created }
    }
}

} // verus!
