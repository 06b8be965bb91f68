//! Indexed triangle geometry with positions over a shared denominator, and
//! its exact normalisation: rescaling to unit size and recentering.

use vstd::prelude::*;
use crate::text::{COORD_LIMIT, UNIT};
use crate::vertex::{Vertex, Vec3, coord};

verus! {

/// What a mesh holds: its compact vertex list, its triangle index list
/// (three entries per triangle) and the shared denominator of its
/// positions: the position of vertex `i` is `vertices[i].pos / scale`.
pub struct MeshModel {
    pub vertices: Seq<Vertex>,
    pub tris: Seq<u32>,
    pub scale: int,
}

impl MeshModel {
    pub open spec fn wf(self) -> bool {
        self.scale >= 1
    }

    /// The mesh is small enough for exact normalisation: it has at most
    /// `MAX_VERTICES` vertices and each position coordinate is at most
    /// `COORD_LIMIT` in magnitude.
    pub open spec fn within_limits(self) -> bool {
        &&& self.vertices.len() <= MAX_VERTICES
        &&& forall|i: int, a: int|
            0 <= i < self.vertices.len() && 0 <= a < 3 ==> -COORD_LIMIT <= #[trigger] coord(
                self.vertices[i].pos,
                a,
            ) <= COORD_LIMIT
    }
}

/// Number of vertices that 32-bit triangle indices can address.
pub const MAX_VERTICES: u64 = 4294967296;

/// Why a mesh cannot be normalised.
#[derive(Clone, Copy, Debug, PartialEq, Eq, Structural)]
pub enum GeometryError {
    /// The mesh has no vertex, or all its vertices coincide.
    Degenerate,
}

/// Coordinate `a` of every vertex position, in order.
pub open spec fn axis_values(vs: Seq<Vertex>, a: int) -> Seq<int> {
    vs.map_values(|v: Vertex| coord(v.pos, a))
}

pub open spec fn seq_min(s: Seq<int>) -> int
    decreases s.len(),
{
    if s.len() <= 1 {
        if s.len() == 1 {
            s[0]
        } else {
            0
        }
    } else if s.last() < seq_min(s.drop_last()) {
        s.last()
    } else {
        seq_min(s.drop_last())
    }
}

pub open spec fn seq_max(s: Seq<int>) -> int
    decreases s.len(),
{
    if s.len() <= 1 {
        if s.len() == 1 {
            s[0]
        } else {
            0
        }
    } else if s.last() > seq_max(s.drop_last()) {
        s.last()
    } else {
        seq_max(s.drop_last())
    }
}

pub open spec fn seq_sum(s: Seq<int>) -> int
    decreases s.len(),
{
    if s.len() == 0 {
        0
    } else {
        seq_sum(s.drop_last()) + s.last()
    }
}

/// The extent of the positions along axis `a`.
pub open spec fn extent(vs: Seq<Vertex>, a: int) -> int {
    seq_max(axis_values(vs, a)) - seq_min(axis_values(vs, a))
}

/// The longest of the three extents.
pub open spec fn max_extent(vs: Seq<Vertex>) -> int {
    let ex = extent(vs, 0);
    let ey = extent(vs, 1);
    let ez = extent(vs, 2);
    if ex >= ey && ex >= ez {
        ex
    } else if ey >= ez {
        ey
    } else {
        ez
    }
}

/// `v` moved by the affine map `p -> n * p - s` on its position.
pub open spec fn recentred(v: Vertex, n: int, s: Vec3) -> Vertex {
    Vertex {
        pos: Vec3 {
            x: (n * v.pos.x - s.x) as i128,
            y: (n * v.pos.y - s.y) as i128,
            z: (n * v.pos.z - s.z) as i128,
        },
        ..v
    }
}

pub open spec fn position_sum(vs: Seq<Vertex>) -> Vec3 {
    Vec3 {
        x: seq_sum(axis_values(vs, 0)) as i128,
        y: seq_sum(axis_values(vs, 1)) as i128,
        z: seq_sum(axis_values(vs, 2)) as i128,
    }
}

/// The mesh rescaled so that its longest extent is one, then moved so
/// that its centroid is the origin. Both are exact: with `n` vertices,
/// positions summing to `s` and longest extent `e`, position `p / scale`
/// becomes `(n * p - s) / (n * e)`.
pub open spec fn preprocessed(m: MeshModel) -> MeshModel {
    let n = m.vertices.len() as int;
    MeshModel {
        vertices: m.vertices.map_values(|v: Vertex| recentred(v, n, position_sum(m.vertices))),
        tris: m.tris,
        scale: n * max_extent(m.vertices),
    }
}

/// Indexed triangle geometry with exactly held positions.
pub struct Mesh {
    vertex_list: Vec<Vertex>,
    tri_list: Vec<u32>,
    scale: i128,
}

impl View for Mesh {
    type V = MeshModel;

    closed spec fn view(&self) -> MeshModel {
        MeshModel { vertices: self.vertex_list@, tris: self.tri_list@, scale: self.scale as int }
    }
}

impl Mesh {
    /// An empty mesh whose positions are in fixed-point units.
    pub fn new() -> (m: Self)
        ensures
            m@.vertices.len() == 0,
            m@.tris.len() == 0,
            m@.scale == UNIT,
            m@.wf(),
    {
        Mesh { vertex_list: Vec::new(), tri_list: Vec::new(), scale: UNIT }
    }

    pub(crate) fn from_parts(vertex_list: Vec<Vertex>, tri_list: Vec<u32>) -> (m: Self)
        ensures
            m@.vertices == vertex_list@,
            m@.tris == tri_list@,
            m@.scale == UNIT,
            m@.wf(),
    {
        Mesh { vertex_list, tri_list, scale: UNIT }
    }

    pub fn add_vertex(&mut self, vert: &Vertex)
        ensures
            final(self)@ == (MeshModel { vertices: old(self)@.vertices.push(*vert), ..old(self)@ }),
    {
        self.vertex_list.push(*vert);
    }

    pub fn add_verticies(&mut self, verts: &[Vertex])
        ensures
            final(self)@ == (MeshModel {
                vertices: old(self)@.vertices + verts@,
                ..old(self)@
            }),
    {
        let mut i: usize = 0;
        while i < verts.len()
            invariant
                i <= verts@.len(),
                self@ == (MeshModel {
                    vertices: old(self)@.vertices + verts@.take(i as int),
                    ..old(self)@
                }),
            decreases verts@.len() - i,
        {
            self.add_vertex(&verts[i]);
            assert(self@.vertices =~= old(self)@.vertices + verts@.take(i + 1));
            i = i + 1;
        }
        assert(verts@.take(i as int) =~= verts@);
    }

    /// Appends one triangle given by three vertex indices.
    pub fn add_tri(&mut self, tri: (u32, u32, u32))
        ensures
            final(self)@ == (MeshModel {
                tris: old(self)@.tris + seq![tri.0, tri.1, tri.2],
                ..old(self)@
            }),
    {
        self.tri_list.push(tri.0);
        self.tri_list.push(tri.1);
        self.tri_list.push(tri.2);
        assert(self.tri_list@ =~= old(self)@.tris + seq![tri.0, tri.1, tri.2]);
    }

    pub fn add_tris(&mut self, tris: &[(u32, u32, u32)])
        ensures
            final(self)@ == (MeshModel { tris: old(self)@.tris + flatten_tris(tris@), ..old(self)@ }),
    {
        let mut i: usize = 0;
        while i < tris.len()
            invariant
                i <= tris@.len(),
                self@ == (MeshModel {
                    tris: old(self)@.tris + flatten_tris(tris@.take(i as int)),
                    ..old(self)@
                }),
            decreases tris@.len() - i,
        {
            self.add_tri(tris[i]);
            assert(tris@.take(i + 1).drop_last() =~= tris@.take(i as int));
            assert(old(self)@.tris + flatten_tris(tris@.take(i + 1)) =~= old(self)@.tris
                + flatten_tris(tris@.take(i as int)) + seq![tris@[i as int].0, tris@[i as int].1, tris@[i as int].2]);
            i = i + 1;
        }
        assert(tris@.take(i as int) =~= tris@);
    }

    pub fn vertices(&self) -> (r: &[Vertex])
        ensures
            r@ == self@.vertices,
    {
        self.vertex_list.as_slice()
    }

    pub fn tris(&self) -> (r: &[u32])
        ensures
            r@ == self@.tris,
    {
        self.tri_list.as_slice()
    }

    /// Whether `preprocess` and `centroid` may be called.
    pub fn within_limits(&self) -> (r: bool)
        ensures
            r == self@.within_limits(),
    {
        if self.vertex_list.len() as u64 > MAX_VERTICES {
            return false;
        }
        let mut i: usize = 0;
        while i < self.vertex_list.len()
            invariant
                i <= self@.vertices.len() <= MAX_VERTICES,
                forall|j: int, a: int|
                    0 <= j < i && 0 <= a < 3 ==> -COORD_LIMIT <= #[trigger] coord(
                        self@.vertices[j].pos,
                        a,
                    ) <= COORD_LIMIT,
            decreases self@.vertices.len() - i,
        {
            let p = self.vertex_list[i].pos;
            if p.x < -COORD_LIMIT || p.x > COORD_LIMIT || p.y < -COORD_LIMIT || p.y > COORD_LIMIT
                || p.z < -COORD_LIMIT || p.z > COORD_LIMIT {
                assert(coord(self@.vertices[i as int].pos, 0) == p.x);
                assert(coord(self@.vertices[i as int].pos, 1) == p.y);
                assert(coord(self@.vertices[i as int].pos, 2) == p.z);
                return false;
            }
            i = i + 1;
        }
        true
    }

    /// The componentwise least and greatest position numerators, or `None`
    /// for a mesh without vertices.
    pub fn extents(&self) -> (r: Option<(Vec3, Vec3)>)
        ensures
            r is None <==> self@.vertices.len() == 0,
            r matches Some((lo, hi)) ==> forall|a: int|
                0 <= a < 3 ==> coord(lo, a) == seq_min(axis_values(self@.vertices, a)) && coord(
                    hi,
                    a,
                ) == seq_max(axis_values(self@.vertices, a)),
    {
        if self.vertex_list.len() == 0 {
            return None;
        }
        let (x0, x1) = axis_range(&self.vertex_list, 0);
        let (y0, y1) = axis_range(&self.vertex_list, 1);
        let (z0, z1) = axis_range(&self.vertex_list, 2);
        Some((Vec3 { x: x0, y: y0, z: z0 }, Vec3 { x: x1, y: y1, z: z1 }))
    }

    /// The sum of the position numerators and the number of vertices: the
    /// centroid is `sum / (count * scale)`. `None` for a mesh without
    /// vertices.
    pub fn centroid(&self) -> (r: Option<(Vec3, i128)>)
        requires
            self@.within_limits(),
        ensures
            r is None <==> self@.vertices.len() == 0,
            r matches Some((sum, count)) ==> count == self@.vertices.len() && sum == position_sum(
                self@.vertices,
            ),
    {
        if self.vertex_list.len() == 0 {
            return None;
        }
        let sx = axis_sum(&self.vertex_list, 0);
        let sy = axis_sum(&self.vertex_list, 1);
        let sz = axis_sum(&self.vertex_list, 2);
        Some((Vec3 { x: sx, y: sy, z: sz }, self.vertex_list.len() as i128))
    }

    /// Rescales the mesh so that its longest extent is one and then moves
    /// its centroid to the origin, exactly; fails on a mesh without extent.
    pub fn preprocess(&mut self) -> (r: Result<(), GeometryError>)
        requires
            old(self)@.wf(),
            old(self)@.within_limits(),
        ensures
            r is Err <==> old(self)@.vertices.len() == 0 || max_extent(old(self)@.vertices) == 0,
            r is Err ==> final(self)@ == old(self)@,
            r is Ok ==> final(self)@ == preprocessed(old(self)@),
            final(self)@.wf(),
    {
        match self.normalize_size() {
            Err(e) => Err(e),
            Ok(()) => {
                self.move_to_origin();
                proof {
                    let nn = old(self)@.vertices.len() as int;
                    let ee = max_extent(old(self)@.vertices);
                    assert(nn * ee >= 1) by (nonlinear_arith)
                        requires
                            nn >= 1,
                            ee >= 1,
                    ;
                }
                Ok(())
            },
        }
    }

    /// Rescales the mesh so that its longest extent is one, exactly: with
    /// positions held over a shared denominator, that denominator becomes
    /// the longest extent. Fails on a mesh without extent.
    pub fn normalize_size(&mut self) -> (r: Result<(), GeometryError>)
        requires
            old(self)@.wf(),
            old(self)@.within_limits(),
        ensures
            r is Err <==> old(self)@.vertices.len() == 0 || max_extent(old(self)@.vertices) == 0,
            r is Err ==> final(self)@ == old(self)@,
            r is Ok ==> final(self)@ == (MeshModel {
                scale: max_extent(old(self)@.vertices),
                ..old(self)@
            }),
            r is Ok ==> 1 <= final(self)@.scale <= 2 * COORD_LIMIT,
            final(self)@.wf(),
            final(self)@.within_limits(),
    {
        if self.vertex_list.len() == 0 {
            return Err(GeometryError::Degenerate);
        }
        let e = longest_extent(&self.vertex_list);
        if e == 0 {
            return Err(GeometryError::Degenerate);
        }
        self.scale = e;
        Ok(())
    }

    /// Moves the centroid to the origin: with `n` vertices whose positions
    /// sum to `s`, position `p / scale` becomes `(n * p - s) / (n * scale)`.
    fn move_to_origin(&mut self)
        requires
            old(self)@.within_limits(),
            old(self)@.vertices.len() >= 1,
            1 <= old(self)@.scale <= 2 * COORD_LIMIT,
        ensures
            final(self)@ == (MeshModel {
                vertices: old(self)@.vertices.map_values(
                    |v: Vertex|
                        recentred(v, old(self)@.vertices.len() as int, position_sum(old(self)@.vertices)),
                ),
                scale: old(self)@.vertices.len() * old(self)@.scale,
                ..old(self)@
            }),
    {
        let n = self.vertex_list.len() as i128;
        let s = match self.centroid() {
            Some((sum, _)) => sum,
            None => Vec3::zero(),
        };
        let ghost old_vs = self.vertex_list@;
        let mut moved: Vec<Vertex> = Vec::new();
        let mut i: usize = 0;
        while i < self.vertex_list.len()
            invariant
                self.vertex_list@ == old_vs,
                self@ == old(self)@,
                old(self)@.within_limits(),
                n == old_vs.len(),
                s == position_sum(old_vs),
                i <= old_vs.len(),
                moved@.len() == i,
                forall|j: int|
                    0 <= j < i ==> #[trigger] moved@[j] == recentred(old_vs[j], n as int, s),
            decreases old_vs.len() - i,
        {
            let v = self.vertex_list[i];
            proof {
                lemma_sum_bounds(old_vs);
                assert(coord(old_vs[i as int].pos, 0) == v.pos.x);
                assert(coord(old_vs[i as int].pos, 1) == v.pos.y);
                assert(coord(old_vs[i as int].pos, 2) == v.pos.z);
                lemma_scaled_bound(n as int, v.pos.x as int);
                lemma_scaled_bound(n as int, v.pos.y as int);
                lemma_scaled_bound(n as int, v.pos.z as int);
            }
            let pos = Vec3 { x: n * v.pos.x - s.x, y: n * v.pos.y - s.y, z: n * v.pos.z - s.z };
            moved.push(Vertex { pos, ..v });
            i = i + 1;
        }
        proof {
            lemma_scaled_bound(n as int, self.scale as int);
        }
        self.scale = n * self.scale;
        self.vertex_list = moved;
        assert(self.vertex_list@ =~= old_vs.map_values(|v: Vertex| recentred(v, n as int, s)));
    }

    /// The shared denominator of the positions.
    pub fn scale(&self) -> (r: i128)
        ensures
            r == self@.scale,
    {
        self.scale
    }
}

proof fn lemma_scaled_bound(n: int, x: int)
    requires
        1 <= n <= MAX_VERTICES,
        -2 * COORD_LIMIT <= x <= 2 * COORD_LIMIT,
    ensures
        -MAX_VERTICES * (2 * COORD_LIMIT) <= n * x <= MAX_VERTICES * (2 * COORD_LIMIT),
{
    assert(-MAX_VERTICES * (2 * COORD_LIMIT) <= n * x <= MAX_VERTICES * (2 * COORD_LIMIT))
        by (nonlinear_arith)
        requires
            1 <= n <= MAX_VERTICES,
            -2 * COORD_LIMIT <= x <= 2 * COORD_LIMIT,
    ;
}

/// Each coordinate sum of positions within the limits is at most
/// `MAX_VERTICES * COORD_LIMIT` in magnitude.
proof fn lemma_sum_bounds(vs: Seq<Vertex>)
    requires
        (MeshModel { vertices: vs, tris: seq![], scale: 1 }).within_limits(),
    ensures
        forall|a: int|
            0 <= a < 3 ==> -(vs.len() * COORD_LIMIT) <= #[trigger] seq_sum(axis_values(vs, a))
                <= vs.len() * COORD_LIMIT,
    decreases vs.len(),
{
    if vs.len() > 0 {
        let init = vs.drop_last();
        assert forall|i: int, a: int|
            0 <= i < init.len() && 0 <= a < 3 implies -COORD_LIMIT <= #[trigger] coord(
            init[i].pos,
            a,
        ) <= COORD_LIMIT by {
            assert(init[i] == vs[i]);
        }
        lemma_sum_bounds(init);
        assert forall|a: int| 0 <= a < 3 implies -(vs.len() * COORD_LIMIT) <= #[trigger] seq_sum(
            axis_values(vs, a),
        ) <= vs.len() * COORD_LIMIT by {
            assert(axis_values(vs, a).drop_last() =~= axis_values(init, a));
            assert(coord(vs[vs.len() - 1].pos, a) == axis_values(vs, a).last());
            assert(-(init.len() * COORD_LIMIT) <= seq_sum(axis_values(init, a)) <= init.len()
                * COORD_LIMIT);
            assert(-COORD_LIMIT <= coord(vs[vs.len() - 1].pos, a) <= COORD_LIMIT);
            assert(seq_sum(axis_values(vs, a)) == seq_sum(axis_values(init, a)) + coord(
                vs[vs.len() - 1].pos,
                a,
            ));
        }
    }
}

/// The least and greatest of coordinate `a` over a non-empty vertex list.
fn axis_range(vs: &Vec<Vertex>, a: usize) -> (r: (i128, i128))
    requires
        vs@.len() >= 1,
        a < 3,
    ensures
        r.0 == seq_min(axis_values(vs@, a as int)),
        r.1 == seq_max(axis_values(vs@, a as int)),
{
    let ghost s = axis_values(vs@, a as int);
    let first = axis_of(vs[0].pos, a);
    let mut lo = first;
    let mut hi = first;
    let mut i: usize = 1;
    assert(s.take(1) =~= seq![s[0]]);
    while i < vs.len()
        invariant
            1 <= i <= vs@.len(),
            a < 3,
            s == axis_values(vs@, a as int),
            lo == seq_min(s.take(i as int)),
            hi == seq_max(s.take(i as int)),
        decreases vs@.len() - i,
    {
        let c = axis_of(vs[i].pos, a);
        assert(s.take(i + 1).drop_last() =~= s.take(i as int));
        assert(s.take(i + 1).last() == c);
        if c < lo {
            lo = c;
        }
        if c > hi {
            hi = c;
        }
        i = i + 1;
    }
    assert(s.take(i as int) =~= s);
    (lo, hi)
}

/// The sum of coordinate `a` over a vertex list within the limits.
fn axis_sum(vs: &Vec<Vertex>, a: usize) -> (r: i128)
    requires
        (MeshModel { vertices: vs@, tris: seq![], scale: 1 }).within_limits(),
        a < 3,
    ensures
        r == seq_sum(axis_values(vs@, a as int)),
{
    let ghost s = axis_values(vs@, a as int);
    let mut acc: i128 = 0;
    let mut i: usize = 0;
    while i < vs.len()
        invariant
            i <= vs@.len() <= MAX_VERTICES,
            a < 3,
            (MeshModel { vertices: vs@, tris: seq![], scale: 1 }).within_limits(),
            s == axis_values(vs@, a as int),
            acc == seq_sum(s.take(i as int)),
            -(i * COORD_LIMIT) <= acc <= i * COORD_LIMIT,
        decreases vs@.len() - i,
    {
        let c = axis_of(vs[i].pos, a);
        assert(s.take(i + 1).drop_last() =~= s.take(i as int));
        assert(s.take(i + 1).last() == c);
        assert(coord(vs@[i as int].pos, a as int) == c);
        acc = acc + c;
        i = i + 1;
    }
    assert(s.take(i as int) =~= s);
    acc
}

fn axis_of(v: Vec3, a: usize) -> (r: i128)
    ensures
        r == coord(v, a as int),
{
    if a == 0 {
        v.x
    } else if a == 1 {
        v.y
    } else {
        v.z
    }
}

proof fn lemma_min_max_bounds(s: Seq<int>, lim: int)
    requires
        forall|i: int| 0 <= i < s.len() ==> -lim <= #[trigger] s[i] <= lim,
        s.len() >= 1,
    ensures
        -lim <= seq_min(s) <= seq_max(s) <= lim,
    decreases s.len(),
{
    if s.len() > 1 {
        let init = s.drop_last();
        assert forall|i: int| 0 <= i < init.len() implies -lim <= #[trigger] init[i] <= lim by {
            assert(init[i] == s[i]);
        }
        lemma_min_max_bounds(init, lim);
        assert(s.last() == s[s.len() - 1]);
    }
}

/// The longest extent of a non-empty vertex list within the limits.
fn longest_extent(vs: &Vec<Vertex>) -> (r: i128)
    requires
        vs@.len() >= 1,
        (MeshModel { vertices: vs@, tris: seq![], scale: 1 }).within_limits(),
    ensures
        r == max_extent(vs@),
        0 <= r <= 2 * COORD_LIMIT,
{
    proof {
        assert forall|a: int| 0 <= a < 3 implies -COORD_LIMIT <= seq_min(#[trigger] axis_values(vs@, a))
            <= seq_max(axis_values(vs@, a)) <= COORD_LIMIT by {
            let s = axis_values(vs@, a);
            assert forall|i: int| 0 <= i < s.len() implies -COORD_LIMIT <= #[trigger] s[i]
                <= COORD_LIMIT by {
                assert(s[i] == coord(vs@[i].pos, a));
            }
            lemma_min_max_bounds(s, COORD_LIMIT as int);
        }
    }
    let (x0, x1) = axis_range(vs, 0);
    let (y0, y1) = axis_range(vs, 1);
    let (z0, z1) = axis_range(vs, 2);
    let ex = x1 - x0;
    let ey = y1 - y0;
    let ez = z1 - z0;
    if ex >= ey && ex >= ez {
        ex
    } else if ey >= ez {
        ey
    } else {
        ez
    }
}

proof fn lemma_scale_order(n: int, x: int, y: int)
    requires
        n >= 1,
    ensures
        x < y <==> n * x < n * y,
        x >= y <==> n * x >= n * y,
        n * x - n * y == n * (x - y),
{
    assert(x < y <==> n * x < n * y) by (nonlinear_arith)
        requires
            n >= 1,
    ;
    assert(x >= y <==> n * x >= n * y) by (nonlinear_arith)
        requires
            n >= 1,
    ;
    assert(n * x - n * y == n * (x - y)) by (nonlinear_arith);
}

proof fn lemma_affine_min_max(s: Seq<int>, n: int, c: int)
    requires
        n >= 1,
        s.len() >= 1,
    ensures
        seq_min(s.map_values(|x: int| n * x - c)) == n * seq_min(s) - c,
        seq_max(s.map_values(|x: int| n * x - c)) == n * seq_max(s) - c,
    decreases s.len(),
{
    let t = s.map_values(|x: int| n * x - c);
    if s.len() > 1 {
        let init = s.drop_last();
        assert(t.drop_last() =~= init.map_values(|x: int| n * x - c));
        lemma_affine_min_max(init, n, c);
        lemma_scale_order(n, s.last(), seq_min(init));
        lemma_scale_order(n, seq_max(init), s.last());
    }
}

proof fn lemma_affine_sum(s: Seq<int>, n: int, c: int)
    ensures
        seq_sum(s.map_values(|x: int| n * x - c)) == n * seq_sum(s) - c * s.len(),
    decreases s.len(),
{
    let t = s.map_values(|x: int| n * x - c);
    if s.len() > 0 {
        let init = s.drop_last();
        assert(t.drop_last() =~= init.map_values(|x: int| n * x - c));
        lemma_affine_sum(init, n, c);
        let a = seq_sum(init);
        let l = s.last();
        let k = init.len();
        assert(n * a - c * k + (n * l - c) == n * (a + l) - c * (k + 1)) by (nonlinear_arith);
    }
}

/// Along each axis, the preprocessed coordinates are `n * p - s` of the
/// coordinates before.
proof fn lemma_preprocessed_axis(m: MeshModel, a: int)
    requires
        m.within_limits(),
        m.vertices.len() >= 1,
        0 <= a < 3,
    ensures
        axis_values(preprocessed(m).vertices, a) =~= axis_values(m.vertices, a).map_values(
            |x: int| m.vertices.len() * x - seq_sum(axis_values(m.vertices, a)),
        ),
{
    let vs = m.vertices;
    let n = vs.len() as int;
    lemma_sum_bounds(vs);
    let sa = seq_sum(axis_values(vs, a));
    assert(coord(position_sum(vs), a) == sa);
    assert forall|i: int| 0 <= i < vs.len() implies #[trigger] axis_values(
        preprocessed(m).vertices,
        a,
    )[i] == n * coord(vs[i].pos, a) - sa by {
        lemma_scaled_bound(n, coord(vs[i].pos, a));
        assert(preprocessed(m).vertices[i] == recentred(vs[i], n, position_sum(vs)));
    }
}

/// After preprocessing, the longest extent equals the shared denominator:
/// the longest side of the bounding box has length exactly one.
pub proof fn lemma_preprocess_unit_extent(m: MeshModel)
    requires
        m.wf(),
        m.within_limits(),
        m.vertices.len() >= 1,
        max_extent(m.vertices) > 0,
    ensures
        max_extent(preprocessed(m).vertices) == preprocessed(m).scale,
{
    let vs = m.vertices;
    let n = vs.len() as int;
    let pv = preprocessed(m).vertices;
    assert forall|a: int| 0 <= a < 3 implies #[trigger] extent(pv, a) == n * extent(vs, a) by {
        lemma_preprocessed_axis(m, a);
        lemma_affine_min_max(axis_values(vs, a), n, seq_sum(axis_values(vs, a)));
        lemma_scale_order(n, seq_max(axis_values(vs, a)), seq_min(axis_values(vs, a)));
    }
    let (ex, ey, ez) = (extent(vs, 0), extent(vs, 1), extent(vs, 2));
    lemma_scale_order(n, ex, ey);
    lemma_scale_order(n, ex, ez);
    lemma_scale_order(n, ey, ez);
}

/// After preprocessing, the positions sum to zero along every axis: the
/// centroid is exactly the origin.
pub proof fn lemma_preprocess_centred(m: MeshModel)
    requires
        m.wf(),
        m.within_limits(),
        m.vertices.len() >= 1,
        max_extent(m.vertices) > 0,
    ensures
        forall|a: int| 0 <= a < 3 ==> #[trigger] seq_sum(axis_values(preprocessed(m).vertices, a)) == 0,
{
    let vs = m.vertices;
    let n = vs.len() as int;
    assert forall|a: int| 0 <= a < 3 implies #[trigger] seq_sum(
        axis_values(preprocessed(m).vertices, a),
    ) == 0 by {
        let sa = seq_sum(axis_values(vs, a));
        lemma_preprocessed_axis(m, a);
        lemma_affine_sum(axis_values(vs, a), n, sa);
        assert(n * sa - sa * n == 0) by (nonlinear_arith);
    }
}

/// The index list of a sequence of triangles, three entries each.
pub open spec fn flatten_tris(t: Seq<(u32, u32, u32)>) -> Seq<u32>
    decreases t.len(),
{
    if t.len() == 0 {
        seq![]
    } else {
        flatten_tris(t.drop_last()) + seq![t.last().0, t.last().1, t.last().2]
    }
}

} // verus!
