//! Exact face directions around each vertex, from which vertex normals are
//! synthesised.

use vstd::prelude::*;
use crate::mesh::{Mesh, MeshModel};
use crate::text::COORD_LIMIT;
use crate::vertex::{Vec3, coord};

verus! {

impl MeshModel {
    /// The index list holds whole triangles, each naming existing vertices.
    pub open spec fn indices_valid(self) -> bool {
        &&& self.tris.len() % 3 == 0
        &&& forall|j: int| 0 <= j < self.tris.len() ==> #[trigger] self.tris[j] < self.vertices.len()
    }
}

/// Corner `k` of triangle `f`.
pub open spec fn corner_pos(m: MeshModel, f: int, k: int) -> Vec3 {
    m.vertices[m.tris[3 * f + k] as int].pos
}

/// `(p1 - p0) x (p2 - p0)` for triangle `f`: a vector along its face normal
/// whose length is twice its area (in squared position numerators).
pub open spec fn face_cross(m: MeshModel, f: int) -> Vec3 {
    let p0 = corner_pos(m, f, 0);
    let p1 = corner_pos(m, f, 1);
    let p2 = corner_pos(m, f, 2);
    let (ux, uy, uz) = (p1.x - p0.x, p1.y - p0.y, p1.z - p0.z);
    let (vx, vy, vz) = (p2.x - p0.x, p2.y - p0.y, p2.z - p0.z);
    Vec3 {
        x: (uy * vz - uz * vy) as i128,
        y: (uz * vx - ux * vz) as i128,
        z: (ux * vy - uy * vx) as i128,
    }
}

pub open spec fn gcd(a: nat, b: nat) -> nat
    decreases b,
{
    if b == 0 {
        a
    } else {
        gcd(b, a % b)
    }
}

pub open spec fn abs(x: int) -> nat {
    if x < 0 {
        (-x) as nat
    } else {
        x as nat
    }
}

/// `x` divided by `g`, rounding the magnitude down.
pub open spec fn div_magnitude(x: int, g: nat) -> int {
    if x < 0 {
        -((abs(x) / g) as int)
    } else {
        (abs(x) / g) as int
    }
}

/// `n` divided by the greatest common divisor of its coordinates: two
/// vectors point the same way exactly when their reductions are equal.
/// The zero vector stays zero.
pub open spec fn reduced(n: Vec3) -> Vec3 {
    let g = gcd(gcd(abs(n.x as int), abs(n.y as int)), abs(n.z as int));
    if g == 0 {
        Vec3 { x: 0, y: 0, z: 0 }
    } else {
        Vec3 {
            x: div_magnitude(n.x as int, g) as i128,
            y: div_magnitude(n.y as int, g) as i128,
            z: div_magnitude(n.z as int, g) as i128,
        }
    }
}

/// The triangle `f` has vertex `v` as one of its corners.
pub open spec fn touches(m: MeshModel, f: int, v: int) -> bool {
    m.tris[3 * f] == v || m.tris[3 * f + 1] == v || m.tris[3 * f + 2] == v
}

/// The distinct face directions of the first `nf` triangles that touch
/// vertex `v`, in the order of those triangles; degenerate triangles, whose
/// direction is zero, add none.
pub open spec fn directions_at(m: MeshModel, v: int, nf: nat) -> Seq<Vec3>
    decreases nf,
{
    if nf == 0 {
        seq![]
    } else {
        let prev = directions_at(m, v, (nf - 1) as nat);
        let d = reduced(face_cross(m, nf - 1));
        if touches(m, nf - 1, v) && d != (Vec3 { x: 0, y: 0, z: 0 }) && !prev.contains(d) {
            prev.push(d)
        } else {
            prev
        }
    }
}

fn gcd_exec(a: u128, b: u128) -> (r: u128)
    ensures
        r == gcd(a as nat, b as nat),
{
    let mut x = a;
    let mut y = b;
    while y != 0
        invariant
            gcd(x as nat, y as nat) == gcd(a as nat, b as nat),
        decreases y,
    {
        let t = x % y;
        x = y;
        y = t;
    }
    x
}

fn abs_exec(x: i128) -> (r: u128)
    requires
        x > i128::MIN,
    ensures
        r == abs(x as int),
{
    if x < 0 {
        (-x) as u128
    } else {
        x as u128
    }
}

fn div_magnitude_exec(x: i128, g: u128) -> (r: i128)
    requires
        x > i128::MIN,
        g >= 1,
    ensures
        r == div_magnitude(x as int, g as nat),
{
    let q = abs_exec(x) / g;
    if x < 0 {
        -(q as i128)
    } else {
        q as i128
    }
}

fn reduce(n: Vec3) -> (r: Vec3)
    requires
        n.x > i128::MIN,
        n.y > i128::MIN,
        n.z > i128::MIN,
    ensures
        r == reduced(n),
{
    let g = gcd_exec(gcd_exec(abs_exec(n.x), abs_exec(n.y)), abs_exec(n.z));
    if g == 0 {
        Vec3::zero()
    } else {
        Vec3 {
            x: div_magnitude_exec(n.x, g),
            y: div_magnitude_exec(n.y, g),
            z: div_magnitude_exec(n.z, g),
        }
    }
}

proof fn lemma_product_bound(a: int, b: int)
    requires
        -2 * COORD_LIMIT <= a <= 2 * COORD_LIMIT,
        -2 * COORD_LIMIT <= b <= 2 * COORD_LIMIT,
    ensures
        -(4 * COORD_LIMIT * COORD_LIMIT) <= a * b <= 4 * COORD_LIMIT * COORD_LIMIT,
{
    assert(-(4 * COORD_LIMIT * COORD_LIMIT) <= a * b <= 4 * COORD_LIMIT * COORD_LIMIT)
        by (nonlinear_arith)
        requires
            -2 * COORD_LIMIT <= a <= 2 * COORD_LIMIT,
            -2 * COORD_LIMIT <= b <= 2 * COORD_LIMIT,
    ;
}

fn cross_exec(p0: Vec3, p1: Vec3, p2: Vec3) -> (r: Vec3)
    requires
        -COORD_LIMIT <= p0.x <= COORD_LIMIT,
        -COORD_LIMIT <= p0.y <= COORD_LIMIT,
        -COORD_LIMIT <= p0.z <= COORD_LIMIT,
        -COORD_LIMIT <= p1.x <= COORD_LIMIT,
        -COORD_LIMIT <= p1.y <= COORD_LIMIT,
        -COORD_LIMIT <= p1.z <= COORD_LIMIT,
        -COORD_LIMIT <= p2.x <= COORD_LIMIT,
        -COORD_LIMIT <= p2.y <= COORD_LIMIT,
        -COORD_LIMIT <= p2.z <= COORD_LIMIT,
    ensures
        r.x == (p1.y - p0.y) * (p2.z - p0.z) - (p1.z - p0.z) * (p2.y - p0.y),
        r.y == (p1.z - p0.z) * (p2.x - p0.x) - (p1.x - p0.x) * (p2.z - p0.z),
        r.z == (p1.x - p0.x) * (p2.y - p0.y) - (p1.y - p0.y) * (p2.x - p0.x),
        r.x > i128::MIN && r.y > i128::MIN && r.z > i128::MIN,
{
    let (ux, uy, uz) = (p1.x - p0.x, p1.y - p0.y, p1.z - p0.z);
    let (vx, vy, vz) = (p2.x - p0.x, p2.y - p0.y, p2.z - p0.z);
    proof {
        lemma_product_bound(uy as int, vz as int);
        lemma_product_bound(uz as int, vy as int);
        lemma_product_bound(uz as int, vx as int);
        lemma_product_bound(ux as int, vz as int);
        lemma_product_bound(ux as int, vy as int);
        lemma_product_bound(uy as int, vx as int);
    }
    Vec3 { x: uy * vz - uz * vy, y: uz * vx - ux * vz, z: ux * vy - uy * vx }
}

proof fn lemma_position_bounded(m: MeshModel, i: int)
    requires
        m.within_limits(),
        0 <= i < m.vertices.len(),
    ensures
        -COORD_LIMIT <= m.vertices[i].pos.x <= COORD_LIMIT,
        -COORD_LIMIT <= m.vertices[i].pos.y <= COORD_LIMIT,
        -COORD_LIMIT <= m.vertices[i].pos.z <= COORD_LIMIT,
{
    assert(-COORD_LIMIT <= coord(m.vertices[i].pos, 0) <= COORD_LIMIT);
    assert(-COORD_LIMIT <= coord(m.vertices[i].pos, 1) <= COORD_LIMIT);
    assert(-COORD_LIMIT <= coord(m.vertices[i].pos, 2) <= COORD_LIMIT);
}

fn contains_direction(s: &Vec<Vec3>, d: Vec3) -> (r: bool)
    ensures
        r == s@.contains(d),
{
    let mut i: usize = 0;
    while i < s.len()
        invariant
            i <= s@.len(),
            forall|j: int| 0 <= j < i ==> s@[j] != d,
        decreases s@.len() - i,
    {
        if s[i] == d {
            return true;
        }
        i = i + 1;
    }
    false
}

impl Mesh {
    /// Whether the index list holds whole triangles naming existing vertices.
    pub fn indices_valid(&self) -> (r: bool)
        ensures
            r == self@.indices_valid(),
    {
        let tris = self.tris();
        let n = self.vertices().len();
        if tris.len() % 3 != 0 {
            return false;
        }
        let mut j: usize = 0;
        while j < tris.len()
            invariant
                j <= tris@.len(),
                tris@ == self@.tris,
                n == self@.vertices.len(),
                forall|q: int| 0 <= q < j ==> #[trigger] tris@[q] < n,
            decreases tris@.len() - j,
        {
            if tris[j] as usize >= n {
                return false;
            }
            j = j + 1;
        }
        true
    }

    /// For each vertex, the distinct directions of the faces around it,
    /// for normals to be synthesised from: the normal of a vertex is the
    /// normalised sum of its directions, each normalised first.
    pub fn face_directions(&self) -> (r: Vec<Vec<Vec3>>)
        requires
            self@.within_limits(),
            self@.indices_valid(),
        ensures
            r@.len() == self@.vertices.len(),
            forall|v: int|
                0 <= v < r@.len() ==> #[trigger] r@[v]@ == directions_at(
                    self@,
                    v,
                    self@.tris.len() / 3,
                ),
    {
        let verts = self.vertices();
        let tris = self.tris();
        let ntris = tris.len();
        let nf = ntris / 3;
        let ghost m = self@;
        let mut r: Vec<Vec<Vec3>> = Vec::new();
        let mut v: usize = 0;
        while v < verts.len()
            invariant
                m == self@,
                verts@ == m.vertices,
                tris@ == m.tris,
                ntris == tris@.len(),
                nf == m.tris.len() / 3,
                m.within_limits(),
                m.indices_valid(),
                v <= verts@.len(),
                r@.len() == v,
                forall|w: int| 0 <= w < v ==> #[trigger] r@[w]@ == directions_at(m, w, nf as nat),
            decreases verts@.len() - v,
        {
            let mut dirs: Vec<Vec3> = Vec::new();
            let mut f: usize = 0;
            while f < nf
                invariant
                    m == self@,
                    verts@ == m.vertices,
                    tris@ == m.tris,
                    ntris == tris@.len(),
                    nf == m.tris.len() / 3,
                    m.within_limits(),
                    m.indices_valid(),
                    v < verts@.len(),
                    f <= nf,
                    dirs@ == directions_at(m, v as int, f as nat),
                decreases nf - f,
            {
                proof {
                    let (ff, nn, len) = (f as int, nf as int, tris@.len() as int);
                    assert(3 * ff + 2 < len) by (nonlinear_arith)
                        requires
                            ff < nn,
                            nn == len / 3,
                    ;
                }
                assert(3 * f + 2 < ntris);
                let i0: usize = 3 * f;
                let (a, b, c) = (tris[i0], tris[i0 + 1], tris[i0 + 2]);
                if a as usize == v || b as usize == v || c as usize == v {
                    let p0 = verts[a as usize].pos;
                    let p1 = verts[b as usize].pos;
                    let p2 = verts[c as usize].pos;
                    proof {
                        assert(p0 == corner_pos(m, f as int, 0));
                        assert(p1 == corner_pos(m, f as int, 1));
                        assert(p2 == corner_pos(m, f as int, 2));
                        lemma_position_bounded(m, a as int);
                        lemma_position_bounded(m, b as int);
                        lemma_position_bounded(m, c as int);
                    }
                    let d = reduce(cross_exec(p0, p1, p2));
                    if !(d == Vec3::zero()) && !contains_direction(&dirs, d) {
                        dirs.push(d);
                    }
                }
                f = f + 1;
            }
            r.push(dirs);
            proof {
                assert forall|w: int| 0 <= w < v + 1 implies #[trigger] r@[w]@ == directions_at(
                    m,
                    w,
                    nf as nat,
                ) by {}
            }
            v = v + 1;
        }
        r
    }
}

} // verus!
