//! Reading a mesh text into attribute pools and face corners, and assembling
//! them into a mesh with one vertex per distinct corner.

use vstd::prelude::*;
use vstd::slice::slice_subrange;
use crate::mesh::{MAX_VERTICES, Mesh, MeshModel, max_extent};
use crate::text::{
    COORD_LIMIT, UNIT, coordinate, digit_run, digit_run_at, digits_value, is_digit, lemma_digit_run,
    parse_coordinate, parse_digits, ranges_of_tokens, token_ranges, tokens,
};
use crate::vertex::{Vec2, Vec3, Vertex, coord};

verus! {

/// Which attribute channels the face lines carry and the loader reads.
/// A channel that is not read is left zero in every vertex, and its lines
/// (`vt` or `vn`) are skipped.
#[derive(Clone, Copy, Debug, PartialEq, Eq, Structural)]
pub struct Channels {
    pub uvs: bool,
    pub normals: bool,
}

/// The raw 1-based pool indices of one face corner. A channel that is not
/// read holds 0.
#[derive(Clone, Copy, Debug, PartialEq, Eq, Structural)]
pub struct Corner {
    pub pos: u32,
    pub uv: u32,
    pub normal: u32,
}

/// Why a mesh text was refused.
#[derive(Clone, Copy, Debug, PartialEq, Eq, Structural)]
pub enum LoadError {
    /// A recognised line holds a malformed or out-of-range number.
    Format,
    /// A face refers to a pool entry that does not exist.
    Index,
    /// More distinct face corners than 32-bit indices can address.
    TooLarge,
    /// The mesh has no vertex, or all its vertices coincide, so it has no
    /// size to rescale.
    Degenerate,
}

/// The first word of a line.
#[derive(Clone, Copy, Debug, PartialEq, Eq, Structural)]
pub enum Keyword {
    Position,
    Normal,
    TexCoord,
    Face,
    Other,
}

/// What one line declares.
#[derive(Clone, Copy, Debug, PartialEq, Eq, Structural)]
pub enum Line {
    Skip,
    Position(Vec3),
    Normal(Vec3),
    TexCoord(Vec2),
    Face(Corner, Corner, Corner),
}

pub open spec fn keyword(tok: Seq<u8>) -> Keyword {
    if tok == seq![118u8] {
        Keyword::Position
    } else if tok == seq![118u8, 110u8] {
        Keyword::Normal
    } else if tok == seq![118u8, 116u8] {
        Keyword::TexCoord
    } else if tok == seq![102u8] {
        Keyword::Face
    } else {
        Keyword::Other
    }
}

/// The `/`-separated fields of a corner word `a`, `a/b` or `a/b/c`, each a
/// run of digits that may be empty: the end of `a`, and the ranges of `b`
/// and `c` where present.
pub open spec fn corner_split(t: Seq<u8>) -> Option<(nat, Option<(nat, nat)>, Option<(nat, nat)>)> {
    let k1 = digit_run(t, 0);
    if k1 >= t.len() {
        Some((k1, None, None))
    } else if t[k1 as int] != 47u8 {
        None
    } else {
        let k2 = digit_run(t, k1 + 1);
        if k2 >= t.len() {
            Some((k1, Some((k1 + 1, k2)), None))
        } else if t[k2 as int] != 47u8 {
            None
        } else {
            let k3 = digit_run(t, k2 + 1);
            if k3 >= t.len() {
                Some((k1, Some((k1 + 1, k2)), Some((k2 + 1, k3))))
            } else {
                None
            }
        }
    }
}

/// The index written by a non-empty digit field that fits 32 bits.
pub open spec fn index_field(f: Seq<u8>) -> Option<u32> {
    if f.len() > 0 && digits_value(f) <= 0xffff_ffff {
        Some(digits_value(f) as u32)
    } else {
        None
    }
}

pub open spec fn optional_index(t: Seq<u8>, field: Option<(nat, nat)>) -> Option<u32> {
    match field {
        Some(r) => index_field(t.subrange(r.0 as int, r.1 as int)),
        None => None,
    }
}

/// The corner written by the word `t`: the position index always, and the
/// uv and normal indices where those channels are read. A field of a
/// channel that is not read may be present, empty or absent.
pub open spec fn corner_spec(t: Seq<u8>, ch: Channels) -> Option<Corner> {
    match corner_split(t) {
        None => None,
        Some((k1, b, c)) => {
            let p = index_field(t.subrange(0, k1 as int));
            let u = if ch.uvs {
                optional_index(t, b)
            } else {
                Some(0u32)
            };
            let n = if ch.normals {
                optional_index(t, c)
            } else {
                Some(0u32)
            };
            if p is Some && u is Some && n is Some {
                Some(Corner { pos: p->0, uv: u->0, normal: n->0 })
            } else {
                None
            }
        },
    }
}

pub open spec fn vec3_spec(t: Seq<Seq<u8>>) -> Option<Vec3> {
    if t.len() >= 4 && coordinate(t[1]) is Some && coordinate(t[2]) is Some && coordinate(
        t[3],
    ) is Some {
        Some(
            Vec3 {
                x: coordinate(t[1])->0 as i128,
                y: coordinate(t[2])->0 as i128,
                z: coordinate(t[3])->0 as i128,
            },
        )
    } else {
        None
    }
}

pub open spec fn vec2_spec(t: Seq<Seq<u8>>) -> Option<Vec2> {
    if t.len() >= 3 && coordinate(t[1]) is Some && coordinate(t[2]) is Some {
        Some(Vec2 { u: coordinate(t[1])->0 as i128, v: coordinate(t[2])->0 as i128 })
    } else {
        None
    }
}

/// What the line `l` declares, or `None` if it is malformed. Words past
/// the ones a declaration needs are ignored; a line whose first word is
/// not a known keyword, or that declares a channel not read, is skipped.
pub open spec fn line_spec(l: Seq<u8>, ch: Channels) -> Option<Line> {
    let t = tokens(l);
    if t.len() == 0 {
        Some(Line::Skip)
    } else {
        match keyword(t[0]) {
            Keyword::Position => match vec3_spec(t) {
                Some(v) => Some(Line::Position(v)),
                None => None,
            },
            Keyword::Normal => if !ch.normals {
                Some(Line::Skip)
            } else {
                match vec3_spec(t) {
                    Some(v) => Some(Line::Normal(v)),
                    None => None,
                }
            },
            Keyword::TexCoord => if !ch.uvs {
                Some(Line::Skip)
            } else {
                match vec2_spec(t) {
                    Some(v) => Some(Line::TexCoord(v)),
                    None => None,
                }
            },
            Keyword::Face => if t.len() >= 4 && corner_spec(t[1], ch) is Some && corner_spec(
                t[2],
                ch,
            ) is Some && corner_spec(t[3], ch) is Some {
                Some(
                    Line::Face(
                        corner_spec(t[1], ch)->0,
                        corner_spec(t[2], ch)->0,
                        corner_spec(t[3], ch)->0,
                    ),
                )
            } else {
                None
            },
            Keyword::Other => Some(Line::Skip),
        }
    }
}

fn keyword_of(tok: &[u8]) -> (k: Keyword)
    ensures
        k == keyword(tok@),
{
    if tok.len() == 1 && tok[0] == 118u8 {
        assert(tok@ =~= seq![118u8]);
        Keyword::Position
    } else if tok.len() == 2 && tok[0] == 118u8 && tok[1] == 110u8 {
        assert(tok@ =~= seq![118u8, 110u8]);
        Keyword::Normal
    } else if tok.len() == 2 && tok[0] == 118u8 && tok[1] == 116u8 {
        assert(tok@ =~= seq![118u8, 116u8]);
        Keyword::TexCoord
    } else if tok.len() == 1 && tok[0] == 102u8 {
        assert(tok@ =~= seq![102u8]);
        Keyword::Face
    } else {
        assert(tok@ != seq![118u8]);
        assert(tok@ != seq![118u8, 110u8]);
        assert(tok@ != seq![118u8, 116u8]);
        assert(tok@ != seq![102u8]);
        Keyword::Other
    }
}

fn parse_index(t: &[u8], lo: usize, hi: usize) -> (r: Option<u32>)
    requires
        lo <= hi <= t@.len(),
        forall|k: int| lo <= k < hi ==> is_digit(#[trigger] t@[k]),
    ensures
        r == index_field(t@.subrange(lo as int, hi as int)),
{
    if lo == hi {
        return None;
    }
    match parse_digits(t, lo, hi, 0xffff_ffffu64) {
        Some(v) => Some(v as u32),
        None => None,
    }
}

fn parse_optional_index(t: &[u8], field: Option<(usize, usize)>) -> (r: Option<u32>)
    requires
        match field {
            Some((lo, hi)) => lo <= hi <= t@.len() && forall|k: int|
                lo <= k < hi ==> is_digit(#[trigger] t@[k]),
            None => true,
        },
    ensures
        r == optional_index(t@, nat_range(field)),
{
    match field {
        Some((lo, hi)) => parse_index(t, lo, hi),
        None => None,
    }
}

pub open spec fn nat_range(field: Option<(usize, usize)>) -> Option<(nat, nat)> {
    match field {
        Some((lo, hi)) => Some((lo as nat, hi as nat)),
        None => None,
    }
}

/// Reads one corner word.
pub fn parse_corner(t: &[u8], ch: Channels) -> (r: Option<Corner>)
    ensures
        r == corner_spec(t@, ch),
{
    proof {
        lemma_digit_run(t@, 0);
    }
    let k1 = digit_run_at(t, 0);
    let mut b: Option<(usize, usize)> = None;
    let mut c: Option<(usize, usize)> = None;
    if k1 < t.len() {
        if t[k1] != 47u8 {
            return None;
        }
        proof {
            lemma_digit_run(t@, (k1 + 1) as nat);
        }
        let k2 = digit_run_at(t, k1 + 1);
        b = Some((k1 + 1, k2));
        if k2 < t.len() {
            if t[k2] != 47u8 {
                return None;
            }
            proof {
                lemma_digit_run(t@, (k2 + 1) as nat);
            }
            let k3 = digit_run_at(t, k2 + 1);
            if k3 < t.len() {
                return None;
            }
            c = Some((k2 + 1, k3));
        }
    }
    assert(corner_split(t@) == Some((k1 as nat, nat_range(b), nat_range(c))));
    let p = parse_index(t, 0, k1);
    let u = if ch.uvs {
        parse_optional_index(t, b)
    } else {
        Some(0u32)
    };
    let n = if ch.normals {
        parse_optional_index(t, c)
    } else {
        Some(0u32)
    };
    match (p, u, n) {
        (Some(p), Some(u), Some(n)) => Some(Corner { pos: p, uv: u, normal: n }),
        _ => None,
    }
}

fn word<'a>(l: &'a [u8], toks: &Vec<(usize, usize)>, k: usize) -> (r: &'a [u8])
    requires
        ranges_of_tokens(l@, toks@),
        k < toks@.len(),
    ensures
        r@ == tokens(l@)[k as int],
{
    let (a, b) = toks[k];
    slice_subrange(l, a, b)
}

fn parse_vec3(l: &[u8], toks: &Vec<(usize, usize)>) -> (r: Option<Vec3>)
    requires
        ranges_of_tokens(l@, toks@),
    ensures
        r == vec3_spec(tokens(l@)),
{
    if toks.len() < 4 {
        return None;
    }
    let x = parse_coordinate(word(l, toks, 1));
    let y = parse_coordinate(word(l, toks, 2));
    let z = parse_coordinate(word(l, toks, 3));
    match (x, y, z) {
        (Some(x), Some(y), Some(z)) => Some(Vec3 { x, y, z }),
        _ => None,
    }
}

fn parse_vec2(l: &[u8], toks: &Vec<(usize, usize)>) -> (r: Option<Vec2>)
    requires
        ranges_of_tokens(l@, toks@),
    ensures
        r == vec2_spec(tokens(l@)),
{
    if toks.len() < 3 {
        return None;
    }
    let u = parse_coordinate(word(l, toks, 1));
    let v = parse_coordinate(word(l, toks, 2));
    match (u, v) {
        (Some(u), Some(v)) => Some(Vec2 { u, v }),
        _ => None,
    }
}

/// Reads what one line declares; `None` if it is malformed.
pub fn parse_line(l: &[u8], ch: Channels) -> (r: Option<Line>)
    ensures
        r == line_spec(l@, ch),
{
    let toks = token_ranges(l);
    if toks.len() == 0 {
        return Some(Line::Skip);
    }
    match keyword_of(word(l, &toks, 0)) {
        Keyword::Position => match parse_vec3(l, &toks) {
            Some(v) => Some(Line::Position(v)),
            None => None,
        },
        Keyword::Normal => if !ch.normals {
            Some(Line::Skip)
        } else {
            match parse_vec3(l, &toks) {
                Some(v) => Some(Line::Normal(v)),
                None => None,
            }
        },
        Keyword::TexCoord => if !ch.uvs {
            Some(Line::Skip)
        } else {
            match parse_vec2(l, &toks) {
                Some(v) => Some(Line::TexCoord(v)),
                None => None,
            }
        },
        Keyword::Face => {
            if toks.len() < 4 {
                return None;
            }
            let a = parse_corner(word(l, &toks, 1), ch);
            let b = parse_corner(word(l, &toks, 2), ch);
            let c = parse_corner(word(l, &toks, 3), ch);
            match (a, b, c) {
                (Some(a), Some(b), Some(c)) => Some(Line::Face(a, b, c)),
                _ => None,
            }
        },
        Keyword::Other => Some(Line::Skip),
    }
}

/// The attribute pools and the face corners (three per face) read from a
/// mesh text.
pub struct PoolsModel {
    pub positions: Seq<Vec3>,
    pub normals: Seq<Vec3>,
    pub uvs: Seq<Vec2>,
    pub corners: Seq<Corner>,
}

pub struct Pools {
    pub positions: Vec<Vec3>,
    pub normals: Vec<Vec3>,
    pub uvs: Vec<Vec2>,
    pub corners: Vec<Corner>,
}

impl View for Pools {
    type V = PoolsModel;

    open spec fn view(&self) -> PoolsModel {
        PoolsModel {
            positions: self.positions@,
            normals: self.normals@,
            uvs: self.uvs@,
            corners: self.corners@,
        }
    }
}

pub open spec fn empty_pools() -> PoolsModel {
    PoolsModel { positions: seq![], normals: seq![], uvs: seq![], corners: seq![] }
}

/// The pools after one more line.
pub open spec fn with_line(p: PoolsModel, line: Line) -> PoolsModel {
    match line {
        Line::Skip => p,
        Line::Position(v) => PoolsModel { positions: p.positions.push(v), ..p },
        Line::Normal(v) => PoolsModel { normals: p.normals.push(v), ..p },
        Line::TexCoord(v) => PoolsModel { uvs: p.uvs.push(v), ..p },
        Line::Face(a, b, c) => PoolsModel { corners: p.corners + seq![a, b, c], ..p },
    }
}

/// First index at or after `i` that holds a line feed (or the end).
pub open spec fn line_end(t: Seq<u8>, i: nat) -> nat
    decreases t.len() - i,
{
    if i < t.len() && t[i as int] != 10u8 {
        line_end(t, i + 1)
    } else {
        i
    }
}

pub proof fn lemma_line_end(t: Seq<u8>, i: nat)
    ensures
        i <= line_end(t, i),
        i <= t.len() ==> line_end(t, i) <= t.len(),
    decreases t.len() - i,
{
    if i < t.len() && t[i as int] != 10u8 {
        lemma_line_end(t, i + 1);
    }
}

/// The pools read from the lines of `t` that start at or after `i`, added
/// to `acc`; `None` if one of those lines is malformed.
pub open spec fn pools_from(t: Seq<u8>, i: nat, ch: Channels, acc: PoolsModel) -> Option<
    PoolsModel,
>
    decreases t.len() + 1 - i,
    via pools_from_decreases
{
    if i >= t.len() {
        Some(acc)
    } else {
        let e = line_end(t, i);
        match line_spec(t.subrange(i as int, e as int), ch) {
            None => None,
            Some(line) => pools_from(t, e + 1, ch, with_line(acc, line)),
        }
    }
}

#[via_fn]
proof fn pools_from_decreases(t: Seq<u8>, i: nat, ch: Channels, acc: PoolsModel) {
    lemma_line_end(t, i);
}

/// The pools of a whole mesh text, read line by line.
pub open spec fn pools_of(t: Seq<u8>, ch: Channels) -> Option<PoolsModel> {
    pools_from(t, 0, ch, empty_pools())
}

fn line_end_at(t: &[u8], i: usize) -> (r: usize)
    requires
        i <= t@.len(),
    ensures
        r == line_end(t@, i as nat),
{
    let mut j: usize = i;
    while j < t.len() && t[j] != 10u8
        invariant
            i <= j <= t@.len(),
            line_end(t@, j as nat) == line_end(t@, i as nat),
        decreases t@.len() - j,
    {
        j = j + 1;
    }
    j
}

fn add_line(p: &mut Pools, line: Line)
    ensures
        final(p)@ == with_line(old(p)@, line),
{
    match line {
        Line::Skip => {},
        Line::Position(v) => p.positions.push(v),
        Line::Normal(v) => p.normals.push(v),
        Line::TexCoord(v) => p.uvs.push(v),
        Line::Face(a, b, c) => {
            p.corners.push(a);
            p.corners.push(b);
            p.corners.push(c);
            assert(p.corners@ =~= old(p)@.corners + seq![a, b, c]);
        },
    }
}

/// Reads every line of a mesh text into attribute pools and face corners.
pub fn parse_pools(text: &[u8], ch: Channels) -> (r: Option<Pools>)
    ensures
        match r {
            Some(p) => pools_of(text@, ch) == Some(p@),
            None => pools_of(text@, ch) is None,
        },
{
    let mut p = Pools {
        positions: Vec::new(),
        normals: Vec::new(),
        uvs: Vec::new(),
        corners: Vec::new(),
    };
    let mut i: usize = 0;
    while i < text.len()
        invariant
            i <= text@.len(),
            pools_from(text@, i as nat, ch, p@) == pools_of(text@, ch),
        decreases text@.len() - i,
    {
        proof {
            lemma_line_end(text@, i as nat);
        }
        let e = line_end_at(text, i);
        let ghost before = p@;
        match parse_line(slice_subrange(text, i, e), ch) {
            None => {
                return None;
            },
            Some(line) => add_line(&mut p, line),
        }
        assert(pools_from(text@, i as nat, ch, before) == pools_from(
            text@,
            (e + 1) as nat,
            ch,
            p@,
        ));
        if e >= text.len() {
            assert(pools_from(text@, (e + 1) as nat, ch, p@) == Some(p@));
            return Some(p);
        }
        i = e + 1;
    }
    Some(p)
}

/// The distinct corners of `s`, in the order of their first appearance.
pub open spec fn distinct_in_order(s: Seq<Corner>) -> Seq<Corner>
    decreases s.len(),
{
    if s.len() == 0 {
        seq![]
    } else {
        let d = distinct_in_order(s.drop_last());
        if d.contains(s.last()) {
            d
        } else {
            d.push(s.last())
        }
    }
}

/// Every index that `k` reads names an entry of its pool.
pub open spec fn resolves(k: Corner, p: PoolsModel, ch: Channels) -> bool {
    &&& 1 <= k.pos <= p.positions.len()
    &&& ch.uvs ==> 1 <= k.uv <= p.uvs.len()
    &&& ch.normals ==> 1 <= k.normal <= p.normals.len()
}

/// The vertex that the corner `k` stands for.
pub open spec fn vertex_of(k: Corner, p: PoolsModel, ch: Channels) -> Vertex {
    Vertex {
        pos: p.positions[k.pos - 1],
        normal: if ch.normals {
            p.normals[k.normal - 1]
        } else {
            Vec3 { x: 0, y: 0, z: 0 }
        },
        uv: if ch.uvs {
            p.uvs[k.uv - 1]
        } else {
            Vec2 { u: 0, v: 0 }
        },
    }
}

/// Why the text `t` cannot be loaded, if it cannot: a malformed line first,
/// then too many distinct corners, then a corner that names no pool entry.
pub open spec fn load_error(t: Seq<u8>, ch: Channels) -> Option<LoadError> {
    match pools_of(t, ch) {
        None => Some(LoadError::Format),
        Some(p) => {
            let keys = distinct_in_order(p.corners);
            if keys.len() > MAX_VERTICES {
                Some(LoadError::TooLarge)
            } else if exists|j: int| 0 <= j < keys.len() && !resolves(#[trigger] keys[j], p, ch) {
                Some(LoadError::Index)
            } else {
                None
            }
        },
    }
}

/// `m` is the mesh assembled from the pools `p`: one vertex per distinct
/// corner in order of first appearance, and for each corner the index of
/// its vertex.
pub open spec fn assembled(m: MeshModel, p: PoolsModel, ch: Channels) -> bool {
    let keys = distinct_in_order(p.corners);
    &&& m.scale == UNIT
    &&& m.vertices.len() == keys.len()
    &&& forall|j: int| 0 <= j < keys.len() ==> m.vertices[j] == vertex_of(#[trigger] keys[j], p, ch)
    &&& m.tris.len() == p.corners.len()
    &&& forall|j: int|
        0 <= j < p.corners.len() ==> #[trigger] m.tris[j] < keys.len() && keys[m.tris[j] as int]
            == p.corners[j]
}

/// The index of `val` in `cont`, appending it first if it is not there.
fn find_or_insert(val: &Corner, cont: &mut Vec<Corner>) -> (r: usize)
    ensures
        old(cont)@.contains(*val) ==> final(cont)@ == old(cont)@ && r < old(cont)@.len()
            && old(cont)@[r as int] == *val && forall|q: int|
            0 <= q < r ==> old(cont)@[q] != *val,
        !old(cont)@.contains(*val) ==> final(cont)@ == old(cont)@.push(*val) && r == old(
            cont,
        )@.len(),
{
    let mut i: usize = 0;
    while i < cont.len()
        invariant
            i <= cont@.len(),
            cont@ == old(cont)@,
            forall|q: int| 0 <= q < i ==> cont@[q] != *val,
        decreases cont@.len() - i,
    {
        if cont[i] == *val {
            return i;
        }
        i = i + 1;
    }
    let n = cont.len();
    cont.push(*val);
    n
}

fn resolves_exec(k: Corner, p: &Pools, ch: Channels) -> (r: bool)
    ensures
        r == resolves(k, p@, ch),
{
    1 <= k.pos && (k.pos as usize) <= p.positions.len() && (!ch.uvs || (1 <= k.uv && (k.uv as usize)
        <= p.uvs.len())) && (!ch.normals || (1 <= k.normal && (k.normal as usize)
        <= p.normals.len()))
}

fn vertex_exec(k: Corner, p: &Pools, ch: Channels) -> (r: Vertex)
    requires
        resolves(k, p@, ch),
    ensures
        r == vertex_of(k, p@, ch),
{
    let normal = if ch.normals {
        p.normals[(k.normal - 1) as usize]
    } else {
        Vec3::zero()
    };
    let uv = if ch.uvs {
        p.uvs[(k.uv - 1) as usize]
    } else {
        Vec2::zero()
    };
    Vertex { pos: p.positions[(k.pos - 1) as usize], normal, uv }
}

/// Loads a mesh text: reads its pools, gives each distinct face corner one
/// vertex in order of first appearance, and indexes each face's corners.
pub fn load_mesh(text: &[u8], ch: Channels) -> (r: Result<Mesh, LoadError>)
    ensures
        match r {
            Ok(m) => load_error(text@, ch) is None && assembled(m@, pools_of(text@, ch)->0, ch)
                && m@.wf() && m@.within_limits(),
            Err(e) => load_error(text@, ch) == Some(e),
        },
{
    proof {
        lemma_pools_from_bounded(text@, 0, ch, empty_pools());
    }
    let pools = match parse_pools(text, ch) {
        None => {
            return Err(LoadError::Format);
        },
        Some(p) => p,
    };
    let ghost corners = pools.corners@;
    let mut keys: Vec<Corner> = Vec::new();
    let mut idx: Vec<usize> = Vec::new();
    let mut j: usize = 0;
    while j < pools.corners.len()
        invariant
            j <= corners.len(),
            corners == pools.corners@,
            keys@ == distinct_in_order(corners.take(j as int)),
            idx@.len() == j,
            forall|q: int|
                0 <= q < j ==> #[trigger] idx@[q] < keys@.len() && keys@[idx@[q] as int]
                    == corners[q],
        decreases corners.len() - j,
    {
        let ghost before = keys@;
        let r = find_or_insert(&pools.corners[j], &mut keys);
        proof {
            assert(corners.take(j + 1).drop_last() =~= corners.take(j as int));
            assert(corners.take(j + 1).last() == corners[j as int]);
        }
        idx.push(r);
        proof {
            assert forall|q: int| 0 <= q < j + 1 implies #[trigger] idx@[q] < keys@.len()
                && keys@[idx@[q] as int] == corners[q] by {
                if q < j {
                    assert(keys@[idx@[q] as int] == before[idx@[q] as int]);
                }
            }
        }
        j = j + 1;
    }
    assert(corners.take(j as int) =~= corners);
    if keys.len() as u64 > MAX_VERTICES {
        return Err(LoadError::TooLarge);
    }
    assert(keys@.len() <= MAX_VERTICES);
    let mut verts: Vec<Vertex> = Vec::new();
    let mut k: usize = 0;
    while k < keys.len()
        invariant
            k <= keys@.len(),
            pools_of(text@, ch) == Some(pools@),
            corners == pools.corners@,
            keys@ == distinct_in_order(corners),
            keys@.len() <= MAX_VERTICES,
            verts@.len() == k,
            forall|q: int| 0 <= q < k ==> resolves(#[trigger] keys@[q], pools@, ch),
            forall|q: int| 0 <= q < k ==> #[trigger] verts@[q] == vertex_of(keys@[q], pools@, ch),
        decreases keys@.len() - k,
    {
        let key = keys[k];
        if !resolves_exec(key, &pools, ch) {
            assert(!resolves(keys@[k as int], pools@, ch));
            return Err(LoadError::Index);
        }
        let ghost before = verts@;
        verts.push(vertex_exec(key, &pools, ch));
        proof {
            assert forall|q: int| 0 <= q < k + 1 implies #[trigger] verts@[q] == vertex_of(
                keys@[q],
                pools@,
                ch,
            ) by {
                if q < k {
                    assert(verts@[q] == before[q]);
                }
            }
        }
        k = k + 1;
    }
    let mut tris: Vec<u32> = Vec::new();
    let mut q: usize = 0;
    while q < idx.len()
        invariant
            q <= idx@.len(),
            idx@.len() == corners.len(),
            pools_of(text@, ch) == Some(pools@),
            corners == pools.corners@,
            keys@ == distinct_in_order(corners),
            keys@.len() <= MAX_VERTICES,
            verts@.len() == keys@.len(),
            forall|i: int| 0 <= i < keys@.len() ==> resolves(#[trigger] keys@[i], pools@, ch),
            forall|i: int|
                0 <= i < keys@.len() ==> #[trigger] verts@[i] == vertex_of(keys@[i], pools@, ch),
            tris@.len() == q,
            forall|i: int| 0 <= i < q ==> #[trigger] tris@[i] as int == idx@[i] as int,
            forall|i: int|
                0 <= i < idx@.len() ==> #[trigger] idx@[i] < keys@.len() && keys@[idx@[i] as int]
                    == corners[i],
        decreases idx@.len() - q,
    {
        tris.push(idx[q] as u32);
        q = q + 1;
    }
    let m = Mesh::from_parts(verts, tris);
    proof {
        assert(forall|i: int| 0 <= i < keys@.len() ==> resolves(#[trigger] keys@[i], pools@, ch));
        assert forall|i: int, a: int|
            0 <= i < m@.vertices.len() && 0 <= a < 3 implies -COORD_LIMIT <= #[trigger] coord(
            m@.vertices[i].pos,
            a,
        ) <= COORD_LIMIT by {
            assert(m@.vertices[i] == vertex_of(keys@[i], pools@, ch));
            assert(resolves(keys@[i], pools@, ch));
        }
    }
    Ok(m)
}

/// The vertices that a load of pools `p` gives.
pub open spec fn loaded_vertices(p: PoolsModel, ch: Channels) -> Seq<Vertex> {
    distinct_in_order(p.corners).map_values(|k: Corner| vertex_of(k, p, ch))
}

/// Loads a mesh text as `load_mesh` does and rescales it so that its
/// longest extent is one; fails with `Degenerate` where the mesh has no
/// extent.
pub fn load_scaled(text: &[u8], ch: Channels) -> (r: Result<Mesh, LoadError>)
    ensures
        match r {
            Ok(m) => load_error(text@, ch) is None && assembled(
                MeshModel { scale: UNIT as int, ..m@ },
                pools_of(text@, ch)->0,
                ch,
            ) && m@.scale == max_extent(m@.vertices) && m@.scale >= 1,
            Err(LoadError::Degenerate) => load_error(text@, ch) is None && (loaded_vertices(
                pools_of(text@, ch)->0,
                ch,
            ).len() == 0 || max_extent(loaded_vertices(pools_of(text@, ch)->0, ch)) == 0),
            Err(e) => load_error(text@, ch) == Some(e),
        },
{
    let mut m = load_mesh(text, ch)?;
    proof {
        let p = pools_of(text@, ch)->0;
        assert(m@.vertices =~= loaded_vertices(p, ch));
        assert(MeshModel { scale: UNIT as int, ..m@ } == m@);
    }
    match m.normalize_size() {
        Ok(()) => Ok(m),
        Err(_) => Err(LoadError::Degenerate),
    }
}

/// Every position in `p` is within the coordinate limit.
pub open spec fn positions_bounded(p: PoolsModel) -> bool {
    forall|i: int, a: int|
        0 <= i < p.positions.len() && 0 <= a < 3 ==> -COORD_LIMIT <= #[trigger] coord(
            p.positions[i],
            a,
        ) <= COORD_LIMIT
}

proof fn lemma_line_bounded(l: Seq<u8>, ch: Channels)
    ensures
        line_spec(l, ch) matches Some(Line::Position(v)) ==> forall|a: int|
            0 <= a < 3 ==> -COORD_LIMIT <= #[trigger] coord(v, a) <= COORD_LIMIT,
{
    let t = tokens(l);
    if t.len() >= 4 && coordinate(t[1]) is Some && coordinate(t[2]) is Some && coordinate(
        t[3],
    ) is Some {
        assert(-COORD_LIMIT <= coordinate(t[1])->0 <= COORD_LIMIT);
        assert(-COORD_LIMIT <= coordinate(t[2])->0 <= COORD_LIMIT);
        assert(-COORD_LIMIT <= coordinate(t[3])->0 <= COORD_LIMIT);
    }
}

proof fn lemma_pools_from_bounded(t: Seq<u8>, i: nat, ch: Channels, acc: PoolsModel)
    requires
        positions_bounded(acc),
    ensures
        pools_from(t, i, ch, acc) is Some ==> positions_bounded(pools_from(t, i, ch, acc)->0),
    decreases t.len() + 1 - i,
{
    if i < t.len() {
        lemma_line_end(t, i);
        let e = line_end(t, i);
        let l = t.subrange(i as int, e as int);
        match line_spec(l, ch) {
            Some(line) => {
                lemma_line_bounded(l, ch);
                let next = with_line(acc, line);
                assert(positions_bounded(next)) by {
                    assert forall|j: int, a: int|
                        0 <= j < next.positions.len() && 0 <= a < 3 implies -COORD_LIMIT
                        <= #[trigger] coord(next.positions[j], a) <= COORD_LIMIT by {
                        if j < acc.positions.len() {
                            assert(next.positions[j] == acc.positions[j]);
                        }
                    }
                }
                lemma_pools_from_bounded(t, e + 1, ch, next);
            },
            None => {},
        }
    }
}

/// The number of faces read into `p`.
pub open spec fn face_count(p: PoolsModel) -> nat {
    p.corners.len() / 3
}

proof fn lemma_pools_from_faces(t: Seq<u8>, i: nat, ch: Channels, acc: PoolsModel)
    requires
        acc.corners.len() % 3 == 0,
    ensures
        pools_from(t, i, ch, acc) is Some ==> pools_from(t, i, ch, acc)->0.corners.len() % 3 == 0,
    decreases t.len() + 1 - i,
{
    if i < t.len() {
        lemma_line_end(t, i);
        let e = line_end(t, i);
        match line_spec(t.subrange(i as int, e as int), ch) {
            Some(line) => lemma_pools_from_faces(t, e + 1, ch, with_line(acc, line)),
            None => {},
        }
    }
}

/// The pools of a text hold three corners per face.
pub proof fn lemma_corners_per_face(t: Seq<u8>, ch: Channels)
    requires
        pools_of(t, ch) is Some,
    ensures
        pools_of(t, ch)->0.corners.len() == 3 * face_count(pools_of(t, ch)->0),
{
    lemma_pools_from_faces(t, 0, ch, empty_pools());
}

/// `distinct_in_order(s)` holds no element twice, holds every element of
/// `s`, and is no longer than `s`.
pub proof fn lemma_distinct_in_order(s: Seq<Corner>)
    ensures
        forall|a: int, b: int|
            0 <= a < b < distinct_in_order(s).len() ==> distinct_in_order(s)[a]
                != distinct_in_order(s)[b],
        forall|k: int| 0 <= k < s.len() ==> distinct_in_order(s).contains(#[trigger] s[k]),
        distinct_in_order(s).len() <= s.len(),
    decreases s.len(),
{
    if s.len() > 0 {
        let init = s.drop_last();
        lemma_distinct_in_order(init);
        let d0 = distinct_in_order(init);
        let d = distinct_in_order(s);
        assert forall|k: int| 0 <= k < s.len() implies d.contains(#[trigger] s[k]) by {
            if k < s.len() - 1 {
                assert(s[k] == init[k]);
                assert(d0.contains(init[k]));
                let w = choose|w: int| 0 <= w < d0.len() && d0[w] == init[k];
                assert(d[w] == d0[w]);
            } else {
                if !d0.contains(s.last()) {
                    assert(d[d.len() - 1] == s.last());
                }
            }
        }
    }
}

/// A loaded mesh holds three triangle indices per face, and each names
/// one of its vertices.
pub proof fn lemma_load_tri_indices(t: Seq<u8>, ch: Channels, m: MeshModel)
    requires
        load_error(t, ch) is None,
        assembled(m, pools_of(t, ch)->0, ch),
    ensures
        m.tris.len() == 3 * face_count(pools_of(t, ch)->0),
        forall|j: int| 0 <= j < m.tris.len() ==> #[trigger] m.tris[j] < m.vertices.len(),
{
    lemma_corners_per_face(t, ch);
}

/// Two face corners that name the same position, uv and normal entries
/// resolve to the same vertex index.
pub proof fn lemma_load_dedup(t: Seq<u8>, ch: Channels, m: MeshModel, i: int, j: int)
    requires
        load_error(t, ch) is None,
        assembled(m, pools_of(t, ch)->0, ch),
        0 <= i < pools_of(t, ch)->0.corners.len(),
        0 <= j < pools_of(t, ch)->0.corners.len(),
        pools_of(t, ch)->0.corners[i] == pools_of(t, ch)->0.corners[j],
    ensures
        m.tris[i] == m.tris[j],
{
    let keys = distinct_in_order(pools_of(t, ch)->0.corners);
    lemma_distinct_in_order(pools_of(t, ch)->0.corners);
    assert(m.tris[i] < keys.len() && m.tris[j] < keys.len());
    if m.tris[i] < m.tris[j] {
        assert(keys[m.tris[i] as int] != keys[m.tris[j] as int]);
    } else if m.tris[j] < m.tris[i] {
        assert(keys[m.tris[j] as int] != keys[m.tris[i] as int]);
    }
}

/// A loaded mesh with at least one face has at least one vertex and at
/// most three per face.
pub proof fn lemma_load_vertex_count(t: Seq<u8>, ch: Channels, m: MeshModel)
    requires
        load_error(t, ch) is None,
        assembled(m, pools_of(t, ch)->0, ch),
        face_count(pools_of(t, ch)->0) >= 1,
    ensures
        1 <= m.vertices.len() <= 3 * face_count(pools_of(t, ch)->0),
{
    let p = pools_of(t, ch)->0;
    lemma_corners_per_face(t, ch);
    lemma_distinct_in_order(p.corners);
    assert(distinct_in_order(p.corners).contains(p.corners[0]));
}

} // verus!
