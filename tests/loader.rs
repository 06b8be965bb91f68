use rgraphics::mesh::{GeometryError, Mesh};
use rgraphics::mesh_loader::{
    load_mesh, load_scaled, parse_corner, parse_line, Channels, Corner, Line, LoadError,
};
use rgraphics::text::{parse_coordinate, UNIT};
use rgraphics::vertex::{Vec2, Vec3};

const NONE: Channels = Channels { uvs: false, normals: false };
const BOTH: Channels = Channels { uvs: true, normals: true };

const QUAD: &str = "v 0 0 0\nv 1 0 0\nv 1 1 0\nv 0 1 0\nf 1 2 3\nf 1 3 4";

fn v3(x: i128, y: i128, z: i128) -> Vec3 {
    Vec3 { x, y, z }
}

#[test]
fn coordinate_literals() {
    assert_eq!(parse_coordinate(b"1"), Some(1_000_000));
    assert_eq!(parse_coordinate(b"1.5"), Some(1_500_000));
    assert_eq!(parse_coordinate(b"-0.25"), Some(-250_000));
    assert_eq!(parse_coordinate(b"0.000001"), Some(1));
    assert_eq!(parse_coordinate(b"2.12345678"), Some(2_123_456));
    assert_eq!(parse_coordinate(b"1000000000000"), Some(1_000_000_000_000_000_000));
    assert_eq!(parse_coordinate(b"1000000000001"), None);
    assert_eq!(parse_coordinate(b"abc"), None);
    assert_eq!(parse_coordinate(b"1."), None);
    assert_eq!(parse_coordinate(b".5"), None);
    assert_eq!(parse_coordinate(b"-"), None);
    assert_eq!(parse_coordinate(b"1e3"), None);
    assert_eq!(parse_coordinate(b""), None);
}

#[test]
fn corner_variants() {
    let full = Channels { uvs: true, normals: true };
    let uv_only = Channels { uvs: true, normals: false };
    let normal_only = Channels { uvs: false, normals: true };
    assert_eq!(parse_corner(b"3/4/5", full), Some(Corner { pos: 3, uv: 4, normal: 5 }));
    assert_eq!(parse_corner(b"3/4", full), None);
    assert_eq!(parse_corner(b"3/4", uv_only), Some(Corner { pos: 3, uv: 4, normal: 0 }));
    assert_eq!(parse_corner(b"3/4/5", uv_only), Some(Corner { pos: 3, uv: 4, normal: 0 }));
    assert_eq!(parse_corner(b"3//5", normal_only), Some(Corner { pos: 3, uv: 0, normal: 5 }));
    assert_eq!(parse_corner(b"3/9/5", normal_only), Some(Corner { pos: 3, uv: 0, normal: 5 }));
    assert_eq!(parse_corner(b"3//5", full), None);
    assert_eq!(parse_corner(b"3", NONE), Some(Corner { pos: 3, uv: 0, normal: 0 }));
    assert_eq!(parse_corner(b"3/4/5", NONE), Some(Corner { pos: 3, uv: 0, normal: 0 }));
    assert_eq!(parse_corner(b"x", NONE), None);
    assert_eq!(parse_corner(b"3/4/5/6", NONE), None);
    assert_eq!(parse_corner(b"4294967296", NONE), None);
}

#[test]
fn line_kinds() {
    assert_eq!(parse_line(b"v 1 2 3", NONE), Some(Line::Position(v3(1_000_000, 2_000_000, 3_000_000))));
    assert_eq!(parse_line(b"  v\t1 2 3 4  ", NONE), Some(Line::Position(v3(1_000_000, 2_000_000, 3_000_000))));
    assert_eq!(parse_line(b"vn 0 0 1", BOTH), Some(Line::Normal(v3(0, 0, 1_000_000))));
    assert_eq!(parse_line(b"vn 0 0 1", NONE), Some(Line::Skip));
    assert_eq!(parse_line(b"vt 0.5 1", BOTH), Some(Line::TexCoord(Vec2 { u: 500_000, v: 1_000_000 })));
    assert_eq!(parse_line(b"vt 0.5 1", NONE), Some(Line::Skip));
    assert_eq!(parse_line(b"# a comment", NONE), Some(Line::Skip));
    assert_eq!(parse_line(b"", NONE), Some(Line::Skip));
    assert_eq!(parse_line(b"v 1 2", NONE), None);
    assert_eq!(parse_line(b"f 1 2", NONE), None);
    let c = |p: u32| Corner { pos: p, uv: 0, normal: 0 };
    assert_eq!(parse_line(b"f 1 2 3\r", NONE), Some(Line::Face(c(1), c(2), c(3))));
}

#[test]
fn quad_scenario() {
    let mut mesh = load_mesh(QUAD.as_bytes(), NONE).unwrap();
    assert_eq!(mesh.vertices().len(), 4);
    assert_eq!(mesh.tris(), &[0, 1, 2, 0, 2, 3]);
    assert_eq!(mesh.scale(), UNIT);
    assert_eq!(mesh.vertices()[2].pos, v3(1_000_000, 1_000_000, 0));
    assert_eq!(mesh.vertices()[2].normal, v3(0, 0, 0));
    assert!(mesh.within_limits());
    assert_eq!(mesh.preprocess(), Ok(()));
    let (lo, hi) = mesh.extents().unwrap();
    let longest = (hi.x - lo.x).max(hi.y - lo.y).max(hi.z - lo.z);
    assert_eq!(longest, mesh.scale());
    assert_eq!(mesh.scale(), 4 * 1_000_000);
    // Positions are (4p - s) / (4 * 10^6): the first vertex sits at -(1/2, 1/2, 0).
    assert_eq!(mesh.vertices()[0].pos, v3(-2_000_000, -2_000_000, 0));
}

#[test]
fn malformed_number_scenario() {
    assert_eq!(load_mesh(b"v 1 2 abc", NONE).err(), Some(LoadError::Format));
    assert_eq!(load_mesh(b"v 0 0 0\nv 1 2 abc\nf 1 1 1", NONE).err(), Some(LoadError::Format));
}

#[test]
fn format_error_precedes_index_error() {
    assert_eq!(load_mesh(b"f 1 2 9\nv 1 2", NONE).err(), Some(LoadError::Format));
}

#[test]
fn index_errors() {
    assert_eq!(load_mesh(b"v 0 0 0\nf 1 1 2", NONE).err(), Some(LoadError::Index));
    assert_eq!(load_mesh(b"v 0 0 0\nf 1 1 0", NONE).err(), Some(LoadError::Index));
    let text = b"v 0 0 0\nv 1 0 0\nv 0 1 0\nvt 0 0\nvn 0 0 1\nf 1/1/1 2/1/1 3/1/2";
    assert_eq!(load_mesh(text, BOTH).err(), Some(LoadError::Index));
}

#[test]
fn declaration_order_is_irrelevant() {
    let late = "f 1 2 3\nf 1 3 4\nv 0 0 0\nv 1 0 0\nv 1 1 0\nv 0 1 0";
    let a = load_mesh(late.as_bytes(), NONE).unwrap();
    let b = load_mesh(QUAD.as_bytes(), NONE).unwrap();
    assert_eq!(a.vertices(), b.vertices());
    assert_eq!(a.tris(), b.tris());
}

#[test]
fn all_channels_and_dedup() {
    let text = "v 0 0 0\nv 1 0 0\nv 0 1 0\nvt 0 0\nvt 1 0\nvn 0 0 1\n\
                f 1/1/1 2/2/1 3/1/1\nf 3/1/1 2/2/1 1/2/1\nunknown line\n";
    let mesh = load_mesh(text.as_bytes(), BOTH).unwrap();
    // Corner 1/2/1 differs from 1/1/1 in its uv, so it gets a vertex of its own.
    assert_eq!(mesh.vertices().len(), 4);
    assert_eq!(mesh.tris(), &[0, 1, 2, 2, 1, 3]);
    assert_eq!(mesh.vertices()[3].uv, Vec2 { u: 1_000_000, v: 0 });
    assert_eq!(mesh.vertices()[3].normal, v3(0, 0, 1_000_000));
    assert_eq!(mesh.vertices()[0].pos, mesh.vertices()[3].pos);
}

#[test]
fn index_list_bounds_and_counts() {
    let text = "v 0 0 0\nv 1 0 0\nv 0 1 0\nv 0 0 1\nf 1 2 3\nf 1 2 4\nf 2 3 4\nf 1 3 4";
    let mesh = load_mesh(text.as_bytes(), NONE).unwrap();
    assert_eq!(mesh.tris().len(), 3 * 4);
    assert!(mesh.tris().iter().all(|&i| (i as usize) < mesh.vertices().len()));
    assert!(1 <= mesh.vertices().len() && mesh.vertices().len() <= 3 * 4);
    assert_eq!(mesh.vertices().len(), 4);
}

#[test]
fn empty_text_loads_empty_mesh() {
    let mut mesh = load_mesh(b"", NONE).unwrap();
    assert_eq!(mesh.vertices().len(), 0);
    assert_eq!(mesh.tris().len(), 0);
    assert_eq!(mesh.extents(), None);
    assert_eq!(mesh.centroid(), None);
    assert_eq!(mesh.preprocess(), Err(GeometryError::Degenerate));
}

#[test]
fn coincident_vertices_are_degenerate() {
    let mut mesh = load_mesh(b"v 2 2 2\nf 1 1 1", NONE).unwrap();
    assert_eq!(mesh.preprocess(), Err(GeometryError::Degenerate));
    assert_eq!(mesh.scale(), UNIT);
    assert_eq!(mesh.vertices()[0].pos, v3(2_000_000, 2_000_000, 2_000_000));
}

#[test]
fn builder_and_normalisation() {
    let mut mesh = Mesh::new();
    let z = Vec2 { u: 0, v: 0 };
    let n = v3(0, 0, 0);
    let verts = [
        rgraphics::vertex::Vertex { pos: v3(0, 0, 0), normal: n, uv: z },
        rgraphics::vertex::Vertex { pos: v3(4, 0, 0), normal: n, uv: z },
        rgraphics::vertex::Vertex { pos: v3(0, 2, 0), normal: n, uv: z },
    ];
    mesh.add_vertex(&verts[0]);
    mesh.add_verticies(&verts[1..]);
    mesh.add_tri((0, 1, 2));
    mesh.add_tris(&[(2, 1, 0), (0, 0, 1)]);
    assert_eq!(mesh.vertices().len(), 3);
    assert_eq!(mesh.tris(), &[0, 1, 2, 2, 1, 0, 0, 0, 1]);
    assert_eq!(mesh.extents(), Some((v3(0, 0, 0), v3(4, 2, 0))));
    assert_eq!(mesh.centroid(), Some((v3(4, 2, 0), 3)));
    assert_eq!(mesh.preprocess(), Ok(()));
    // Longest extent 4, three vertices: positions become (3p - s) / 12.
    assert_eq!(mesh.scale(), 12);
    assert_eq!(mesh.vertices()[0].pos, v3(-4, -2, 0));
    assert_eq!(mesh.vertices()[1].pos, v3(8, -2, 0));
    assert_eq!(mesh.vertices()[2].pos, v3(-4, 4, 0));
    let (sum, count) = mesh.centroid().unwrap();
    assert_eq!(sum, v3(0, 0, 0));
    assert_eq!(count, 3);
    let (lo, hi) = mesh.extents().unwrap();
    assert_eq!(hi.x - lo.x, mesh.scale());
    assert_eq!(mesh.tris(), &[0, 1, 2, 2, 1, 0, 0, 0, 1]);
}

#[test]
fn limits_are_checked() {
    let mut mesh = Mesh::new();
    let z = Vec2 { u: 0, v: 0 };
    mesh.add_vertex(&rgraphics::vertex::Vertex { pos: v3(1 << 100, 0, 0), normal: v3(0, 0, 0), uv: z });
    assert!(!mesh.within_limits());
}

#[test]
fn scaled_load() {
    let mesh = load_scaled(b"v 0 0 0\nv 2 0 0\nv 0 4 0\nf 1 2 3", NONE).unwrap();
    assert_eq!(mesh.scale(), 4_000_000);
    assert_eq!(mesh.vertices()[1].pos, v3(2_000_000, 0, 0));
    let quad = load_scaled(QUAD.as_bytes(), NONE).unwrap();
    assert_eq!(quad.scale(), 1_000_000);
    assert_eq!(quad.tris(), &[0, 1, 2, 0, 2, 3]);
}

#[test]
fn scaled_load_errors() {
    assert_eq!(load_scaled(b"v 1 1 1\nf 1 1 1", NONE).err(), Some(LoadError::Degenerate));
    assert_eq!(load_scaled(b"v 1 1 1\nv 2 2 2", NONE).err(), Some(LoadError::Degenerate));
    assert_eq!(load_scaled(b"", NONE).err(), Some(LoadError::Degenerate));
    assert_eq!(load_scaled(b"v 1 2 abc", NONE).err(), Some(LoadError::Format));
    assert_eq!(load_scaled(b"v 1 2 3\nf 1 2 3", NONE).err(), Some(LoadError::Index));
}
