use rgraphics::mesh_loader::{load_mesh, Channels};
use rgraphics::vertex::Vec3;

const NONE: Channels = Channels { uvs: false, normals: false };

fn normalised_sum(dirs: &[Vec3]) -> [f64; 3] {
    let mut s = [0.0f64; 3];
    for d in dirs {
        let v = [d.x as f64, d.y as f64, d.z as f64];
        let len = (v[0] * v[0] + v[1] * v[1] + v[2] * v[2]).sqrt();
        for k in 0..3 {
            s[k] += v[k] / len;
        }
    }
    let len = (s[0] * s[0] + s[1] * s[1] + s[2] * s[2]).sqrt();
    [s[0] / len, s[1] / len, s[2] / len]
}

#[test]
fn single_triangle_normal() {
    let mesh = load_mesh(b"v 0 0 0\nv 1 0 0\nv 0 1 0\nf 1 2 3", NONE).unwrap();
    assert!(mesh.within_limits() && mesh.indices_valid());
    let dirs = mesh.face_directions();
    assert_eq!(dirs.len(), 3);
    for d in &dirs {
        assert_eq!(d, &vec![Vec3 { x: 0, y: 0, z: 1 }]);
        let n = normalised_sum(d);
        assert!((n[0]).abs() < 1e-9 && (n[1]).abs() < 1e-9 && (n[2] - 1.0).abs() < 1e-9);
    }
}

#[test]
fn duplicate_face_directions_count_once() {
    // Two coplanar triangles share vertices 1 and 3; a third stands upright.
    let text = "v 0 0 0\nv 2 0 0\nv 2 2 0\nv 0 2 0\nv 0 0 3\nf 1 2 3\nf 1 3 4\nf 1 5 2";
    let mesh = load_mesh(text.as_bytes(), NONE).unwrap();
    let dirs = mesh.face_directions();
    assert_eq!(dirs[0], vec![Vec3 { x: 0, y: 0, z: 1 }, Vec3 { x: 0, y: 1, z: 0 }]);
    assert_eq!(dirs[2], vec![Vec3 { x: 0, y: 0, z: 1 }]);
    assert_eq!(dirs[4], vec![Vec3 { x: 0, y: 1, z: 0 }]);
    let n = normalised_sum(&dirs[0]);
    let h = 0.5f64.sqrt();
    assert!((n[0]).abs() < 1e-9 && (n[1] - h).abs() < 1e-9 && (n[2] - h).abs() < 1e-9);
}

#[test]
fn degenerate_triangle_adds_no_direction() {
    let mesh = load_mesh(b"v 0 0 0\nv 1 0 0\nv 2 0 0\nf 1 2 3", NONE).unwrap();
    let dirs = mesh.face_directions();
    assert!(dirs.iter().all(|d| d.is_empty()));
}

#[test]
fn invalid_indices_are_reported() {
    let mut mesh = rgraphics::mesh::Mesh::new();
    mesh.add_tri((0, 1, 2));
    assert!(!mesh.indices_valid());
}
