use ray_tracer::vector::{Mat4, Vec2, Vec3, Vec4};

#[test]
fn grid_area_and_hadamard() {
    let grid = Vec2 { x: 80usize, y: 24usize };
    assert_eq!(grid.area(), 1920);
    let cell = Vec2 { x: 8usize, y: 16usize };
    assert_eq!(cell.hadamard(grid), Vec2 { x: 640, y: 384 });
    assert_eq!(Vec2 { x: 0usize, y: 7usize }.area(), 0);
}

#[test]
fn cross_and_dot() {
    let x = Vec3 { x: 1i64, y: 0, z: 0 };
    let y = Vec3 { x: 0i64, y: 1, z: 0 };
    assert_eq!(x.cross(y), Vec3 { x: 0, y: 0, z: 1 });
    assert_eq!(y.cross(x), Vec3 { x: 0, y: 0, z: -1 });
    let a = Vec3 { x: 2i64, y: -3, z: 4 };
    let b = Vec3 { x: 5i64, y: 6, z: -7 };
    assert_eq!(a.dot(b), 10 - 18 - 28);
    assert_eq!(a.cross(b), Vec3 { x: 21 - 24, y: 20 + 14, z: 12 + 15 });
    assert_eq!(a.cross(b).dot(a), 0);
}

#[test]
fn component_min_max() {
    let a = Vec3 { x: 2i64, y: -3, z: 4 };
    let b = Vec3 { x: -1i64, y: 6, z: 4 };
    assert_eq!(a.max(b), Vec3 { x: 2, y: 6, z: 4 });
    assert_eq!(a.min(b), Vec3 { x: -1, y: -3, z: 4 });
    assert_eq!(a.max_component(), 4);
    assert_eq!(a.min_component(), -3);
    assert_eq!(Vec3 { x: 9i64, y: 9, z: 9 }.max_component(), 9);
}

#[test]
fn signum_and_step() {
    let v = Vec3 { x: -5i64, y: 0, z: 12 };
    assert_eq!(v.signum(), Vec3 { x: -1, y: 0, z: 1 });
    assert_eq!(v.step(0), Vec3 { x: 0, y: 1, z: 1 });
    assert_eq!(v.step(12), Vec3 { x: 0, y: 0, z: 1 });
    assert_eq!(v.step(13), Vec3 { x: 0, y: 0, z: 0 });
}

#[test]
fn vec4_operations() {
    let a = Vec4 { x: 1i64, y: 2, z: 3, w: 4 };
    let b = Vec4 { x: -1i64, y: 5, z: 0, w: 2 };
    assert_eq!(a.hadamard(b), Vec4 { x: -1, y: 10, z: 0, w: 8 });
    assert_eq!(a.sum(), 10);
    assert_eq!(a.hadamard(b).sum(), 17);
    assert_eq!(a.xyz(), Vec3 { x: 1, y: 2, z: 3 });
    let f = Vec4 { x: 0.5f32, y: 1.0, z: 2.0, w: 1.0 };
    assert_eq!(f.xyz(), Vec3 { x: 0.5, y: 1.0, z: 2.0 });
}

#[test]
fn transpose_swaps_rows_and_columns() {
    let row = |a: i64| Vec4 { x: a, y: a + 1, z: a + 2, w: a + 3 };
    let m = Mat4 { x: row(0), y: row(10), z: row(20), w: row(30) };
    let t = m.transpose();
    assert_eq!(t.x, Vec4 { x: 0, y: 10, z: 20, w: 30 });
    assert_eq!(t.y, Vec4 { x: 1, y: 11, z: 21, w: 31 });
    assert_eq!(t.z, Vec4 { x: 2, y: 12, z: 22, w: 32 });
    assert_eq!(t.w, Vec4 { x: 3, y: 13, z: 23, w: 33 });
    assert_eq!(t.transpose(), m);
}
