use screen_task::{Projection, MAX_SURFACE_COUNT};
use ultraviolet::{Mat4, Vec4};

fn float_matrix(size: [u32; 2], max_surface_count: u32) -> Mat4 {
    Mat4::new(
        Vec4::new(2.0 / size[0] as f32, 0.0, 0.0, 0.0),
        Vec4::new(0.0, -2.0 / size[1] as f32, 0.0, 0.0),
        Vec4::new(0.0, 0.0, 1.0 / max_surface_count as f32, 0.0),
        Vec4::new(-1.0, 1.0, 0.0, 0.0),
    )
}

#[test]
fn projection_matrix_test() {
    let surface_position = Vec4::new(100.0, 100.0, 0.0, 1.0);
    let expected = float_matrix([800, 800], 1024) * surface_position;
    let p = Projection::new([800, 800], 1024).project([100, 100, 0]);
    assert_eq!(p.x.num as f32 / p.x.den as f32, expected.x);
    assert_eq!(p.y.num as f32 / p.y.den as f32, expected.y);
    assert_eq!(p.z.num as f32 / p.z.den as f32, expected.z);
    assert_eq!((p.x.num, p.x.den), (-600, 800));
    assert_eq!((p.y.num, p.y.den), (600, 800));
}

#[test]
fn projection_is_exact() {
    let p = Projection::new([1920, 1080], MAX_SURFACE_COUNT).project([1920, 1080, -3]);
    assert_eq!((p.x.num, p.x.den), (1920, 1920));
    assert_eq!((p.y.num, p.y.den), (-1080, 1080));
    assert_eq!((p.z.num, p.z.den), (-3, 1024));
    let q = Projection::new([800, 600], 1024).project([50, 50, 1]);
    assert_eq!((q.x.num, q.y.num), (-700, 500));
}
