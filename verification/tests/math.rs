use fractal_tiles::math::clamp;
use fractal_tiles::math::divide_roundup;
use fractal_tiles::math::min;
use fractal_tiles::math::Vec2;

#[test]
fn vec2_new_is_origin() {
    let v = Vec2::<usize>::new();
    assert_eq!(v.x, 0);
    assert_eq!(v.y, 0);
}

#[test]
fn divide_roundup_exact_and_inexact() {
    assert_eq!(divide_roundup(0, 4), 0);
    assert_eq!(divide_roundup(8, 4), 2);
    assert_eq!(divide_roundup(9, 4), 3);
    assert_eq!(divide_roundup(1366, 128), 11);
    assert_eq!(divide_roundup(768, 128), 6);
    assert_eq!(divide_roundup(usize::MAX, 1), usize::MAX);
    assert_eq!(divide_roundup(usize::MAX, 2), usize::MAX / 2 + 1);
}

#[test]
fn clamp_limits_to_interval() {
    assert_eq!(clamp(5usize, 0, 3), 3);
    assert_eq!(clamp(5usize, 7, 9), 7);
    assert_eq!(clamp(5usize, 0, 9), 5);
    assert_eq!(clamp(0.25f32, 0.0, 1.0), 0.25);
    assert_eq!(clamp(1.5f32, 0.0, 1.0), 1.0);
    assert_eq!(clamp(-0.5f32, 0.0, 1.0), 0.0);
}

#[test]
fn min_picks_smaller() {
    assert_eq!(min(4usize, 2), 2);
    assert_eq!(min(2usize, 4), 2);
    assert_eq!(min(3usize, 3), 3);
    assert_eq!(min(0.5f64, 0.25), 0.25);
}
