use fractal_tiles::framebuffer::commit_tile;
use fractal_tiles::framebuffer::render_tile;
use fractal_tiles::math::Vec2;
use fractal_tiles::tile::partition;
use fractal_tiles::tile::ThreadDescryptor;

fn tile(ox: usize, oy: usize, w: usize, h: usize, cw: usize, ch: usize) -> ThreadDescryptor<f64> {
    ThreadDescryptor {
        offset: Vec2 { x: ox, y: oy },
        thread_size: Vec2 { x: w, y: h },
        color_buffer_size: Vec2 { x: cw, y: ch },
        sample_count: 1,
        center: Vec2 { x: 0.0, y: 0.0 },
        view_size: Vec2 { x: 4.0, y: 4.0 },
    }
}

#[test]
fn render_tile_samples_canvas_coordinates_row_major() {
    let d = tile(4, 2, 2, 3, 6, 5);
    let pixels = render_tile(&d, |x, y| 10 * y + x);
    assert_eq!(pixels, vec![24, 25, 34, 35, 44, 45]);
}

#[test]
fn render_tile_of_one_pixel() {
    let d = tile(7, 9, 1, 1, 8, 10);
    let pixels = render_tile(&d, |x, y| (x, y));
    assert_eq!(pixels, vec![(7, 9)]);
}

#[test]
fn render_empty_tile_is_empty() {
    let d = tile(0, 0, 0, 3, 4, 4);
    let pixels = render_tile(&d, |x, y| x + y);
    assert_eq!(pixels.len(), 0);
}

#[test]
fn commit_writes_the_tile_and_nothing_else() {
    let d = tile(1, 0, 1, 2, 2, 2);
    let mut fb = vec![0u8; 4];
    commit_tile(&mut fb, &d, &vec![7u8, 9u8]);
    assert_eq!(fb, vec![0, 7, 0, 9]);
}

#[test]
fn commit_inner_tile() {
    let d = tile(1, 1, 2, 2, 4, 4);
    let mut fb: Vec<u32> = (100..116).collect();
    commit_tile(&mut fb, &d, &vec![1, 2, 3, 4]);
    assert_eq!(fb, vec![100, 101, 102, 103, 104, 1, 2, 107, 108, 3, 4, 111, 112, 113, 114, 115]);
}

#[test]
fn commit_whole_canvas_tile() {
    let d = tile(0, 0, 3, 2, 3, 2);
    let mut fb = vec![0.0f32; 6];
    commit_tile(&mut fb, &d, &vec![0.5, 1.5, 2.5, 3.5, 4.5, 5.5]);
    assert_eq!(fb, vec![0.5, 1.5, 2.5, 3.5, 4.5, 5.5]);
}

fn render_in_order(order: &[usize], w: usize, h: usize, tw: usize, th: usize) -> Vec<usize> {
    let tiles = partition(
        Vec2 { x: w, y: h },
        Vec2 { x: tw, y: th },
        1,
        Vec2 { x: 0.0f32, y: 0.0f32 },
        Vec2 { x: 1.0f32, y: 1.0f32 },
    );
    let mut fb = vec![usize::MAX; w * h];
    for &k in order.iter() {
        let pixels = render_tile(&tiles[k], |x, y| 1000 * y + x);
        commit_tile(&mut fb, &tiles[k], &pixels);
    }
    fb
}

#[test]
fn commit_order_does_not_change_the_framebuffer() {
    let a = render_in_order(&[0, 1, 2, 3, 4, 5], 5, 3, 2, 2);
    let b = render_in_order(&[5, 3, 1, 4, 2, 0], 5, 3, 2, 2);
    let c = render_in_order(&[2, 2, 0, 5, 1, 3, 4, 0], 5, 3, 2, 2);
    assert_eq!(a, b);
    assert_eq!(a, c);
    for y in 0..3 {
        for x in 0..5 {
            assert_eq!(a[y * 5 + x], 1000 * y + x);
        }
    }
}

#[test]
fn uncommitted_tiles_keep_the_old_content() {
    let fb = render_in_order(&[0, 3], 4, 4, 2, 2);
    let expected = vec![
        0, 1, usize::MAX, usize::MAX,
        1000, 1001, usize::MAX, usize::MAX,
        usize::MAX, usize::MAX, 2002, 2003,
        usize::MAX, usize::MAX, 3002, 3003,
    ];
    assert_eq!(fb, expected);
}
