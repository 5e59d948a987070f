use fractal_tiles::math::Vec2;
use fractal_tiles::tile::partition;
use fractal_tiles::tile::ThreadDescryptor;

fn tiles_of(w: usize, h: usize, tw: usize, th: usize) -> Vec<ThreadDescryptor<f32>> {
    partition(
        Vec2 { x: w, y: h },
        Vec2 { x: tw, y: th },
        16,
        Vec2 { x: -0.75f32, y: 0.1f32 },
        Vec2 { x: 3.0f32, y: 2.0f32 },
    )
}

#[test]
fn descriptor_new_is_empty() {
    let d = ThreadDescryptor::new(Vec2 { x: 1.5f32, y: 2.5f32 }, Vec2 { x: 3.0f32, y: 4.0f32 });
    assert_eq!(d.offset, Vec2 { x: 0, y: 0 });
    assert_eq!(d.thread_size, Vec2 { x: 0, y: 0 });
    assert_eq!(d.color_buffer_size, Vec2 { x: 0, y: 0 });
    assert_eq!(d.sample_count, 0);
    assert_eq!(d.center, Vec2 { x: 1.5f32, y: 2.5f32 });
    assert_eq!(d.view_size, Vec2 { x: 3.0f32, y: 4.0f32 });
}

#[test]
fn partition_exact_multiple() {
    let tiles = tiles_of(4, 4, 2, 2);
    assert_eq!(tiles.len(), 4);
    let offsets: Vec<(usize, usize)> = tiles.iter().map(|t| (t.offset.x, t.offset.y)).collect();
    assert_eq!(offsets, vec![(0, 0), (2, 0), (0, 2), (2, 2)]);
    for t in tiles.iter() {
        assert_eq!(t.thread_size, Vec2 { x: 2, y: 2 });
        assert_eq!(t.color_buffer_size, Vec2 { x: 4, y: 4 });
        assert_eq!(t.sample_count, 16);
        assert_eq!(t.center, Vec2 { x: -0.75f32, y: 0.1f32 });
        assert_eq!(t.view_size, Vec2 { x: 3.0f32, y: 2.0f32 });
    }
}

#[test]
fn partition_is_row_major() {
    let tiles = tiles_of(5, 3, 2, 2);
    assert_eq!(tiles.len(), 6);
    let offsets: Vec<(usize, usize)> = tiles.iter().map(|t| (t.offset.x, t.offset.y)).collect();
    assert_eq!(offsets, vec![(0, 0), (2, 0), (4, 0), (0, 2), (2, 2), (4, 2)]);
    let sizes: Vec<(usize, usize)> =
        tiles.iter().map(|t| (t.thread_size.x, t.thread_size.y)).collect();
    assert_eq!(sizes, vec![(2, 2), (2, 2), (1, 2), (2, 1), (2, 1), (1, 1)]);
}

#[test]
fn boundary_tiles_have_the_remainder() {
    let tiles = tiles_of(1366, 768, 128, 128);
    assert_eq!(tiles.len(), 11 * 6);
    for (i, t) in tiles.iter().enumerate() {
        let tx = i % 11;
        let ty = i / 11;
        assert_eq!(t.offset, Vec2 { x: tx * 128, y: ty * 128 });
        let w = if tx == 10 { 1366 % 128 } else { 128 };
        assert_eq!(t.thread_size, Vec2 { x: w, y: 128 });
    }
    assert_eq!(1366 % 128, 86);
}

#[test]
fn partition_covers_every_pixel_once() {
    let cases = [(7usize, 5usize, 3usize, 2usize), (4, 4, 2, 2), (1, 1, 8, 8), (9, 2, 4, 5), (6, 6, 1, 1)];
    for &(w, h, tw, th) in cases.iter() {
        let tiles = tiles_of(w, h, tw, th);
        let mut hits = vec![0u32; w * h];
        for t in tiles.iter() {
            assert!(t.thread_size.x >= 1 && t.thread_size.y >= 1);
            assert!(t.offset.x + t.thread_size.x <= w);
            assert!(t.offset.y + t.thread_size.y <= h);
            for y in 0..t.thread_size.y {
                for x in 0..t.thread_size.x {
                    hits[(t.offset.y + y) * w + t.offset.x + x] += 1;
                }
            }
        }
        assert!(hits.iter().all(|&n| n == 1));
    }
}

#[test]
fn tile_larger_than_canvas_gives_one_tile() {
    let tiles = tiles_of(3, 2, 128, 128);
    assert_eq!(tiles.len(), 1);
    assert_eq!(tiles[0].offset, Vec2 { x: 0, y: 0 });
    assert_eq!(tiles[0].thread_size, Vec2 { x: 3, y: 2 });
}

#[test]
fn empty_canvas_has_no_tiles() {
    assert_eq!(tiles_of(0, 5, 2, 2).len(), 0);
    assert_eq!(tiles_of(5, 0, 2, 2).len(), 0);
}

fn placed(ox: usize, oy: usize, w: usize, h: usize, cw: usize, ch: usize) -> ThreadDescryptor<f32> {
    let mut d = ThreadDescryptor::new(Vec2 { x: 0.0f32, y: 0.0f32 }, Vec2 { x: 1.0f32, y: 1.0f32 });
    d.offset = Vec2 { x: ox, y: oy };
    d.thread_size = Vec2 { x: w, y: h };
    d.color_buffer_size = Vec2 { x: cw, y: ch };
    d
}

#[test]
fn fits_tells_tiles_inside_the_canvas() {
    assert!(placed(0, 0, 4, 4, 4, 4).fits());
    assert!(placed(2, 1, 2, 3, 4, 4).fits());
    assert!(placed(3, 3, 1, 1, 4, 4).fits());
    assert!(!placed(0, 0, 0, 1, 4, 4).fits());
    assert!(!placed(0, 0, 1, 0, 4, 4).fits());
    assert!(!placed(3, 0, 2, 1, 4, 4).fits());
    assert!(!placed(0, 4, 1, 1, 4, 4).fits());
    assert!(!placed(0, 0, 5, 1, 4, 4).fits());
    assert!(!placed(usize::MAX, 0, 1, 1, 4, 4).fits());
    assert!(!placed(1, 0, usize::MAX, 1, 4, 4).fits());
    assert!(!ThreadDescryptor::new(Vec2 { x: 0u8, y: 0u8 }, Vec2 { x: 0u8, y: 0u8 }).fits());
}

#[test]
fn every_tile_of_a_partition_fits() {
    for t in tiles_of(1366, 768, 128, 128).iter() {
        assert!(t.fits());
    }
    for t in tiles_of(7, 5, 3, 2).iter() {
        assert!(t.fits());
    }
}
