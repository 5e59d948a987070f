use fractal_tiles::config::RenderConfig;
use fractal_tiles::coordinator::Action;
use fractal_tiles::coordinator::Coordinator;
use fractal_tiles::coordinator::Slot;
use fractal_tiles::framebuffer::commit_tile;
use fractal_tiles::framebuffer::render_tile;
use fractal_tiles::image::encode_image;
use fractal_tiles::image::Rgba8;
use fractal_tiles::math::Vec2;
use fractal_tiles::palette::palette_color;
use fractal_tiles::tile::ThreadDescryptor;

type Color = [f32; 4];

const BLACK: Color = [0.0, 0.0, 0.0, 1.0];
const WHITE: Color = [1.0, 1.0, 1.0, 1.0];

fn escape_time(cr: f32, ci: f32, max_iterations: u32, max_length: f32) -> u32 {
    let mut zr = 0.0f32;
    let mut zi = 0.0f32;
    let mut iterations = 0u32;
    while (zr * zr + zi * zi).sqrt() <= max_length && iterations < max_iterations {
        let r = zr * zr - zi * zi + cr;
        let i = 2.0 * zr * zi + ci;
        zr = r;
        zi = i;
        iterations += 1;
    }
    iterations
}

/// One sample at the pixel's own position, without jitter.
fn sample(cfg: &RenderConfig<f32>, palette: &[Color], desc: &ThreadDescryptor<f32>, x: usize, y: usize) -> Color {
    let nx = (x as f32) / (desc.color_buffer_size.x as f32) * 2.0 - 1.0;
    let ny = (y as f32) / (desc.color_buffer_size.y as f32) * 2.0 - 1.0;
    let cr = desc.center.x + nx * desc.view_size.x / 2.0;
    let ci = desc.center.y + ny * desc.view_size.y / 2.0;
    palette_color(palette, escape_time(cr, ci, cfg.max_iterations, cfg.max_length))
}

fn render(cfg: &RenderConfig<f32>, palette: &[Color]) -> (Vec<Color>, usize) {
    let tiles = cfg.tiles().unwrap();
    let mut fb = vec![[0.0f32; 4]; cfg.pixel_count().unwrap()];
    let mut pool = Coordinator::new(tiles.len(), cfg.thread_count).unwrap();
    let mut pending: Vec<(usize, Vec<Color>, usize)> = Vec::new();
    for slot in 0..pool.slot_count() {
        if let Some(Slot::Running(t)) = pool.slot(slot) {
            pending.push((slot, render_tile(&tiles[t], |x, y| sample(cfg, palette, &tiles[t], x, y)), t));
        }
    }
    let mut signals = 0usize;
    while !pool.is_finished() {
        let (slot, pixels, t) = pending.pop().unwrap();
        commit_tile(&mut fb, &tiles[t], &pixels);
        assert!(pool.can_complete(slot));
        signals += 1;
        if let Action::Dispatch(next) = pool.on_completion(slot) {
            let rendered = render_tile(&tiles[next], |x, y| sample(cfg, palette, &tiles[next], x, y));
            pending.push((slot, rendered, next));
        }
    }
    assert!(pending.is_empty());
    (fb, signals)
}

fn small(max_iterations: u32, thread_count: usize) -> RenderConfig<f32> {
    RenderConfig {
        buffer_size: Vec2 { x: 4, y: 4 },
        thread_size: Vec2 { x: 2, y: 2 },
        thread_count,
        sample_count: 1,
        center: Vec2 { x: 0.0, y: 0.0 },
        view_size: Vec2 { x: 4.0, y: 4.0 },
        max_iterations,
        max_length: 2.0,
        palette_size: 2,
    }
}

#[test]
fn end_to_end_four_by_four() {
    let palette = [BLACK, WHITE];
    let (fb, signals) = render(&small(1, 1), &palette);
    assert_eq!(signals, 4);
    // With one iteration allowed the loop takes its one step from zero for every
    // point of the plane, so every pixel maps to palette slot 1.
    assert_eq!(fb, vec![WHITE; 16]);
}

#[test]
fn end_to_end_two_iterations() {
    let palette = [BLACK, WHITE];
    let (fb, signals) = render(&small(2, 1), &palette);
    assert_eq!(signals, 4);
    // Pixel (x, y) shows c = (x - 2) + (y - 2)i. After the first step z = c;
    // the second step is taken exactly where |c| <= 2, giving slot 0, else slot 1.
    let mut expected = Vec::new();
    for y in 0..4i32 {
        for x in 0..4i32 {
            let (cr, ci) = (x - 2, y - 2);
            expected.push(if cr * cr + ci * ci <= 4 { BLACK } else { WHITE });
        }
    }
    assert_eq!(fb, expected);
    assert_eq!(fb[0], WHITE);
    assert_eq!(fb[1], WHITE);
    assert_eq!(fb[2], BLACK);
    assert_eq!(fb[5], BLACK);
    assert_eq!(fb[10], BLACK);
}

#[test]
fn worker_count_does_not_change_the_image() {
    let palette = [BLACK, WHITE];
    let (one, s1) = render(&small(2, 1), &palette);
    let (two, s2) = render(&small(2, 2), &palette);
    let (many, s3) = render(&small(2, 9), &palette);
    assert_eq!((s1, s2, s3), (4, 4, 4));
    assert_eq!(one, two);
    assert_eq!(one, many);
}

#[test]
fn rendered_image_is_encoded() {
    let palette = [BLACK, WHITE];
    let (fb, _) = render(&small(2, 2), &palette);
    let bytes: Vec<Rgba8> = fb
        .iter()
        .map(|c| Rgba8 {
            r: (c[0] * 255.0).round() as u8,
            g: (c[1] * 255.0).round() as u8,
            b: (c[2] * 255.0).round() as u8,
            a: (c[3] * 255.0).round() as u8,
        })
        .collect();
    let file = encode_image(&bytes, 4, 4).unwrap();
    let (info, mut reader) = png::Decoder::new(&file[..]).read_info().unwrap();
    let mut data = vec![0u8; info.buffer_size()];
    reader.next_frame(&mut data).unwrap();
    assert_eq!(&data[..4], &[255u8, 255, 255, 255]);
    assert_eq!(&data[8..12], &[0u8, 0, 0, 255]);
}
