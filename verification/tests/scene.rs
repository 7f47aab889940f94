use sim::boat::Boat;
use sim::colors;
use sim::draw::Drawing;
use sim::environment::Environment;
use sim::renderer::Renderer;
use sim::scene::{NoGlyph, SceneComposer, SceneConfig};
use sim::vec2::Vec2;

const ONE: i64 = 65536;
const WIDTH: usize = 1280;
const HEIGHT: usize = 720;

/// The pixels of an arrow of length 10 along the x axis, relative to the
/// pixel of its center: the shaft, and two barbs that leave the tip at
/// (5, 0) and end at (1, -3) and (1, 2).
const ARROW: [(i32, i32); 18] = [
    (-5, 0),
    (-4, 0),
    (-3, 0),
    (-2, 0),
    (-1, 0),
    (0, 0),
    (1, 0),
    (2, 0),
    (3, 0),
    (4, 0),
    (5, 0),
    (4, -1),
    (3, -1),
    (2, -2),
    (1, -3),
    (3, 1),
    (2, 1),
    (1, 2),
];

fn put(buffer: &mut [u32], x: i32, y: i32, color: u32) {
    if x >= 0 && y >= 0 && (x as usize) < WIDTH && (y as usize) < HEIGHT {
        buffer[y as usize * WIDTH + x as usize] = color;
    }
}

/// The frame expected for a camera at `(cx, cy)` world units, and the number
/// of sample points that are not culled.
fn expected_frame(cx: i64, cy: i64) -> (Vec<u32>, usize) {
    let mut buffer = vec![colors::BG; WIDTH * HEIGHT];
    let mut arrows = 0;
    let start_x = cx.div_euclid(50) * 50;
    let start_y = cy.div_euclid(50) * 50;
    for gx in -15..15 {
        for gy in -10..10 {
            let sx = start_x + gx * 50 - cx + 640;
            let sy = start_y + gy * 50 - cy + 360;
            if sx < -100 || sx > 1380 || sy < -100 || sy > 820 {
                continue;
            }
            arrows += 1;
            for (dx, dy) in ARROW {
                put(&mut buffer, sx as i32 + dx, sy as i32 + dy, colors::WIND);
            }
        }
    }
    (buffer, arrows)
}

#[test]
fn palette_is_24_bit_rgb() {
    assert_eq!(colors::WIND, 0x446688);
    assert_eq!(colors::BG, 0x203050);
    assert_eq!(colors::WINDEX, 0xFFA500);
    assert_eq!(colors::HULL, 0xAAAAAA);
    assert_eq!(colors::SAIL, 0xFFFFFF);
    assert_eq!(colors::RUDDER, 0x882222);
    for c in [colors::WIND, colors::BG, colors::WINDEX, colors::HULL, colors::SAIL, colors::RUDDER] {
        assert_eq!(c >> 24, 0);
    }
}

#[test]
fn scene_at_the_origin_shows_one_arrow_per_visible_sample() {
    let mut r = Renderer::new(WIDTH, HEIGHT);
    let boat = Boat::new(0, 0);
    let env = Environment::new();
    r.draw_scene(&boat, &env);

    // Columns -14..15 and rows -9..10 of the grid survive the cull.
    let mut visible = 0;
    for gx in -15..15i64 {
        for gy in -10..10i64 {
            let world = Vec2::new(gx * 50 * ONE, gy * 50 * ONE);
            if let Some(p) = r.world_to_screen(world, boat.pos) {
                visible += 1;
                // The shaft lies on the horizontal line through the sample.
                let (x, y) = p.to_pixels();
                assert_eq!(p, Vec2::new((gx * 50 + 640) * ONE, (gy * 50 + 360) * ONE));
                for end in [x - 5, x + 5] {
                    if (0..WIDTH as i32).contains(&end) && (0..HEIGHT as i32).contains(&y) {
                        assert_eq!(r.buffer()[y as usize * WIDTH + end as usize], colors::WIND);
                    }
                }
            }
        }
    }
    assert_eq!(visible, 29 * 19);

    let (want, arrows) = expected_frame(0, 0);
    assert_eq!(arrows, visible);
    assert!(r.buffer() == &want[..]);

    // Arrows are 50 pixels apart and do not touch: each tip that is well
    // inside the buffer marks one arrow.
    let wind_pixels = r.buffer().iter().filter(|&&c| c == colors::WIND).count();
    let background = r.buffer().iter().filter(|&&c| c == colors::BG).count();
    assert_eq!(wind_pixels + background, WIDTH * HEIGHT);
    // 26 columns (x = 0 ..= 1250) by 15 rows (y = 10 ..= 710) lie on the
    // buffer; of column x = 0 only the forward half shows.
    let inside_columns = (-14..15).filter(|gx| (5..1275).contains(&(gx * 50 + 640))).count();
    let inside_rows = (-9..10).filter(|gy| (3..717).contains(&(gy * 50 + 360))).count();
    assert_eq!(inside_columns, 25);
    assert_eq!(inside_rows, 15);
    assert!(wind_pixels >= inside_columns * inside_rows * ARROW.len());
}

#[test]
fn scene_overwrites_the_previous_frame() {
    let mut r = Renderer::new(WIDTH, HEIGHT);
    r.clear(0xABCDEF);
    r.draw_line(Vec2::from_pixels(0, 0), Vec2::from_pixels(1279, 719), 0x111111);
    r.draw_scene(&Boat::new(0, 0), &Environment::new());
    let (want, _) = expected_frame(0, 0);
    assert!(r.buffer() == &want[..]);
}

#[test]
fn grid_is_snapped_down_to_the_step() {
    // The camera at (73, -20) sees the grid shifted by (-23, -30).
    let mut r = Renderer::new(WIDTH, HEIGHT);
    r.draw_scene(&Boat::new(73 * ONE, -20 * ONE), &Environment::new());
    let (want, arrows) = expected_frame(73, -20);
    assert!(r.buffer() == &want[..]);
    // Sample columns at x = 617 + 50 gx: gx = -14 ..= 14; rows at
    // y = 330 + 50 gy: gy = -8 ..= 9.
    assert_eq!(arrows, 29 * 18);
    assert_eq!(r.buffer()[330 * WIDTH + 617], colors::WIND);
    assert_eq!(r.buffer()[330 * WIDTH + 618], colors::WIND);
    assert_eq!(r.buffer()[331 * WIDTH + 617], colors::BG);
}

#[test]
fn grid_follows_a_camera_at_negative_positions() {
    let mut r = Renderer::new(WIDTH, HEIGHT);
    r.draw_scene(&Boat::new(-1 * ONE, -49 * ONE), &Environment::new());
    let (want, _) = expected_frame(-1, -49);
    assert!(r.buffer() == &want[..]);
}

#[test]
fn arrow_length_is_the_strength_of_the_wind() {
    // A wind of 10 along x gives a shaft of 10 pixels, five to each side of
    // the sample: not more, though the wind has no y part to add.
    let mut r = Renderer::new(WIDTH, HEIGHT);
    r.draw_scene(&Boat::new(0, 0), &Environment::new());
    let row = &r.buffer()[360 * WIDTH..361 * WIDTH];
    assert_eq!(row[634], colors::BG);
    for x in 635..=645 {
        assert_eq!(row[x], colors::WIND);
    }
    assert_eq!(row[646], colors::BG);
}

#[test]
fn scene_on_a_small_buffer_is_clipped() {
    let mut r = Renderer::new(7, 5);
    r.draw_scene(&Boat::new(0, 0), &Environment::new());
    // The center is (3.5, 2.5); the sample at the camera lands on pixel
    // (3, 2), its shaft fills row 2, and the barbs show at the right.
    let mut want = vec![colors::BG; 35];
    let mut dot = |x: i32, y: i32| {
        if (0..7).contains(&x) && (0..5).contains(&y) {
            want[(y * 7 + x) as usize] = colors::WIND;
        }
    };
    // Shaft from (-1.5, 2.5) to (8.5, 2.5): pixels -1 ..= 8 of row 2.
    for x in -1..=8 {
        dot(x, 2);
    }
    // Barbs from the tip's pixel (8, 2) to (5.2, 0.24) and (5.2, 4.76):
    // pixels (5, 0) and (5, 4).
    for (x, y) in [(7, 1), (6, 1), (5, 0), (7, 3), (6, 3), (5, 4)] {
        dot(x, y);
    }
    // Neighbouring samples lie 50 pixels away; the barbs of the one to the
    // left end at x = -45.
    assert_eq!(r.buffer(), &want[..]);
}

#[test]
fn scene_on_an_empty_buffer_draws_nothing() {
    let mut r = Renderer::new(0, 0);
    r.draw_scene(&Boat::new(0, 0), &Environment::new());
    assert_eq!(r.buffer().len(), 0);
}

/// A frame of 64 by 48 pixels that shows the one sample at the camera, for
/// the given wind in units.
fn single_arrow(wind: (i64, i64)) -> Renderer {
    let cfg = SceneConfig { grid_step: 1000 * ONE, ..SceneConfig::standard() };
    let mut env = Environment::new();
    env.wind = Vec2::new(wind.0 * ONE, wind.1 * ONE);
    let mut r = Renderer::new(64, 48);
    SceneComposer::new(cfg).compose(&mut r, &Boat::new(0, 0), &env, &NoGlyph);
    r
}

fn wind_pixels(r: &Renderer) -> Vec<(i32, i32)> {
    let w = r.width();
    r.buffer()
        .iter()
        .enumerate()
        .filter(|(_, &c)| c == colors::WIND)
        .map(|(i, _)| ((i % w) as i32, (i / w) as i32))
        .collect()
}

#[test]
fn still_air_shows_no_arrow() {
    let r = single_arrow((0, 0));
    assert!(r.buffer().iter().all(|&c| c == colors::BG));
}

#[test]
fn arrow_points_where_the_wind_blows() {
    // Wind down the y axis: the shaft runs from 5 above the sample at
    // (32, 24) to 5 below it; the barbs end at (34.26, 25.70) and
    // (29.74, 25.70).
    let r = single_arrow((0, 10));
    let mut want = vec![];
    for y in 19..=29 {
        want.push((32, y));
    }
    want.extend([(32, 28), (33, 27), (33, 26), (34, 25)]);
    want.extend([(31, 28), (31, 27), (30, 26), (29, 25)]);
    want.sort_by_key(|&(x, y)| (y, x));
    want.dedup();
    assert_eq!(wind_pixels(&r), want);
}

#[test]
fn arrow_is_as_long_as_the_wind_is_strong() {
    // A wind of (30, 40) has strength 50, counting both of its parts: the
    // shaft reaches 25 to each side of the sample along (0.6, 0.8), from
    // (17.0002, 4.0003) to (46.9998, 43.9997). The barbs end at
    // (46.83, 40.00) and (43.21, 42.71).
    let r = single_arrow((30, 40));
    let mut want = Renderer::new(64, 48);
    want.clear(colors::BG);
    want.draw_line(Vec2::from_pixels(17, 4), Vec2::from_pixels(46, 43), colors::WIND);
    want.draw_line(Vec2::from_pixels(46, 43), Vec2::from_pixels(46, 40), colors::WIND);
    want.draw_line(Vec2::from_pixels(46, 43), Vec2::from_pixels(43, 42), colors::WIND);
    assert_eq!(wind_pixels(&r), wind_pixels(&want));
    assert_eq!(r.buffer()[4 * 64 + 17], colors::WIND);
    assert_eq!(r.buffer()[43 * 64 + 46], colors::WIND);
    assert_eq!(r.buffer()[24 * 64 + 32], colors::WIND);
}

#[test]
fn wind_against_the_axes_turns_the_arrow_around() {
    // Wind of 10 against x: the tip lies at (27, 24), the barbs end at
    // (30.30, 26.26) and (30.30, 21.74).
    let r = single_arrow((-10, 0));
    let mut want = vec![];
    for x in 27..=37 {
        want.push((x, 24));
    }
    want.extend([(28, 25), (29, 25), (30, 26)]);
    want.extend([(28, 23), (29, 22), (30, 21)]);
    want.sort_by_key(|&(x, y)| (y, x));
    want.dedup();
    assert_eq!(wind_pixels(&r), want);
}
