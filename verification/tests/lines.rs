use sim::draw::Drawing;
use sim::renderer::Renderer;
use sim::vec2::Vec2;

const INK: u32 = 0x446688;

fn px(x: i32, y: i32) -> Vec2 {
    Vec2::from_pixels(x, y)
}

/// Coordinates of all cells that hold `INK`, row by row.
fn inked(r: &Renderer) -> Vec<(i32, i32)> {
    let w = r.width();
    r.buffer()
        .iter()
        .enumerate()
        .filter(|(_, &c)| c == INK)
        .map(|(i, _)| ((i % w) as i32, (i / w) as i32))
        .collect()
}

fn sorted(mut v: Vec<(i32, i32)>) -> Vec<(i32, i32)> {
    v.sort_by_key(|&(x, y)| (y, x));
    v.dedup();
    v
}

/// The pixels of a line by plain error accumulation, for comparison.
fn stepwise(a: (i32, i32), b: (i32, i32)) -> Vec<(i32, i32)> {
    let (mut x0, mut y0) = a;
    let (x1, y1) = b;
    let dx = (x1 - x0).abs();
    let dy = (y1 - y0).abs();
    let sx = if x0 < x1 { 1 } else { -1 };
    let sy = if y0 < y1 { 1 } else { -1 };
    let mut err = dx - dy;
    let mut out = Vec::new();
    loop {
        out.push((x0, y0));
        if x0 == x1 && y0 == y1 {
            break;
        }
        let e2 = 2 * err;
        if e2 > -dy {
            err -= dy;
            x0 += sx;
        }
        if e2 < dx {
            err += dx;
            y0 += sy;
        }
    }
    out
}

fn drawn(a: Vec2, b: Vec2, w: usize, h: usize) -> Vec<(i32, i32)> {
    let mut r = Renderer::new(w, h);
    r.draw_line(a, b, INK);
    inked(&r)
}

#[test]
fn line_from_a_point_to_itself_is_one_pixel() {
    assert_eq!(drawn(px(3, 4), px(3, 4), 8, 8), vec![(3, 4)]);
    assert_eq!(drawn(px(0, 0), px(0, 0), 8, 8), vec![(0, 0)]);
}

#[test]
fn line_ends_are_cut_toward_zero() {
    // (2.75, 3.99) falls on pixel (2, 3).
    let p = Vec2::new(2 * 65536 + 49152, 3 * 65536 + 64880);
    assert_eq!(p.to_pixels(), (2, 3));
    assert_eq!(drawn(p, p, 8, 8), vec![(2, 3)]);
    // (-0.5, -0.99) falls on pixel (0, 0), not on (-1, -1).
    let q = Vec2::new(-32768, -64880);
    assert_eq!(q.to_pixels(), (0, 0));
    assert_eq!(drawn(q, q, 8, 8), vec![(0, 0)]);
    // (-1.5, 2.5) falls on pixel (-1, 2), off the surface.
    let o = Vec2::new(-98304, 163840);
    assert_eq!(o.to_pixels(), (-1, 2));
    assert_eq!(drawn(o, o, 8, 8), vec![]);
}

#[test]
fn shallow_line_has_exact_pixels() {
    assert_eq!(
        drawn(px(0, 0), px(5, 2), 8, 8),
        vec![(0, 0), (1, 0), (2, 1), (3, 1), (4, 2), (5, 2)]
    );
}

#[test]
fn steep_line_has_exact_pixels() {
    assert_eq!(
        sorted(drawn(px(1, 6), px(3, 1), 8, 8)),
        sorted(vec![(1, 6), (1, 5), (2, 4), (2, 3), (3, 2), (3, 1)])
    );
}

#[test]
fn horizontal_vertical_and_diagonal_lines() {
    assert_eq!(drawn(px(1, 2), px(4, 2), 6, 6), vec![(1, 2), (2, 2), (3, 2), (4, 2)]);
    assert_eq!(drawn(px(4, 2), px(1, 2), 6, 6), vec![(1, 2), (2, 2), (3, 2), (4, 2)]);
    assert_eq!(drawn(px(2, 0), px(2, 3), 6, 6), vec![(2, 0), (2, 1), (2, 2), (2, 3)]);
    assert_eq!(drawn(px(0, 0), px(3, 3), 6, 6), vec![(0, 0), (1, 1), (2, 2), (3, 3)]);
    assert_eq!(drawn(px(3, 0), px(0, 3), 6, 6), vec![(3, 0), (2, 1), (1, 2), (0, 3)]);
}

#[test]
fn line_without_midway_point_is_the_same_from_both_ends() {
    for (a, b) in [
        ((0, 0), (3, 1)),
        ((0, 0), (5, 2)),
        ((1, 7), (4, 0)),
        ((9, 9), (0, 6)),
        ((2, 3), (2, 9)),
        ((0, 0), (9, 9)),
        ((7, 1), (2, 4)),
    ] {
        let forward = sorted(drawn(px(a.0, a.1), px(b.0, b.1), 10, 10));
        let backward = sorted(drawn(px(b.0, b.1), px(a.0, a.1), 10, 10));
        assert_eq!(forward, backward, "{:?} to {:?}", a, b);
    }
}

#[test]
fn line_through_a_midway_point_depends_on_its_direction() {
    // After one step the ideal line from (0,0) to (2,1) stands at height
    // 0.5, midway between two pixels: each direction keeps to its own side.
    assert_eq!(drawn(px(0, 0), px(2, 1), 4, 4), vec![(0, 0), (1, 0), (2, 1)]);
    assert_eq!(drawn(px(2, 1), px(0, 0), 4, 4), vec![(0, 0), (1, 1), (2, 1)]);
}

#[test]
fn lines_agree_with_stepwise_error_accumulation() {
    let ends = [-3, 0, 1, 4, 7, 11, 15, 18];
    for &ax in &ends {
        for &ay in &ends {
            for &bx in &ends {
                for &by in &ends {
                    let got = sorted(drawn(px(ax, ay), px(bx, by), 16, 16));
                    let want = sorted(
                        stepwise((ax, ay), (bx, by))
                            .into_iter()
                            .filter(|&(x, y)| (0..16).contains(&x) && (0..16).contains(&y))
                            .collect(),
                    );
                    assert_eq!(got, want, "({ax},{ay}) to ({bx},{by})");
                }
            }
        }
    }
}

#[test]
fn line_is_clipped_pixel_by_pixel() {
    // Only the part on the surface is written; nothing wraps around.
    assert_eq!(drawn(px(-3, 1), px(2, 1), 4, 3), vec![(0, 1), (1, 1), (2, 1)]);
    assert_eq!(drawn(px(2, -2), px(2, 5), 4, 3), vec![(2, 0), (2, 1), (2, 2)]);
    assert_eq!(drawn(px(-5, -5), px(-1, -2), 4, 3), vec![]);
    assert_eq!(drawn(px(10, 0), px(10, 2), 4, 3), vec![]);
}

#[test]
fn line_keeps_what_it_does_not_cover() {
    let mut r = Renderer::new(4, 4);
    r.clear(5);
    r.draw_line(px(0, 0), px(3, 0), INK);
    let mut expected = vec![5u32; 16];
    for x in 0..4 {
        expected[x] = INK;
    }
    assert_eq!(r.buffer(), &expected[..]);
}

#[test]
fn line_from_far_outside_ends_on_the_surface() {
    // 70000 steps, of which the last four are visible.
    assert_eq!(
        drawn(px(-69996, 1), px(3, 1), 4, 3),
        vec![(0, 1), (1, 1), (2, 1), (3, 1)]
    );
}
