use sim::draw::Drawing;
use sim::renderer::Renderer;
use sim::vec2::Vec2;

const ONE: i64 = 65536;

fn at(x: i64, y: i64) -> Vec2 {
    Vec2::new(x * ONE, y * ONE)
}

#[test]
fn focus_projects_to_the_center() {
    let r = Renderer::new(1280, 720);
    for focus in [at(0, 0), at(12345, -678), Vec2::new(i64::MAX, i64::MIN), Vec2::new(7, -3)] {
        assert_eq!(r.world_to_screen(focus, focus), Some(at(640, 360)));
    }
}

#[test]
fn center_of_an_odd_surface_lies_between_pixels() {
    let r = Renderer::new(5, 3);
    assert_eq!(
        r.world_to_screen(at(0, 0), at(0, 0)),
        Some(Vec2::new(5 * ONE / 2, 3 * ONE / 2))
    );
}

#[test]
fn projection_is_a_translation() {
    let r = Renderer::new(1280, 720);
    let focus = at(1000, -2000);
    let p = Vec2::new(1010 * ONE + 17, -2100 * ONE - 5);
    let q = Vec2::new(700 * ONE - 9, -1900 * ONE + 123);
    let a = r.world_to_screen(p, focus).unwrap();
    let b = r.world_to_screen(q, focus).unwrap();
    assert_eq!(a.x - b.x, p.x - q.x);
    assert_eq!(a.y - b.y, p.y - q.y);
    assert_eq!(a, Vec2::new(650 * ONE + 17, 260 * ONE - 5));
}

#[test]
fn one_pixel_beyond_the_margin_is_culled() {
    let r = Renderer::new(1280, 720);
    let focus = at(50, 60);
    // Screen x = 1280 + 100 + 1.
    assert_eq!(r.world_to_screen(at(50 + 640 + 101, 60), focus), None);
    // Screen y = 720 + 100 + 1.
    assert_eq!(r.world_to_screen(at(50, 60 + 360 + 101), focus), None);
    // Screen x = -101 and screen y = -101.
    assert_eq!(r.world_to_screen(at(50 - 640 - 101, 60), focus), None);
    assert_eq!(r.world_to_screen(at(50, 60 - 360 - 101), focus), None);
}

#[test]
fn the_margin_itself_is_kept() {
    let r = Renderer::new(1280, 720);
    let focus = at(0, 0);
    assert_eq!(r.world_to_screen(at(640 + 100, 0), focus), Some(at(1380, 360)));
    assert_eq!(r.world_to_screen(at(-640 - 100, 0), focus), Some(at(-100, 360)));
    assert_eq!(r.world_to_screen(at(0, 360 + 100), focus), Some(at(640, 820)));
    assert_eq!(r.world_to_screen(at(0, -360 - 100), focus), Some(at(640, -100)));
    // The smallest step past it is culled.
    assert_eq!(r.world_to_screen(Vec2::new(740 * ONE + 1, 0), focus), None);
    assert_eq!(r.world_to_screen(Vec2::new(-740 * ONE - 1, 0), focus), None);
}

#[test]
fn far_away_positions_are_culled_without_overflow() {
    let r = Renderer::new(1280, 720);
    assert_eq!(
        r.world_to_screen(Vec2::new(i64::MAX, i64::MAX), Vec2::new(i64::MIN, i64::MIN)),
        None
    );
    assert_eq!(
        r.world_to_screen(Vec2::new(i64::MIN, 0), Vec2::new(i64::MAX, 0)),
        None
    );
}

#[test]
fn projection_leaves_the_buffer_alone() {
    let mut r = Renderer::new(4, 4);
    r.clear(3);
    let _ = r.world_to_screen(at(1, 1), at(0, 0));
    assert!(r.buffer().iter().all(|&c| c == 3));
}
