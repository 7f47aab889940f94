use sim::boat::{Boat, Inert, PhysicsModel};
use sim::canvas::Canvas;
use sim::colors;
use sim::draw::Drawing;
use sim::environment::Environment;
use sim::renderer::Renderer;
use sim::scene::{NoGlyph, SceneComposer, SceneConfig, VesselRenderer};
use sim::vec2::Vec2;

const ONE: i64 = 65536;

/// A vessel shown as a filled hull triangle that points along x.
struct Hull;

impl VesselRenderer for Hull {
    // The model of a glyph serves proofs alone and is never run.
    fn drawn(&self, _before: Canvas, _boat: Boat, _env: Environment, _center: Vec2) -> Canvas {
        unreachable!()
    }

    fn draw_vessel<D: Drawing>(&self, target: &mut D, _boat: &Boat, _env: &Environment, center: Vec2) {
        target.draw_triangle(
            center.add(Vec2::new(15 * ONE, 0)),
            center.add(Vec2::new(-15 * ONE, -6 * ONE)),
            center.add(Vec2::new(-15 * ONE, 6 * ONE)),
            colors::HULL,
            true,
        );
    }
}

/// A vessel that drifts with the wind.
struct Drift;

impl PhysicsModel for Drift {
    // The model of a motion serves proofs alone and is never run.
    fn advanced(&self, _boat: Boat, _dt: i64, _env: Environment) -> Boat {
        unreachable!()
    }

    fn advance(&self, boat: &mut Boat, dt: i64, env: &Environment) {
        boat.vel = env.get_wind_at(boat.pos);
        boat.pos = boat.pos.add(boat.vel.scale(dt));
    }
}

#[test]
fn scene_without_glyph_is_the_wind_alone() {
    let boat = Boat::new(0, 0);
    let env = Environment::new();
    let mut plain = Renderer::new(320, 200);
    plain.draw_scene(&boat, &env);
    let mut explicit = Renderer::new(320, 200);
    SceneComposer::new(SceneConfig::standard()).compose(&mut explicit, &boat, &env, &NoGlyph);
    assert!(plain.buffer() == explicit.buffer());
    assert!(plain.buffer().iter().all(|&c| c == colors::BG || c == colors::WIND));
}

#[test]
fn glyph_is_drawn_last_at_the_center() {
    let boat = Boat::new(1234 * ONE, -777 * ONE);
    let env = Environment::new();
    let mut r = Renderer::new(320, 200);
    SceneComposer::new(SceneConfig::standard()).compose(&mut r, &boat, &env, &Hull);

    let mut want = Renderer::new(320, 200);
    want.draw_scene(&boat, &env);
    want.draw_triangle(
        Vec2::from_pixels(175, 100),
        Vec2::from_pixels(145, 94),
        Vec2::from_pixels(145, 106),
        colors::HULL,
        true,
    );
    assert!(r.buffer() == want.buffer());
    assert_eq!(r.buffer()[100 * 320 + 160], colors::HULL);
    assert_eq!(r.buffer()[100 * 320 + 175], colors::HULL);
    assert_eq!(r.buffer()[100 * 320 + 176], colors::BG);
}

#[test]
fn inert_vessel_stays_where_it_is() {
    let env = Environment::new();
    let mut boat = Boat::new(5 * ONE, 6 * ONE);
    boat.update_with(&Inert, ONE, &env);
    assert_eq!(boat.pos, Vec2::new(5 * ONE, 6 * ONE));
    assert_eq!(boat.vel, Vec2::new(0, 0));
    boat.update(ONE, &env);
    assert_eq!(boat.pos, Vec2::new(5 * ONE, 6 * ONE));
}

#[test]
fn physical_model_moves_the_vessel() {
    let env = Environment::new();
    let mut boat = Boat::new(0, 0);
    boat.update_with(&Drift, ONE / 2, &env);
    assert_eq!(boat.vel, Vec2::new(10 * ONE, 0));
    assert_eq!(boat.pos, Vec2::new(5 * ONE, 0));
}

#[test]
fn standard_setup_has_the_documented_values() {
    let cfg = SceneConfig::standard();
    assert_eq!(cfg.cull_margin, 100 * ONE);
    assert_eq!(cfg.grid_step, 50 * ONE);
    assert_eq!(cfg.background, colors::BG);
    assert_eq!(cfg.wind_color, colors::WIND);
    assert!(cfg.is_valid());
    assert_eq!(SceneComposer::new(cfg).config(), cfg);
}

#[test]
fn setup_without_step_or_with_negative_margin_is_not_valid() {
    let cfg = SceneConfig::standard();
    assert!(!SceneConfig { grid_step: 0, ..cfg }.is_valid());
    assert!(!SceneConfig { grid_step: -1, ..cfg }.is_valid());
    assert!(!SceneConfig { cull_margin: -1, ..cfg }.is_valid());
    assert!(!SceneConfig { cull_margin: i64::MAX, ..cfg }.is_valid());
    assert!(SceneConfig { cull_margin: 0, grid_step: 1, ..cfg }.is_valid());
    assert!(SceneConfig { cull_margin: 1 << 62, ..cfg }.is_valid());
}

#[test]
fn scene_follows_its_setup() {
    // Grid step 20, no margin, other colors, on a surface of 64 by 48: the
    // samples land at x = 32 + 20 gx and y = 24 + 20 gy and are kept from
    // 0 to 64 and from 0 to 48.
    let cfg = SceneConfig { cull_margin: 0, grid_step: 20 * ONE, background: 1, wind_color: 2 };
    let mut r = Renderer::new(64, 48);
    SceneComposer::new(cfg).compose(&mut r, &Boat::new(0, 0), &Environment::new(), &NoGlyph);

    let arrow: [(i32, i32); 18] = [
        (-5, 0), (-4, 0), (-3, 0), (-2, 0), (-1, 0), (0, 0), (1, 0), (2, 0), (3, 0),
        (4, 0), (5, 0), (4, -1), (3, -1), (2, -2), (1, -3), (3, 1), (2, 1), (1, 2),
    ];
    let mut want = vec![1u32; 64 * 48];
    let mut arrows = 0;
    for gx in -15..15 {
        for gy in -10..10 {
            let (x, y) = (32 + 20 * gx, 24 + 20 * gy);
            if x < 0 || x > 64 || y < 0 || y > 48 {
                continue;
            }
            arrows += 1;
            for (dx, dy) in arrow {
                let (px, py) = (x + dx, y + dy);
                if (0..64).contains(&px) && (0..48).contains(&py) {
                    want[(py * 64 + px) as usize] = 2;
                }
            }
        }
    }
    assert_eq!(arrows, 3 * 3);
    assert!(r.buffer() == &want[..]);
}

#[test]
fn scene_with_extreme_setup_does_not_overflow() {
    let cfg = SceneConfig {
        cull_margin: 1 << 62,
        grid_step: i64::MAX,
        background: 0,
        wind_color: 9,
    };
    let mut r = Renderer::new(16, 16);
    let boat = Boat::new(i64::MIN, i64::MAX);
    SceneComposer::new(cfg).compose(&mut r, &boat, &Environment::new(), &NoGlyph);
    assert_eq!(r.buffer().len(), 256);
}
