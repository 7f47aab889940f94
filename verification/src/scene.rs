//! What a frame shows: the wind over a grid of sample points around the
//! camera, and the vessel.

use crate::boat::Boat;
use crate::canvas::{lemma_paint_empty, lemma_paint_union, lemma_paint_wf, Canvas};
use crate::colors;
use crate::draw::Drawing;
use crate::environment::Environment;
use crate::fixed::{saturate, saturate_i128, snap_down, snap_down_spec};
use crate::projection::{
    lemma_focus_projects_to_center, project_point, project_within, screen_center, CULL_MARGIN,
    MAX_MARGIN,
};
use crate::shapes::arrow_pixels;
use crate::vec2::Vec2;
use vstd::prelude::*;

verus! {

/// Distance between neighbouring sample points of the wind, unless a scene
/// is set up otherwise: 50 units.
pub const GRID_STEP: i64 = 50 * 65536;

/// The grid reaches from column `GRID_LEFT` up to, not including, column
/// `GRID_RIGHT`, counted from the grid point below the camera.
pub const GRID_LEFT: i64 = -15;

pub const GRID_RIGHT: i64 = 15;

/// The grid reaches from row `GRID_TOP` up to, not including, row
/// `GRID_BOTTOM`.
pub const GRID_TOP: i64 = -10;

pub const GRID_BOTTOM: i64 = 10;

/// What a scene is set up with.
#[derive(Clone, Copy, Debug, PartialEq, Eq, Structural)]
pub struct SceneConfig {
    /// How far outside the surface a sample point may lie and still get its
    /// arrow.
    pub cull_margin: i64,
    /// Distance between neighbouring sample points.
    pub grid_step: i64,
    /// The color that a frame is cleared to.
    pub background: u32,
    /// The color of the wind arrows.
    pub wind_color: u32,
}

impl SceneConfig {
    /// The margin is a distance that a projection accepts, and the grid has
    /// a step.
    pub open spec fn wf(self) -> bool {
        &&& 0 <= self.cull_margin <= MAX_MARGIN
        &&& self.grid_step > 0
    }

    /// The setup of the simulation.
    pub open spec fn standard_spec() -> SceneConfig {
        SceneConfig {
            cull_margin: CULL_MARGIN,
            grid_step: GRID_STEP,
            background: colors::BG,
            wind_color: colors::WIND,
        }
    }

    /// Whether a composer can be made with this setup.
    pub fn is_valid(&self) -> (ok: bool)
        ensures
            ok == self.wf(),
    {
        0 <= self.cull_margin && self.cull_margin <= MAX_MARGIN && self.grid_step > 0
    }

    /// The setup of the simulation: a margin of 100 pixels, a grid step of
    /// 50 units, and the palette's background and wind colors.
    pub fn standard() -> (cfg: Self)
        ensures
            cfg.wf(),
            cfg == Self::standard_spec(),
    {
        SceneConfig {
            cull_margin: CULL_MARGIN,
            grid_step: GRID_STEP,
            background: colors::BG,
            wind_color: colors::WIND,
        }
    }
}

/// The sample point in column `gx` and row `gy` of the grid around `camera`.
/// Column 0 and row 0 meet at the camera's position, each coordinate snapped
/// down to a multiple of the grid step.
pub open spec fn grid_point(cfg: SceneConfig, camera: Vec2, gx: int, gy: int) -> Vec2 {
    Vec2 {
        x: saturate(
            snap_down_spec(camera.x as int, cfg.grid_step as int) + gx * cfg.grid_step,
        ) as i64,
        y: saturate(
            snap_down_spec(camera.y as int, cfg.grid_step as int) + gy * cfg.grid_step,
        ) as i64,
    }
}

/// The pixels of the arrow that shows `wind` at the surface position `at`:
/// it points where the wind blows and is as long as the wind is strong. Still
/// air has no direction and shows no arrow.
pub open spec fn wind_arrow_pixels(at: Vec2, wind: Vec2) -> Set<(int, int)> {
    match wind.direction_spec() {
        Some(dir) => arrow_pixels(at, dir, wind.length_spec() as i64),
        None => Set::empty(),
    }
}

/// The pixels of the wind arrow at one sample point; none if the point is
/// culled.
pub open spec fn cell_pixels(
    cfg: SceneConfig,
    camera: Vec2,
    env: Environment,
    width: nat,
    height: nat,
    gx: int,
    gy: int,
) -> Set<(int, int)> {
    let world = grid_point(cfg, camera, gx, gy);
    match project_within(world, camera, width, height, cfg.cull_margin as int) {
        Some(at) => wind_arrow_pixels(at, env.wind_at(world)),
        None => Set::empty(),
    }
}

/// Whether the sample point `(gx, gy)` belongs to the grid and is visited
/// before `(cx, cy)`. The grid is walked column by column.
pub open spec fn visited_before(gx: int, gy: int, cx: int, cy: int) -> bool {
    &&& GRID_LEFT <= gx < GRID_RIGHT
    &&& GRID_TOP <= gy < GRID_BOTTOM
    &&& (gx < cx || (gx == cx && gy < cy))
}

/// The arrows of all sample points visited before `(cx, cy)`.
pub open spec fn arrows_before(
    cfg: SceneConfig,
    camera: Vec2,
    env: Environment,
    width: nat,
    height: nat,
    cx: int,
    cy: int,
) -> Set<(int, int)> {
    Set::new(
        |p: (int, int)|
            exists|gx: int, gy: int|
                visited_before(gx, gy, cx, cy) && (#[trigger] cell_pixels(
                    cfg,
                    camera,
                    env,
                    width,
                    height,
                    gx,
                    gy,
                )).contains(p),
    )
}

/// The arrows of the whole grid: one for each sample point that is not
/// culled.
pub open spec fn wind_field_pixels(
    cfg: SceneConfig,
    camera: Vec2,
    env: Environment,
    width: nat,
    height: nat,
) -> Set<(int, int)> {
    arrows_before(cfg, camera, env, width, height, GRID_RIGHT as int, GRID_TOP as int)
}

/// The frame before the vessel is drawn: the background color and on it the
/// wind arrows of the grid around `camera`.
pub open spec fn wind_scene(
    cfg: SceneConfig,
    before: Canvas,
    camera: Vec2,
    env: Environment,
) -> Canvas {
    before.fill(cfg.background).paint(
        wind_field_pixels(cfg, camera, env, before.width, before.height),
        cfg.wind_color,
    )
}

/// The center of a surface, where the camera's focus is drawn.
pub open spec fn center_of(c: Canvas) -> Vec2 {
    Vec2 {
        x: screen_center(c.width, c.height).0 as i64,
        y: screen_center(c.width, c.height).1 as i64,
    }
}

/// Visiting one more sample point adds its arrow.
proof fn lemma_arrows_step(
    cfg: SceneConfig,
    camera: Vec2,
    env: Environment,
    width: nat,
    height: nat,
    cx: int,
    cy: int,
)
    requires
        GRID_LEFT <= cx < GRID_RIGHT,
        GRID_TOP <= cy < GRID_BOTTOM,
    ensures
        arrows_before(cfg, camera, env, width, height, cx, cy + 1) == arrows_before(
            cfg,
            camera,
            env,
            width,
            height,
            cx,
            cy,
        ).union(cell_pixels(cfg, camera, env, width, height, cx, cy)),
{
    let big = arrows_before(cfg, camera, env, width, height, cx, cy + 1);
    let small = arrows_before(cfg, camera, env, width, height, cx, cy).union(
        cell_pixels(cfg, camera, env, width, height, cx, cy),
    );
    assert forall|p: (int, int)| big.contains(p) <==> small.contains(p) by {
        if big.contains(p) {
            let (gx, gy) = choose|gx: int, gy: int|
                visited_before(gx, gy, cx, cy + 1) && (#[trigger] cell_pixels(
                    cfg,
                    camera,
                    env,
                    width,
                    height,
                    gx,
                    gy,
                )).contains(p);
            if gx == cx && gy == cy {
            } else {
                assert(visited_before(gx, gy, cx, cy));
            }
        }
        if small.contains(p) {
            if cell_pixels(cfg, camera, env, width, height, cx, cy).contains(p) {
                assert(visited_before(cx, cy, cx, cy + 1));
            } else {
                let (gx, gy) = choose|gx: int, gy: int|
                    visited_before(gx, gy, cx, cy) && (#[trigger] cell_pixels(
                        cfg,
                        camera,
                        env,
                        width,
                        height,
                        gx,
                        gy,
                    )).contains(p);
                assert(visited_before(gx, gy, cx, cy + 1));
            }
        }
    }
    assert(big =~= small);
}

/// The end of one column is the beginning of the next, and before the first
/// sample point nothing is drawn.
proof fn lemma_arrows_column(
    cfg: SceneConfig,
    camera: Vec2,
    env: Environment,
    width: nat,
    height: nat,
    cx: int,
)
    ensures
        arrows_before(cfg, camera, env, width, height, cx, GRID_BOTTOM as int) == arrows_before(
            cfg,
            camera,
            env,
            width,
            height,
            cx + 1,
            GRID_TOP as int,
        ),
        arrows_before(cfg, camera, env, width, height, GRID_LEFT as int, GRID_TOP as int) == Set::<
            (int, int),
        >::empty(),
{
    assert(arrows_before(cfg, camera, env, width, height, cx, GRID_BOTTOM as int) =~= arrows_before(
        cfg,
        camera,
        env,
        width,
        height,
        cx + 1,
        GRID_TOP as int,
    ));
    assert(arrows_before(cfg, camera, env, width, height, GRID_LEFT as int, GRID_TOP as int)
        =~= Set::<(int, int)>::empty());
}

/// How the vessel is shown: hull, sail and rudder, drawn around the place
/// of the vessel on the surface.
pub trait VesselRenderer {
    /// What the surface shows once the vessel is drawn on `before`.
    spec fn drawn(&self, before: Canvas, boat: Boat, env: Environment, center: Vec2) -> Canvas;

    /// Draws the vessel around `center`.
    fn draw_vessel<D: Drawing>(&self, target: &mut D, boat: &Boat, env: &Environment, center: Vec2)
        requires
            old(target)@.wf(),
        ensures
            final(target)@.wf(),
            final(target)@ == self.drawn(old(target)@, *boat, *env, center),
    ;
}

/// The glyph of a vessel that does not show.
pub struct NoGlyph;

impl VesselRenderer for NoGlyph {
    open spec fn drawn(&self, before: Canvas, boat: Boat, env: Environment, center: Vec2) -> Canvas {
        before
    }

    fn draw_vessel<D: Drawing>(&self, target: &mut D, boat: &Boat, env: &Environment, center: Vec2) {
    }
}

/// Composes frames from a setup that is fixed when the composer is made.
pub struct SceneComposer {
    config: SceneConfig,
}

impl View for SceneComposer {
    type V = SceneConfig;

    closed spec fn view(&self) -> SceneConfig {
        self.config
    }
}

impl SceneComposer {
    #[verifier::type_invariant]
    spec fn valid(self) -> bool {
        self.config.wf()
    }

    /// A composer with the given setup.
    pub fn new(config: SceneConfig) -> (composer: Self)
        requires
            config.wf(),
        ensures
            composer@ == config,
    {
        SceneComposer { config }
    }

    /// The setup that the composer was made with.
    pub fn config(&self) -> (cfg: SceneConfig)
        ensures
            cfg == self@,
            cfg.wf(),
    {
        proof {
            use_type_invariant(self);
        }
        self.config
    }

    /// Draws one frame on `target`: clears it to the background color, then
    /// shows the wind at each sample point of the grid around the vessel,
    /// which the camera follows, and last the vessel itself, as `vessel`
    /// draws it.
    pub fn compose<D: Drawing, V: VesselRenderer>(
        &self,
        target: &mut D,
        boat: &Boat,
        env: &Environment,
        vessel: &V,
    )
        requires
            old(target)@.wf(),
        ensures
            final(target)@.wf(),
            final(target)@ == vessel.drawn(
                wind_scene(self@, old(target)@, boat.pos, *env),
                *boat,
                *env,
                center_of(old(target)@),
            ),
    {
        let cfg = self.config();
        let camera_pos = boat.pos;

        target.clear(cfg.background);

        let start_x = snap_down(camera_pos.x, cfg.grid_step);
        let start_y = snap_down(camera_pos.y, cfg.grid_step);
        let width = target.width();
        let height = target.height();

        let ghost base = target@;
        let ghost w = target@.width;
        let ghost h = target@.height;
        proof {
            lemma_paint_wf(old(target)@, Set::empty(), cfg.background);
            lemma_arrows_column(cfg, camera_pos, *env, w, h, 0);
            lemma_paint_empty(base, cfg.wind_color);
        }
        let mut gx: i64 = GRID_LEFT;
        while gx < GRID_RIGHT
            invariant
                GRID_LEFT <= gx <= GRID_RIGHT,
                cfg.wf(),
                base.wf(),
                target@.wf(),
                w == base.width,
                h == base.height,
                w == width,
                h == height,
                camera_pos == boat.pos,
                start_x == snap_down_spec(camera_pos.x as int, cfg.grid_step as int),
                start_y == snap_down_spec(camera_pos.y as int, cfg.grid_step as int),
                camera_pos.x - cfg.grid_step < start_x <= camera_pos.x,
                camera_pos.y - cfg.grid_step < start_y <= camera_pos.y,
                target@ == base.paint(
                    arrows_before(cfg, camera_pos, *env, w, h, gx as int, GRID_TOP as int),
                    cfg.wind_color,
                ),
            decreases GRID_RIGHT - gx,
        {
            let mut gy: i64 = GRID_TOP;
            while gy < GRID_BOTTOM
                invariant
                    GRID_LEFT <= gx < GRID_RIGHT,
                    GRID_TOP <= gy <= GRID_BOTTOM,
                    cfg.wf(),
                    base.wf(),
                    target@.wf(),
                    w == base.width,
                    h == base.height,
                    w == width,
                    h == height,
                    camera_pos == boat.pos,
                    start_x == snap_down_spec(camera_pos.x as int, cfg.grid_step as int),
                    start_y == snap_down_spec(camera_pos.y as int, cfg.grid_step as int),
                    camera_pos.x - cfg.grid_step < start_x <= camera_pos.x,
                    camera_pos.y - cfg.grid_step < start_y <= camera_pos.y,
                    target@ == base.paint(
                        arrows_before(cfg, camera_pos, *env, w, h, gx as int, gy as int),
                        cfg.wind_color,
                    ),
                decreases GRID_BOTTOM - gy,
            {
                proof {
                    assert(-0x10_0000_0000_0000_0000 <= gx * cfg.grid_step
                        <= 0x10_0000_0000_0000_0000 && -0x10_0000_0000_0000_0000 <= gy
                        * cfg.grid_step <= 0x10_0000_0000_0000_0000) by (nonlinear_arith)
                        requires
                            -15 <= gx <= 15,
                            -10 <= gy <= 10,
                            0 < cfg.grid_step <= 0x7fff_ffff_ffff_ffff,
                    ;
                }
                let world_pos = Vec2::new(
                    saturate_i128(start_x + gx as i128 * cfg.grid_step as i128),
                    saturate_i128(start_y + gy as i128 * cfg.grid_step as i128),
                );
                proof {
                    lemma_arrows_step(cfg, camera_pos, *env, w, h, gx as int, gy as int);
                    lemma_paint_union(
                        base,
                        arrows_before(cfg, camera_pos, *env, w, h, gx as int, gy as int),
                        cell_pixels(cfg, camera_pos, *env, w, h, gx as int, gy as int),
                        cfg.wind_color,
                    );
                    lemma_paint_empty(target@, cfg.wind_color);
                }
                if let Some(screen_p) = project_point(
                    world_pos,
                    camera_pos,
                    width,
                    height,
                    cfg.cull_margin,
                ) {
                    let wind = env.get_wind_at(world_pos);
                    if let Some(dir) = wind.direction() {
                        target.draw_arrow_centered(screen_p, dir, wind.length(), cfg.wind_color);
                    }
                }
                gy += 1;
            }
            proof {
                lemma_arrows_column(cfg, camera_pos, *env, w, h, gx as int);
            }
            gx += 1;
        }

        proof {
            lemma_focus_projects_to_center(camera_pos, w, h, cfg.cull_margin as int);
        }
        if let Some(screen_pos) = project_point(
            boat.pos,
            camera_pos,
            width,
            height,
            cfg.cull_margin,
        ) {
            vessel.draw_vessel(target, boat, env, screen_pos);
        }
    }
}

} // verus!
