//! From world coordinates to positions on the surface, with the camera's
//! focus at the surface's center.

use crate::fixed::ONE;
use crate::vec2::Vec2;
use vstd::prelude::*;

verus! {

/// How far outside the surface a position may lie and still be worth
/// drawing at, unless a scene is set up otherwise: 100 pixels.
pub const CULL_MARGIN: i64 = 100 * 65536;

/// The widest margin that a projection accepts.
pub const MAX_MARGIN: i64 = 0x4000_0000_0000_0000;

/// The center of a surface of the given size.
pub open spec fn screen_center(width: nat, height: nat) -> (int, int) {
    ((width * ONE) / 2, (height * ONE) / 2)
}

/// Where a world position lies on the surface when `camera` is at its
/// center.
pub open spec fn screen_position(world: Vec2, camera: Vec2, width: nat, height: nat) -> (int, int) {
    let center = screen_center(width, height);
    (world.x - camera.x + center.0, world.y - camera.y + center.1)
}

/// Whether a position lies on the surface or within the margin around it.
pub open spec fn in_padded_view(p: (int, int), width: nat, height: nat, margin: int) -> bool {
    &&& -margin <= p.0 <= width * ONE + margin
    &&& -margin <= p.1 <= height * ONE + margin
}

/// The position on the surface of what lies at `world`, or nothing if that
/// is farther outside the surface than `margin`.
pub open spec fn project_within(
    world: Vec2,
    camera: Vec2,
    width: nat,
    height: nat,
    margin: int,
) -> Option<Vec2> {
    let p = screen_position(world, camera, width, height);
    if in_padded_view(p, width, height, margin) {
        Some(Vec2 { x: p.0 as i64, y: p.1 as i64 })
    } else {
        None
    }
}

/// Projection with the margin of 100 pixels.
pub open spec fn project(world: Vec2, camera: Vec2, width: nat, height: nat) -> Option<Vec2> {
    project_within(world, camera, width, height, CULL_MARGIN as int)
}

/// Projects a world position onto a surface of `width` by `height` pixels
/// whose center shows what lies at `camera`. Positions farther outside the
/// surface than `margin` are culled.
pub fn project_point(world: Vec2, camera: Vec2, width: usize, height: usize, margin: i64) -> (r:
    Option<Vec2>)
    requires
        width <= i32::MAX,
        height <= i32::MAX,
        0 <= margin <= MAX_MARGIN,
    ensures
        r == project_within(world, camera, width as nat, height as nat, margin as int),
{
    let w: i128 = width as i128 * ONE as i128;
    let h: i128 = height as i128 * ONE as i128;
    let x: i128 = world.x as i128 - camera.x as i128 + w / 2;
    let y: i128 = world.y as i128 - camera.y as i128 + h / 2;
    let m: i128 = margin as i128;
    if x < -m || x > w + m || y < -m || y > h + m {
        return None;
    }
    Some(Vec2 { x: x as i64, y: y as i64 })
}

/// What lies at the camera's focus is drawn at the center of the surface,
/// whatever the focus is: it is never culled.
pub proof fn lemma_focus_projects_to_center(focus: Vec2, width: nat, height: nat, margin: int)
    requires
        width <= i32::MAX,
        height <= i32::MAX,
        0 <= margin <= MAX_MARGIN,
    ensures
        project_within(focus, focus, width, height, margin) matches Some(p) && (
        p.x as int,
        p.y as int,
        ) == screen_center(width, height),
{
}

/// What would lie beyond the margin on any side is not drawn.
pub proof fn lemma_outside_margin_culled(
    world: Vec2,
    camera: Vec2,
    width: nat,
    height: nat,
    margin: int,
)
    requires
        ({
            let p = screen_position(world, camera, width, height);
            ||| p.0 > width * ONE + margin
            ||| p.0 < -margin
            ||| p.1 > height * ONE + margin
            ||| p.1 < -margin
        }),
    ensures
        project_within(world, camera, width, height, margin) is None,
{
}

/// Projection is a translation: two positions that are both drawn lie as far
/// apart on the surface as in the world.
pub proof fn lemma_projection_translates(
    p: Vec2,
    q: Vec2,
    focus: Vec2,
    width: nat,
    height: nat,
    margin: int,
)
    requires
        width <= i32::MAX,
        height <= i32::MAX,
        0 <= margin <= MAX_MARGIN,
        project_within(p, focus, width, height, margin) is Some,
        project_within(q, focus, width, height, margin) is Some,
    ensures
        ({
            let a = project_within(p, focus, width, height, margin)->0;
            let b = project_within(q, focus, width, height, margin)->0;
            a.x - b.x == p.x - q.x && a.y - b.y == p.y - q.y
        }),
{
}

} // verus!
