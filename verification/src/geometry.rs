//! Fixed-point plane geometry.
//!
//! Lengths are whole thousandths of a world unit, angles whole millionths of a
//! radian, and a rotation is the pair (cosine, sine) scaled by [`ROTATION_UNIT`].
//! Every overlap test is exact integer arithmetic: a rectangle is tested as it
//! lies, turned, and not by a box around it.

use vstd::prelude::*;

verus! {

/// The fixed-point value that stands for 1.0 in a [`Rotation`].
pub const ROTATION_UNIT: i16 = 16384;

/// A position, in thousandths of a world unit.
#[derive(Clone, Copy, Debug, PartialEq, Eq, Structural)]
pub struct Point {
    pub x: i32,
    pub y: i32,
}

/// A displacement between two positions. Wider than [`Point`], so that the
/// difference of any two points is representable.
#[derive(Clone, Copy, Debug, PartialEq, Eq, Structural)]
pub struct Offset {
    pub dx: i64,
    pub dy: i64,
}

/// A rotation about the z axis, held as cosine and sine scaled by [`ROTATION_UNIT`].
#[derive(Clone, Copy, Debug, PartialEq, Eq, Structural)]
pub struct Rotation {
    pub cos: i16,
    pub sin: i16,
}

/// Where an entity is and how it is turned.
#[derive(Clone, Copy, Debug, PartialEq, Eq, Structural)]
pub struct Transform {
    pub translation: Point,
    pub rotation: Rotation,
}

/// The shape of a collider, in the entity's own frame.
#[derive(Clone, Copy, Debug, PartialEq, Eq, Structural)]
pub enum Hitbox {
    Circle { radius: u32 },
    Rectangle { half_width: u32, half_height: u32 },
    Capsule { radius: u32, start: Point, end: Point },
}

/// The absolute value of `v`.
pub open spec fn abs(v: int) -> int {
    if v < 0 {
        -v
    } else {
        v
    }
}

/// How far `distance` reaches beyond `reach`; zero when it does not.
pub open spec fn excess(distance: int, reach: int) -> int {
    if distance > reach {
        distance - reach
    } else {
        0
    }
}

/// The inner product of two vectors.
pub open spec fn dot(ax: int, ay: int, bx: int, by: int) -> int {
    ax * bx + ay * by
}

/// How far a turned rectangle reaches from its centre along the axis
/// `(ux, uy)`: each half side times the length of its shadow on the axis. The
/// rectangle's own axes are `(cos, sin)` and `(-sin, cos)`; with an axis taken
/// from a rotation too, the result is scaled by the square of
/// [`ROTATION_UNIT`].
pub open spec fn reach_along(
    half_width: int,
    half_height: int,
    rotation: Rotation,
    ux: int,
    uy: int,
) -> int {
    half_width * abs(dot(rotation.cos as int, rotation.sin as int, ux, uy)) + half_height * abs(
        dot(-(rotation.sin as int), rotation.cos as int, ux, uy),
    )
}

/// Whether two turned rectangles meet when both are cast on the axis
/// `(ux, uy)`: the shadows of their centres are no further apart than the two
/// reach. Touching counts.
pub open spec fn meet_along(
    a: Point,
    half_width_a: int,
    half_height_a: int,
    rotation_a: Rotation,
    b: Point,
    half_width_b: int,
    half_height_b: int,
    rotation_b: Rotation,
    ux: int,
    uy: int,
) -> bool {
    abs(dot(b.x - a.x, b.y - a.y, ux, uy)) * ROTATION_UNIT <= reach_along(
        half_width_a,
        half_height_a,
        rotation_a,
        ux,
        uy,
    ) + reach_along(half_width_b, half_height_b, rotation_b, ux, uy)
}

/// Two turned rectangles overlap when no axis of either keeps them apart:
/// they meet along both axes of the one and both axes of the other.
pub open spec fn rectangles_overlap(
    a: Point,
    half_width_a: int,
    half_height_a: int,
    rotation_a: Rotation,
    b: Point,
    half_width_b: int,
    half_height_b: int,
    rotation_b: Rotation,
) -> bool {
    &&& meet_along(
        a,
        half_width_a,
        half_height_a,
        rotation_a,
        b,
        half_width_b,
        half_height_b,
        rotation_b,
        rotation_a.cos as int,
        rotation_a.sin as int,
    )
    &&& meet_along(
        a,
        half_width_a,
        half_height_a,
        rotation_a,
        b,
        half_width_b,
        half_height_b,
        rotation_b,
        -(rotation_a.sin as int),
        rotation_a.cos as int,
    )
    &&& meet_along(
        a,
        half_width_a,
        half_height_a,
        rotation_a,
        b,
        half_width_b,
        half_height_b,
        rotation_b,
        rotation_b.cos as int,
        rotation_b.sin as int,
    )
    &&& meet_along(
        a,
        half_width_a,
        half_height_a,
        rotation_a,
        b,
        half_width_b,
        half_height_b,
        rotation_b,
        -(rotation_b.sin as int),
        rotation_b.cos as int,
    )
}

/// Two discs overlap when their centres are no further apart than the sum of
/// their radii. Touching counts.
pub open spec fn circles_overlap(a: Point, radius_a: int, b: Point, radius_b: int) -> bool {
    let dx = a.x - b.x;
    let dy = a.y - b.y;
    dx * dx + dy * dy <= (radius_a + radius_b) * (radius_a + radius_b)
}

/// A disc overlaps a turned rectangle when the point of the rectangle closest
/// to the disc's centre is no further from it than the radius. The centre is
/// seen from the rectangle's own frame, where the rectangle lies unturned; all
/// lengths there are scaled by [`ROTATION_UNIT`]. Touching counts.
pub open spec fn circle_rectangle_overlap(
    centre: Point,
    radius: int,
    rectangle_centre: Point,
    half_width: int,
    half_height: int,
    rotation: Rotation,
) -> bool {
    let dx = centre.x - rectangle_centre.x;
    let dy = centre.y - rectangle_centre.y;
    let along = dot(dx, dy, rotation.cos as int, rotation.sin as int);
    let across = dot(dx, dy, -(rotation.sin as int), rotation.cos as int);
    let ex = excess(abs(along), half_width * ROTATION_UNIT);
    let ey = excess(abs(across), half_height * ROTATION_UNIT);
    ex * ex + ey * ey <= (radius * ROTATION_UNIT) * (radius * ROTATION_UNIT)
}

/// Whether two shapes, each placed by its transform, overlap in world space.
///
/// A rectangle is turned about its centre by its transform's rotation. Pairs
/// with a capsule are never reported.
pub open spec fn spec_overlaps(a: Hitbox, at: Transform, b: Hitbox, bt: Transform) -> bool {
    match (a, b) {
        (Hitbox::Circle { radius: ra }, Hitbox::Circle { radius: rb }) => circles_overlap(
            at.translation,
            ra as int,
            bt.translation,
            rb as int,
        ),
        (Hitbox::Circle { radius }, Hitbox::Rectangle { half_width, half_height }) => {
            circle_rectangle_overlap(
                at.translation,
                radius as int,
                bt.translation,
                half_width as int,
                half_height as int,
                bt.rotation,
            )
        },
        (Hitbox::Rectangle { half_width, half_height }, Hitbox::Circle { radius }) => {
            circle_rectangle_overlap(
                bt.translation,
                radius as int,
                at.translation,
                half_width as int,
                half_height as int,
                at.rotation,
            )
        },
        (
            Hitbox::Rectangle { half_width: wa, half_height: ha },
            Hitbox::Rectangle { half_width: wb, half_height: hb },
        ) => rectangles_overlap(
            at.translation,
            wa as int,
            ha as int,
            at.rotation,
            bt.translation,
            wb as int,
            hb as int,
            bt.rotation,
        ),
        _ => false,
    }
}

impl Point {
    pub fn new(x: i32, y: i32) -> (p: Point)
        ensures
            p == (Point { x, y }),
    {
        Point { x, y }
    }

    /// The displacement that leads from `origin` to `self`.
    pub open spec fn spec_relative_to(self, origin: Point) -> Offset {
        Offset { dx: (self.x - origin.x) as i64, dy: (self.y - origin.y) as i64 }
    }

    pub fn relative_to(&self, origin: &Point) -> (offset: Offset)
        ensures
            offset == self.spec_relative_to(*origin),
            offset.dx == self.x - origin.x,
            offset.dy == self.y - origin.y,
    {
        let sx: i64 = self.x as i64;
        let sy: i64 = self.y as i64;
        let ox: i64 = origin.x as i64;
        let oy: i64 = origin.y as i64;
        Offset { dx: sx - ox, dy: sy - oy }
    }
}

impl Rotation {
    /// No rotation at all.
    pub open spec fn spec_identity() -> Rotation {
        Rotation { cos: ROTATION_UNIT, sin: 0 }
    }

    pub fn identity() -> (r: Rotation)
        ensures
            r == Rotation::spec_identity(),
    {
        Rotation { cos: ROTATION_UNIT, sin: 0 }
    }
}

impl Transform {
    /// An unrotated transform at the given position.
    pub fn at(x: i32, y: i32) -> (t: Transform)
        ensures
            t == (Transform { translation: Point { x, y }, rotation: Rotation::spec_identity() }),
    {
        Transform { translation: Point { x, y }, rotation: Rotation::identity() }
    }
}

fn magnitude(v: i128) -> (m: i128)
    requires
        v > i128::MIN,
    ensures
        m == abs(v as int),
{
    if v < 0 {
        -v
    } else {
        v
    }
}

fn beyond(distance: i128, reach: i128) -> (e: i128)
    requires
        0 <= distance,
        0 <= reach,
    ensures
        e == excess(distance as int, reach as int),
        0 <= e <= distance,
{
    if distance > reach {
        distance - reach
    } else {
        0
    }
}

/// The inner product of `(ax, ay)`, no longer than `la` either way, and
/// `(bx, by)`, no longer than `lb`.
fn dot_product(ax: i128, ay: i128, bx: i128, by: i128, la: i128, lb: i128) -> (d: i128)
    requires
        0 <= la <= 0x1_0000_0000,
        0 <= lb <= 0x1_0000_0000,
        -la <= ax <= la,
        -la <= ay <= la,
        -lb <= bx <= lb,
        -lb <= by <= lb,
    ensures
        d == dot(ax as int, ay as int, bx as int, by as int),
        -2 * (la * lb) <= d <= 2 * (la * lb),
        0 <= la * lb <= 0x1_0000_0000 * 0x1_0000_0000,
{
    let ghost most = la * lb;
    assert(0 <= most <= 0x1_0000_0000 * 0x1_0000_0000) by (nonlinear_arith)
        requires
            most == la * lb,
            0 <= la <= 0x1_0000_0000,
            0 <= lb <= 0x1_0000_0000,
    ;
    assert(-most <= ax * bx <= most) by (nonlinear_arith)
        requires
            most == la * lb,
            -la <= ax <= la,
            -lb <= bx <= lb,
    ;
    assert(-most <= ay * by <= most) by (nonlinear_arith)
        requires
            most == la * lb,
            -la <= ay <= la,
            -lb <= by <= lb,
    ;
    ax * bx + ay * by
}

/// A length of at most 32 bits times a length of at most 48 bits.
fn stretched(half: i128, shadow: i128) -> (s: i128)
    requires
        0 <= half <= 0xffff_ffff,
        0 <= shadow <= 0x1_0000_0000_0000,
    ensures
        s == half * shadow,
        0 <= s <= 0xffff_ffff * 0x1_0000_0000_0000,
{
    assert(0 <= half * shadow <= 0xffff_ffff * 0x1_0000_0000_0000) by (nonlinear_arith)
        requires
            0 <= half <= 0xffff_ffff,
            0 <= shadow <= 0x1_0000_0000_0000,
    ;
    half * shadow
}

fn reach(half_width: u32, half_height: u32, rotation: &Rotation, ux: i128, uy: i128) -> (r: i128)
    requires
        -0x8000 <= ux <= 0x8000,
        -0x8000 <= uy <= 0x8000,
    ensures
        r == reach_along(half_width as int, half_height as int, *rotation, ux as int, uy as int),
        0 <= r <= 2 * (0xffff_ffff * 0x1_0000_0000_0000),
{
    let cos: i128 = rotation.cos as i128;
    let sin: i128 = rotation.sin as i128;
    let along: i128 = magnitude(dot_product(cos, sin, ux, uy, 0x8000, 0x8000));
    let across: i128 = magnitude(dot_product(-sin, cos, ux, uy, 0x8000, 0x8000));
    stretched(half_width as i128, along) + stretched(half_height as i128, across)
}

fn meets(
    a: &Point,
    half_width_a: u32,
    half_height_a: u32,
    rotation_a: &Rotation,
    b: &Point,
    half_width_b: u32,
    half_height_b: u32,
    rotation_b: &Rotation,
    ux: i128,
    uy: i128,
) -> (met: bool)
    requires
        -0x8000 <= ux <= 0x8000,
        -0x8000 <= uy <= 0x8000,
    ensures
        met == meet_along(
            *a,
            half_width_a as int,
            half_height_a as int,
            *rotation_a,
            *b,
            half_width_b as int,
            half_height_b as int,
            *rotation_b,
            ux as int,
            uy as int,
        ),
{
    let dx: i128 = b.x as i128 - a.x as i128;
    let dy: i128 = b.y as i128 - a.y as i128;
    let apart: i128 = magnitude(dot_product(dx, dy, ux, uy, 0x1_0000_0000, 0x8000));
    let reach_a: i128 = reach(half_width_a, half_height_a, rotation_a, ux, uy);
    let reach_b: i128 = reach(half_width_b, half_height_b, rotation_b, ux, uy);
    apart * 16384 <= reach_a + reach_b
}

fn square(v: i128) -> (s: i128)
    requires
        0 <= v <= 0x1_0000_0000_0000,
    ensures
        s == v * v,
        0 <= s <= 0x1_0000_0000_0000 * 0x1_0000_0000_0000,
{
    assert(0 <= v * v <= 0x1_0000_0000_0000 * 0x1_0000_0000_0000) by (nonlinear_arith)
        requires
            0 <= v <= 0x1_0000_0000_0000,
    ;
    v * v
}

fn circles_hit(a: &Point, radius_a: u32, b: &Point, radius_b: u32) -> (hit: bool)
    ensures
        hit == circles_overlap(*a, radius_a as int, *b, radius_b as int),
{
    let dx: i128 = magnitude(a.x as i128 - b.x as i128);
    let dy: i128 = magnitude(a.y as i128 - b.y as i128);
    let reach: i128 = radius_a as i128 + radius_b as i128;
    let dx2: i128 = square(dx);
    let dy2: i128 = square(dy);
    let reach2: i128 = square(reach);
    proof {
        let ex = a.x - b.x;
        let ey = a.y - b.y;
        assert(abs(ex) * abs(ex) == ex * ex) by (nonlinear_arith);
        assert(abs(ey) * abs(ey) == ey * ey) by (nonlinear_arith);
    }
    dx2 + dy2 <= reach2
}

fn rectangles_hit(
    a: &Point,
    half_width_a: u32,
    half_height_a: u32,
    rotation_a: &Rotation,
    b: &Point,
    half_width_b: u32,
    half_height_b: u32,
    rotation_b: &Rotation,
) -> (hit: bool)
    ensures
        hit == rectangles_overlap(
            *a,
            half_width_a as int,
            half_height_a as int,
            *rotation_a,
            *b,
            half_width_b as int,
            half_height_b as int,
            *rotation_b,
        ),
{
    let ca: i128 = rotation_a.cos as i128;
    let sa: i128 = rotation_a.sin as i128;
    let cb: i128 = rotation_b.cos as i128;
    let sb: i128 = rotation_b.sin as i128;
    meets(
        a,
        half_width_a,
        half_height_a,
        rotation_a,
        b,
        half_width_b,
        half_height_b,
        rotation_b,
        ca,
        sa,
    ) && meets(
        a,
        half_width_a,
        half_height_a,
        rotation_a,
        b,
        half_width_b,
        half_height_b,
        rotation_b,
        -sa,
        ca,
    ) && meets(
        a,
        half_width_a,
        half_height_a,
        rotation_a,
        b,
        half_width_b,
        half_height_b,
        rotation_b,
        cb,
        sb,
    ) && meets(
        a,
        half_width_a,
        half_height_a,
        rotation_a,
        b,
        half_width_b,
        half_height_b,
        rotation_b,
        -sb,
        cb,
    )
}

fn circle_rectangle_hit(
    centre: &Point,
    radius: u32,
    rectangle_centre: &Point,
    half_width: u32,
    half_height: u32,
    rotation: &Rotation,
) -> (hit: bool)
    ensures
        hit == circle_rectangle_overlap(
            *centre,
            radius as int,
            *rectangle_centre,
            half_width as int,
            half_height as int,
            *rotation,
        ),
{
    let dx: i128 = centre.x as i128 - rectangle_centre.x as i128;
    let dy: i128 = centre.y as i128 - rectangle_centre.y as i128;
    let cos: i128 = rotation.cos as i128;
    let sin: i128 = rotation.sin as i128;
    let along: i128 = magnitude(dot_product(dx, dy, cos, sin, 0x1_0000_0000, 0x8000));
    let across: i128 = magnitude(dot_product(dx, dy, -sin, cos, 0x1_0000_0000, 0x8000));
    let ex: i128 = beyond(along, half_width as i128 * 16384);
    let ey: i128 = beyond(across, half_height as i128 * 16384);
    let reach: i128 = radius as i128 * 16384;
    let ex2: i128 = square(ex);
    let ey2: i128 = square(ey);
    let reach2: i128 = square(reach);
    ex2 + ey2 <= reach2
}

/// Tests two placed shapes for overlap.
pub fn overlaps(a: &Hitbox, at: &Transform, b: &Hitbox, bt: &Transform) -> (hit: bool)
    ensures
        hit == spec_overlaps(*a, *at, *b, *bt),
{
    match (a, b) {
        (Hitbox::Circle { radius: ra }, Hitbox::Circle { radius: rb }) => circles_hit(
            &at.translation,
            *ra,
            &bt.translation,
            *rb,
        ),
        (Hitbox::Circle { radius }, Hitbox::Rectangle { half_width, half_height }) => {
            circle_rectangle_hit(
                &at.translation,
                *radius,
                &bt.translation,
                *half_width,
                *half_height,
                &bt.rotation,
            )
        },
        (Hitbox::Rectangle { half_width, half_height }, Hitbox::Circle { radius }) => {
            circle_rectangle_hit(
                &bt.translation,
                *radius,
                &at.translation,
                *half_width,
                *half_height,
                &at.rotation,
            )
        },
        (
            Hitbox::Rectangle { half_width: wa, half_height: ha },
            Hitbox::Rectangle { half_width: wb, half_height: hb },
        ) => rectangles_hit(
            &at.translation,
            *wa,
            *ha,
            &at.rotation,
            &bt.translation,
            *wb,
            *hb,
            &bt.rotation,
        ),
        _ => false,
    }
}

/// Along any axis, the shadows of two centres are as far apart whichever
/// centre is named first.
proof fn lemma_apart_symmetric(a: Point, b: Point, ux: int, uy: int)
    ensures
        abs(dot(b.x - a.x, b.y - a.y, ux, uy)) == abs(dot(a.x - b.x, a.y - b.y, ux, uy)),
{
    let dx = b.x - a.x;
    let dy = b.y - a.y;
    assert(dot(-dx, -dy, ux, uy) == -dot(dx, dy, ux, uy)) by (nonlinear_arith);
}

/// Overlap does not depend on the order in which the two shapes are given.
pub proof fn lemma_overlap_symmetric(a: Hitbox, at: Transform, b: Hitbox, bt: Transform)
    ensures
        spec_overlaps(a, at, b, bt) == spec_overlaps(b, bt, a, at),
{
    let p = at.translation;
    let q = bt.translation;
    let dx = p.x - q.x;
    let dy = p.y - q.y;
    assert(dx * dx == (-dx) * (-dx)) by (nonlinear_arith);
    assert(dy * dy == (-dy) * (-dy)) by (nonlinear_arith);
    match (a, b) {
        (Hitbox::Circle { radius: ra }, Hitbox::Circle { radius: rb }) => {
            assert((ra + rb) * (ra + rb) == (rb + ra) * (rb + ra));
        },
        (Hitbox::Rectangle { .. }, Hitbox::Rectangle { .. }) => {
            lemma_apart_symmetric(p, q, at.rotation.cos as int, at.rotation.sin as int);
            lemma_apart_symmetric(p, q, -(at.rotation.sin as int), at.rotation.cos as int);
            lemma_apart_symmetric(p, q, bt.rotation.cos as int, bt.rotation.sin as int);
            lemma_apart_symmetric(p, q, -(bt.rotation.sin as int), bt.rotation.cos as int);
        },
        _ => {},
    }
}

} // verus!
