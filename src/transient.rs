//! Interactions in progress and the arithmetic of drags, resizes and scrubs.

use vstd::prelude::*;

use crate::sheet::{Rectangle, Size2, Vec2};

verus! {

/// One of the eight handles by which a hitbox is resized.
#[derive(Clone, Copy, Debug, PartialEq, Eq, Structural)]
pub enum ResizeAxis {
    N,
    S,
    E,
    W,
    NW,
    NE,
    SW,
    SE,
}

impl ResizeAxis {
    pub open spec fn spec_is_diagonal(self) -> bool {
        self == ResizeAxis::NW || self == ResizeAxis::NE || self == ResizeAxis::SW || self
            == ResizeAxis::SE
    }

    pub fn is_diagonal(&self) -> (r: bool)
        ensures
            r == self.spec_is_diagonal(),
    {
        match self {
            ResizeAxis::NW | ResizeAxis::NE | ResizeAxis::SW | ResizeAxis::SE => true,
            _ => false,
        }
    }
}

/// Where a hitbox stood and how large it was when a drag began.
#[derive(Debug)]
pub struct HitboxStart {
    pub name: String,
    pub rectangle: Rectangle,
}

/// A keyframe's offset and duration when a drag began.
#[derive(Clone, Copy, Debug, PartialEq, Eq, Structural)]
pub struct KeyframeStart {
    pub index: usize,
    pub offset: Vec2,
    pub duration: u32,
}

/// An interaction in progress. At most one is active; while one is, the
/// history records nothing.
#[derive(Debug)]
pub enum Transient {
    ContentFramesDrag,
    TimelineFrameDrag,
    HitboxPosition(Vec<HitboxStart>),
    HitboxSize(ResizeAxis, Vec<HitboxStart>),
    KeyframePosition(Vec<KeyframeStart>),
    KeyframeDuration(KeyframeDuration),
    TimelineScrub,
    Rename(String),
}

/// A keyframe-duration drag: starting durations, the keyframe under the
/// cursor, and the clock value where the drag began.
#[derive(Debug)]
pub struct KeyframeDuration {
    pub initial: Vec<KeyframeStart>,
    pub frame_being_dragged: usize,
    pub reference_clock: u32,
}

/// `a / b` rounded down.
pub open spec fn floor_div(a: int, b: int) -> int
    recommends
        b > 0,
{
    if a >= 0 {
        a / b
    } else {
        -((-a + b - 1) / b)
    }
}

/// `a / b` rounded to the nearest integer, halves away from zero.
pub open spec fn round_div(a: int, b: int) -> int
    recommends
        b > 0,
{
    if a >= 0 {
        (2 * a + b) / (2 * b)
    } else {
        -((-2 * a + b) / (2 * b))
    }
}

/// `a / b` rounded toward zero.
pub open spec fn trunc_div(a: int, b: int) -> int
    recommends
        b > 0,
{
    if a >= 0 {
        a / b
    } else {
        -((-a) / b)
    }
}

/// A screen distance `d` in workbench pixels at zoom `level`, rounded down.
pub open spec fn unzoom_floor(d: int, level: int) -> int {
    if level >= 1 {
        floor_div(d, level)
    } else {
        d * (-level)
    }
}

/// A screen distance `d` in workbench pixels at zoom `level`, rounded to nearest.
pub open spec fn unzoom_round(d: int, level: int) -> int {
    if level >= 1 {
        round_div(d, level)
    } else {
        d * (-level)
    }
}

/// A mouse displacement kept to its larger axis, unless both axes are asked for.
pub open spec fn axis_locked(d: Vec2, both_axes: bool) -> (int, int) {
    if both_axes {
        (d.x as int, d.y as int)
    } else if abs(d.x as int) > abs(d.y as int) {
        (d.x as int, 0)
    } else {
        (0, d.y as int)
    }
}

pub open spec fn abs(v: int) -> int {
    if v < 0 {
        -v
    } else {
        v
    }
}

/// Where a dragged point lands: its start plus the displacement in workbench
/// pixels, rounded down, kept within `i32`.
pub open spec fn dragged_position(start: Vec2, d: Vec2, both_axes: bool, level: int) -> Vec2 {
    let (dx, dy) = axis_locked(d, both_axes);
    Vec2 {
        x: clamp_i32(start.x + unzoom_floor(dx, level)),
        y: clamp_i32(start.y + unzoom_floor(dy, level)),
    }
}

pub open spec fn clamp_i32(v: int) -> i32 {
    if v > i32::MAX {
        i32::MAX
    } else if v < i32::MIN {
        i32::MIN
    } else {
        v as i32
    }
}

pub open spec fn clamp_u32(v: int) -> u32 {
    if v > u32::MAX {
        u32::MAX
    } else if v < 0 {
        0
    } else {
        v as u32
    }
}

/// The screen displacement of a resize, with the aspect ratio of `r` kept on a
/// diagonal handle when asked: the smaller axis follows the larger one, with the
/// sign that the diagonal calls for.
pub open spec fn aspect_locked(d: Vec2, r: Rectangle, axis: ResizeAxis, keep: bool) -> (int, int) {
    let w: int = if r.size.width == 0 { 1 } else { r.size.width as int };
    let h: int = if r.size.height == 0 { 1 } else { r.size.height as int };
    let odd = axis == ResizeAxis::NE || axis == ResizeAxis::SW;
    if keep && axis.spec_is_diagonal() {
        if abs(d.x as int) > abs(d.y as int) {
            let v = round_div(d.x * h, w);
            (d.x as int, if odd { -v } else { v })
        } else {
            let v = round_div(d.y * w, h);
            (if odd { -v } else { v }, d.y as int)
        }
    } else {
        (d.x as int, d.y as int)
    }
}

/// The two corners that span a resized rectangle: the handle's corner or edge
/// moves by `(dx, dy)`, the opposite one stays.
pub open spec fn resize_corners(r: Rectangle, axis: ResizeAxis, dx: int, dy: int) -> (
    int,
    int,
    int,
    int,
) {
    let x0 = r.top_left.x as int;
    let y0 = r.top_left.y as int;
    let x1 = x0 + r.size.width;
    let y1 = y0 + r.size.height;
    match axis {
        ResizeAxis::NW => (x1, y1, x0 + dx, y0 + dy),
        ResizeAxis::NE => (x0, y1, x1 + dx, y0 + dy),
        ResizeAxis::SW => (x1, y0, x0 + dx, y1 + dy),
        ResizeAxis::SE => (x0, y0, x1 + dx, y1 + dy),
        ResizeAxis::N => (x0, y1, x1, y0 + dy),
        ResizeAxis::W => (x1, y0, x0 + dx, y1),
        ResizeAxis::S => (x0, y0, x1, y1 + dy),
        ResizeAxis::E => (x0, y0, x1 + dx, y1),
    }
}

/// The rectangle spanned by two corners.
pub open spec fn spanned(ax: int, ay: int, bx: int, by: int) -> Rectangle {
    let left = if ax <= bx { ax } else { bx };
    let top = if ay <= by { ay } else { by };
    Rectangle {
        top_left: Vec2 { x: clamp_i32(left), y: clamp_i32(top) },
        size: Size2 { width: clamp_u32(abs(ax - bx)), height: clamp_u32(abs(ay - by)) },
    }
}

/// The rectangle that a resize drag of `d` screen pixels on handle `axis` makes
/// of `r` at zoom `level`.
pub open spec fn resized(r: Rectangle, axis: ResizeAxis, d: Vec2, keep_aspect: bool, level: int) -> Rectangle {
    let (sx, sy) = aspect_locked(d, r, axis, keep_aspect);
    let (ax, ay, bx, by) = resize_corners(r, axis, unzoom_round(sx, level), unzoom_round(sy, level));
    spanned(ax, ay, bx, by)
}

/// A keyframe's duration after a duration drag: its start plus the per-keyframe
/// share, never under `minimum`, kept within `u32`.
pub open spec fn dragged_duration(start: u32, delta: int, minimum: u32) -> u32 {
    let d = start + delta;
    clamp_u32(if d < minimum { minimum as int } else { d })
}

/// The share of a duration drag that each keyframe takes.
pub open spec fn duration_share(clock_at_cursor: u32, reference_clock: u32, count: nat) -> int {
    trunc_div(clock_at_cursor - reference_clock, if count == 0 { 1 } else { count as int })
}

fn clamp_to_i32(v: i128) -> (r: i32)
    ensures
        r == clamp_i32(v as int),
{
    if v > i32::MAX as i128 {
        i32::MAX
    } else if v < i32::MIN as i128 {
        i32::MIN
    } else {
        v as i32
    }
}

fn clamp_to_u32(v: i128) -> (r: u32)
    ensures
        r == clamp_u32(v as int),
{
    if v > u32::MAX as i128 {
        u32::MAX
    } else if v < 0 {
        0
    } else {
        v as u32
    }
}

/// Bound on the intermediate values of the drag arithmetic.
pub open spec fn small(v: int) -> bool {
    -0x1_0000_0000_0000_0000_0000 <= v <= 0x1_0000_0000_0000_0000_0000
}

fn floor_div_exec(a: i128, b: i128) -> (r: i128)
    requires
        0 < b <= 0x1_0000_0000_0000,
        small(a as int),
    ensures
        r == floor_div(a as int, b as int),
        small(r as int),
{
    if a >= 0 {
        let r = a / b;
        assert(0 <= r <= a) by (nonlinear_arith)
            requires
                r == a / b,
                a >= 0,
                b >= 1,
        {
        }
        r
    } else {
        let q = (-a + b - 1) / b;
        assert(0 <= q <= -a) by (nonlinear_arith)
            requires
                q == (-a + b - 1) / (b as int),
                a < 0,
                b >= 1,
        {
        }
        -q
    }
}

fn round_div_exec(a: i128, b: i128) -> (r: i128)
    requires
        0 < b <= 0x1_0000_0000_0000,
        small(a as int),
    ensures
        r == round_div(a as int, b as int),
        small(r as int) || (-0x1_0000_0000_0000_0000_0001 <= r <= 0x1_0000_0000_0000_0000_0001),
        -0x1_0000_0000_0000_0000_0001 <= r <= 0x1_0000_0000_0000_0000_0001,
{
    if a >= 0 {
        let r = (2 * a + b) / (2 * b);
        assert(0 <= r <= a + 1) by (nonlinear_arith)
            requires
                r == (2 * a + b) / (2 * b),
                a >= 0,
                b >= 1,
        {
        }
        r
    } else {
        let q = (-2 * a + b) / (2 * b);
        assert(0 <= q <= -a + 1) by (nonlinear_arith)
            requires
                q == (-2 * a + b) / (2 * b),
                a < 0,
                b >= 1,
        {
        }
        -q
    }
}

fn trunc_div_exec(a: i128, b: i128) -> (r: i128)
    requires
        0 < b,
        small(a as int),
    ensures
        r == trunc_div(a as int, b as int),
        small(r as int),
{
    if a >= 0 {
        let r = a / b;
        assert(0 <= r <= a) by (nonlinear_arith)
            requires
                r == a / b,
                a >= 0,
                b >= 1,
        {
        }
        r
    } else {
        let q = (-a) / b;
        assert(0 <= q <= -a) by (nonlinear_arith)
            requires
                q == (-a) / (b as int),
                a < 0,
                b >= 1,
        {
        }
        -q
    }
}

fn abs_exec(v: i128) -> (r: i128)
    requires
        small(v as int),
    ensures
        r == abs(v as int),
{
    if v < 0 {
        -v
    } else {
        v
    }
}

/// Zoom levels lie within these bounds.
pub open spec fn zoom_level_in_bounds(level: int) -> bool {
    (1 <= level <= 1024) || (-1024 <= level <= -2)
}

fn unzoom_floor_exec(d: i128, level: i32) -> (r: i128)
    requires
        zoom_level_in_bounds(level as int),
        -0x1_0000_0000_0000_0000 <= d <= 0x1_0000_0000_0000_0000,
    ensures
        r == unzoom_floor(d as int, level as int),
        -0x1000_0000_0000_0000_0000 <= r <= 0x1000_0000_0000_0000_0000,
{
    if level >= 1 {
        let r = floor_div_exec(d, level as i128);
        assert(-0x1_0000_0000_0000_0000 <= r <= 0x1_0000_0000_0000_0000) by (nonlinear_arith)
            requires
                r == floor_div(d as int, level as int),
                1 <= level,
                -0x1_0000_0000_0000_0000 <= d <= 0x1_0000_0000_0000_0000,
        {
        }
        r
    } else {
        let m = -(level as i128);
        assert(-0x1000_0000_0000_0000_0000 <= d * m <= 0x1000_0000_0000_0000_0000) by (nonlinear_arith)
            requires
                2 <= m <= 1024,
                -0x1_0000_0000_0000_0000 <= d <= 0x1_0000_0000_0000_0000,
        {
        }
        d * m
    }
}

fn unzoom_round_exec(d: i128, level: i32) -> (r: i128)
    requires
        zoom_level_in_bounds(level as int),
        -0x1_0000_0000_0000_0000 <= d <= 0x1_0000_0000_0000_0000,
    ensures
        r == unzoom_round(d as int, level as int),
        -0x1000_0000_0000_0000_0000 <= r <= 0x1000_0000_0000_0000_0000,
{
    if level >= 1 {
        let r = round_div_exec(d, level as i128);
        assert(-0x1_0000_0000_0000_0001 <= r <= 0x1_0000_0000_0000_0001) by (nonlinear_arith)
            requires
                r == round_div(d as int, level as int),
                1 <= level,
                -0x1_0000_0000_0000_0000 <= d <= 0x1_0000_0000_0000_0000,
        {
        }
        r
    } else {
        let m = -(level as i128);
        assert(-0x1000_0000_0000_0000_0000 <= d * m <= 0x1000_0000_0000_0000_0000) by (nonlinear_arith)
            requires
                2 <= m <= 1024,
                -0x1_0000_0000_0000_0000 <= d <= 0x1_0000_0000_0000_0000,
        {
        }
        d * m
    }
}

/// Where a dragged point lands (see `dragged_position`).
pub fn drag_position(start: Vec2, d: Vec2, both_axes: bool, level: i32) -> (r: Vec2)
    requires
        zoom_level_in_bounds(level as int),
    ensures
        r == dragged_position(start, d, both_axes, level as int),
{
    let dx = d.x as i128;
    let dy = d.y as i128;
    let (lx, ly) = if both_axes {
        (dx, dy)
    } else if abs_exec(dx) > abs_exec(dy) {
        (dx, 0i128)
    } else {
        (0i128, dy)
    };
    let ux = unzoom_floor_exec(lx, level);
    let uy = unzoom_floor_exec(ly, level);
    Vec2 { x: clamp_to_i32(start.x as i128 + ux), y: clamp_to_i32(start.y as i128 + uy) }
}

fn aspect_delta(d: Vec2, r: Rectangle, axis: ResizeAxis, keep: bool) -> (out: (i128, i128))
    ensures
        (out.0 as int, out.1 as int) == aspect_locked(d, r, axis, keep),
        -0x1_0000_0000_0000_0000 <= out.0 <= 0x1_0000_0000_0000_0000,
        -0x1_0000_0000_0000_0000 <= out.1 <= 0x1_0000_0000_0000_0000,
{
    let w: i128 = if r.size.width == 0 { 1 } else { r.size.width as i128 };
    let h: i128 = if r.size.height == 0 { 1 } else { r.size.height as i128 };
    let odd = axis == ResizeAxis::NE || axis == ResizeAxis::SW;
    let dx = d.x as i128;
    let dy = d.y as i128;
    if keep && axis.is_diagonal() {
        if abs_exec(dx) > abs_exec(dy) {
            assert(-0x8000_0000_0000_0000 <= dx * h <= 0x8000_0000_0000_0000) by (nonlinear_arith)
                requires
                    -0x8000_0000 <= dx <= 0x8000_0000,
                    1 <= h <= 0xffff_ffff,
            {
            }
            let q = round_div_exec(dx * h, w);
            assert(-0x8000_0000_0000_0001 <= q <= 0x8000_0000_0000_0001) by (nonlinear_arith)
                requires
                    q == round_div(dx * h, w as int),
                    1 <= w,
                    -0x8000_0000_0000_0000 <= dx * h <= 0x8000_0000_0000_0000,
            {
            }
            (dx, if odd { -q } else { q })
        } else {
            assert(-0x8000_0000_0000_0000 <= dy * w <= 0x8000_0000_0000_0000) by (nonlinear_arith)
                requires
                    -0x8000_0000 <= dy <= 0x8000_0000,
                    1 <= w <= 0xffff_ffff,
            {
            }
            let q = round_div_exec(dy * w, h);
            assert(-0x8000_0000_0000_0001 <= q <= 0x8000_0000_0000_0001) by (nonlinear_arith)
                requires
                    q == round_div(dy * w, h as int),
                    1 <= h,
                    -0x8000_0000_0000_0000 <= dy * w <= 0x8000_0000_0000_0000,
            {
            }
            (if odd { -q } else { q }, dy)
        }
    } else {
        (dx, dy)
    }
}

/// The rectangle a resize drag makes (see `resized`).
pub fn resize_rectangle(r: Rectangle, axis: ResizeAxis, d: Vec2, keep_aspect: bool, level: i32) -> (out: Rectangle)
    requires
        zoom_level_in_bounds(level as int),
    ensures
        out == resized(r, axis, d, keep_aspect, level as int),
{
    let (sx, sy) = aspect_delta(d, r, axis, keep_aspect);
    let ux = unzoom_round_exec(sx, level);
    let uy = unzoom_round_exec(sy, level);
    let x0 = r.top_left.x as i128;
    let y0 = r.top_left.y as i128;
    let x1 = x0 + r.size.width as i128;
    let y1 = y0 + r.size.height as i128;
    let (ax, ay, bx, by) = match axis {
        ResizeAxis::NW => (x1, y1, x0 + ux, y0 + uy),
        ResizeAxis::NE => (x0, y1, x1 + ux, y0 + uy),
        ResizeAxis::SW => (x1, y0, x0 + ux, y1 + uy),
        ResizeAxis::SE => (x0, y0, x1 + ux, y1 + uy),
        ResizeAxis::N => (x0, y1, x1, y0 + uy),
        ResizeAxis::W => (x1, y0, x0 + ux, y1),
        ResizeAxis::S => (x0, y0, x1, y1 + uy),
        ResizeAxis::E => (x0, y0, x1 + ux, y1),
    };
    let left = if ax <= bx { ax } else { bx };
    let top = if ay <= by { ay } else { by };
    let wd = if ax <= bx { bx - ax } else { ax - bx };
    let hd = if ay <= by { by - ay } else { ay - by };
    Rectangle {
        top_left: Vec2 { x: clamp_to_i32(left), y: clamp_to_i32(top) },
        size: Size2 { width: clamp_to_u32(wd), height: clamp_to_u32(hd) },
    }
}

/// The timeline clock under a scrub at `position` pixels from the start of
/// the timeline, at timeline zoom `level`: never below zero.
pub open spec fn scrubbed_clock(position: int, level: int) -> u64 {
    let t = unzoom_floor(position, level);
    if t < 0 {
        0
    } else if t > u64::MAX {
        u64::MAX
    } else {
        t as u64
    }
}

/// The timeline clock under a scrub (see `scrubbed_clock`).
pub fn clock_at_position(position: i32, level: i32) -> (r: u64)
    requires
        zoom_level_in_bounds(level as int),
    ensures
        r == scrubbed_clock(position as int, level as int),
{
    let t = unzoom_floor_exec(position as i128, level);
    if t < 0 {
        0
    } else if t > u64::MAX as i128 {
        u64::MAX
    } else {
        t as u64
    }
}

/// A keyframe's duration after a duration drag (see `dragged_duration`).
pub fn drag_duration(start: u32, delta: i128, minimum: u32) -> (r: u32)
    requires
        -0x1_0000_0000 <= delta <= 0x1_0000_0000,
    ensures
        r == dragged_duration(start, delta as int, minimum),
{
    let d = start as i128 + delta;
    clamp_to_u32(if d < minimum as i128 { minimum as i128 } else { d })
}

/// The share of a duration drag that each keyframe takes (see `duration_share`).
pub fn share_of_duration_drag(clock_at_cursor: u32, reference_clock: u32, count: usize) -> (r: i128)
    ensures
        r == duration_share(clock_at_cursor, reference_clock, count as nat),
        -0x1_0000_0000 <= r <= 0x1_0000_0000,
{
    let delta = clock_at_cursor as i128 - reference_clock as i128;
    let c: i128 = if count == 0 { 1 } else { count as i128 };
    let r = trunc_div_exec(delta, c);
    assert(-0x1_0000_0000 <= r <= 0x1_0000_0000) by (nonlinear_arith)
        requires
            r == trunc_div(delta as int, c as int),
            c >= 1,
            -0x1_0000_0000 <= delta <= 0x1_0000_0000,
    {
    }
    r
}

} // verus!
