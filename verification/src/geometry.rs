//! The frameless-window geometry controller.
//!
//! Pointer deltas become window move and resize commands; positions and
//! sizes are integer pixels. Width and height are clamped to the monitor,
//! a move ending near a monitor edge snaps to it, and after every commit
//! the origin is clamped so a visible strip of the window stays on-screen
//! and the header row never leaves the monitor.

use vstd::prelude::*;

verus! {

pub const WINDOW_WIDTH: i32 = 320;

pub const WINDOW_HEIGHT: i32 = 640;

pub const MIN_WINDOW_WIDTH: i32 = 260;

pub const MIN_WINDOW_HEIGHT: i32 = 380;

/// Height of the window's header row, which must stay reachable.
pub const HEADER_HEIGHT: i32 = 28;

/// Minimum strip of the window that stays visible horizontally.
pub const MIN_VISIBLE_WIDTH: i32 = 72;

/// A move ending closer than this to a monitor edge snaps to it.
pub const SNAP_THRESHOLD: i32 = 48;

/// Margin kept between a resized window and the monitor bounds.
pub const RESIZE_MARGIN: i32 = 8;

/// Size cap used when no monitor bounds are known.
pub const FALLBACK_MAX_DIMENSION: i32 = 4096;

/// The dock panel's outline, persisted with the geometry; it decides only
/// the corner rounding the renderer draws.
#[derive(Clone, Copy, PartialEq, Eq, Structural, Debug)]
pub enum WindowShape {
    Circle,
    Square,
    RoundedRect,
}

#[derive(Clone, Copy, PartialEq, Eq, Structural, Debug)]
pub struct WindowPos {
    pub x: i32,
    pub y: i32,
}

#[derive(Clone, Copy, PartialEq, Eq, Structural, Debug)]
pub struct WindowSize {
    pub w: i32,
    pub h: i32,
}

/// The five interactive resize zones; the top edge and top corners are
/// excluded, the window being anchored at its top.
#[derive(Clone, Copy, PartialEq, Eq, Structural, Debug)]
pub enum ResizeEdge {
    Left,
    Right,
    Bottom,
    BottomLeft,
    BottomRight,
}

/// The anchors a resize interaction records when it starts.
#[derive(Clone, Copy, PartialEq, Eq, Structural, Debug)]
pub struct ResizeDragState {
    pub edge: ResizeEdge,
    pub start_window_pos: WindowPos,
    pub start_window_size: WindowSize,
    pub start_global_mouse: WindowPos,
}

pub open spec fn max_int(a: int, b: int) -> int {
    if a >= b {
        a
    } else {
        b
    }
}

pub open spec fn clamp_int(v: int, lo: int, hi: int) -> int
    recommends
        lo <= hi,
{
    if v < lo {
        lo
    } else if v > hi {
        hi
    } else {
        v
    }
}

pub open spec fn abs_int(v: int) -> int {
    if v < 0 {
        -v
    } else {
        v
    }
}

/// Clamps a wide intermediate value into a pixel coordinate.
fn clamp_wide(v: i64, lo: i32, hi: i32) -> (r: i32)
    requires
        lo <= hi,
    ensures
        r as int == clamp_int(v as int, lo as int, hi as int),
{
    if v < lo as i64 {
        lo
    } else if v > hi as i64 {
        hi
    } else {
        v as i32
    }
}

/// A window size with both dimensions raised to their minima.
pub open spec fn sanitized_size(size: WindowSize) -> (int, int) {
    (max_int(size.w as int, MIN_WINDOW_WIDTH as int), max_int(
        size.h as int,
        MIN_WINDOW_HEIGHT as int,
    ))
}

/// Raises both dimensions to their minima. (A non-finite platform size is
/// replaced by the default before it reaches the engine.)
pub fn sanitize_window_size(size: WindowSize) -> (r: WindowSize)
    ensures
        r.w as int == sanitized_size(size).0,
        r.h as int == sanitized_size(size).1,
        r.w >= MIN_WINDOW_WIDTH,
        r.h >= MIN_WINDOW_HEIGHT,
{
    let w = if size.w >= MIN_WINDOW_WIDTH {
        size.w
    } else {
        MIN_WINDOW_WIDTH
    };
    let h = if size.h >= MIN_WINDOW_HEIGHT {
        size.h
    } else {
        MIN_WINDOW_HEIGHT
    };
    WindowSize { w, h }
}

/// The visibility clamp: the horizontal origin keeps at least
/// [`MIN_VISIBLE_WIDTH`] of the window on-screen at both monitor edges,
/// and the vertical origin keeps the header row between the monitor's top
/// and bottom.
pub open spec fn clamped_origin(pos: WindowPos, size: WindowSize, monitor: WindowSize) -> (
    int,
    int,
) {
    let lo_x = MIN_VISIBLE_WIDTH - size.w;
    let hi_x = max_int(monitor.w - MIN_VISIBLE_WIDTH, lo_x);
    let hi_y = max_int(monitor.h - HEADER_HEIGHT, 0);
    (clamp_int(pos.x as int, lo_x, hi_x), clamp_int(pos.y as int, 0, hi_y))
}

/// Applies the visibility clamp; see [`clamped_origin`].
pub fn clamp_window_origin(pos: WindowPos, size: WindowSize, monitor: WindowSize) -> (r: WindowPos)
    requires
        size.w >= 0,
        monitor.w >= 0,
        monitor.h >= 0,
    ensures
        r.x as int == clamped_origin(pos, size, monitor).0,
        r.y as int == clamped_origin(pos, size, monitor).1,
{
    let lo_x: i64 = MIN_VISIBLE_WIDTH as i64 - size.w as i64;
    let hi_x_raw: i64 = monitor.w as i64 - MIN_VISIBLE_WIDTH as i64;
    let hi_x: i64 = if hi_x_raw >= lo_x {
        hi_x_raw
    } else {
        lo_x
    };
    let hi_y_raw: i64 = monitor.h as i64 - HEADER_HEIGHT as i64;
    let hi_y: i64 = if hi_y_raw >= 0 {
        hi_y_raw
    } else {
        0
    };
    let x: i64 = if (pos.x as i64) < lo_x {
        lo_x
    } else if (pos.x as i64) > hi_x {
        hi_x
    } else {
        pos.x as i64
    };
    let y: i64 = if (pos.y as i64) < 0 {
        0
    } else if (pos.y as i64) > hi_y {
        hi_y
    } else {
        pos.y as i64
    };
    WindowPos { x: x as i32, y: y as i32 }
}

/// Where a move release puts the window: an origin within
/// [`SNAP_THRESHOLD`] of a monitor edge snaps exactly to it, the left and
/// top edges taking precedence over the right and bottom ones, and the
/// result is then clamped for visibility.
pub open spec fn snapped_origin(pos: WindowPos, size: WindowSize, monitor: WindowSize) -> (
    int,
    int,
) {
    let sx: int = if abs_int(pos.x as int) < SNAP_THRESHOLD {
        0
    } else if abs_int(pos.x + size.w - monitor.w) < SNAP_THRESHOLD {
        monitor.w - size.w
    } else {
        pos.x as int
    };
    let sy: int = if abs_int(pos.y as int) < SNAP_THRESHOLD {
        0
    } else if abs_int(pos.y + size.h - monitor.h) < SNAP_THRESHOLD {
        monitor.h - size.h
    } else {
        pos.y as int
    };
    let lo_x = MIN_VISIBLE_WIDTH - size.w;
    let hi_x = max_int(monitor.w - MIN_VISIBLE_WIDTH, lo_x);
    let hi_y = max_int(monitor.h - HEADER_HEIGHT, 0);
    (clamp_int(sx, lo_x, hi_x), clamp_int(sy, 0, hi_y))
}

/// Applies edge snapping and the visibility clamp to a released move;
/// see [`snapped_origin`].
pub fn snap_window_origin(pos: WindowPos, size: WindowSize, monitor: WindowSize) -> (r: WindowPos)
    requires
        size.w >= 0,
        monitor.w >= 0,
        monitor.h >= 0,
    ensures
        r.x as int == snapped_origin(pos, size, monitor).0,
        r.y as int == snapped_origin(pos, size, monitor).1,
{
    let right_gap: i64 = pos.x as i64 + size.w as i64 - monitor.w as i64;
    let bottom_gap: i64 = pos.y as i64 + size.h as i64 - monitor.h as i64;
    let abs_x: i64 = if pos.x >= 0 {
        pos.x as i64
    } else {
        -(pos.x as i64)
    };
    let abs_y: i64 = if pos.y >= 0 {
        pos.y as i64
    } else {
        -(pos.y as i64)
    };
    let abs_right: i64 = if right_gap >= 0 {
        right_gap
    } else {
        -right_gap
    };
    let abs_bottom: i64 = if bottom_gap >= 0 {
        bottom_gap
    } else {
        -bottom_gap
    };
    let sx: i64 = if abs_x < SNAP_THRESHOLD as i64 {
        0
    } else if abs_right < SNAP_THRESHOLD as i64 {
        monitor.w as i64 - size.w as i64
    } else {
        pos.x as i64
    };
    let sy: i64 = if abs_y < SNAP_THRESHOLD as i64 {
        0
    } else if abs_bottom < SNAP_THRESHOLD as i64 {
        monitor.h as i64 - size.h as i64
    } else {
        pos.y as i64
    };
    let lo_x: i64 = MIN_VISIBLE_WIDTH as i64 - size.w as i64;
    let hi_x_raw: i64 = monitor.w as i64 - MIN_VISIBLE_WIDTH as i64;
    let hi_x: i64 = if hi_x_raw >= lo_x {
        hi_x_raw
    } else {
        lo_x
    };
    let hi_y_raw: i64 = monitor.h as i64 - HEADER_HEIGHT as i64;
    let hi_y: i64 = if hi_y_raw >= 0 {
        hi_y_raw
    } else {
        0
    };
    let x = clamp_wide(sx, lo_x as i32, hi_x as i32);
    let y = clamp_wide(sy, 0, hi_y as i32);
    WindowPos { x, y }
}

/// A move ending within the snap threshold of the right monitor edge
/// (and not of the left one) leaves the window flush with it:
/// `x + width == monitor width`.
pub proof fn lemma_snap_right_edge(pos: WindowPos, size: WindowSize, monitor: WindowSize)
    requires
        size.w >= MIN_WINDOW_WIDTH,
        monitor.w >= MIN_VISIBLE_WIDTH,
        abs_int(pos.x as int) >= SNAP_THRESHOLD,
        abs_int(pos.x + size.w - monitor.w) < SNAP_THRESHOLD,
    ensures
        snapped_origin(pos, size, monitor).0 + size.w == monitor.w,
{
}

/// The per-dimension caps a resize clamps to: the monitor minus the
/// margin (but never below the minimum), or the fallback cap when no
/// monitor bounds are known.
pub open spec fn resize_max_size(monitor: Option<WindowSize>) -> (int, int) {
    match monitor {
        Option::Some(m) => (
            max_int(m.w - RESIZE_MARGIN, MIN_WINDOW_WIDTH as int),
            max_int(m.h - RESIZE_MARGIN, MIN_WINDOW_HEIGHT as int),
        ),
        Option::None => (FALLBACK_MAX_DIMENSION as int, FALLBACK_MAX_DIMENSION as int),
    }
}

/// What a resize drag yields for a pointer delta: the delta is projected
/// onto the active edge; the left edge moves the origin so the right edge
/// stays anchored; each adjusted dimension is clamped between its minimum
/// and the monitor cap; and the origin is clamped for visibility when the
/// monitor is known, and into pixel range otherwise.
pub open spec fn resize_outcome(
    state: ResizeDragState,
    dx: int,
    dy: int,
    monitor: Option<WindowSize>,
) -> ((int, int), (int, int)) {
    let caps = resize_max_size(monitor);
    let w0 = state.start_window_size.w as int;
    let h0 = state.start_window_size.h as int;
    let x0 = state.start_window_pos.x as int;
    let y0 = state.start_window_pos.y as int;
    let w1 = match state.edge {
        ResizeEdge::Left | ResizeEdge::BottomLeft => clamp_int(
            w0 - dx,
            MIN_WINDOW_WIDTH as int,
            caps.0,
        ),
        ResizeEdge::Right | ResizeEdge::BottomRight => clamp_int(
            w0 + dx,
            MIN_WINDOW_WIDTH as int,
            caps.0,
        ),
        ResizeEdge::Bottom => max_int(w0, MIN_WINDOW_WIDTH as int),
    };
    let h1 = match state.edge {
        ResizeEdge::Bottom | ResizeEdge::BottomLeft | ResizeEdge::BottomRight => clamp_int(
            h0 + dy,
            MIN_WINDOW_HEIGHT as int,
            caps.1,
        ),
        ResizeEdge::Left | ResizeEdge::Right => max_int(h0, MIN_WINDOW_HEIGHT as int),
    };
    let x1 = match state.edge {
        ResizeEdge::Left | ResizeEdge::BottomLeft => x0 + (w0 - w1),
        _ => x0,
    };
    let origin = match monitor {
        Option::Some(m) => {
            let lo_x = MIN_VISIBLE_WIDTH - w1;
            let hi_x = max_int(m.w - MIN_VISIBLE_WIDTH, lo_x);
            let hi_y = max_int(m.h - HEADER_HEIGHT, 0);
            (clamp_int(x1, lo_x, hi_x), clamp_int(y0, 0, hi_y))
        },
        Option::None => (
            clamp_int(x1, i32::MIN as int, i32::MAX as int),
            clamp_int(y0, i32::MIN as int, i32::MAX as int),
        ),
    };
    (origin, (w1, h1))
}

/// Applies a resize drag's pointer delta; see [`resize_outcome`].
pub fn apply_resize_delta(state: ResizeDragState, dx: i32, dy: i32, monitor: Option<WindowSize>)
    -> (r: (WindowPos, WindowSize))
    ensures
        ({
            let spec = resize_outcome(state, dx as int, dy as int, monitor);
            &&& r.0.x as int == spec.0.0
            &&& r.0.y as int == spec.0.1
            &&& r.1.w as int == spec.1.0
            &&& r.1.h as int == spec.1.1
        }),
{
    let (cap_w, cap_h): (i32, i32) = match monitor {
        Option::Some(m) => {
            let cw = clamp_wide(m.w as i64 - RESIZE_MARGIN as i64, i32::MIN, i32::MAX);
            let ch = clamp_wide(m.h as i64 - RESIZE_MARGIN as i64, i32::MIN, i32::MAX);
            (
                if cw >= MIN_WINDOW_WIDTH {
                    cw
                } else {
                    MIN_WINDOW_WIDTH
                },
                if ch >= MIN_WINDOW_HEIGHT {
                    ch
                } else {
                    MIN_WINDOW_HEIGHT
                },
            )
        },
        Option::None => (FALLBACK_MAX_DIMENSION, FALLBACK_MAX_DIMENSION),
    };
    let w0 = state.start_window_size.w;
    let h0 = state.start_window_size.h;
    let x0 = state.start_window_pos.x;
    let y0 = state.start_window_pos.y;
    let w1: i32 = match state.edge {
        ResizeEdge::Left | ResizeEdge::BottomLeft => clamp_wide(
            w0 as i64 - dx as i64,
            MIN_WINDOW_WIDTH,
            cap_w,
        ),
        ResizeEdge::Right | ResizeEdge::BottomRight => clamp_wide(
            w0 as i64 + dx as i64,
            MIN_WINDOW_WIDTH,
            cap_w,
        ),
        ResizeEdge::Bottom => {
            if w0 >= MIN_WINDOW_WIDTH {
                w0
            } else {
                MIN_WINDOW_WIDTH
            }
        },
    };
    let h1: i32 = match state.edge {
        ResizeEdge::Bottom | ResizeEdge::BottomLeft | ResizeEdge::BottomRight => clamp_wide(
            h0 as i64 + dy as i64,
            MIN_WINDOW_HEIGHT,
            cap_h,
        ),
        ResizeEdge::Left | ResizeEdge::Right => {
            if h0 >= MIN_WINDOW_HEIGHT {
                h0
            } else {
                MIN_WINDOW_HEIGHT
            }
        },
    };
    let x1: i64 = match state.edge {
        ResizeEdge::Left | ResizeEdge::BottomLeft => x0 as i64 + (w0 as i64 - w1 as i64),
        _ => x0 as i64,
    };
    let origin: WindowPos = match monitor {
        Option::Some(m) => {
            let lo_x: i64 = MIN_VISIBLE_WIDTH as i64 - w1 as i64;
            let hi_x_raw: i64 = m.w as i64 - MIN_VISIBLE_WIDTH as i64;
            let hi_x: i64 = if hi_x_raw >= lo_x {
                hi_x_raw
            } else {
                lo_x
            };
            let hi_y_raw: i64 = m.h as i64 - HEADER_HEIGHT as i64;
            let hi_y: i64 = if hi_y_raw >= 0 {
                hi_y_raw
            } else {
                0
            };
            WindowPos {
                x: clamp_wide(x1, lo_x as i32, hi_x as i32),
                y: clamp_wide(y0 as i64, 0, hi_y as i32),
            }
        },
        Option::None => WindowPos {
            x: clamp_wide(x1, i32::MIN, i32::MAX),
            y: y0,
        },
    };
    (origin, WindowSize { w: w1, h: h1 })
}

/// For every pointer delta, however extreme, a resize against known
/// monitor bounds yields a size within `[minimum, monitor - margin]` in
/// both dimensions, provided the anchor size already was and the monitor
/// is large enough to allow the minimum.
pub proof fn lemma_resize_bounds(state: ResizeDragState, dx: int, dy: int, monitor: WindowSize)
    requires
        monitor.w - RESIZE_MARGIN >= MIN_WINDOW_WIDTH,
        monitor.h - RESIZE_MARGIN >= MIN_WINDOW_HEIGHT,
        MIN_WINDOW_WIDTH <= state.start_window_size.w <= monitor.w - RESIZE_MARGIN,
        MIN_WINDOW_HEIGHT <= state.start_window_size.h <= monitor.h - RESIZE_MARGIN,
    ensures
        ({
            let size = resize_outcome(state, dx, dy, Option::Some(monitor)).1;
            &&& MIN_WINDOW_WIDTH <= size.0 <= monitor.w - RESIZE_MARGIN
            &&& MIN_WINDOW_HEIGHT <= size.1 <= monitor.h - RESIZE_MARGIN
        }),
{
}

/// The correction the per-frame visibility watchdog applies: the clamped
/// origin when it differs from the current one, nothing otherwise.
pub fn visibility_correction(pos: WindowPos, size: WindowSize, monitor: WindowSize) -> (r: Option<
    WindowPos,
>)
    requires
        size.w >= 0,
        monitor.w >= 0,
        monitor.h >= 0,
    ensures
        ({
            let c = clamped_origin(pos, size, monitor);
            if c.0 == pos.x as int && c.1 == pos.y as int {
                r is None
            } else {
                r matches Some(p) && p.x as int == c.0 && p.y as int == c.1
            }
        }),
{
    let clamped = clamp_window_origin(pos, size, monitor);
    if clamped.x == pos.x && clamped.y == pos.y {
        Option::None
    } else {
        Option::Some(clamped)
    }
}

/// The position a window drag proposes for the current frame: the anchor
/// window origin moved by how far the pointer has travelled from its own
/// anchor, clamped for visibility.
pub fn drag_move_origin(
    start_window_pos: WindowPos,
    start_global_mouse: WindowPos,
    current_global_mouse: WindowPos,
    size: WindowSize,
    monitor: WindowSize,
) -> (r: WindowPos)
    requires
        size.w >= 0,
        monitor.w >= 0,
        monitor.h >= 0,
    ensures
        ({
            let nx = start_window_pos.x + (current_global_mouse.x - start_global_mouse.x);
            let ny = start_window_pos.y + (current_global_mouse.y - start_global_mouse.y);
            let lo_x = MIN_VISIBLE_WIDTH - size.w;
            let hi_x = max_int(monitor.w - MIN_VISIBLE_WIDTH, lo_x);
            let hi_y = max_int(monitor.h - HEADER_HEIGHT, 0);
            r.x as int == clamp_int(nx, lo_x, hi_x) && r.y as int == clamp_int(ny, 0, hi_y)
        }),
{
    let nx: i64 = start_window_pos.x as i64 + (current_global_mouse.x as i64
        - start_global_mouse.x as i64);
    let ny: i64 = start_window_pos.y as i64 + (current_global_mouse.y as i64
        - start_global_mouse.y as i64);
    let lo_x: i64 = MIN_VISIBLE_WIDTH as i64 - size.w as i64;
    let hi_x_raw: i64 = monitor.w as i64 - MIN_VISIBLE_WIDTH as i64;
    let hi_x: i64 = if hi_x_raw >= lo_x {
        hi_x_raw
    } else {
        lo_x
    };
    let hi_y_raw: i64 = monitor.h as i64 - HEADER_HEIGHT as i64;
    let hi_y: i64 = if hi_y_raw >= 0 {
        hi_y_raw
    } else {
        0
    };
    WindowPos { x: clamp_wide(nx, lo_x as i32, hi_x as i32), y: clamp_wide(ny, 0, hi_y as i32) }
}

/// The label a resize zone is keyed by in the interface layer.
pub fn resize_edge_key(edge: ResizeEdge) -> (r: &'static str)
    ensures
        r@ == edge_key_spec(edge),
{
    match edge {
        ResizeEdge::Left => "left",
        ResizeEdge::Right => "right",
        ResizeEdge::Bottom => "bottom",
        ResizeEdge::BottomLeft => "bottom_left",
        ResizeEdge::BottomRight => "bottom_right",
    }
}

pub open spec fn edge_key_spec(edge: ResizeEdge) -> Seq<char> {
    match edge {
        ResizeEdge::Left => "left"@,
        ResizeEdge::Right => "right"@,
        ResizeEdge::Bottom => "bottom"@,
        ResizeEdge::BottomLeft => "bottom_left"@,
        ResizeEdge::BottomRight => "bottom_right"@,
    }
}

} // verus!
