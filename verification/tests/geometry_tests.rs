//! Window geometry: snapping, clamping, resizing.

use float_launcher::geometry::{
    apply_resize_delta, clamp_window_origin, drag_move_origin, resize_edge_key,
    sanitize_window_size, snap_window_origin, visibility_correction, ResizeDragState, ResizeEdge,
    WindowPos, WindowSize, HEADER_HEIGHT, MIN_VISIBLE_WIDTH, MIN_WINDOW_HEIGHT, MIN_WINDOW_WIDTH,
    RESIZE_MARGIN,
};

const MONITOR: WindowSize = WindowSize { w: 1920, h: 1080 };
const SIZE: WindowSize = WindowSize { w: 320, h: 640 };

fn resize_state(edge: ResizeEdge) -> ResizeDragState {
    ResizeDragState {
        edge,
        start_window_pos: WindowPos { x: 500, y: 200 },
        start_window_size: SIZE,
        start_global_mouse: WindowPos { x: 500, y: 840 },
    }
}

#[test]
fn move_near_right_edge_snaps_flush() {
    // Released 30 px short of the right monitor edge: 1920 - 320 - 30.
    let pos = WindowPos { x: 1570, y: 300 };
    let snapped = snap_window_origin(pos, SIZE, MONITOR);
    assert_eq!(snapped.x + SIZE.w, MONITOR.w);
    assert_eq!(snapped.y, 300);
}

#[test]
fn move_near_left_edge_snaps_to_zero_first() {
    // 30 px short of flush with the bottom edge: 1080 - 640 - 30.
    let pos = WindowPos { x: 40, y: 470 };
    let snapped = snap_window_origin(pos, SIZE, MONITOR);
    assert_eq!(snapped.x, 0);
    assert_eq!(snapped.y, MONITOR.h - SIZE.h);
}

#[test]
fn move_far_from_edges_does_not_snap() {
    let pos = WindowPos { x: 600, y: 200 };
    let snapped = snap_window_origin(pos, SIZE, MONITOR);
    assert_eq!(snapped, WindowPos { x: 600, y: 200 });
}

#[test]
fn visibility_clamp_keeps_strip_on_screen() {
    // Dragged almost entirely off the left edge.
    let p = clamp_window_origin(WindowPos { x: -5000, y: 0 }, SIZE, MONITOR);
    assert_eq!(p.x, MIN_VISIBLE_WIDTH - SIZE.w);
    // Dragged almost entirely off the right edge.
    let p = clamp_window_origin(WindowPos { x: 5000, y: 0 }, SIZE, MONITOR);
    assert_eq!(p.x, MONITOR.w - MIN_VISIBLE_WIDTH);
    // The header may never leave the monitor.
    let p = clamp_window_origin(WindowPos { x: 0, y: 9999 }, SIZE, MONITOR);
    assert_eq!(p.y, MONITOR.h - HEADER_HEIGHT);
    let p = clamp_window_origin(WindowPos { x: 0, y: -50 }, SIZE, MONITOR);
    assert_eq!(p.y, 0);
}

#[test]
fn visibility_correction_fires_only_when_needed() {
    assert_eq!(visibility_correction(WindowPos { x: 100, y: 100 }, SIZE, MONITOR), None);
    assert_eq!(
        visibility_correction(WindowPos { x: -4000, y: 100 }, SIZE, MONITOR),
        Some(WindowPos { x: MIN_VISIBLE_WIDTH - SIZE.w, y: 100 })
    );
}

#[test]
fn resize_clamps_for_extreme_deltas() {
    for edge in [
        ResizeEdge::Left,
        ResizeEdge::Right,
        ResizeEdge::Bottom,
        ResizeEdge::BottomLeft,
        ResizeEdge::BottomRight,
    ] {
        for (dx, dy) in [
            (i32::MAX, i32::MAX),
            (i32::MIN, i32::MIN),
            (-100000, 100000),
            (0, 0),
            (37, -11),
        ] {
            let (_, size) = apply_resize_delta(resize_state(edge), dx, dy, Some(MONITOR));
            assert!(MIN_WINDOW_WIDTH <= size.w && size.w <= MONITOR.w - RESIZE_MARGIN);
            assert!(MIN_WINDOW_HEIGHT <= size.h && size.h <= MONITOR.h - RESIZE_MARGIN);
        }
    }
}

#[test]
fn left_resize_keeps_right_edge_anchored() {
    let (pos, size) = apply_resize_delta(resize_state(ResizeEdge::Left), -80, 0, Some(MONITOR));
    assert_eq!(size.w, 400);
    assert_eq!(pos.x, 420);
    assert_eq!(pos.x + size.w, 500 + 320);
    assert_eq!(size.h, 640);
}

#[test]
fn right_and_bottom_resize_adjust_single_dimensions() {
    let (pos, size) = apply_resize_delta(resize_state(ResizeEdge::Right), 60, 999, Some(MONITOR));
    assert_eq!((pos.x, size.w, size.h), (500, 380, 640));
    let (pos, size) = apply_resize_delta(resize_state(ResizeEdge::Bottom), 999, 60, Some(MONITOR));
    assert_eq!((pos.x, size.w, size.h), (500, 320, 700));
    let (_, size) = apply_resize_delta(resize_state(ResizeEdge::BottomRight), 60, 60, Some(MONITOR));
    assert_eq!((size.w, size.h), (380, 700));
    let (pos, size) = apply_resize_delta(
        resize_state(ResizeEdge::BottomLeft),
        -60,
        60,
        Some(MONITOR),
    );
    assert_eq!((pos.x, size.w, size.h), (440, 380, 700));
}

#[test]
fn sanitize_raises_to_minima() {
    let s = sanitize_window_size(WindowSize { w: 10, h: 5000 });
    assert_eq!(s, WindowSize { w: MIN_WINDOW_WIDTH, h: 5000 });
    let s = sanitize_window_size(WindowSize { w: 400, h: 10 });
    assert_eq!(s, WindowSize { w: 400, h: MIN_WINDOW_HEIGHT });
}

#[test]
fn drag_move_follows_pointer_delta() {
    let p = drag_move_origin(
        WindowPos { x: 100, y: 100 },
        WindowPos { x: 150, y: 150 },
        WindowPos { x: 180, y: 140 },
        SIZE,
        MONITOR,
    );
    assert_eq!(p, WindowPos { x: 130, y: 90 });
}

#[test]
fn resize_zones_have_distinct_keys() {
    let keys = [
        resize_edge_key(ResizeEdge::Left),
        resize_edge_key(ResizeEdge::Right),
        resize_edge_key(ResizeEdge::Bottom),
        resize_edge_key(ResizeEdge::BottomLeft),
        resize_edge_key(ResizeEdge::BottomRight),
    ];
    assert_eq!(keys, ["left", "right", "bottom", "bottom_left", "bottom_right"]);
}
