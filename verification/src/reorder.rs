//! Drag-to-reorder gesture detection and slot mapping.
//!
//! A press on a row becomes a drag only after the pointer has been held
//! for the hold threshold without straying beyond the move tolerance;
//! otherwise it is a click. One tagged state carries the whole session,
//! so a press, an active drag and idleness exclude one another by
//! construction. Times are milliseconds, positions pixels.

use vstd::prelude::*;

use crate::layout::column_slot_of;

verus! {

/// How long a press must be held before it becomes a drag, in
/// milliseconds.
pub const REORDER_HOLD_MS: u64 = 260;

/// How far the pointer may stray during the hold, in pixels.
pub const REORDER_MOVE_TOLERANCE: i32 = 18;

/// The squared distance between two pointer positions.
pub open spec fn dist_sq(ax: int, ay: int, bx: int, by: int) -> int {
    (ax - bx) * (ax - bx) + (ay - by) * (ay - by)
}

/// The reorder gesture session: at most one, in one of these phases.
#[derive(Clone, Copy, PartialEq, Eq, Debug)]
pub enum ReorderGesture {
    /// No gesture in progress.
    Idle,
    /// A pointer is held down on the row at `index`; the hold threshold
    /// has not been met yet.
    Press { index: usize, start_ms: u64, start_x: i32, start_y: i32 },
    /// A single-column drag of the entry at `index`, currently aimed at
    /// `target` (a slot in the list, the list length meaning append).
    DragSingle { index: usize, target: usize },
    /// A two-column drag of the entry at `index`, currently aimed at the
    /// given (column, slot) pair once the pointer has resolved one.
    DragTwo { index: usize, cell: Option<(usize, usize)> },
}

/// A pointer press lands on a row: an idle session becomes a press
/// candidate; any existing session is left alone.
pub fn press_down(g: &mut ReorderGesture, index: usize, now_ms: u64, x: i32, y: i32)
    ensures
        (*old(g)) is Idle ==> *final(g) == (ReorderGesture::Press {
            index,
            start_ms: now_ms,
            start_x: x,
            start_y: y,
        }),
        !((*old(g)) is Idle) ==> *final(g) == *old(g),
{
    if matches!(g, ReorderGesture::Idle) {
        *g = ReorderGesture::Press { index, start_ms: now_ms, start_x: x, start_y: y };
    }
}

/// What polling a press candidate yields: released early it is a click
/// and the session ends; strayed beyond the tolerance it is cancelled;
/// held past the threshold it becomes an active drag, whose initial
/// target `activate` names. Anything but a press is left alone.
pub open spec fn press_poll_outcome(
    g: ReorderGesture,
    now_ms: u64,
    pointer: Option<(i32, i32)>,
    down: bool,
    activate: ReorderGesture,
) -> ReorderGesture {
    match g {
        ReorderGesture::Press { index, start_ms, start_x, start_y } => {
            if !down {
                ReorderGesture::Idle
            } else {
                match pointer {
                    Option::Some(p) => {
                        if dist_sq(p.0 as int, p.1 as int, start_x as int, start_y as int)
                            > (REORDER_MOVE_TOLERANCE * REORDER_MOVE_TOLERANCE) as int {
                            ReorderGesture::Idle
                        } else if now_ms >= start_ms && now_ms - start_ms >= REORDER_HOLD_MS {
                            activate
                        } else {
                            g
                        }
                    },
                    Option::None => g,
                }
            }
        },
        _ => g,
    }
}

/// Decides whether a held press has become a drag this frame: cancelled
/// on release or excess movement, activated after the hold threshold.
/// Yields the dragged row's index at the moment of activation.
fn press_poll_common(g: &mut ReorderGesture, now_ms: u64, pointer: Option<(i32, i32)>, down: bool)
    -> (activated: Option<usize>)
    ensures
        ({
            let prev = *old(g);
            match prev {
                ReorderGesture::Press { index, start_ms, start_x, start_y } => {
                    if !down {
                        activated is None && *final(g) == ReorderGesture::Idle
                    } else {
                        match pointer {
                            Option::Some(p) => {
                                if dist_sq(p.0 as int, p.1 as int, start_x as int, start_y as int)
                                    > (REORDER_MOVE_TOLERANCE * REORDER_MOVE_TOLERANCE) as int {
                                    activated is None && *final(g) == ReorderGesture::Idle
                                } else if now_ms >= start_ms && now_ms - start_ms
                                    >= REORDER_HOLD_MS {
                                    activated == Option::Some(index) && *final(g) == prev
                                } else {
                                    activated is None && *final(g) == prev
                                }
                            },
                            Option::None => activated is None && *final(g) == prev,
                        }
                    }
                },
                _ => activated is None && *final(g) == prev,
            }
        }),
{
    let state = *g;
    match state {
        ReorderGesture::Press { index, start_ms, start_x, start_y } => {
            if !down {
                *g = ReorderGesture::Idle;
                return Option::None;
            }
            match pointer {
                Option::Some(p) => {
                    let dx: i128 = p.0 as i128 - start_x as i128;
                    let dy: i128 = p.1 as i128 - start_y as i128;
                    let tol: i128 = REORDER_MOVE_TOLERANCE as i128;
                    proof {
                        assert(0 <= dx * dx <= 0x10000000000000000) by (nonlinear_arith)
                            requires
                                -0x100000000 <= dx && dx <= 0x100000000,
                        ;
                        assert(0 <= dy * dy <= 0x10000000000000000) by (nonlinear_arith)
                            requires
                                -0x100000000 <= dy && dy <= 0x100000000,
                        ;
                    }
                    if dx * dx + dy * dy > tol * tol {
                        *g = ReorderGesture::Idle;
                        Option::None
                    } else if now_ms >= start_ms && now_ms - start_ms >= REORDER_HOLD_MS {
                        Option::Some(index)
                    } else {
                        Option::None
                    }
                },
                Option::None => Option::None,
            }
        },
        _ => Option::None,
    }
}

/// Polls a press candidate in single-column mode; on activation the drag
/// starts aimed at the dragged entry's own slot, clamped to the list
/// length.
pub fn press_poll_single(
    g: &mut ReorderGesture,
    now_ms: u64,
    pointer: Option<(i32, i32)>,
    down: bool,
    len: usize,
)
    ensures
        ({
            let activate = match *old(g) {
                ReorderGesture::Press { index, .. } => ReorderGesture::DragSingle {
                    index,
                    target: if index <= len {
                        index
                    } else {
                        len
                    },
                },
                _ => *old(g),
            };
            *final(g) == press_poll_outcome(*old(g), now_ms, pointer, down, activate)
        }),
{
    let activated = press_poll_common(g, now_ms, pointer, down);
    match activated {
        Option::Some(index) => {
            let target = if index <= len {
                index
            } else {
                len
            };
            *g = ReorderGesture::DragSingle { index, target };
        },
        Option::None => {},
    }
}

/// Polls a press candidate in two-column mode; on activation the drag
/// starts aimed at the dragged entry's own (column, slot) pair in the
/// reconciled column lists.
pub fn press_poll_grid(
    g: &mut ReorderGesture,
    now_ms: u64,
    pointer: Option<(i32, i32)>,
    down: bool,
    left: &Vec<usize>,
    right: &Vec<usize>,
)
    ensures
        ({
            let activate = match *old(g) {
                ReorderGesture::Press { index, .. } => ReorderGesture::DragTwo {
                    index,
                    cell: column_slot_of(index, left@, right@),
                },
                _ => *old(g),
            };
            *final(g) == press_poll_outcome(*old(g), now_ms, pointer, down, activate)
        }),
{
    let activated = press_poll_common(g, now_ms, pointer, down);
    match activated {
        Option::Some(index) => {
            let cell = crate::layout::find_column_slot(index, left, right);
            *g = ReorderGesture::DragTwo { index, cell };
        },
        Option::None => {},
    }
}

/// The slot a pointer height aims at among stacked rows: the first row
/// whose vertical center lies below the pointer, or one past the last row
/// (append) when none does.
pub open spec fn slot_at(py: int, centers: Seq<i32>) -> int
    decreases centers.len(),
{
    if centers.len() == 0 {
        0
    } else if py < centers[0] as int {
        0
    } else {
        1 + slot_at(py, centers.drop_first())
    }
}

proof fn lemma_slot_at_range(py: int, centers: Seq<i32>)
    ensures
        0 <= slot_at(py, centers) <= centers.len(),
    decreases centers.len(),
{
    if centers.len() > 0 && !(py < centers[0] as int) {
        lemma_slot_at_range(py, centers.drop_first());
    }
}

/// Maps a pointer height to a target slot; see [`slot_at`].
pub fn slot_from_pointer(pointer_y: i32, centers: &Vec<i32>) -> (r: usize)
    ensures
        r as int == slot_at(pointer_y as int, centers@),
        r <= centers@.len(),
{
    proof {
        assert(centers@.skip(0) =~= centers@);
        lemma_slot_at_range(pointer_y as int, centers@);
    }
    let mut i: usize = 0;
    while i < centers.len()
        invariant
            i <= centers@.len(),
            slot_at(pointer_y as int, centers@) == i + slot_at(
                pointer_y as int,
                centers@.skip(i as int),
            ),
            slot_at(pointer_y as int, centers@.skip(i as int)) >= 0,
        decreases centers@.len() - i,
    {
        proof {
            assert(centers@.skip(i as int)[0] == centers@[i as int]);
            assert(centers@.skip(i as int).drop_first() =~= centers@.skip(i as int + 1));
            lemma_slot_at_range(pointer_y as int, centers@.skip(i as int + 1));
        }
        if pointer_y < centers[i] {
            return i;
        }
        i = i + 1;
    }
    proof {
        assert(centers@.skip(centers@.len() as int) =~= Seq::<i32>::empty());
    }
    i
}

/// Re-aims an active single-column drag at the slot under the pointer;
/// anything else is left alone.
pub fn update_target_single(g: &mut ReorderGesture, pointer: Option<(i32, i32)>, centers: &Vec<
    i32,
>)
    ensures
        ({
            match *old(g) {
                ReorderGesture::DragSingle { index, target } => {
                    match pointer {
                        Option::Some(p) => *final(g) == ReorderGesture::DragSingle {
                            index,
                            target: slot_at(p.1 as int, centers@) as usize,
                        },
                        Option::None => *final(g) == *old(g),
                    }
                },
                _ => *final(g) == *old(g),
            }
        }),
{
    let state = *g;
    match state {
        ReorderGesture::DragSingle { index, target: _ } => {
            match pointer {
                Option::Some(p) => {
                    let slot = slot_from_pointer(p.1, centers);
                    *g = ReorderGesture::DragSingle { index, target: slot };
                },
                Option::None => {},
            }
        },
        _ => {},
    }
}

/// Where a two-column drag aims for a pointer position: the left column
/// when the pointer is left of the boundary, else the right; within the
/// column, the slot under the pointer, clamped to that column's row
/// count.
pub open spec fn grid_target_at(
    px: int,
    py: int,
    boundary_x: int,
    left_centers: Seq<i32>,
    right_centers: Seq<i32>,
) -> (usize, usize) {
    if px < boundary_x {
        let s = slot_at(py, left_centers);
        (0usize, (if s <= left_centers.len() {
            s
        } else {
            left_centers.len() as int
        }) as usize)
    } else {
        let s = slot_at(py, right_centers);
        (1usize, (if s <= right_centers.len() {
            s
        } else {
            right_centers.len() as int
        }) as usize)
    }
}

/// Re-aims an active two-column drag at the (column, slot) pair under the
/// pointer; anything else is left alone.
pub fn update_target_grid(
    g: &mut ReorderGesture,
    pointer: Option<(i32, i32)>,
    boundary_x: i32,
    left_centers: &Vec<i32>,
    right_centers: &Vec<i32>,
)
    ensures
        ({
            match *old(g) {
                ReorderGesture::DragTwo { index, cell } => {
                    match pointer {
                        Option::Some(p) => *final(g) == ReorderGesture::DragTwo {
                            index,
                            cell: Option::Some(
                                grid_target_at(
                                    p.0 as int,
                                    p.1 as int,
                                    boundary_x as int,
                                    left_centers@,
                                    right_centers@,
                                ),
                            ),
                        },
                        Option::None => *final(g) == *old(g),
                    }
                },
                _ => *final(g) == *old(g),
            }
        }),
{
    let state = *g;
    match state {
        ReorderGesture::DragTwo { index, cell: _ } => {
            match pointer {
                Option::Some(p) => {
                    let t: (usize, usize) = if p.0 < boundary_x {
                        let s = slot_from_pointer(p.1, left_centers);
                        (0, s)
                    } else {
                        let s = slot_from_pointer(p.1, right_centers);
                        (1, s)
                    };
                    *g = ReorderGesture::DragTwo { index, cell: Option::Some(t) };
                },
                Option::None => {},
            }
        },
        _ => {},
    }
}

/// What releasing a two-column drag does to the column index lists: the
/// dragged index leaves the column that holds it and enters the target
/// column at the target slot, clamped to that column's new length; an
/// index in neither column changes nothing.
pub open spec fn two_column_move(
    left: Seq<usize>,
    right: Seq<usize>,
    from_idx: usize,
    target: Option<(usize, usize)>,
) -> (Seq<usize>, Seq<usize>) {
    match column_slot_of(from_idx, left, right) {
        Option::None => (left, right),
        Option::Some(from) => {
            let l1 = if from.0 == 0 {
                left.remove(from.1 as int)
            } else {
                left
            };
            let r1 = if from.0 == 0 {
                right
            } else {
                right.remove(from.1 as int)
            };
            let tgt = match target {
                Option::Some(t) => t,
                Option::None => from,
            };
            if tgt.0 == 0 {
                let at = if tgt.1 <= l1.len() {
                    tgt.1 as int
                } else {
                    l1.len() as int
                };
                (l1.insert(at, from_idx), r1)
            } else {
                let at = if tgt.1 <= r1.len() {
                    tgt.1 as int
                } else {
                    r1.len() as int
                };
                (l1, r1.insert(at, from_idx))
            }
        },
    }
}

/// Copies a list of indices.
fn indices_copy(v: &Vec<usize>) -> (r: Vec<usize>)
    ensures
        r@ == v@,
{
    let mut r: Vec<usize> = Vec::new();
    let mut i: usize = 0;
    while i < v.len()
        invariant
            i <= v@.len(),
            r@ == v@.take(i as int),
        decreases v@.len() - i,
    {
        r.push(v[i]);
        i = i + 1;
        proof {
            assert(v@.take(i as int) =~= v@.take(i - 1).push(v@[i - 1]));
        }
    }
    proof {
        assert(v@.take(v@.len() as int) =~= v@);
    }
    r
}

/// Applies a released two-column drag to the column index lists; see
/// [`two_column_move`]. Also hands back the (column, slot) the entry
/// landed at, or nothing when the entry was in neither column.
pub fn commit_two_column_move(
    left: &Vec<usize>,
    right: &Vec<usize>,
    from_idx: usize,
    target: Option<(usize, usize)>,
) -> (r: (Vec<usize>, Vec<usize>, Option<(usize, usize)>))
    ensures
        ({
            let spec = two_column_move(left@, right@, from_idx, target);
            &&& r.0@ == spec.0
            &&& r.1@ == spec.1
            &&& (r.2 is Some <==> column_slot_of(from_idx, left@, right@) is Some)
        }),
        r.2 matches Some(landed) ==> (if landed.0 == 0 {
            (landed.1 as int) < r.0@.len() && r.0@[landed.1 as int] == from_idx
        } else {
            landed.0 == 1 && (landed.1 as int) < r.1@.len() && r.1@[landed.1 as int] == from_idx
        }),
{
    let from = match crate::layout::find_column_slot(from_idx, left, right) {
        Option::Some(cs) => cs,
        Option::None => {
            return (indices_copy(left), indices_copy(right), Option::None);
        },
    };
    proof {
        crate::layout::lemma_first_pos_props(left@, from_idx);
        crate::layout::lemma_first_pos_props(right@, from_idx);
    }
    let mut l1 = indices_copy(left);
    let mut r1 = indices_copy(right);
    if from.0 == 0 {
        l1.remove(from.1);
    } else {
        r1.remove(from.1);
    }
    let tgt = match target {
        Option::Some(t) => t,
        Option::None => from,
    };
    if tgt.0 == 0 {
        let at = if tgt.1 <= l1.len() {
            tgt.1
        } else {
            l1.len()
        };
        l1.insert(at, from_idx);
        (l1, r1, Option::Some((0, at)))
    } else {
        let at = if tgt.1 <= r1.len() {
            tgt.1
        } else {
            r1.len()
        };
        r1.insert(at, from_idx);
        (l1, r1, Option::Some((1, at)))
    }
}

/// The collection index selected after a two-column move lands: the slot
/// within the left column, or the left column's length plus the slot for
/// the right one, clamped to the collection's last index.
pub fn selected_after_grid_move(landed: (usize, usize), left_len: usize, total: usize) -> (r:
    usize)
    requires
        landed.1 <= usize::MAX - left_len,
    ensures
        ({
            let raw = if landed.0 == 0 {
                landed.1 as int
            } else {
                left_len + landed.1
            };
            r as int == (if total == 0 {
                0
            } else if raw <= total - 1 {
                raw
            } else {
                total - 1
            })
        }),
{
    let raw = if landed.0 == 0 {
        landed.1
    } else {
        left_len + landed.1
    };
    if total == 0 {
        0
    } else if raw <= total - 1 {
        raw
    } else {
        total - 1
    }
}

} // verus!
