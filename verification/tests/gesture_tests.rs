//! Press-and-hold drag detection, slot mapping, and drop commits.

use float_launcher::anim::{begin_drop, commit_drop, drop_anim_done, DROP_ANIM_MS};
use float_launcher::pins::{PinnedApp, PinnedCollection};
use float_launcher::reorder::{
    commit_two_column_move, press_down, press_poll_grid, press_poll_single, selected_after_grid_move,
    slot_from_pointer, update_target_single, ReorderGesture, REORDER_HOLD_MS,
};

fn pin(path: &str) -> PinnedApp {
    PinnedApp::from_path(path.as_bytes().to_vec())
}

fn three_pins() -> PinnedCollection {
    let mut col = PinnedCollection::new();
    for name in ["a", "b", "c"] {
        col.try_add(pin(&format!(r"C:\Apps\{name}.exe")));
    }
    col
}

#[test]
fn press_becomes_drag_after_hold() {
    let mut g = ReorderGesture::Idle;
    press_down(&mut g, 1, 1000, 50, 50);
    assert!(matches!(g, ReorderGesture::Press { index: 1, .. }));

    // Still held, within tolerance, before the threshold: no drag yet.
    press_poll_single(&mut g, 1000 + REORDER_HOLD_MS - 1, Some((55, 52)), true, 3);
    assert!(matches!(g, ReorderGesture::Press { .. }));

    // Threshold reached: the drag starts at the entry's own slot.
    press_poll_single(&mut g, 1000 + REORDER_HOLD_MS, Some((55, 52)), true, 3);
    assert!(matches!(g, ReorderGesture::DragSingle { index: 1, target: 1 }));
}

#[test]
fn early_release_is_a_click() {
    let mut g = ReorderGesture::Idle;
    press_down(&mut g, 0, 1000, 50, 50);
    press_poll_single(&mut g, 1100, Some((50, 50)), false, 3);
    assert!(matches!(g, ReorderGesture::Idle));
}

#[test]
fn excess_movement_cancels_the_press() {
    let mut g = ReorderGesture::Idle;
    press_down(&mut g, 0, 1000, 50, 50);
    // 13 px right and 13 px down: farther than 18 px from the start.
    press_poll_single(&mut g, 1050, Some((63, 63)), true, 3);
    assert!(matches!(g, ReorderGesture::Idle));
    // 18 px straight down is exactly the tolerance and survives.
    let mut g = ReorderGesture::Idle;
    press_down(&mut g, 0, 1000, 50, 50);
    press_poll_single(&mut g, 1050, Some((50, 68)), true, 3);
    assert!(matches!(g, ReorderGesture::Press { .. }));
}

#[test]
fn pointer_maps_to_first_row_center_below() {
    let centers = vec![100, 200, 300];
    assert_eq!(slot_from_pointer(50, &centers), 0);
    assert_eq!(slot_from_pointer(150, &centers), 1);
    assert_eq!(slot_from_pointer(250, &centers), 2);
    assert_eq!(slot_from_pointer(350, &centers), 3);
    assert_eq!(slot_from_pointer(100, &centers), 1);
    assert_eq!(slot_from_pointer(0, &Vec::new()), 0);
}

#[test]
fn drag_target_follows_pointer() {
    let mut g = ReorderGesture::DragSingle { index: 0, target: 0 };
    update_target_single(&mut g, Some((10, 250)), &vec![100, 200, 300]);
    assert!(matches!(g, ReorderGesture::DragSingle { index: 0, target: 2 }));
}

#[test]
fn drop_animation_nets_no_length_change() {
    let mut col = three_pins();
    let anim = begin_drop(&mut col, 0, 2, 5000, 120, 40);
    assert_eq!(col.len(), 2);
    assert_eq!(anim.insert_at, 2);
    assert!(!drop_anim_done(&anim, 5000 + DROP_ANIM_MS - 1));
    assert!(drop_anim_done(&anim, 5000 + DROP_ANIM_MS));
    let at = commit_drop(&mut col, anim);
    assert_eq!(at, 2);
    assert_eq!(col.len(), 3);
    let paths: Vec<&[u8]> = col.apps.iter().map(|a| a.path.as_slice()).collect();
    assert_eq!(
        paths,
        vec![
            br"C:\Apps\b.exe".as_slice(),
            br"C:\Apps\c.exe".as_slice(),
            br"C:\Apps\a.exe".as_slice(),
        ]
    );
}

#[test]
fn drop_commit_clamps_after_concurrent_removal() {
    let mut col = three_pins();
    let anim = begin_drop(&mut col, 0, 2, 5000, 120, 40);
    // An unrelated removal shrinks the collection while the animation runs.
    col.remove_at(1);
    assert_eq!(col.len(), 1);
    let at = commit_drop(&mut col, anim);
    assert_eq!(at, 1);
    assert_eq!(col.len(), 2);
    assert_eq!(col.apps[1].path, br"C:\Apps\a.exe".to_vec());
}

#[test]
fn grid_press_starts_at_own_cell() {
    let mut g = ReorderGesture::Idle;
    press_down(&mut g, 2, 1000, 50, 50);
    let left = vec![0usize, 2];
    let right = vec![1usize];
    press_poll_grid(&mut g, 1000 + REORDER_HOLD_MS, Some((51, 51)), true, &left, &right);
    assert!(matches!(g, ReorderGesture::DragTwo { index: 2, cell: Some((0, 1)) }));
}

#[test]
fn grid_release_moves_between_columns() {
    let left = vec![0usize, 2];
    let right = vec![1usize];
    // Move entry 2 from the left column to the top of the right one.
    let (l, r, landed) = commit_two_column_move(&left, &right, 2, Some((1, 0)));
    assert_eq!(l, vec![0]);
    assert_eq!(r, vec![2, 1]);
    assert_eq!(landed, Some((1, 0)));
    assert_eq!(selected_after_grid_move((1, 0), l.len(), 3), 1);

    // A slot past the end is clamped to an append.
    let (l, r, landed) = commit_two_column_move(&left, &right, 0, Some((1, 9)));
    assert_eq!(l, vec![2]);
    assert_eq!(r, vec![1, 0]);
    assert_eq!(landed, Some((1, 1)));

    // Without a resolved target the entry returns to its own cell.
    let (l, r, _) = commit_two_column_move(&left, &right, 2, None);
    assert_eq!(l, vec![0, 2]);
    assert_eq!(r, vec![1]);

    // An index in neither column changes nothing.
    let (l, r, landed) = commit_two_column_move(&left, &right, 9, Some((0, 0)));
    assert_eq!((l, r, landed), (vec![0, 2], vec![1], None));
}
