//! The pinned collection: ceiling, deduplication, reorder, removal.

use float_launcher::pins::{
    adjust_selection_after_remove, classify_pin_rejection, AddPinResult, IconState, PinnedApp,
    PinnedCollection, MAX_PINNED_APPS,
};

fn pin(path: &str) -> PinnedApp {
    PinnedApp::from_path(path.as_bytes().to_vec())
}

#[test]
fn pin_ceiling_rejects_twenty_first() {
    let mut col = PinnedCollection::new();
    for i in 0..20 {
        let r = col.try_add(pin(&format!(r"C:\Apps\tool_{i}.exe")));
        assert_eq!(r, AddPinResult::Added);
    }
    assert_eq!(col.len(), MAX_PINNED_APPS);
    let r = col.try_add(pin(r"C:\Apps\one_more.exe"));
    assert_eq!(r, AddPinResult::LimitReached);
    assert_eq!(col.len(), 20);
}

#[test]
fn duplicate_key_rejected_without_length_change() {
    let mut col = PinnedCollection::new();
    assert_eq!(col.try_add(pin(r"C:\Apps\Tool.exe")), AddPinResult::Added);
    // Same key after case folding: the same logical pin.
    assert_eq!(col.try_add(pin(r"c:\apps\TOOL.EXE")), AddPinResult::Duplicate);
    assert_eq!(col.len(), 1);
}

#[test]
fn args_distinguish_pins_with_equal_paths() {
    let mut col = PinnedCollection::new();
    let a = PinnedApp::new(b"C:\\Apps\\tool.exe".to_vec(), None, Some(b"--a".to_vec()), None);
    let b = PinnedApp::new(b"C:\\Apps\\tool.exe".to_vec(), None, Some(b"--b".to_vec()), None);
    assert_eq!(col.try_add(a), AddPinResult::Added);
    assert_eq!(col.try_add(b), AddPinResult::Added);
    assert_eq!(col.len(), 2);
}

#[test]
fn reorder_applies_exact_permutation() {
    let mut col = PinnedCollection::new();
    for name in ["a", "b", "c", "d"] {
        col.try_add(pin(&format!(r"C:\Apps\{name}.exe")));
    }
    let applied = col.reorder(&vec![2, 0, 3, 1]);
    assert!(applied);
    let paths: Vec<&[u8]> = col.apps.iter().map(|a| a.path.as_slice()).collect();
    assert_eq!(
        paths,
        vec![
            br"C:\Apps\c.exe".as_slice(),
            br"C:\Apps\a.exe".as_slice(),
            br"C:\Apps\d.exe".as_slice(),
            br"C:\Apps\b.exe".as_slice(),
        ]
    );
}

#[test]
fn reorder_rejects_non_permutations() {
    let mut col = PinnedCollection::new();
    for name in ["a", "b", "c"] {
        col.try_add(pin(&format!(r"C:\Apps\{name}.exe")));
    }
    let before: Vec<Vec<u8>> = col.apps.iter().map(|a| a.path.clone()).collect();

    assert!(!col.reorder(&vec![0, 1]));
    assert!(!col.reorder(&vec![0, 1, 1]));
    assert!(!col.reorder(&vec![0, 1, 3]));
    assert!(!col.reorder(&vec![0, 1, 2, 2]));

    let after: Vec<Vec<u8>> = col.apps.iter().map(|a| a.path.clone()).collect();
    assert_eq!(before, after);
}

#[test]
fn removal_shifts_and_selection_adjusts() {
    let mut col = PinnedCollection::new();
    for name in ["a", "b", "c"] {
        col.try_add(pin(&format!(r"C:\Apps\{name}.exe")));
    }
    let removed = col.remove_at(1);
    assert_eq!(removed.path, br"C:\Apps\b.exe".to_vec());
    assert_eq!(col.len(), 2);

    assert_eq!(adjust_selection_after_remove(None, 1), None);
    assert_eq!(adjust_selection_after_remove(Some(1), 1), None);
    assert_eq!(adjust_selection_after_remove(Some(2), 1), Some(1));
    assert_eq!(adjust_selection_after_remove(Some(0), 1), Some(0));
}

#[test]
fn icon_state_advances_and_stale_results_are_discarded() {
    let mut col = PinnedCollection::new();
    col.try_add(pin(r"C:\Apps\a.exe"));
    col.try_add(pin(r"C:\Apps\b.exe"));

    let req = col.take_icon_request(0, 48);
    let req = req.expect("first request should be handed out");
    assert_eq!(req.path, br"C:\Apps\a.exe".to_vec());
    assert_eq!(req.size, 48);
    assert!(matches!(col.apps[0].icon_state, IconState::Requested));
    assert!(col.take_icon_request(0, 48).is_none());

    col.apply_icon_ready(&br"C:\Apps\a.exe".to_vec(), true);
    assert!(matches!(col.apps[0].icon_state, IconState::Loaded));
    assert!(matches!(col.apps[1].icon_state, IconState::NotRequested));

    // A result for a pin that no longer exists changes nothing.
    col.apply_icon_ready(&br"C:\Apps\gone.exe".to_vec(), true);
    assert!(matches!(col.apps[1].icon_state, IconState::NotRequested));

    // A result without an image advances nothing.
    col.apply_icon_ready(&br"C:\Apps\b.exe".to_vec(), false);
    assert!(matches!(col.apps[1].icon_state, IconState::NotRequested));
}

#[test]
fn add_pin_gate_checks_in_order() {
    assert_eq!(
        classify_pin_rejection(20, false, false, false, false),
        Some(AddPinResult::LimitReached)
    );
    assert_eq!(
        classify_pin_rejection(3, false, true, false, false),
        Some(AddPinResult::Missing)
    );
    assert_eq!(
        classify_pin_rejection(3, true, true, false, true),
        Some(AddPinResult::ShortcutUnresolved)
    );
    assert_eq!(
        classify_pin_rejection(3, true, false, false, false),
        Some(AddPinResult::Unsupported)
    );
    assert_eq!(classify_pin_rejection(3, true, true, true, true), None);
}

#[test]
fn loading_drops_duplicates_and_caps_at_ceiling() {
    let mut apps = Vec::new();
    for i in 0..25 {
        apps.push(pin(&format!(r"C:\Apps\tool_{}.exe", i % 22)));
    }
    let col = PinnedCollection::from_apps(apps);
    assert_eq!(col.len(), 20);
    let first: Vec<Vec<u8>> = col.apps.iter().map(|a| a.path.clone()).collect();
    for (i, p) in first.iter().enumerate() {
        assert_eq!(*p, format!(r"C:\Apps\tool_{i}.exe").into_bytes());
    }
}
