//! Two-column reconciliation against the live collection.

use float_launcher::layout::{
    find_column_slot, resolve_two_column_indices, sync_two_column_layout,
    two_column_layout_from_split, TwoColumnEntry, TwoColumnLayout,
};
use float_launcher::pins::{PinnedApp, PinnedCollection};

fn make_app(name: &str) -> PinnedApp {
    PinnedApp::new(
        format!(r"C:\\Apps\\{name}.exe").into_bytes(),
        Some(name.as_bytes().to_vec()),
        None,
        None,
    )
}

fn make_entry(name: &str) -> TwoColumnEntry {
    TwoColumnEntry::from_launch(format!(r"C:\\Apps\\{name}.exe").into_bytes(), None, None)
}

fn names(apps: &[PinnedApp]) -> Vec<String> {
    apps.iter()
        .map(|app| String::from_utf8(app.name.clone()).unwrap())
        .collect()
}

#[test]
fn two_column_layout_restores_saved_right_column() {
    let apps = vec![make_app("A"), make_app("B"), make_app("C"), make_app("D")];
    let mut col = PinnedCollection::from_apps(apps);
    let saved_layout = TwoColumnLayout {
        left: vec![make_entry("A"), make_entry("C")],
        right: vec![make_entry("B"), make_entry("D")],
    };

    let (left, right) = resolve_two_column_indices(&col.apps, Some(&saved_layout));
    assert_eq!(left, vec![0, 2]);
    assert_eq!(right, vec![1, 3]);

    float_launcher::layout::reorder_pinned_apps_by_columns(&mut col, &left, &right);
    assert_eq!(names(&col.apps), vec!["A", "C", "B", "D"]);

    let (left_again, right_again) = resolve_two_column_indices(&col.apps, Some(&saved_layout));
    assert_eq!(left_again, vec![0, 1]);
    assert_eq!(right_again, vec![2, 3]);
}

#[test]
fn unseen_apps_are_appended_to_left_column() {
    let apps = vec![
        make_app("A"),
        make_app("C"),
        make_app("B"),
        make_app("D"),
        make_app("E"),
    ];
    let saved_layout = TwoColumnLayout {
        left: vec![make_entry("A"), make_entry("C")],
        right: vec![make_entry("B"), make_entry("D")],
    };

    let (left, right) = resolve_two_column_indices(&apps, Some(&saved_layout));
    assert_eq!(left, vec![0, 1, 4]);
    assert_eq!(right, vec![2, 3]);
}

#[test]
fn missing_layout_splits_alternately() {
    let apps = vec![make_app("A"), make_app("B"), make_app("C"), make_app("D"), make_app("E")];
    let (left, right) = resolve_two_column_indices(&apps, None);
    assert_eq!(left, vec![0, 2, 4]);
    assert_eq!(right, vec![1, 3]);
}

#[test]
fn stale_layout_keys_are_dropped() {
    let apps = vec![make_app("A"), make_app("B")];
    let saved_layout = TwoColumnLayout {
        left: vec![make_entry("GONE"), make_entry("B")],
        right: vec![make_entry("A")],
    };
    let (left, right) = resolve_two_column_indices(&apps, Some(&saved_layout));
    assert_eq!(left, vec![1]);
    assert_eq!(right, vec![0]);
}

#[test]
fn resolve_covers_every_live_index_once() {
    let apps = vec![make_app("A"), make_app("B"), make_app("C")];
    let saved_layout = TwoColumnLayout {
        left: vec![make_entry("C")],
        right: vec![make_entry("X")],
    };
    let (left, right) = resolve_two_column_indices(&apps, Some(&saved_layout));
    let mut all: Vec<usize> = left.iter().chain(right.iter()).copied().collect();
    all.sort();
    assert_eq!(all, vec![0, 1, 2]);
}

#[test]
fn reconcile_twice_is_stable() {
    let apps = vec![make_app("A"), make_app("B"), make_app("C"), make_app("D"), make_app("E")];
    let mut col = PinnedCollection::from_apps(apps);
    let saved_layout = TwoColumnLayout {
        left: vec![make_entry("D"), make_entry("A")],
        right: vec![make_entry("E"), make_entry("B")],
    };

    let derived = sync_two_column_layout(&mut col, Some(&saved_layout));
    let order_once = names(&col.apps);

    let derived_again = sync_two_column_layout(&mut col, Some(&derived));
    assert_eq!(names(&col.apps), order_once);
    assert_eq!(derived_again.left.len(), derived.left.len());
    for (a, b) in derived.left.iter().zip(derived_again.left.iter()) {
        assert_eq!(a.key(), b.key());
    }
    for (a, b) in derived.right.iter().zip(derived_again.right.iter()) {
        assert_eq!(a.key(), b.key());
    }
}

#[test]
fn round_trip_reproduces_layout_keys() {
    let apps = vec![make_app("A"), make_app("B"), make_app("C"), make_app("D")];
    let mut col = PinnedCollection::from_apps(apps);
    let saved_layout = TwoColumnLayout {
        left: vec![make_entry("C"), make_entry("A")],
        right: vec![make_entry("D"), make_entry("B")],
    };

    let (left, right) = resolve_two_column_indices(&col.apps, Some(&saved_layout));
    float_launcher::layout::reorder_pinned_apps_by_columns(&mut col, &left, &right);
    let derived = two_column_layout_from_split(&col.apps, left.len());

    let saved_left: Vec<Vec<u8>> = saved_layout.left.iter().map(|e| e.key()).collect();
    let saved_right: Vec<Vec<u8>> = saved_layout.right.iter().map(|e| e.key()).collect();
    let derived_left: Vec<Vec<u8>> = derived.left.iter().map(|e| e.key()).collect();
    let derived_right: Vec<Vec<u8>> = derived.right.iter().map(|e| e.key()).collect();
    assert_eq!(derived_left, saved_left);
    assert_eq!(derived_right, saved_right);
}

#[test]
fn duplicate_persisted_keys_match_at_most_once() {
    let apps = vec![make_app("A"), make_app("B")];
    let saved_layout = TwoColumnLayout {
        left: vec![make_entry("A"), make_entry("A")],
        right: vec![make_entry("B")],
    };
    let (left, right) = resolve_two_column_indices(&apps, Some(&saved_layout));
    assert_eq!(left, vec![0]);
    assert_eq!(right, vec![1]);
}

#[test]
fn empty_collection_resolves_to_empty_columns() {
    let apps: Vec<PinnedApp> = Vec::new();
    let saved_layout = TwoColumnLayout {
        left: vec![make_entry("A")],
        right: vec![],
    };
    let (left, right) = resolve_two_column_indices(&apps, Some(&saved_layout));
    assert!(left.is_empty());
    assert!(right.is_empty());
}

#[test]
fn column_slot_finds_left_before_right() {
    let left = vec![3usize, 1];
    let right = vec![2usize, 0];
    assert_eq!(find_column_slot(1, &left, &right), Some((0, 1)));
    assert_eq!(find_column_slot(0, &left, &right), Some((1, 1)));
    assert_eq!(find_column_slot(7, &left, &right), None);
}
