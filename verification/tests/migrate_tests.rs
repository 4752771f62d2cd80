//! Startup migration of the persisted pin list.

use float_launcher::migrate::{
    build_pinned_from_config, dedupe_launch_meta, migrate_config_paths, pins_to_config,
    PinnedLaunchMeta, ShortcutResolution,
};
use float_launcher::pins::PinnedApp;

fn meta(path: &str, display: Option<&str>, args: Option<&str>, wd: Option<&str>) -> PinnedLaunchMeta {
    PinnedLaunchMeta {
        path: path.as_bytes().to_vec(),
        display_name: display.map(|s| s.as_bytes().to_vec()),
        args: args.map(|s| s.as_bytes().to_vec()),
        working_dir: wd.map(|s| s.as_bytes().to_vec()),
    }
}

#[test]
fn migrate_rewrites_shortcut_to_target_with_overrides() {
    let paths = vec![br"C:\Users\me\Tool.lnk".to_vec()];
    let metas: Vec<PinnedLaunchMeta> = Vec::new();
    let resolutions = vec![Some(ShortcutResolution {
        target_path: br"C:\Apps\tool.exe".to_vec(),
        arguments: Some(b"--migrated".to_vec()),
        working_dir: Some(br"C:\Apps".to_vec()),
    })];

    let (out_paths, out_meta) = migrate_config_paths(&paths, &metas, resolutions);
    assert_eq!(out_paths, vec![br"C:\Apps\tool.exe".to_vec()]);
    assert_eq!(out_meta.len(), 1);
    assert_eq!(out_meta[0].path, br"C:\Apps\tool.exe".to_vec());
    // The display name comes from the shortcut file's own stem.
    assert_eq!(out_meta[0].display_name, Some(b"Tool".to_vec()));
    assert_eq!(out_meta[0].args, Some(b"--migrated".to_vec()));
    assert_eq!(out_meta[0].working_dir, Some(br"C:\Apps".to_vec()));
}

#[test]
fn migrate_drops_duplicate_targets_keeping_the_first() {
    let paths = vec![
        br"C:\Apps\TOOL.exe".to_vec(),
        br"c:\apps\tool.exe".to_vec(),
        br"C:\Apps\other.exe".to_vec(),
    ];
    let metas: Vec<PinnedLaunchMeta> = Vec::new();
    let resolutions = vec![None, None, None];
    let (out_paths, out_meta) = migrate_config_paths(&paths, &metas, resolutions);
    assert_eq!(
        out_paths,
        vec![br"C:\Apps\TOOL.exe".to_vec(), br"C:\Apps\other.exe".to_vec()]
    );
    assert!(out_meta.is_empty());
}

#[test]
fn migrate_sheds_default_display_names() {
    let paths = vec![br"C:\Apps\tool.exe".to_vec()];
    let metas = vec![meta(r"C:\Apps\tool.exe", Some("tool"), None, None)];
    let resolutions = vec![None];
    let (out_paths, out_meta) = migrate_config_paths(&paths, &metas, resolutions);
    assert_eq!(out_paths.len(), 1);
    // "tool" is exactly the path's stem: no override survives.
    assert!(out_meta.is_empty());
}

#[test]
fn migrate_keeps_meaningful_overrides_by_last_matching_record() {
    let paths = vec![br"C:\Apps\tool.exe".to_vec()];
    let metas = vec![
        meta(r"C:\Apps\tool.exe", Some("Old"), None, None),
        meta(r"c:\apps\TOOL.EXE", Some(" Fancy Tool "), Some(" -x "), None),
    ];
    let resolutions = vec![None];
    let (_, out_meta) = migrate_config_paths(&paths, &metas, resolutions);
    assert_eq!(out_meta.len(), 1);
    assert_eq!(out_meta[0].display_name, Some(b"Fancy Tool".to_vec()));
    assert_eq!(out_meta[0].args, Some(b"-x".to_vec()));
}

#[test]
fn dedupe_keeps_first_record_per_key() {
    let items = vec![
        meta(r"C:\a.exe", Some("one"), None, None),
        meta(r"c:\A.EXE", Some("two"), None, None),
        meta(r"C:\b.exe", Some("three"), None, None),
    ];
    let out = dedupe_launch_meta(items);
    assert_eq!(out.len(), 2);
    assert_eq!(out[0].display_name, Some(b"one".to_vec()));
    assert_eq!(out[1].display_name, Some(b"three".to_vec()));
}

#[test]
fn pins_rebuild_from_config_with_overrides() {
    let paths = vec![br"C:\Apps\tool.exe".to_vec(), br"C:\Apps\bare.exe".to_vec()];
    let metas = vec![meta(
        r"c:\apps\tool.exe",
        Some("Fancy"),
        Some("--fast"),
        Some(r"C:\Work"),
    )];
    let apps = build_pinned_from_config(&paths, &metas);
    assert_eq!(apps.len(), 2);
    assert_eq!(apps[0].name, b"Fancy".to_vec());
    assert_eq!(apps[0].launch_args, Some(b"--fast".to_vec()));
    assert_eq!(apps[0].working_dir, Some(br"C:\Work".to_vec()));
    assert_eq!(apps[1].name, b"bare".to_vec());
    assert_eq!(apps[1].launch_args, None);
}

#[test]
fn pins_persist_only_departures_from_defaults() {
    let apps = vec![
        PinnedApp::new(br"C:\Apps\tool.exe".to_vec(), Some(b"tool".to_vec()), None, None),
        PinnedApp::new(
            br"C:\Apps\other.exe".to_vec(),
            Some(b"Nice".to_vec()),
            Some(b" -v ".to_vec()),
            None,
        ),
    ];
    let (paths, metas) = pins_to_config(&apps);
    assert_eq!(
        paths,
        vec![br"C:\Apps\tool.exe".to_vec(), br"C:\Apps\other.exe".to_vec()]
    );
    // The first pin restates its defaults and writes no override record.
    assert_eq!(metas.len(), 1);
    assert_eq!(metas[0].path, br"C:\Apps\other.exe".to_vec());
    assert_eq!(metas[0].display_name, Some(b"Nice".to_vec()));
    assert_eq!(metas[0].args, Some(b"-v".to_vec()));
}

#[test]
fn config_round_trip_preserves_pins() {
    let paths = vec![br"C:\Apps\a.exe".to_vec(), br"C:\Apps\b.exe".to_vec()];
    let metas = vec![meta(r"c:\apps\b.exe", Some("Bee"), Some("-b"), None)];
    let apps = build_pinned_from_config(&paths, &metas);
    let (paths2, metas2) = pins_to_config(&apps);
    assert_eq!(paths2, paths);
    let apps2 = build_pinned_from_config(&paths2, &metas2);
    assert_eq!(apps2.len(), apps.len());
    for (x, y) in apps.iter().zip(apps2.iter()) {
        assert_eq!(x.path, y.path);
        assert_eq!(x.name, y.name);
        assert_eq!(x.launch_args, y.launch_args);
        assert_eq!(x.working_dir, y.working_dir);
    }
}
