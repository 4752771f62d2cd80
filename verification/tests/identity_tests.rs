//! Identity keys, text normalization and path handling.

use float_launcher::keys::{
    default_display_name, is_lnk_path, is_supported_app_path, normalize_launch_key,
    normalize_path_key, normalize_text_opt, path_extension, path_file_stem, trim_bytes,
};
use float_launcher::pins::PinnedApp;

#[test]
fn launch_key_lowercases_path_and_workdir_and_trims_args() {
    let path = br"C:\Apps\Tool.EXE".to_vec();
    let args = b"  --flag value ".to_vec();
    let wd = br"D:\Work".to_vec();
    let key = normalize_launch_key(&path, Some(&args), Some(&wd));
    assert_eq!(key, br"c:\apps\tool.exe|--flag value|d:\work".to_vec());
}

#[test]
fn launch_key_of_bare_path_has_empty_parts() {
    let key = normalize_launch_key(&br"C:\a.exe".to_vec(), None, None);
    assert_eq!(key, br"c:\a.exe||".to_vec());
}

#[test]
fn path_key_is_case_insensitive() {
    assert_eq!(
        normalize_path_key(&br"C:\APPS\Tool.exe".to_vec()),
        normalize_path_key(&br"c:\apps\tool.EXE".to_vec())
    );
}

#[test]
fn trimming_and_text_normalization() {
    assert_eq!(trim_bytes(&b"  hello \t".to_vec()), b"hello".to_vec());
    assert_eq!(trim_bytes(&b"\r\n".to_vec()), b"".to_vec());
    assert_eq!(normalize_text_opt(&b"   ".to_vec()), None);
    assert_eq!(normalize_text_opt(&b" x ".to_vec()), Some(b"x".to_vec()));
}

#[test]
fn file_stem_and_extension() {
    assert_eq!(path_file_stem(&br"C:\Apps\Tool.exe".to_vec()), b"Tool".to_vec());
    assert_eq!(path_file_stem(&b"archive.tar.gz".to_vec()), b"archive.tar".to_vec());
    assert_eq!(path_file_stem(&b"noext".to_vec()), b"noext".to_vec());
    assert_eq!(path_file_stem(&b".hidden".to_vec()), b".hidden".to_vec());
    assert_eq!(
        path_extension(&br"C:\Apps\Tool.exe".to_vec()),
        Some(b"exe".to_vec())
    );
    assert_eq!(path_extension(&b"noext".to_vec()), None);
}

#[test]
fn default_display_name_is_the_stem() {
    assert_eq!(
        default_display_name(&br"C:\Apps\My Tool.exe".to_vec()),
        Some(b"My Tool".to_vec())
    );
    assert_eq!(default_display_name(&br"C:\Apps\".to_vec()), None);
}

#[test]
fn supported_paths_are_dirs_exes_and_shortcuts() {
    assert!(is_supported_app_path(&br"C:\Apps\a.EXE".to_vec(), false));
    assert!(is_supported_app_path(&br"C:\Apps\a.Lnk".to_vec(), false));
    assert!(is_supported_app_path(&br"C:\SomeFolder".to_vec(), true));
    assert!(!is_supported_app_path(&br"C:\notes.txt".to_vec(), false));
    assert!(!is_supported_app_path(&br"C:\no_extension".to_vec(), false));
}

#[test]
fn shortcut_detection_is_case_insensitive() {
    assert!(is_lnk_path(&br"C:\Apps\a.LNK".to_vec()));
    assert!(!is_lnk_path(&br"C:\Apps\a.exe".to_vec()));
    assert!(!is_lnk_path(&br"C:\Apps\lnk".to_vec()));
}

#[test]
fn pin_label_falls_back_from_override_to_stem_to_unknown() {
    let a = PinnedApp::new(br"C:\x\Run.exe".to_vec(), Some(b"Nice Name".to_vec()), None, None);
    assert_eq!(a.name, b"Nice Name".to_vec());
    let a = PinnedApp::new(br"C:\x\Run.exe".to_vec(), Some(b"   ".to_vec()), None, None);
    assert_eq!(a.name, b"Run".to_vec());
    let a = PinnedApp::new(br"C:\x\".to_vec(), None, None, None);
    assert_eq!(a.name, b"Unknown".to_vec());
}
