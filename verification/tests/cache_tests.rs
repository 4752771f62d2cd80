//! Icon cache naming, framing, and intent transitions.

use float_launcher::events::{runtime_transition, RuntimeAction};
use float_launcher::icons::{
    clamp_icon_side, encode_icon_cache_header, hex16_digits, icon_cache_file_name,
    normalize_icon_name_key, parse_icon_cache_header, stable_hash64,
};

#[test]
fn stable_hash_matches_known_values() {
    // The offset basis for empty input, and the published value for "a".
    assert_eq!(stable_hash64(&Vec::new()), 0xcbf29ce484222325);
    assert_eq!(stable_hash64(&b"a".to_vec()), 0xaf63dc4c8601ec8c);
}

#[test]
fn stable_hash_is_stable_across_calls() {
    let p = br"C:\Apps\tool.exe".to_vec();
    assert_eq!(stable_hash64(&p), stable_hash64(&p));
    assert_ne!(stable_hash64(&p), stable_hash64(&br"C:\Apps\other.exe".to_vec()));
}

#[test]
fn cache_file_name_is_hex_hash_with_suffix() {
    let p = br"C:\Apps\tool.exe".to_vec();
    let k = stable_hash64(&p);
    let expected = format!("{k:016x}.rgba").into_bytes();
    assert_eq!(icon_cache_file_name(&p), expected);
    assert_eq!(hex16_digits(0xdeadbeef), format!("{:016x}", 0xdeadbeefu64).into_bytes());
}

#[test]
fn cache_header_round_trips() {
    let h = encode_icon_cache_header(64, 64, 64 * 64 * 4);
    assert_eq!(h.len(), 16);
    assert_eq!(&h[0..4], b"FLI2");
    assert_eq!(parse_icon_cache_header(&h), Some((64, 64, 64 * 64 * 4)));
}

#[test]
fn cache_header_rejects_bad_frames() {
    // Wrong magic.
    let mut h = encode_icon_cache_header(8, 8, 256);
    h[0] = b'X';
    assert_eq!(parse_icon_cache_header(&h), None);
    // Length that does not match the dimensions.
    let h = encode_icon_cache_header(8, 8, 255);
    assert_eq!(parse_icon_cache_header(&h), None);
    // Truncated header.
    assert_eq!(parse_icon_cache_header(&vec![0u8; 15]), None);
}

#[test]
fn icon_name_keys_normalize() {
    assert_eq!(normalize_icon_name_key(&b" My Tool.ICO ".to_vec()), Some(b"my tool".to_vec()));
    assert_eq!(normalize_icon_name_key(&b"plain".to_vec()), Some(b"plain".to_vec()));
    assert_eq!(normalize_icon_name_key(&b"  ".to_vec()), None);
    assert_eq!(normalize_icon_name_key(&b".ico".to_vec()), None);
}

#[test]
fn icon_side_clamps_to_supported_range() {
    assert_eq!(clamp_icon_side(1), 16);
    assert_eq!(clamp_icon_side(48), 48);
    assert_eq!(clamp_icon_side(1024), 256);
}

#[test]
fn runtime_actions_drive_visibility() {
    let s = runtime_transition(RuntimeAction::Show, false);
    assert!(s.visible && s.emit_show && !s.emit_hide && !s.quit);
    let s = runtime_transition(RuntimeAction::Hide, true);
    assert!(!s.visible && !s.emit_show && s.emit_hide && !s.quit);
    // Hiding an already-hidden dock does nothing.
    let s = runtime_transition(RuntimeAction::Hide, false);
    assert!(!s.visible && !s.emit_show && !s.emit_hide && !s.quit);
    let s = runtime_transition(RuntimeAction::Toggle, true);
    assert!(!s.visible && s.emit_hide);
    let s = runtime_transition(RuntimeAction::Toggle, false);
    assert!(s.visible && s.emit_show);
    let s = runtime_transition(RuntimeAction::Quit, true);
    assert!(s.quit && s.visible);
}
