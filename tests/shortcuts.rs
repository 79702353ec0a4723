use murmure::shortcuts::{
    key_name_to_vk, keys_to_string, lower_key_name_to_vk, parse_binding_keys, vk_to_key_name,
    LastTranscriptShortcutKeys, RecordShortcutKeys, ShortcutState, TranscriptionSuspended,
};

#[test]
fn parses_simple_binding() {
    assert_eq!(parse_binding_keys("ctrl+space"), vec![0x11, 0x20]);
    assert_eq!(parse_binding_keys("ctrl+shift+space"), vec![0x11, 0x10, 0x20]);
}

#[test]
fn parsing_ignores_case_padding_and_repeats() {
    assert_eq!(parse_binding_keys(" Ctrl + Shift + A "), vec![0x11, 0x10, 0x41]);
    assert_eq!(parse_binding_keys("ctrl+control+x"), vec![0x11, 0x58]);
    assert_eq!(parse_binding_keys("F12"), vec![0x7B]);
    assert_eq!(parse_binding_keys("win+9"), vec![0x5B, 0x39]);
}

#[test]
fn unknown_names_are_skipped() {
    assert_eq!(parse_binding_keys("foo+bar"), Vec::<i32>::new());
    assert_eq!(parse_binding_keys(""), Vec::<i32>::new());
    assert_eq!(parse_binding_keys("ctrl++q"), vec![0x11, 0x51]);
}

#[test]
fn key_names_map_to_codes() {
    assert_eq!(key_name_to_vk("Esc"), Some(0x1B));
    assert_eq!(key_name_to_vk("CTRL"), Some(0x11));
    assert_eq!(key_name_to_vk("  pagedown "), Some(0x22));
    assert_eq!(key_name_to_vk("f13"), None);
    assert_eq!(key_name_to_vk("ab"), None);
    assert_eq!(key_name_to_vk("z"), Some(0x5A));
    assert_eq!(key_name_to_vk("0"), Some(0x30));
}

#[test]
fn codes_map_to_names() {
    assert_eq!(vk_to_key_name(0x0D), "enter");
    assert_eq!(vk_to_key_name(0x41), "a");
    assert_eq!(vk_to_key_name(0x35), "5");
    assert_eq!(vk_to_key_name(0x7B), "f12");
    assert_eq!(vk_to_key_name(0x70), "f1");
    assert_eq!(vk_to_key_name(999), "key999");
    assert_eq!(vk_to_key_name(-3), "key-3");
    assert_eq!(vk_to_key_name(i32::MIN), "key-2147483648");
}

#[test]
fn keys_join_with_plus() {
    assert_eq!(keys_to_string(&[0x11, 0x20]), "ctrl+space");
    assert_eq!(keys_to_string(&[0x5B, 0x41, 0x7A]), "win+a+f11");
    assert_eq!(keys_to_string(&[]), "");
    assert_eq!(keys_to_string(&parse_binding_keys("Shift+Up")), "shift+arrowup");
}

#[test]
fn shared_shortcut_state() {
    let mut r = RecordShortcutKeys::new(vec![0x11, 0x20]);
    assert_eq!(r.get(), vec![0x11, 0x20]);
    r.set(vec![0x10]);
    assert_eq!(r.get(), vec![0x10]);
    let mut l = LastTranscriptShortcutKeys::new(vec![]);
    assert!(l.get().is_empty());
    l.set(vec![0x12, 0x56]);
    assert_eq!(l.get(), vec![0x12, 0x56]);
    let mut s = TranscriptionSuspended::new(false);
    assert!(!s.get());
    s.set(true);
    assert!(s.get());
}

#[test]
fn poll_loop_starts_and_stops_recording() {
    let mut st = ShortcutState::new();
    let rec = [0x11, 0x20];
    let a = st.step(false, &rec, &[], &[0x20, 0x11]);
    assert!(a.start_recording && !a.stop_recording && !a.paste_last_transcript);
    let a = st.step(false, &rec, &[], &[0x20, 0x11, 0x41]);
    assert!(!a.start_recording && !a.stop_recording);
    let a = st.step(false, &rec, &[], &[0x11]);
    assert!(a.stop_recording && !a.start_recording);
    assert!(!st.is_recording);
}

#[test]
fn poll_loop_does_nothing_when_suspended_or_unbound() {
    let mut st = ShortcutState::new();
    let a = st.step(true, &[0x11], &[], &[0x11]);
    assert!(!a.start_recording);
    let a = st.step(false, &[], &[], &[0x11]);
    assert!(!a.start_recording);
    assert!(!st.is_recording);
}

#[test]
fn poll_loop_pastes_once_per_press() {
    let mut st = ShortcutState::new();
    let a = st.step(false, &[0x11], &[0x10], &[0x10]);
    assert!(a.paste_last_transcript);
    let a = st.step(false, &[0x11], &[0x10], &[0x10]);
    assert!(!a.paste_last_transcript);
    let _ = st.step(false, &[0x11], &[0x10], &[]);
    let a = st.step(false, &[0x11], &[0x10], &[0x10]);
    assert!(a.paste_last_transcript);
}

#[test]
fn lowercase_names_map_directly() {
    assert_eq!(lower_key_name_to_vk("ctrl"), Some(0x11));
    assert_eq!(lower_key_name_to_vk("CTRL"), None);
    assert_eq!(lower_key_name_to_vk(" ctrl"), None);
    assert_eq!(lower_key_name_to_vk("q"), Some(0x51));
    assert_eq!(lower_key_name_to_vk("7"), Some(0x37));
}
