use murmure::dictionary::Dictionary;
use murmure::history::{HistoryData, MAX_HISTORY_ENTRIES};
use murmure::settings::{normalize_binding, AppSettings, SettingsError};

#[test]
fn default_settings() {
    let s = AppSettings::default();
    assert_eq!(s.record_shortcut, "ctrl+space");
    assert_eq!(s.last_transcript_shortcut, "ctrl+shift+space");
    assert!(s.dictionary.is_empty());
    assert_eq!(s.overlay_mode, "recording");
    assert_eq!(s.overlay_position, "bottom");
    assert!(!s.api_enabled);
    assert_eq!(s.api_port, 4800);
    assert!(s.overlay_follows_recording());
}

#[test]
fn shortcut_is_normalized() {
    let mut s = AppSettings::default();
    assert_eq!(s.set_record_shortcut(" Shift + CTRL + a"), Ok(vec![0x10, 0x11, 0x41]));
    assert_eq!(s.record_shortcut, "shift+ctrl+a");
    assert_eq!(s.set_record_shortcut("nope"), Err(SettingsError::InvalidShortcut));
    assert_eq!(s.record_shortcut, "shift+ctrl+a");
    assert_eq!(s.set_last_transcript_shortcut("alt+v"), Ok(vec![0x12, 0x56]));
    assert_eq!(s.last_transcript_shortcut, "alt+v");
    assert_eq!(normalize_binding("+"), None);
    assert_eq!(normalize_binding("Return"), Some((vec![0x0D], "enter".to_string())));
}

#[test]
fn overlay_settings_are_checked() {
    let mut s = AppSettings::default();
    assert_eq!(s.set_overlay_mode("always".to_string()), Ok(()));
    assert_eq!(s.overlay_mode, "always");
    assert!(!s.overlay_follows_recording());
    assert_eq!(s.set_overlay_mode("sideways".to_string()), Err(SettingsError::InvalidOverlayMode));
    assert_eq!(s.overlay_mode, "always");
    assert_eq!(s.set_overlay_position("top".to_string()), Ok(()));
    assert_eq!(s.set_overlay_position("left".to_string()), Err(SettingsError::InvalidOverlayPosition));
    assert_eq!(s.overlay_position, "top");
}

#[test]
fn api_port_must_not_be_privileged() {
    let mut s = AppSettings::default();
    assert_eq!(s.set_api_port(80), Err(SettingsError::InvalidPort));
    assert_eq!(s.api_port, 4800);
    assert_eq!(s.set_api_port(1024), Ok(()));
    assert_eq!(s.api_port, 1024);
    assert_eq!(SettingsError::InvalidPort.message(), "Port must be >= 1024");
}

#[test]
fn history_keeps_newest_five() {
    let mut h = HistoryData::default();
    assert_eq!(h.get_last_transcription(), None);
    for i in 0..6 {
        h.add_transcription(100 + i, format!("text {}", i));
    }
    assert_eq!(h.entries.len(), MAX_HISTORY_ENTRIES);
    assert_eq!(h.entries[0].id, 6);
    assert_eq!(h.entries[0].timestamp, 105);
    assert_eq!(h.entries[4].id, 2);
    assert_eq!(h.next_id, 7);
    assert_eq!(h.get_last_transcription(), Some("text 5".to_string()));
}

#[test]
fn dictionary_holds_words() {
    let mut d = Dictionary::new(vec!["Murmure".to_string()]);
    assert_eq!(d.get(), vec!["Murmure".to_string()]);
    d.set(vec![]);
    assert!(d.get().is_empty());
}
