//! Application settings and the rules for changing them.
use vstd::prelude::*;
use crate::shortcuts::{binding_keys, key_names, keys_to_string, parse_binding_keys};
use crate::text::{chars_of, eq_lit, join_all};

verus! {

/// Lowest port the local HTTP API may listen on.
pub const MIN_API_PORT: u16 = 1024;

/// Why a settings change was refused.
#[derive(Clone, Copy, Debug, PartialEq, Eq, Structural)]
pub enum SettingsError {
    InvalidShortcut,
    InvalidOverlayMode,
    InvalidOverlayPosition,
    InvalidPort,
}

impl SettingsError {
    /// A short human-readable description.
    pub fn message(&self) -> &'static str {
        match self {
            SettingsError::InvalidShortcut => "Invalid shortcut",
            SettingsError::InvalidOverlayMode => "Invalid overlay mode",
            SettingsError::InvalidOverlayPosition => "Invalid overlay position",
            SettingsError::InvalidPort => "Port must be >= 1024",
        }
    }
}

/// The overlay modes: never shown, shown while recording, always shown.
pub open spec fn valid_overlay_mode(mode: Seq<char>) -> bool {
    mode == "hidden"@ || mode == "recording"@ || mode == "always"@
}

/// The overlay positions.
pub open spec fn valid_overlay_position(position: Seq<char>) -> bool {
    position == "top"@ || position == "bottom"@
}

/// The user's settings.
pub struct AppSettings {
    pub record_shortcut: String,
    pub last_transcript_shortcut: String,
    pub dictionary: Vec<String>,
    pub overlay_mode: String,
    pub overlay_position: String,
    pub api_enabled: bool,
    pub api_port: u16,
}

impl Default for AppSettings {
    fn default() -> (r: Self)
        ensures
            r.record_shortcut@ == "ctrl+space"@,
            r.last_transcript_shortcut@ == "ctrl+shift+space"@,
            r.dictionary@.len() == 0,
            r.overlay_mode@ == "recording"@,
            r.overlay_position@ == "bottom"@,
            !r.api_enabled,
            r.api_port == 4800,
    {
        AppSettings {
            record_shortcut: String::from_str("ctrl+space"),
            last_transcript_shortcut: String::from_str("ctrl+shift+space"),
            dictionary: Vec::new(),
            overlay_mode: String::from_str("recording"),
            overlay_position: String::from_str("bottom"),
            api_enabled: false,
            api_port: 4800,
        }
    }
}

/// The keys of a binding and its canonical text, or `None` when it names no
/// known key.
pub fn normalize_binding(binding: &str) -> (r: Option<(Vec<i32>, String)>)
    ensures
        r is None <==> binding_keys(binding@).len() == 0,
        r matches Some((keys, text)) ==> keys@ == binding_keys(binding@) && text@ == join_all(
            key_names(keys@),
            '+',
        ),
{
    let keys = parse_binding_keys(binding);
    if keys.len() == 0 {
        return None;
    }
    let text = keys_to_string(keys.as_slice());
    Some((keys, text))
}

impl AppSettings {
    /// Sets the recording shortcut to the canonical form of `binding` and
    /// returns its keys; a binding with no known key is refused.
    pub fn set_record_shortcut(&mut self, binding: &str) -> (r: Result<Vec<i32>, SettingsError>)
        ensures
            r is Err <==> binding_keys(binding@).len() == 0,
            r is Err ==> r == Err::<Vec<i32>, SettingsError>(SettingsError::InvalidShortcut)
                && final(self).record_shortcut@ == old(self).record_shortcut@,
            r matches Ok(keys) ==> keys@ == binding_keys(binding@)
                && final(self).record_shortcut@ == join_all(key_names(keys@), '+'),
            final(self).last_transcript_shortcut == old(self).last_transcript_shortcut,
    {
        match normalize_binding(binding) {
            None => Err(SettingsError::InvalidShortcut),
            Some((keys, text)) => {
                self.record_shortcut = text;
                Ok(keys)
            },
        }
    }

    /// Sets the last-transcript shortcut to the canonical form of `binding`
    /// and returns its keys; a binding with no known key is refused.
    pub fn set_last_transcript_shortcut(&mut self, binding: &str) -> (r: Result<
        Vec<i32>,
        SettingsError,
    >)
        ensures
            r is Err <==> binding_keys(binding@).len() == 0,
            r is Err ==> r == Err::<Vec<i32>, SettingsError>(SettingsError::InvalidShortcut)
                && final(self).last_transcript_shortcut@ == old(self).last_transcript_shortcut@,
            r matches Ok(keys) ==> keys@ == binding_keys(binding@)
                && final(self).last_transcript_shortcut@ == join_all(key_names(keys@), '+'),
            final(self).record_shortcut == old(self).record_shortcut,
    {
        match normalize_binding(binding) {
            None => Err(SettingsError::InvalidShortcut),
            Some((keys, text)) => {
                self.last_transcript_shortcut = text;
                Ok(keys)
            },
        }
    }

    /// Sets the overlay mode, which must be `hidden`, `recording` or
    /// `always`.
    pub fn set_overlay_mode(&mut self, mode: String) -> (r: Result<(), SettingsError>)
        ensures
            r is Ok <==> valid_overlay_mode(mode@),
            r is Ok ==> final(self).overlay_mode@ == mode@,
            r is Err ==> r == Err::<(), SettingsError>(SettingsError::InvalidOverlayMode)
                && final(self).overlay_mode@ == old(self).overlay_mode@,
    {
        let chars = chars_of(mode.as_str());
        if eq_lit(&chars, "hidden") || eq_lit(&chars, "recording") || eq_lit(&chars, "always") {
            self.overlay_mode = mode;
            Ok(())
        } else {
            Err(SettingsError::InvalidOverlayMode)
        }
    }

    /// Sets the overlay position, which must be `top` or `bottom`.
    pub fn set_overlay_position(&mut self, position: String) -> (r: Result<(), SettingsError>)
        ensures
            r is Ok <==> valid_overlay_position(position@),
            r is Ok ==> final(self).overlay_position@ == position@,
            r is Err ==> r == Err::<(), SettingsError>(SettingsError::InvalidOverlayPosition)
                && final(self).overlay_position@ == old(self).overlay_position@,
    {
        let chars = chars_of(position.as_str());
        if eq_lit(&chars, "top") || eq_lit(&chars, "bottom") {
            self.overlay_position = position;
            Ok(())
        } else {
            Err(SettingsError::InvalidOverlayPosition)
        }
    }

    /// Sets the HTTP API port, which must not be a privileged one.
    pub fn set_api_port(&mut self, port: u16) -> (r: Result<(), SettingsError>)
        ensures
            r is Ok <==> port >= MIN_API_PORT,
            r is Ok ==> final(self).api_port == port,
            r is Err ==> r == Err::<(), SettingsError>(SettingsError::InvalidPort)
                && final(self).api_port == old(self).api_port,
    {
        if port < MIN_API_PORT {
            return Err(SettingsError::InvalidPort);
        }
        self.api_port = port;
        Ok(())
    }

    /// Whether the overlay is shown while recording only.
    pub fn overlay_follows_recording(&self) -> (r: bool)
        ensures
            r == (self.overlay_mode@ == "recording"@),
    {
        let chars = chars_of(self.overlay_mode.as_str());
        eq_lit(&chars, "recording")
    }
}

} // verus!
