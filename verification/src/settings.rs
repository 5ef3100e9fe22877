//! The persisted settings object, its defaults, its serialized form, and
//! the game-filter marker-file toggle.

use vstd::prelude::*;

use crate::text::{chars_of, push_all, string_from_chars};

verus! {

/// The handful of booleans the application persists beside its executable.
#[derive(Clone, Copy, Debug, PartialEq, Eq, Structural)]
pub struct Settings {
    /// Start with the operating system.
    pub auto_start: bool,
    /// Show notifications.
    pub notifications: bool,
    /// Keep running in the tray when the window closes.
    pub minimize_to_tray: bool,
    /// Animate the user interface.
    pub animation_enabled: bool,
    /// Open the developer tools.
    pub devtools: bool,
    /// Match the wide game port range.
    pub game_filter: bool,
}

/// The settings used when nothing was stored or the stored text does not
/// parse.
pub open spec fn default_settings() -> Settings {
    Settings {
        auto_start: false,
        notifications: true,
        minimize_to_tray: true,
        animation_enabled: true,
        devtools: false,
        game_filter: false,
    }
}

/// The stored settings, or the defaults when nothing usable was stored.
pub fn load_settings(parsed: Option<Settings>) -> (r: Settings)
    ensures
        match parsed {
            Some(s) => r == s,
            None => r == default_settings(),
        },
{
    match parsed {
        Some(s) => s,
        None => Settings {
            auto_start: false,
            notifications: true,
            minimize_to_tray: true,
            animation_enabled: true,
            devtools: false,
            game_filter: false,
        },
    }
}

/// The text of a boolean in the serialized form.
pub open spec fn bool_text(b: bool) -> Seq<char> {
    if b {
        "true"@
    } else {
        "false"@
    }
}

/// The serialized settings: one object with the fields in declaration
/// order, two-space indentation, names in camel case.
pub open spec fn settings_json(s: Settings) -> Seq<char> {
    "{\n  \"autoStart\": "@ + bool_text(s.auto_start) + ",\n  \"notifications\": "@ + bool_text(
        s.notifications,
    ) + ",\n  \"minimizeToTray\": "@ + bool_text(s.minimize_to_tray)
        + ",\n  \"animationEnabled\": "@ + bool_text(s.animation_enabled) + ",\n  \"devtools\": "@
        + bool_text(s.devtools) + ",\n  \"gameFilter\": "@ + bool_text(s.game_filter) + "\n}"@
}

fn push_bool(out: &mut Vec<char>, b: bool)
    ensures
        final(out)@ == old(out)@ + bool_text(b),
{
    let t = if b {
        chars_of("true")
    } else {
        chars_of("false")
    };
    push_all(out, &t);
}

/// The serialized form of the settings, ready to be written to disk.
pub fn save_settings(s: &Settings) -> (r: String)
    ensures
        r@ == settings_json(*s),
{
    let mut out = chars_of("{\n  \"autoStart\": ");
    push_bool(&mut out, s.auto_start);
    let p1 = chars_of(",\n  \"notifications\": ");
    push_all(&mut out, &p1);
    push_bool(&mut out, s.notifications);
    let p2 = chars_of(",\n  \"minimizeToTray\": ");
    push_all(&mut out, &p2);
    push_bool(&mut out, s.minimize_to_tray);
    let p3 = chars_of(",\n  \"animationEnabled\": ");
    push_all(&mut out, &p3);
    push_bool(&mut out, s.animation_enabled);
    let p4 = chars_of(",\n  \"devtools\": ");
    push_all(&mut out, &p4);
    push_bool(&mut out, s.devtools);
    let p5 = chars_of(",\n  \"gameFilter\": ");
    push_all(&mut out, &p5);
    push_bool(&mut out, s.game_filter);
    let p6 = chars_of("\n}");
    push_all(&mut out, &p6);
    proof {
        assert(out@ =~= settings_json(*s));
    }
    string_from_chars(out)
}

/// What the toggle asks of the marker file.
#[derive(Clone, Copy, Debug, PartialEq, Eq, Structural)]
pub enum ToggleAction {
    /// Create the marker file (or truncate an existing one).
    CreateMarker,
    /// Delete the marker file.
    RemoveMarker,
    /// Leave the file system alone.
    NoChange,
}

/// The game filter is a pure existence toggle on a marker file: enabling
/// creates the marker, disabling removes it when present, and disabling an
/// absent marker is no error and no action.  Both directions are
/// idempotent.
pub fn game_filter_toggle(enabled: bool, marker_exists: bool) -> (r: ToggleAction)
    ensures
        enabled ==> r == ToggleAction::CreateMarker,
        !enabled && marker_exists ==> r == ToggleAction::RemoveMarker,
        !enabled && !marker_exists ==> r == ToggleAction::NoChange,
{
    if enabled {
        ToggleAction::CreateMarker
    } else if marker_exists {
        ToggleAction::RemoveMarker
    } else {
        ToggleAction::NoChange
    }
}

} // verus!
