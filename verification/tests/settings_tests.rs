use zust_core::settings::{game_filter_toggle, load_settings, save_settings, Settings, ToggleAction};

fn defaults() -> Settings {
    Settings {
        auto_start: false,
        notifications: true,
        minimize_to_tray: true,
        animation_enabled: true,
        devtools: false,
        game_filter: false,
    }
}

#[test]
fn load_without_stored_settings_gives_defaults() {
    assert_eq!(load_settings(None), defaults());
}

#[test]
fn load_passes_parsed_settings_through() {
    let mut s = defaults();
    s.devtools = true;
    assert_eq!(load_settings(Some(s)), s);
}

#[test]
fn defaults_serialize_exactly() {
    let expected = "{\n  \"autoStart\": false,\n  \"notifications\": true,\n  \"minimizeToTray\": true,\n  \"animationEnabled\": true,\n  \"devtools\": false,\n  \"gameFilter\": false\n}";
    assert_eq!(save_settings(&defaults()), expected);
}

#[test]
fn all_true_serializes_exactly() {
    let s = Settings {
        auto_start: true,
        notifications: true,
        minimize_to_tray: true,
        animation_enabled: true,
        devtools: true,
        game_filter: true,
    };
    let expected = "{\n  \"autoStart\": true,\n  \"notifications\": true,\n  \"minimizeToTray\": true,\n  \"animationEnabled\": true,\n  \"devtools\": true,\n  \"gameFilter\": true\n}";
    assert_eq!(save_settings(&s), expected);
}

#[test]
fn enabling_always_creates_the_marker() {
    assert_eq!(game_filter_toggle(true, false), ToggleAction::CreateMarker);
    assert_eq!(game_filter_toggle(true, true), ToggleAction::CreateMarker);
}

#[test]
fn disabling_removes_only_an_existing_marker() {
    assert_eq!(game_filter_toggle(false, true), ToggleAction::RemoveMarker);
    assert_eq!(game_filter_toggle(false, false), ToggleAction::NoChange);
}
