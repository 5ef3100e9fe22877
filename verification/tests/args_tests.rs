use zust_core::args::{build_full_args, resolve_ipset};

#[test]
fn substitutes_all_tokens_with_game_filter_on() {
    let raw = "--wf-tcp=%GameFilter% --bin=%BIN% %IPSET% --lists=%LISTS%";
    let out = build_full_args(
        raw,
        true,
        "C:\\app\\bin",
        "C:\\app\\lists",
        "C:\\app\\lists\\ipset-all.txt",
        None,
    );
    assert_eq!(
        out,
        "--wf-tcp=1024-65535 --bin=C:\\app\\bin\\ --ipset=\"C:\\app\\lists\\ipset-all.txt\" --lists=C:\\app\\lists\\"
    );
}

#[test]
fn substitutes_narrow_range_with_game_filter_off() {
    let out = build_full_args("%GameFilter%", false, "b", "l", "i", None);
    assert_eq!(out, "12");
}

#[test]
fn no_placeholder_survives() {
    let raw = "%GameFilter% %BIN% %IPSET%";
    let out = build_full_args(raw, false, "C:\\bin", "C:\\lists", "C:\\lists\\x.txt", None);
    assert!(!out.contains("%GameFilter%"));
    assert!(!out.contains("%BIN%"));
    assert!(!out.contains("%IPSET%"));
}

#[test]
fn fallback_appends_one_flag_per_matching_entry() {
    let entries = vec![
        "list-general.txt".to_string(),
        "list-excluded-extra.txt".to_string(),
        "notes.md".to_string(),
        "ipset-all.txt".to_string(),
        "list-games.txt".to_string(),
    ];
    let out = build_full_args("run %IPSET%", false, "b", "C:\\l", "C:\\l\\ipset-all.txt", Some(&entries));
    assert_eq!(
        out,
        "run --ipset=\"C:\\l\\ipset-all.txt\" --hostlist=\"C:\\l\\list-general.txt\" --hostlist=\"C:\\l\\list-games.txt\""
    );
}

#[test]
fn fallback_does_not_run_when_lists_token_present() {
    let entries = vec!["list-general.txt".to_string()];
    let out = build_full_args("%LISTS% end", false, "b", "C:\\l", "i", Some(&entries));
    assert_eq!(out, "C:\\l\\ end");
    assert!(!out.contains("--hostlist="));
}

#[test]
fn fallback_without_listing_appends_nothing() {
    let out = build_full_args("plain args", false, "b", "l", "i", None);
    assert_eq!(out, "plain args");
}

#[test]
fn result_is_trimmed() {
    let out = build_full_args("  spaced  ", false, "b", "l", "i", None);
    assert_eq!(out, "spaced");
}

#[test]
fn ipset_selector_none_resolves_to_none_hide() {
    let r = resolve_ipset(Some(&"none".to_string()), false, "C:\\l", "C:\\c");
    assert_eq!(r, "C:\\l\\ipset-none-hide.txt");
}

#[test]
fn ipset_selector_any_resolves_to_any_hide() {
    let r = resolve_ipset(Some(&"any".to_string()), true, "C:\\l", "C:\\c");
    assert_eq!(r, "C:\\l\\ipset-any-hide.txt");
}

#[test]
fn ipset_selector_existing_custom_file_wins() {
    let r = resolve_ipset(Some(&"mine.txt".to_string()), true, "C:\\l", "C:\\c");
    assert_eq!(r, "C:\\c\\mine.txt");
}

#[test]
fn ipset_selector_missing_custom_file_falls_back_to_lists() {
    let r = resolve_ipset(Some(&"mine.txt".to_string()), false, "C:\\l", "C:\\c");
    assert_eq!(r, "C:\\l\\mine.txt");
}

#[test]
fn ipset_selector_absent_resolves_to_all() {
    let r = resolve_ipset(None, false, "C:\\l", "C:\\c");
    assert_eq!(r, "C:\\l\\ipset-all.txt");
}

#[test]
fn repeated_tokens_are_all_substituted() {
    let out = build_full_args("%GameFilter% mid %GameFilter%", true, "b", "l", "i", None);
    assert_eq!(out, "1024-65535 mid 1024-65535");
}

#[test]
fn template_without_tokens_is_only_trimmed() {
    let out = build_full_args("--plain --args", false, "b", "l", "i", None);
    assert_eq!(out, "--plain --args");
}
