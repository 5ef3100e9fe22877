use zust_core::strategy::{
    convert_bat, extract_args_from_bat, file_stem, find_strategy_index, get_custom_configs,
    get_list_files, get_list_strategies, list_files, repo_strategy_names, should_update_strategy,
    zapret_name_of,
};

#[test]
fn extract_takes_everything_after_marker() {
    let script = "start \"\" \"%~dp0bin\\winws.exe\" --wf-tcp=80,443 --arg=x\n";
    let args = extract_args_from_bat(script).unwrap();
    assert_eq!(args, "--wf-tcp=80,443 --arg=x");
}

#[test]
fn extract_skips_one_character_past_the_quote() {
    // the character right after the closing quote is consumed, trimmed or not
    let script = "winws.exe\"X --keep";
    assert_eq!(extract_args_from_bat(script).unwrap(), "--keep");
}

#[test]
fn extract_without_marker_is_none() {
    assert!(extract_args_from_bat("echo nothing to see").is_none());
}

#[test]
fn extract_at_end_of_script_is_empty() {
    assert_eq!(extract_args_from_bat("run winws.exe\"").unwrap(), "");
}

#[test]
fn convert_derives_strategy_file_name() {
    let script = "call \"winws.exe\" --flag";
    let (name, args) = convert_bat("general (ALT).bat", script).unwrap();
    assert_eq!(name, "general (ALT).zapret");
    assert_eq!(args, "--flag");
}

#[test]
fn convert_skips_script_without_marker() {
    assert!(convert_bat("general.bat", "echo no invocation").is_none());
}

#[test]
fn stem_keeps_inner_dots() {
    assert_eq!(file_stem("a.b.bat"), "a.b");
    assert_eq!(file_stem("noext"), "noext");
    assert_eq!(file_stem(".hidden"), ".hidden");
    assert_eq!(file_stem("trailing."), "trailing");
}

#[test]
fn zapret_name_rewrites_extension() {
    assert_eq!(zapret_name_of("general (ALT).bat"), "general (ALT).zapret");
}

#[test]
fn list_files_filters_by_extension() {
    let entries = vec![
        "a.zapret".to_string(),
        "b.txt".to_string(),
        "c.zapret".to_string(),
    ];
    assert_eq!(list_files(&entries, ".zapret"), vec!["a.zapret".to_string(), "c.zapret".to_string()]);
}

#[test]
fn strategies_listing_keeps_order() {
    let entries = vec![
        "z.zapret".to_string(),
        "readme.md".to_string(),
        "a.zapret".to_string(),
    ];
    assert_eq!(
        get_list_strategies(&entries),
        vec!["z.zapret".to_string(), "a.zapret".to_string()]
    );
}

#[test]
fn list_files_hide_names_are_dropped() {
    let entries = vec![
        "ipset-all.txt".to_string(),
        "ipset-none-hide.txt".to_string(),
        "list-general.txt".to_string(),
        "ipset-any-hide.txt".to_string(),
    ];
    assert_eq!(
        get_list_files(&entries),
        vec!["ipset-all.txt".to_string(), "list-general.txt".to_string()]
    );
}

#[test]
fn custom_configs_are_text_files() {
    let entries = vec!["mine.txt".to_string(), "mine.bak".to_string()];
    assert_eq!(get_custom_configs(&entries), vec!["mine.txt".to_string()]);
}

#[test]
fn repo_names_are_the_fixed_nineteen() {
    let names = repo_strategy_names();
    assert_eq!(names.len(), 19);
    assert_eq!(names[0], "general (ALT).bat");
    assert_eq!(names[11], "general.bat");
    assert_eq!(names[18], "general (SIMPLE FAKE).bat");
}

#[test]
fn update_needed_when_local_is_missing() {
    assert!(should_update_strategy("winws.exe\" --a", None));
}

#[test]
fn update_not_needed_when_trimmed_equal() {
    let local = "--a\n".to_string();
    assert!(!should_update_strategy("winws.exe\"X--a", Some(&local)));
}

#[test]
fn update_needed_when_content_differs() {
    let local = "--old".to_string();
    assert!(should_update_strategy("winws.exe\"X--new", Some(&local)));
}

#[test]
fn no_update_for_script_without_marker() {
    assert!(!should_update_strategy("plain text", None));
}

#[test]
fn strategy_index_finds_first_match() {
    let list = vec!["a.zapret".to_string(), "b.zapret".to_string()];
    assert_eq!(find_strategy_index(&list, "b.zapret"), Some(1));
    assert_eq!(find_strategy_index(&list, "missing"), None);
}
