use zust_core::paths::{get_config_path, hosts_file_path, join_path, strip_extended_prefix};
use zust_core::proxy::{
    add_ip_target, format_ip_for_list, format_subnet, srv_query_name, strip_trailing_dots,
    AddIpTarget, Proxies, Proxy,
};
use zust_core::sync::{binary_update_needed, copy_error_tolerable, sync_required};
use zust_core::{check_legacy_folder, log};

#[test]
fn log_line_has_bracketed_timestamp() {
    assert_eq!(log("01.02 10:20:30", "started"), "[01.02 10:20:30] started");
}

#[test]
fn legacy_folder_needs_both_flags() {
    assert!(check_legacy_folder(true, true));
    assert!(!check_legacy_folder(true, false));
    assert!(!check_legacy_folder(false, true));
}

#[test]
fn missing_local_binary_always_updates() {
    assert!(binary_update_needed(None, &vec![1, 2, 3]));
}

#[test]
fn identical_bytes_need_no_update() {
    let bytes = vec![0u8, 255, 17, 42];
    assert!(!binary_update_needed(Some(&bytes.clone()), &bytes));
}

#[test]
fn differing_bytes_need_an_update() {
    assert!(binary_update_needed(Some(&vec![1, 2, 3]), &vec![1, 2, 4]));
    assert!(binary_update_needed(Some(&vec![]), &vec![1]));
}

#[test]
fn only_the_in_use_error_is_tolerated() {
    assert!(copy_error_tolerable(Some(32)));
    assert!(!copy_error_tolerable(Some(5)));
    assert!(!copy_error_tolerable(None));
}

#[test]
fn sync_runs_only_without_the_binary() {
    assert!(sync_required(false));
    assert!(!sync_required(true));
}

#[test]
fn proxy_list_keeps_non_empty_trimmed_lines() {
    let text = "  1.2.3.4:443 \n\n host:8080\r\n   \nlast";
    assert_eq!(
        Proxies::parse_proxy_list(text),
        vec!["1.2.3.4:443".to_string(), "host:8080".to_string(), "last".to_string()]
    );
}

#[test]
fn proxy_record_carries_ping_and_country() {
    let p = Proxy { ping: 42, country_code: "NL".to_string() };
    assert_eq!(p.ping, 42);
    assert_eq!(p.country_code, "NL");
}

#[test]
fn subnet_formats_three_octets() {
    assert_eq!(format_subnet(192, 168, 1), "192.168.1.0/24");
    assert_eq!(format_subnet(8, 0, 255), "8.0.255.0/24");
}

#[test]
fn ip_for_list_takes_first_three_parts() {
    assert_eq!(format_ip_for_list("10.20.30.40").unwrap(), "10.20.30.0/24");
}

#[test]
fn malformed_ip_is_reported() {
    let err = format_ip_for_list("10.20.30").unwrap_err();
    assert_eq!(err, "Некорректный формат IP. Ожидалось x.x.x.x");
    assert!(format_ip_for_list("1.2.3.4.5").is_err());
}

#[test]
fn add_ip_prefers_existing_custom_file() {
    assert_eq!(add_ip_target("mine.txt", true), Ok(AddIpTarget::CustomConfig));
}

#[test]
fn add_ip_falls_back_only_for_the_catch_all() {
    assert_eq!(add_ip_target("ipset-all.txt", false), Ok(AddIpTarget::DefaultLists));
    assert_eq!(
        add_ip_target("other.txt", false),
        Err("Файл other.txt не найден".to_string())
    );
}

#[test]
fn srv_name_has_fixed_prefix() {
    assert_eq!(srv_query_name("mc.example.com"), "_minecraft._tcp.mc.example.com");
}

#[test]
fn trailing_dots_are_stripped() {
    assert_eq!(strip_trailing_dots("target.example.com."), "target.example.com");
    assert_eq!(strip_trailing_dots("plain"), "plain");
    assert_eq!(strip_trailing_dots("..."), "");
}

#[test]
fn join_uses_backslash() {
    assert_eq!(join_path("C:\\app", "lists"), "C:\\app\\lists");
}

#[test]
fn extended_prefix_is_stripped_repeatedly() {
    assert_eq!(strip_extended_prefix("\\\\?\\C:\\app"), "C:\\app");
    assert_eq!(strip_extended_prefix("\\\\?\\\\\\?\\C:\\x"), "C:\\x");
    assert_eq!(strip_extended_prefix("C:\\plain"), "C:\\plain");
}

#[test]
fn config_path_sits_beside_the_executable() {
    assert_eq!(get_config_path("C:\\app"), "C:\\app\\settings.json");
}

#[test]
fn hosts_path_sits_under_the_system_root() {
    assert_eq!(
        hosts_file_path("C:\\Windows"),
        "C:\\Windows\\System32\\drivers\\etc\\hosts"
    );
}
