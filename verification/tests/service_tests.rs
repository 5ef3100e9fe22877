use zust_core::service::{
    get_strategy, resolve_strategy, service_cleanup_names, service_install_command,
    ServiceController, StartServiceArgs,
};

fn listing() -> Vec<String> {
    vec!["a.zapret".to_string(), "b.zapret".to_string(), "c.zapret".to_string()]
}

#[test]
fn resolve_is_one_based() {
    let list = listing();
    assert_eq!(resolve_strategy(&list, 1), Some("a.zapret".to_string()));
    assert_eq!(resolve_strategy(&list, 3), Some("c.zapret".to_string()));
}

#[test]
fn resolve_rejects_zero_negative_and_past_end() {
    let list = listing();
    assert_eq!(resolve_strategy(&list, 0), None);
    assert_eq!(resolve_strategy(&list, -2), None);
    assert_eq!(resolve_strategy(&list, 4), None);
}

#[test]
fn stored_pointer_is_shown_verbatim() {
    assert_eq!(get_strategy(Some("b.zapret".to_string())), "b.zapret");
}

#[test]
fn absent_pointer_shows_sentinel() {
    assert_eq!(get_strategy(None), "Отсутствует");
}

#[test]
fn cleanup_names_are_fixed() {
    assert_eq!(
        service_cleanup_names(),
        vec!["WinDivert".to_string(), "WinDivert14".to_string(), "zapret".to_string()]
    );
}

#[test]
fn install_command_is_exact() {
    let cmd = service_install_command("C:\\app\\bin\\winws.exe", "--wf-tcp=12");
    assert_eq!(
        cmd,
        "New-Service -Name 'zapret' -BinaryPathName '\"C:\\app\\bin\\winws.exe\" --wf-tcp=12' -DisplayName 'zapret' -StartupType Automatic"
    );
}

#[test]
fn stop_never_touches_the_pointer() {
    let mut ctrl = ServiceController::new(Some("a.zapret".to_string()));
    ctrl.stop();
    assert_eq!(ctrl.pointer, Some("a.zapret".to_string()));
    assert_eq!(ctrl.running, None);
}

#[test]
fn bad_index_start_aborts_cleanly() {
    let list = listing();
    let mut ctrl = ServiceController::new(Some("a.zapret".to_string()));
    assert_eq!(ctrl.begin_start(&list, 0), None);
    assert_eq!(ctrl.begin_start(&list, 99), None);
    assert_eq!(ctrl.pointer, Some("a.zapret".to_string()));
    assert_eq!(ctrl.running, None);
}

#[test]
fn successful_start_moves_the_pointer() {
    let list = listing();
    let mut ctrl = ServiceController::new(None);
    let name = ctrl.begin_start(&list, 2).unwrap();
    assert_eq!(name, "b.zapret");
    ctrl.finish_start(name, true);
    assert_eq!(ctrl.pointer, Some("b.zapret".to_string()));
    assert_eq!(ctrl.running, Some("b.zapret".to_string()));
}

#[test]
fn failed_install_leaves_the_pointer() {
    let list = listing();
    let mut ctrl = ServiceController::new(Some("a.zapret".to_string()));
    let name = ctrl.begin_start(&list, 2).unwrap();
    ctrl.finish_start(name, false);
    assert_eq!(ctrl.pointer, Some("a.zapret".to_string()));
    assert_eq!(ctrl.running, None);
}

#[test]
fn start_arguments_carry_index_and_selector() {
    let args = StartServiceArgs { index: 2, ipset_config: Some("none".to_string()) };
    assert_eq!(args.index, 2);
    assert_eq!(args.ipset_config, Some("none".to_string()));
}
