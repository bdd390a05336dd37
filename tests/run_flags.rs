use codesearch::flags::{
    check_shutdown, ensure_running, is_quiet, is_shutdown_requested, request_shutdown, set_quiet, RunFlags,
};
use codesearch::store::ErrorKind;

#[test]
fn test_quiet_mode_toggle() {
    let mut flags = RunFlags::new();
    // Initial state
    set_quiet(&mut flags, false);
    assert!(!is_quiet(&flags));

    // Enable
    set_quiet(&mut flags, true);
    assert!(is_quiet(&flags));

    // Disable
    set_quiet(&mut flags, false);
    assert!(!is_quiet(&flags));
}

#[test]
fn shutdown_flag_and_token() {
    let mut flags = RunFlags::new();
    assert!(!is_shutdown_requested(&flags));
    assert!(!check_shutdown(&flags, false));
    assert!(check_shutdown(&flags, true));
    request_shutdown(&mut flags);
    assert!(is_shutdown_requested(&flags));
    assert!(check_shutdown(&flags, false));
}

#[test]
fn cancellation_stops_work() {
    let mut flags = RunFlags::new();
    assert_eq!(ensure_running(&flags, false), Ok(()));
    assert_eq!(ensure_running(&flags, true), Err(ErrorKind::Cancelled));
    request_shutdown(&mut flags);
    assert_eq!(ensure_running(&flags, false), Err(ErrorKind::Cancelled));
}
