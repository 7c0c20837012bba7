use upload_server::service::{
    level_name, log_filter, should_stop, should_uninstall, verbose_to_str, LogLevel, ServiceState,
};

#[test]
fn verbosity_flags() {
    assert_eq!(verbose_to_str(LogLevel::Off), vec!["-q".to_string()]);
    assert!(verbose_to_str(LogLevel::Error).is_empty());
    assert_eq!(verbose_to_str(LogLevel::Warn), vec!["-v".to_string()]);
    assert_eq!(verbose_to_str(LogLevel::Info), vec!["-vv".to_string()]);
    assert_eq!(verbose_to_str(LogLevel::Debug), vec!["-vvv".to_string()]);
    assert_eq!(verbose_to_str(LogLevel::Trace), vec!["-vvvv".to_string()]);
}

#[test]
fn level_names() {
    assert_eq!(level_name(LogLevel::Off), "off");
    assert_eq!(level_name(LogLevel::Info), "info");
    assert_eq!(level_name(LogLevel::Trace), "trace");
}

#[test]
fn log_filters() {
    assert_eq!(log_filter(LogLevel::Off, "server"), "none");
    assert_eq!(
        log_filter(LogLevel::Debug, "server"),
        "none,tower_http=debug,axum=debug,server=debug"
    );
}

#[test]
fn service_decisions() {
    assert!(should_stop(ServiceState::Running));
    assert!(!should_stop(ServiceState::Stopped));
    assert!(!should_stop(ServiceState::NotInstalled));
    assert!(should_uninstall(ServiceState::Running));
    assert!(should_uninstall(ServiceState::Stopped));
    assert!(!should_uninstall(ServiceState::NotInstalled));
}
