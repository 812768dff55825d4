use vm_manager::config::QemuRunOption;

#[test]
fn test_qemu_run_option_new() {
    let option: QemuRunOption = QemuRunOption::new("-m 8G");
    assert_eq!(option.as_str(), "-m 8G");

    let option: QemuRunOption = QemuRunOption::new("-m\t8G");
    assert_eq!(option.as_str(), "-m 8G");
}

#[test]
fn test_qemu_run_option_get_opt_list() {
    let option: QemuRunOption = QemuRunOption::new("-m 8G");
    assert_eq!(option.get_opt_list(), vec!["-m".to_string(), "8G".to_string()]);

    let option: QemuRunOption = QemuRunOption::new("-daemonize");
    assert_eq!(option.get_opt_list(), vec!["-daemonize".to_string()]);

    let option: QemuRunOption = QemuRunOption::new("-m\t8G");
    assert_eq!(option.get_opt_list(), vec!["-m".to_string(), "8G".to_string()]);
}

#[test]
fn test_qemu_run_option_is_multi_opts() {
    let option: QemuRunOption = QemuRunOption::new("-m 8G");
    assert!(option.is_multi_opts());
    let option: QemuRunOption = QemuRunOption::new("-daemonize");
    assert!(!option.is_multi_opts());
    let option: QemuRunOption = QemuRunOption::new("-m\t8G");
    assert!(option.is_multi_opts());
}
