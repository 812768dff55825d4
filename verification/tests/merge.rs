use vm_manager::config::{Config, PortMapping, QemuRunOption, VMConfig};

fn no_port_in_use(_p: usize) -> bool {
    false
}

fn vm(
    image_name: &str,
    mappings: Vec<PortMapping>,
    options: Vec<QemuRunOption>,
    use_global: bool,
) -> VMConfig {
    VMConfig::new(image_name, mappings, options, use_global, false)
}

#[test]
fn merge_keeps_global_options_and_one_nic() {
    // a VM with a network option of its own, folding in one plain global
    // and one network global: the plain one is appended, the network one
    // overwrites the existing entry in place (last write wins, first slot
    // wins)
    let globals = vec![
        QemuRunOption::new("-m 8G"),
        QemuRunOption::new("-nic user,model=virtio"),
    ];
    let vms = vec![vm(
        "web",
        vec![],
        vec![QemuRunOption::new("-nic old")],
        true,
    )];
    let mut config = Config::new(None, globals, vms);
    config
        .merge_all_vm_options(&no_port_in_use)
        .expect("merge should succeed");

    let merged = config.get_vm_config_with_image_name("web").unwrap();
    let texts: Vec<&str> = merged.options().iter().map(|o| o.as_str()).collect();
    // with no port mappings the network entry still gets the (empty)
    // clause list appended after a comma
    assert_eq!(texts, vec!["-nic user,model=virtio,", "-m 8G"]);
    let nic_count = texts.iter().filter(|t| t.starts_with("-nic")).count();
    assert_eq!(nic_count, 1);
}

#[test]
fn merge_without_globals_leaves_options_alone() {
    let vms = vec![vm(
        "web",
        vec![],
        vec![QemuRunOption::new("-m 2G")],
        false,
    )];
    let mut config = Config::new(None, vec![QemuRunOption::new("-m 8G")], vms);
    config
        .merge_all_vm_options(&no_port_in_use)
        .expect("merge should succeed");
    let merged = config.get_vm_config_with_image_name("web").unwrap();
    let texts: Vec<&str> = merged.options().iter().map(|o| o.as_str()).collect();
    assert_eq!(texts, vec!["-m 2G"]);
}

#[test]
fn merge_attaches_one_clause_per_mapping_in_order() {
    // two mappings, no network option declared: one is synthesized and
    // carries both forwarding clauses, comma-separated, in input order
    let mappings = vec![
        PortMapping::new("5555", "22", false),
        PortMapping::new("8081", "443", true),
    ];
    let vms = vec![vm("web", mappings, vec![], false)];
    let mut config = Config::new(None, vec![], vms);
    config
        .merge_all_vm_options(&no_port_in_use)
        .expect("merge should succeed");

    let merged = config.get_vm_config_with_image_name("web").unwrap();
    let texts: Vec<&str> = merged.options().iter().map(|o| o.as_str()).collect();
    assert_eq!(
        texts,
        vec!["-nic hostfwd=tcp::5555-:22,hostfwd=tcp::8081-:443"]
    );
    assert!(merged.option_nic_present());
}

#[test]
fn merge_resolves_occupied_port_upward() {
    // the probe reports 5555 and 5556 occupied, so the non-explicit
    // mapping lands on 5557; the explicit one keeps its port unprobed
    let probe = |p: usize| -> bool { p == 5555 || p == 5556 };
    let mappings = vec![
        PortMapping::new("5555", "22", false),
        PortMapping::new("5555", "443", true),
    ];
    let vms = vec![vm("web", mappings, vec![], false)];
    let mut config = Config::new(None, vec![], vms);
    config.merge_all_vm_options(&probe).expect("merge should succeed");
    let merged = config.get_vm_config_with_image_name("web").unwrap();
    let texts: Vec<&str> = merged.options().iter().map(|o| o.as_str()).collect();
    assert_eq!(
        texts,
        vec!["-nic hostfwd=tcp::5557-:22,hostfwd=tcp::5555-:443"]
    );
}

#[test]
fn merge_rejects_unparseable_host_port() {
    // a non-explicit mapping whose host port is not a number is a
    // configuration error and leaves the configuration unchanged
    let mappings = vec![PortMapping::new("not-a-port", "22", false)];
    let vms = vec![vm("web", mappings, vec![], false)];
    let mut config = Config::new(None, vec![], vms);
    let r = config.merge_all_vm_options(&no_port_in_use);
    assert!(r.is_err());
    let e = r.unwrap_err();
    assert!(e.contains("unable to read host port 'not-a-port'"));
    // the VM still carries its unresolved mapping and no synthesized option
    let unchanged = config.get_vm_config_with_image_name("web").unwrap();
    assert!(!unchanged.option_nic_present());
}

#[test]
fn explicit_mapping_keeps_port_without_probing() {
    let probe = |_p: usize| -> bool { true };
    let mut mapping = PortMapping::new("5000", "22", true);
    let clause = mapping.format_nic(&probe).expect("explicit mapping formats");
    assert_eq!(clause, "hostfwd=tcp::5000-:22");
    assert_eq!(mapping._host_port(), "5000");
}

#[test]
fn directories_follow_the_configuration() {
    let config = Config::new(None, vec![], vec![]);
    assert_eq!(config.get_images_directory(), "~/.vm-manager/disk-images");
    assert_eq!(
        config.get_backup_images_directory(),
        "~/.vm-manager/disk-images/backups"
    );
    let config = Config::new(Some("/srv/images".to_string()), vec![], vec![]);
    assert_eq!(config.get_images_directory(), "/srv/images");
    assert_eq!(config.get_backup_images_directory(), "/srv/images/backups");
}
