use vm_manager::commands::{run_command_start, run_command_stop};
use vm_manager::config::{Config, PortMapping, QemuRunOption, VMConfig};
use vm_manager::images::{get_file_from_image_name, image_names_from_files};
use vm_manager::output::{print_running_vm_table, OutputStream, OutputStreamTarget};
use vm_manager::ports::find_open_port;
use vm_manager::runner::QemuRunner;
use vm_manager::scan::{get_list_of_running_vms, parse_ps_line};
use vm_manager::text::{file_stem, parse_usize, to_decimal};

const PS_LINE: &str = "12345 pts/1 Sl 0:13 qemu-system-x86_64 -daemonize -drive file=/x/ubuntu.img -m 8G -smp 4 -accel kvm -accel tcg -cpu host -vnc none -nic user,model=virtio,hostfwd=tcp::5555-:22,hostfwd=tcp::8081-:443";

#[test]
fn allocator_probes_linearly() {
    // ports 5000 through 5002 occupied, 5003 free
    let probe = |p: usize| -> bool { (5000..=5002).contains(&p) };
    assert_eq!(find_open_port(5000, &probe), 5003);
    // a free starting port is taken as it is
    assert_eq!(find_open_port(5004, &probe), 5004);
}

#[test]
fn scanner_reads_a_process_line() {
    let rec = parse_ps_line(PS_LINE)
        .expect("line parses")
        .expect("line yields a record");
    assert_eq!(rec.pid, 12345);
    assert_eq!(rec.ssh_port, 5555);
    assert_eq!(rec.https_port, 8081);
    assert_eq!(rec.image_name, "ubuntu");
}

#[test]
fn scanner_passes_over_foreign_lines() {
    assert!(parse_ps_line("999 pts/0 S 0:00 /usr/bin/sshd -D")
        .expect("ok")
        .is_none());
}

#[test]
fn scanner_rejects_malformed_hypervisor_lines() {
    // the drive field is where the builder puts it, but the port fields
    // do not parse
    let line = "abc pts/1 Sl 0:13 qemu-system-x86_64 -daemonize -drive file=/x/u.img -m 8G -smp 4 -accel kvm -accel tcg -cpu host -vnc none -nic user";
    assert!(parse_ps_line(line).is_err());
}

#[test]
fn scanner_builds_runners_from_the_table() {
    let config = Config::new(None, vec![], vec![]);
    let images = vec!["ubuntu".to_string()];
    let output = format!("HEADER LINE\n{}\nother line", PS_LINE);
    let vms = get_list_of_running_vms(&output, &config, &images).expect("table parses");
    assert_eq!(vms.len(), 1);
    assert_eq!(vms[0].ssh_port(), 5555);
    assert_eq!(vms[0].https_port(), 8081);
    assert_eq!(vms[0].image_name(), "ubuntu");
}

#[test]
fn start_builds_the_configured_invocation() {
    // end to end: one declared VM with one non-explicit mapping and port
    // 5555 free yields a single network-interface argument
    let probe = |_p: usize| -> bool { false };
    let mappings = vec![PortMapping::new("5555", "22", false)];
    let vms = vec![VMConfig::new("web", mappings, vec![], false, false)];
    let mut config = Config::new(None, vec![], vms);
    config.merge_all_vm_options(&probe).expect("merge succeeds");

    let images = vec!["web".to_string()];
    let args = run_command_start(
        Some("web".to_string()),
        None,
        None,
        false,
        &config,
        &images,
        true,
        &probe,
    )
    .expect("start succeeds");

    let nic_positions: Vec<usize> = args
        .iter()
        .enumerate()
        .filter(|(_, a)| a.as_str() == "-nic")
        .map(|(i, _)| i)
        .collect();
    assert_eq!(nic_positions.len(), 1);
    assert_eq!(args[nic_positions[0] + 1], "hostfwd=tcp::5555-:22");
    assert_eq!(args[0], "qemu-system-x86_64");
    assert!(args.contains(&"file=~/.vm-manager/disk-images/web.img".to_string()));
}

#[test]
fn start_without_image_is_refused() {
    let probe = |_p: usize| -> bool { false };
    let config = Config::new(None, vec![], vec![]);
    let r = run_command_start(
        None,
        None,
        None,
        false,
        &config,
        &vec![],
        false,
        &probe,
    );
    assert_eq!(
        r.unwrap_err(),
        "No image provided! Must provide an image name."
    );
}

#[test]
fn start_refuses_an_occupied_explicit_port() {
    // explicit means explicit: a requested port that is in use fails the
    // action instead of being substituted
    let probe = |p: usize| -> bool { p == 6000 };
    let config = Config::new(None, vec![], vec![]);
    let images = vec!["ubuntu".to_string()];
    let r = run_command_start(
        Some("ubuntu".to_string()),
        Some(6000),
        None,
        false,
        &config,
        &images,
        true,
        &probe,
    );
    let e = r.unwrap_err();
    assert!(e.contains("You specified SSH port '6000', which is in use"));
}

#[test]
fn start_with_ambiguous_image_is_refused() {
    let probe = |_p: usize| -> bool { false };
    let config = Config::new(None, vec![], vec![]);
    let images = vec!["ubuntu-22".to_string(), "ubuntu-24".to_string()];
    let r = run_command_start(
        Some("ubuntu".to_string()),
        None,
        None,
        false,
        &config,
        &images,
        true,
        &probe,
    );
    assert_eq!(
        r.unwrap_err(),
        "Could not find unique image matching 'ubuntu'."
    );
}

#[test]
fn stop_without_matching_instance_reports_it() {
    // the name matches a known image, but nothing running carries it
    let config = Config::new(None, vec![], vec![]);
    let images = vec!["ubuntu".to_string(), "debian".to_string()];
    let running = vec![QemuRunner::new(5555, 8081, "ubuntu", Some(4242), &config, &images)];
    let r = run_command_stop(Some("deb".to_string()), &running, &images);
    assert_eq!(
        r.unwrap_err(),
        "Could not find a VM running with image name matching pattern 'deb'."
    );
}

#[test]
fn start_refuses_an_occupied_explicit_https_port() {
    // the message names the HTTPS port, not the SSH one
    let probe = |p: usize| -> bool { p == 7000 };
    let config = Config::new(None, vec![], vec![]);
    let images = vec!["ubuntu".to_string()];
    let r = run_command_start(
        Some("ubuntu".to_string()),
        None,
        Some(7000),
        false,
        &config,
        &images,
        true,
        &probe,
    );
    let e = r.unwrap_err();
    assert!(e.contains("You specified HTTPS port '7000', which is in use"));
}

#[test]
fn file_stems_ignore_trailing_separators() {
    assert_eq!(file_stem("/x/ubuntu.img"), Some("ubuntu".to_string()));
    assert_eq!(file_stem("/x/dir/"), Some("dir".to_string()));
    assert_eq!(file_stem("archive.tar.gz"), Some("archive.tar".to_string()));
    assert_eq!(file_stem(".bashrc"), Some(".bashrc".to_string()));
    assert_eq!(file_stem("/"), None);
    assert_eq!(file_stem(""), None);
}

#[test]
fn stop_with_nothing_running_reports_it() {
    let r = run_command_stop(Some("web".to_string()), &vec![], &vec![]);
    assert_eq!(r.unwrap_err(), "No VMs running.");
}

#[test]
fn stop_signals_the_matching_instance() {
    let config = Config::new(None, vec![], vec![]);
    let images = vec!["ubuntu".to_string()];
    let running = vec![QemuRunner::new(5555, 8081, "ubuntu", Some(4242), &config, &images)];
    let args = run_command_stop(Some("ubu".to_string()), &running, &images)
        .expect("stop finds the instance");
    assert_eq!(args, vec!["kill".to_string(), "4242".to_string()]);
}

#[test]
fn stop_without_matching_image_reports_it() {
    let config = Config::new(None, vec![], vec![]);
    let images = vec!["ubuntu".to_string()];
    let running = vec![QemuRunner::new(5555, 8081, "ubuntu", Some(4242), &config, &images)];
    let r = run_command_stop(Some("debian".to_string()), &running, &images);
    assert_eq!(
        r.unwrap_err(),
        "No VM running on image with name matching {image_name}."
    );
}

#[test]
fn image_lookup_requires_a_unique_match() {
    let images = vec![
        "ubuntu-22".to_string(),
        "ubuntu-24".to_string(),
        "debian".to_string(),
    ];
    assert_eq!(
        get_file_from_image_name("deb", &images, "/srv"),
        Some("/srv/debian.img".to_string())
    );
    // two matches: ambiguous
    assert_eq!(get_file_from_image_name("ubuntu", &images, "/srv"), None);
    // no match
    assert_eq!(get_file_from_image_name("arch", &images, "/srv"), None);
}

#[test]
fn image_names_come_from_file_stems() {
    let files = vec![
        "ubuntu.img".to_string(),
        "nohup".to_string(),
        "archive.tar.gz".to_string(),
    ];
    assert_eq!(
        image_names_from_files(&files),
        vec!["ubuntu".to_string(), "archive.tar".to_string()]
    );
}

#[test]
fn running_vm_table_lines_up() {
    let config = Config::new(None, vec![], vec![]);
    let images = vec!["ubuntu".to_string()];
    let running = vec![QemuRunner::new(5555, 8081, "ubuntu", Some(4242), &config, &images)];
    let mut buffer = OutputStream::new(OutputStreamTarget::Stdout);
    print_running_vm_table(&running, &mut buffer);
    let text = buffer.take_buffer();
    let expected = "SSH Port | HTTPS Port | Image Name  \n\
                    ---------+------------+-------------\n\
                    \u{20}   5555 |       8081 | ubuntu      ";
    assert_eq!(text, expected);
}

#[test]
fn output_stream_separates_lines() {
    let mut buffer = OutputStream::new(OutputStreamTarget::Stdout);
    buffer.addln("first");
    buffer.addln("second");
    buffer.add_spacer();
    buffer.add("third");
    assert_eq!(buffer.take_buffer(), "first\nsecond\nthird");
    assert_eq!(buffer.take_buffer(), "");
}

#[test]
fn ports_parse_and_print_in_decimal() {
    assert_eq!(parse_usize("5555"), Some(5555));
    assert_eq!(parse_usize("+7"), Some(7));
    assert_eq!(parse_usize("007"), Some(7));
    assert_eq!(parse_usize(""), None);
    assert_eq!(parse_usize("+"), None);
    assert_eq!(parse_usize("12a"), None);
    assert_eq!(parse_usize("99999999999999999999999999"), None);
    assert_eq!(to_decimal(0), "0");
    assert_eq!(to_decimal(8081), "8081");
    assert_eq!(to_decimal(usize::MAX), usize::MAX.to_string());
}
