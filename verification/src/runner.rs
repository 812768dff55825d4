//! Building the hypervisor invocation: a runner gathers the ports, image
//! file and flags for one VM instance and turns them into the exact
//! argument vector for the external process spawner. Nothing here spawns or
//! signals a process — `start` and `stop` return the command to run.

use vstd::prelude::*;
use vstd::string::*;

use crate::config::{Config, VMConfig, VMConfigView, images_directory_of};
use crate::images::{get_file_from_image_name, image_file_of};
use crate::text::{dec_str, file_stem_of, split_seq, to_decimal, views_of};

verus! {

/// The mathematical value of a runner.
#[verifier::ext_equal]
pub struct QemuRunnerView {
    pub daemonize: bool,
    pub ssh_port: usize,
    pub https_port: usize,
    pub specified_ssh_port: bool,
    pub specified_https_port: bool,
    pub image: Seq<char>,
    pub pid: Option<usize>,
    pub vm_config: Option<VMConfigView>,
}

/// One VM instance about to be started, or reconstructed from the process
/// table: its ports, image file, detach flag, and — for a running
/// instance — its process id.
pub struct QemuRunner {
    daemonize: bool,
    ssh_port: usize,
    https_port: usize,
    specified_ssh_port: bool,
    specified_https_port: bool,
    image: String,
    pid: Option<usize>,
    vm_config: Option<VMConfig>,
}

impl View for QemuRunner {
    type V = QemuRunnerView;

    closed spec fn view(&self) -> QemuRunnerView {
        QemuRunnerView {
            daemonize: self.daemonize,
            ssh_port: self.ssh_port,
            https_port: self.https_port,
            specified_ssh_port: self.specified_ssh_port,
            specified_https_port: self.specified_https_port,
            image: self.image@,
            pid: self.pid,
            vm_config: match self.vm_config {
                Some(ref v) => Some(v@),
                None => None,
            },
        }
    }
}

/// The name of the hypervisor binary.
pub open spec fn hypervisor_binary() -> Seq<char> {
    "qemu-system-x86_64"@
}

/// The views of a list of runners.
pub open spec fn runner_views(v: Seq<QemuRunner>) -> Seq<QemuRunnerView> {
    v.map_values(|r: QemuRunner| r@)
}

/// The display name a runner reports: the stem of its image file, or a
/// placeholder when the path has none.
pub open spec fn display_name(r: QemuRunnerView) -> Seq<char> {
    match file_stem_of(r.image) {
        Some(st) => st,
        None => "Can't get image name"@,
    }
}

/// An option whose flags the detach handling already covers, so it is not
/// passed on verbatim.
pub open spec fn suppressed_option(t: Seq<char>) -> bool {
    "-daemonize"@.is_prefix_of(t) || "-nographic"@.is_prefix_of(t)
}

/// The tokens contributed by a VM's option list: the space-separated
/// tokens of every option except those the detach handling covers.
pub open spec fn vm_option_tokens(opts: Seq<Seq<char>>) -> Seq<Seq<char>>
    decreases opts.len(),
{
    if opts.len() == 0 {
        Seq::<Seq<char>>::empty()
    } else {
        let prev = vm_option_tokens(opts.drop_last());
        if suppressed_option(opts.last()) {
            prev
        } else {
            prev + split_seq(opts.last(), ' ')
        }
    }
}

/// The argument vector for starting a configured VM from `image_path`.
pub open spec fn config_start_args(vm: VMConfigView, image_path: Seq<char>) -> Seq<Seq<char>> {
    let base = seq![
        hypervisor_binary(),
        if vm.daemonize {
            "-daemonize"@
        } else {
            "-nographic"@
        },
        "-drive"@,
        "file="@ + image_path,
    ] + vm_option_tokens(vm.options);
    if vm.daemonize {
        seq!["nohup"@] + base
    } else {
        base
    }
}

/// The network argument of an ad hoc start: SSH and HTTPS forwards to the
/// guest's well-known ports.
pub open spec fn adhoc_nic_arg(ssh_port: usize, https_port: usize) -> Seq<char> {
    "user,model=virtio,hostfwd=tcp::"@ + dec_str(ssh_port as nat) + "-:22,hostfwd=tcp::"@
        + dec_str(https_port as nat) + "-:443"@
}

/// The argument vector for an ad hoc start: fixed memory, CPU,
/// acceleration and display settings around the image and the two port
/// forwards.
pub open spec fn adhoc_start_args(
    ssh_port: usize,
    https_port: usize,
    image: Seq<char>,
    daemonize: bool,
) -> Seq<Seq<char>> {
    let base = seq![
        hypervisor_binary(),
        if daemonize {
            "-daemonize"@
        } else {
            "-nographic"@
        },
        "-drive"@,
        "file="@ + image,
        "-m"@,
        "8G"@,
        "-smp"@,
        "4"@,
        "-accel"@,
        "kvm"@,
        "-accel"@,
        "tcg"@,
        "-cpu"@,
        "host"@,
        "-vnc"@,
        "none"@,
        "-nic"@,
        adhoc_nic_arg(ssh_port, https_port),
    ];
    if daemonize {
        seq!["nohup"@] + base
    } else {
        base
    }
}

impl QemuRunner {
    /// A runner for a scanned or named instance: detached, with the given
    /// ports and process id, its image file resolved from `image_name`
    /// among the available `images` (empty when no unique image matches).
    pub fn new(
        ssh_port: usize,
        https_port: usize,
        image_name: &str,
        pid: Option<usize>,
        config: &Config,
        images: &Vec<String>,
    ) -> (r: Self)
        ensures
            r@.daemonize == true,
            r@.ssh_port == ssh_port,
            r@.https_port == https_port,
            r@.specified_ssh_port == false,
            r@.specified_https_port == false,
            r@.pid == pid,
            r@.vm_config is None,
            r@.image == match image_file_of(
                views_of(images@),
                image_name@,
                images_directory_of(config@),
            ) {
                Some(p) => p,
                None => Seq::<char>::empty(),
            },
    {
        let dir = config.get_images_directory();
        let image = match get_file_from_image_name(image_name, images, dir.as_str()) {
            Some(p) => p,
            None => String::new(),
        };
        QemuRunner {
            daemonize: true,
            ssh_port,
            https_port,
            specified_ssh_port: false,
            specified_https_port: false,
            image,
            pid,
            vm_config: None,
        }
    }

    /// A runner with both ports allocated by probing upward from the
    /// defaults, detached, with no image, process id or VM configuration
    /// yet.
    pub fn with_probed_ports<F: Fn(usize) -> bool>(port_in_use: &F) -> (r: Self)
        requires
            forall|p: usize| #[trigger] call_requires(*port_in_use, (p,)),
        ensures
            r@.daemonize == true,
            r@.ssh_port >= crate::DEFAULT_SSH_PORT,
            r@.https_port >= crate::DEFAULT_HTTPS_PORT,
            r@.ssh_port < usize::MAX ==> call_ensures(*port_in_use, (r@.ssh_port,), false),
            forall|q: usize|
                crate::DEFAULT_SSH_PORT <= q < r@.ssh_port ==> #[trigger] call_ensures(
                    *port_in_use,
                    (q,),
                    true,
                ),
            r@.https_port < usize::MAX ==> call_ensures(*port_in_use, (r@.https_port,), false),
            forall|q: usize|
                crate::DEFAULT_HTTPS_PORT <= q < r@.https_port ==> #[trigger] call_ensures(
                    *port_in_use,
                    (q,),
                    true,
                ),
            r@.specified_ssh_port == false,
            r@.specified_https_port == false,
            r@.image.len() == 0,
            r@.pid is None,
            r@.vm_config is None,
    {
        QemuRunner {
            daemonize: true,
            ssh_port: crate::ports::find_open_port(crate::DEFAULT_SSH_PORT, port_in_use),
            https_port: crate::ports::find_open_port(crate::DEFAULT_HTTPS_PORT, port_in_use),
            specified_ssh_port: false,
            specified_https_port: false,
            image: String::new(),
            pid: None,
            vm_config: None,
        }
    }

    /// Sets an explicit SSH host port.
    pub fn set_ssh_port(&mut self, port: usize)
        ensures
            final(self)@ == (QemuRunnerView {
                ssh_port: port,
                specified_ssh_port: true,
                ..old(self)@
            }),
    {
        self.ssh_port = port;
        self.specified_ssh_port = true;
    }

    /// Sets an explicit HTTPS host port.
    pub fn set_https_port(&mut self, port: usize)
        ensures
            final(self)@ == (QemuRunnerView {
                https_port: port,
                specified_https_port: true,
                ..old(self)@
            }),
    {
        self.https_port = port;
        self.specified_https_port = true;
    }

    /// Sets the image file to start from.
    pub fn set_image_file(&mut self, image_file: String)
        ensures
            final(self)@ == (QemuRunnerView { image: image_file@, ..old(self)@ }),
    {
        self.image = image_file;
    }

    /// Chooses between a detached and a foreground run.
    pub fn set_daemonization_option(&mut self, should_daemonize: bool)
        ensures
            final(self)@ == (QemuRunnerView { daemonize: should_daemonize, ..old(self)@ }),
    {
        self.daemonize = should_daemonize;
    }

    /// The SSH host port.
    pub fn ssh_port(&self) -> (r: usize)
        ensures
            r == self@.ssh_port,
    {
        self.ssh_port
    }

    /// The HTTPS host port.
    pub fn https_port(&self) -> (r: usize)
        ensures
            r == self@.https_port,
    {
        self.https_port
    }

    /// Attaches a VM configuration; `start` then builds the configured
    /// invocation instead of the ad hoc one.
    pub fn add_vm_config(&mut self, config: &VMConfig)
        ensures
            final(self)@ == (QemuRunnerView { vm_config: Some(config@), ..old(self)@ }),
    {
        self.vm_config = Some(config.clone());
    }

    /// The name this instance is shown under: the stem of its image file.
    pub fn image_name(&self) -> (r: String)
        ensures
            r@ == display_name(self@),
    {
        match crate::text::file_stem(self.image.as_str()) {
            Some(st) => st,
            None => String::from_str("Can't get image name"),
        }
    }

    /// The invocation for the attached VM configuration: succeeds exactly
    /// when the VM's image name resolves to a unique image, and then
    /// yields the configured argument vector.
    fn start_with_vm_config(&self, config: &Config, images: &Vec<String>) -> (r: Result<
        Vec<String>,
        String,
    >)
        requires
            self@.vm_config is Some,
        ensures
            self@.vm_config matches Some(vm) && image_file_of(
                views_of(images@),
                vm.image_name,
                images_directory_of(config@),
            ) matches Some(path) ==> (r matches Ok(args) && views_of(args@)
                == config_start_args(vm, path)),
            self@.vm_config matches Some(vm) && image_file_of(
                views_of(images@),
                vm.image_name,
                images_directory_of(config@),
            ) is None ==> r is Err,
    {
        let vm_config = match &self.vm_config {
            Some(v) => v,
            None => {
                return Err(String::from_str("No VM config provided!"));
            },
        };
        let ghost vmv = vm_config@;
        let dir = config.get_images_directory();
        let image_path = match get_file_from_image_name(vm_config.image_name(), images, dir.as_str())
            {
            Some(p) => p,
            None => {
                let mut e = String::from_str("Unable to find image with name containing '");
                e.append(vm_config.image_name());
                e.append("' in directory '");
                e.append(dir.as_str());
                e.append("'");
                return Err(e);
            },
        };
        let mut drive_arg = String::from_str("file=");
        drive_arg.append(image_path.as_str());
        let mut args: Vec<String> = Vec::new();
        if vm_config.daemonize() {
            args.push(String::from_str("nohup"));
        }
        args.push(String::from_str("qemu-system-x86_64"));
        if vm_config.daemonize() {
            args.push(String::from_str("-daemonize"));
        } else {
            args.push(String::from_str("-nographic"));
        }
        args.push(String::from_str("-drive"));
        args.push(drive_arg);
        let ghost prefix = views_of(args@);
        proof {
            assert(prefix =~~= (if vmv.daemonize {
                seq!["nohup"@]
            } else {
                Seq::<Seq<char>>::empty()
            }) + seq![
                hypervisor_binary(),
                if vmv.daemonize {
                    "-daemonize"@
                } else {
                    "-nographic"@
                },
                "-drive"@,
                "file="@ + image_path@,
            ]);
        }
        let opts = vm_config.options();
        let n = opts.len();
        let mut i: usize = 0;
        while i < n
            invariant
                i <= n,
                n == opts@.len(),
                crate::config::option_views(opts@) == vmv.options,
                views_of(args@) =~~= prefix + vm_option_tokens(vmv.options.take(i as int)),
            decreases n - i,
        {
            proof {
                assert(vmv.options.take(i + 1).drop_last() =~~= vmv.options.take(i as int));
                assert(vmv.options.take(i + 1).last() == vmv.options[i as int]);
                assert(opts@[i as int]@ == vmv.options[i as int]);
            }
            let keep = !crate::text::starts_with_str(opts[i].as_str(), "-daemonize")
                && !crate::text::starts_with_str(opts[i].as_str(), "-nographic");
            if keep {
                let ghost before = args@;
                let mut toks = opts[i].get_opt_list();
                args.append(&mut toks);
                proof {
                    assert(views_of(args@) =~~= views_of(before) + split_seq(
                        vmv.options[i as int],
                        ' ',
                    ));
                }
            }
            proof {
                assert(views_of(args@) =~~= prefix + vm_option_tokens(vmv.options.take(i + 1)));
            }
            i += 1;
        }
        proof {
            assert(vmv.options.take(n as int) =~~= vmv.options);
            assert(views_of(args@) =~~= config_start_args(vmv, image_path@));
        }
        Ok(args)
    }

    /// The invocation to hand to the process spawner. With a VM
    /// configuration attached this is the configured command; otherwise an
    /// ad hoc command around the runner's image and ports, after checking
    /// that an explicitly chosen port is not already bound (`port_in_use`)
    /// and that the image file is present (`image_exists`, supplied by the
    /// caller, which owns the file system).
    pub fn start<F: Fn(usize) -> bool>(
        &self,
        config: &Config,
        images: &Vec<String>,
        image_exists: bool,
        port_in_use: &F,
    ) -> (r: Result<Vec<String>, String>)
        requires
            forall|p: usize| #[trigger] call_requires(*port_in_use, (p,)),
        ensures
            self@.vm_config matches Some(vm) ==> (image_file_of(
                views_of(images@),
                vm.image_name,
                images_directory_of(config@),
            ) matches Some(path) ==> (r matches Ok(args) && views_of(args@)
                == config_start_args(vm, path))),
            self@.vm_config matches Some(vm) ==> (image_file_of(
                views_of(images@),
                vm.image_name,
                images_directory_of(config@),
            ) is None ==> r is Err),
            self@.vm_config is None ==> {
                &&& (r matches Ok(args) ==> image_exists && views_of(args@) == adhoc_start_args(
                    self@.ssh_port,
                    self@.https_port,
                    self@.image,
                    self@.daemonize,
                ))
                &&& (r is Ok ==> (self@.specified_ssh_port ==> call_ensures(
                    *port_in_use,
                    (self@.ssh_port,),
                    false,
                )))
                &&& (r is Ok ==> (self@.specified_https_port ==> call_ensures(
                    *port_in_use,
                    (self@.https_port,),
                    false,
                )))
                &&& ((self@.specified_ssh_port && (forall|b: bool|
                    call_ensures(*port_in_use, (self@.ssh_port,), b) ==> b)) ==> r is Err)
                &&& ((self@.specified_https_port && (forall|b: bool|
                    call_ensures(*port_in_use, (self@.https_port,), b) ==> b)) ==> r is Err)
                &&& (!image_exists ==> r is Err)
                &&& ((!self@.specified_ssh_port && !self@.specified_https_port && image_exists)
                    ==> r is Ok)
            },
    {
        if self.vm_config.is_some() {
            return self.start_with_vm_config(config, images);
        }
        if self.specified_ssh_port {
            let used = (*port_in_use)(self.ssh_port);
            if used {
                let mut e = String::from_str("ERROR: You specified SSH port '");
                e.append(to_decimal(self.ssh_port).as_str());
                e.append(
                    "', which is in use. Choose a different port, or don't specify and let the program choose.",
                );
                return Err(e);
            }
        }
        if self.specified_https_port {
            let used = (*port_in_use)(self.https_port);
            if used {
                let mut e = String::from_str("ERROR: You specified HTTPS port '");
                e.append(to_decimal(self.https_port).as_str());
                e.append(
                    "', which is in use. Choose a different port, or don't specify and let the program choose.",
                );
                return Err(e);
            }
        }
        if !image_exists {
            let mut e = String::from_str("ERROR: Selected image file '");
            e.append(self.image.as_str());
            e.append("' does not exist!");
            return Err(e);
        }
        let mut nic_arg = String::from_str("user,model=virtio,hostfwd=tcp::");
        nic_arg.append(to_decimal(self.ssh_port).as_str());
        nic_arg.append("-:22,hostfwd=tcp::");
        nic_arg.append(to_decimal(self.https_port).as_str());
        nic_arg.append("-:443");
        proof {
            assert(nic_arg@ =~= adhoc_nic_arg(self@.ssh_port, self@.https_port));
        }
        let mut drive_arg = String::from_str("file=");
        drive_arg.append(self.image.as_str());
        let mut args: Vec<String> = Vec::new();
        if self.daemonize {
            args.push(String::from_str("nohup"));
        }
        args.push(String::from_str("qemu-system-x86_64"));
        if self.daemonize {
            args.push(String::from_str("-daemonize"));
        } else {
            args.push(String::from_str("-nographic"));
        }
        args.push(String::from_str("-drive"));
        args.push(drive_arg);
        args.push(String::from_str("-m"));
        args.push(String::from_str("8G"));
        args.push(String::from_str("-smp"));
        args.push(String::from_str("4"));
        args.push(String::from_str("-accel"));
        args.push(String::from_str("kvm"));
        args.push(String::from_str("-accel"));
        args.push(String::from_str("tcg"));
        args.push(String::from_str("-cpu"));
        args.push(String::from_str("host"));
        args.push(String::from_str("-vnc"));
        args.push(String::from_str("none"));
        args.push(String::from_str("-nic"));
        args.push(nic_arg);
        proof {
            assert(views_of(args@) =~~= adhoc_start_args(
                self@.ssh_port,
                self@.https_port,
                self@.image,
                self@.daemonize,
            ));
        }
        Ok(args)
    }

    /// The command that stops this instance: a termination signal to its
    /// process id. Fails when the runner carries no process id.
    pub fn stop(&self) -> (r: Result<Vec<String>, String>)
        ensures
            self@.pid matches Some(p) ==> (r matches Ok(args) && views_of(args@) == seq![
                "kill"@,
                dec_str(p as nat),
            ]),
            self@.pid is None ==> (r matches Err(e) && e@ == "No PID provided; cannot stop VM!"@),
    {
        match self.pid {
            Some(pid) => {
                let mut args: Vec<String> = Vec::new();
                args.push(String::from_str("kill"));
                args.push(to_decimal(pid));
                proof {
                    assert(views_of(args@) =~~= seq!["kill"@, dec_str(pid as nat)]);
                }
                Ok(args)
            },
            None => Err(String::from_str("No PID provided; cannot stop VM!")),
        }
    }
}

} // verus!
