//! The start and stop commands: from the parsed command line and the
//! state the caller gathered (the configuration, the available images, the
//! running instances, whether the chosen image file is present) to the
//! external command to run, or the error to report.

use vstd::prelude::*;
use vstd::string::*;

use crate::config::{Config, first_matching_vm, images_directory_of};
use crate::images::{get_file_from_image_name, image_file_of};
use crate::runner::{
    QemuRunner, QemuRunnerView, adhoc_start_args, config_start_args, display_name, runner_views,
};
use crate::text::{contains_seq, contains_str, dec_str, views_of};

verus! {

/// True when some known image name contains `pat`.
pub open spec fn any_image_matches(images: Seq<Seq<char>>, pat: Seq<char>) -> bool {
    exists|i: int| 0 <= i < images.len() && contains_seq(#[trigger] images[i], pat)
}

/// The first running instance whose display name contains `pat`, if any.
pub open spec fn first_matching_runner(vms: Seq<QemuRunnerView>, pat: Seq<char>) -> Option<
    QemuRunnerView,
>
    decreases vms.len(),
{
    if vms.len() == 0 {
        None
    } else if contains_seq(display_name(vms[0]), pat) {
        Some(vms[0])
    } else {
        first_matching_runner(vms.skip(1), pat)
    }
}

/// The start command. The image name must resolve to a unique image; a VM
/// declared for it is started as configured, anything else ad hoc with the
/// requested or probed ports. Returns the invocation for the process
/// spawner, or the error to report.
pub fn run_command_start<F: Fn(usize) -> bool>(
    image: Option<String>,
    ssh_port: Option<usize>,
    https_port: Option<usize>,
    foreground: bool,
    config: &Config,
    images: &Vec<String>,
    image_exists: bool,
    port_in_use: &F,
) -> (r: Result<Vec<String>, String>)
    requires
        forall|p: usize| #[trigger] call_requires(*port_in_use, (p,)),
    ensures
        image is None ==> (r matches Err(e) && e@
            == "No image provided! Must provide an image name."@),
        image matches Some(n) ==> (image_file_of(
            views_of(images@),
            n@,
            images_directory_of(config@),
        ) is None ==> r is Err),
        image matches Some(n) ==> (image_file_of(
            views_of(images@),
            n@,
            images_directory_of(config@),
        ) matches Some(path) ==> (match first_matching_vm(config@.vms, n@) {
            Some(vm) => {
                &&& (image_file_of(
                    views_of(images@),
                    vm.image_name,
                    images_directory_of(config@),
                ) matches Some(vmpath) ==> (r matches Ok(args) && views_of(args@)
                    == config_start_args(vm, vmpath)))
                &&& (image_file_of(
                    views_of(images@),
                    vm.image_name,
                    images_directory_of(config@),
                ) is None ==> r is Err)
            },
            None => {
                &&& (!image_exists ==> r is Err)
                &&& (r matches Ok(args) ==> image_exists && (exists|sp: usize, hp: usize|
                    #![trigger crate::runner::adhoc_nic_arg(sp, hp)]
                    (match ssh_port {
                        Some(p) => sp == p && call_ensures(*port_in_use, (p,), false),
                        None => sp >= crate::DEFAULT_SSH_PORT && (sp < usize::MAX
                            ==> call_ensures(*port_in_use, (sp,), false)) && (forall|q: usize|
                            crate::DEFAULT_SSH_PORT <= q < sp ==> #[trigger] call_ensures(
                                *port_in_use,
                                (q,),
                                true,
                            )),
                    }) && (match https_port {
                        Some(p) => hp == p && call_ensures(*port_in_use, (p,), false),
                        None => hp >= crate::DEFAULT_HTTPS_PORT && (hp < usize::MAX
                            ==> call_ensures(*port_in_use, (hp,), false)) && (forall|q: usize|
                            crate::DEFAULT_HTTPS_PORT <= q < hp ==> #[trigger] call_ensures(
                                *port_in_use,
                                (q,),
                                true,
                            )),
                    }) && views_of(args@) == adhoc_start_args(sp, hp, path, !foreground)))
                &&& (ssh_port matches Some(p) ==> ((forall|b: bool|
                    call_ensures(*port_in_use, (p,), b) ==> b) ==> r is Err))
                &&& (https_port matches Some(p) ==> ((forall|b: bool|
                    call_ensures(*port_in_use, (p,), b) ==> b) ==> r is Err))
                &&& ((ssh_port is None && https_port is None && image_exists) ==> r is Ok)
            },
        })),
{
    let image_name = match image {
        Some(n) => n,
        None => {
            return Err(String::from_str("No image provided! Must provide an image name."));
        },
    };
    let mut runner = QemuRunner::with_probed_ports(port_in_use);
    let dir = config.get_images_directory();
    match get_file_from_image_name(image_name.as_str(), images, dir.as_str()) {
        Some(pathbuf) => {
            runner.set_image_file(pathbuf);
        },
        None => {
            let mut e = String::from_str("Could not find unique image matching '");
            e.append(image_name.as_str());
            e.append("'.");
            return Err(e);
        },
    }
    match config.get_vm_config_with_image_name(image_name.as_str()) {
        Some(vm) => {
            runner.add_vm_config(vm);
        },
        None => {
            match ssh_port {
                Some(port) => runner.set_ssh_port(port),
                None => (),
            }
            match https_port {
                Some(port) => runner.set_https_port(port),
                None => (),
            }
            runner.set_daemonization_option(!foreground);
        },
    }
    runner.start(config, images, image_exists, port_in_use)
}

/// The stop command: finds the first running instance whose name matches
/// and yields the command that signals it. Reports when nothing runs, no
/// image name was given, no known image matches, or no running instance
/// does.
pub fn run_command_stop(
    image: Option<String>,
    running_vms: &Vec<QemuRunner>,
    images: &Vec<String>,
) -> (r: Result<Vec<String>, String>)
    ensures
        running_vms@.len() == 0 ==> (r matches Err(e) && e@ == "No VMs running."@),
        running_vms@.len() > 0 && image is None ==> (r matches Err(e) && e@
            == "No image provided! Must provide an image name."@),
        running_vms@.len() > 0 ==> (image matches Some(n) ==> {
            &&& (!any_image_matches(views_of(images@), n@) ==> (r matches Err(e) && e@
                == "No VM running on image with name matching {image_name}."@))
            &&& (any_image_matches(views_of(images@), n@) ==> (match first_matching_runner(
                runner_views(running_vms@),
                n@,
            ) {
                Some(rv) => {
                    &&& (rv.pid matches Some(p) ==> (r matches Ok(args) && views_of(args@)
                        == seq!["kill"@, dec_str(p as nat)]))
                    &&& (rv.pid is None ==> r is Err)
                },
                None => r is Err,
            }))
        }),
{
    if running_vms.len() == 0 {
        return Err(String::from_str("No VMs running."));
    }
    let image_name = match image {
        Some(n) => n,
        None => {
            return Err(String::from_str("No image provided! Must provide an image name."));
        },
    };
    let n = images.len();
    let mut found_image = false;
    let mut i: usize = 0;
    while i < n
        invariant
            i <= n,
            n == images@.len(),
            found_image == any_image_matches(views_of(images@).take(i as int), image_name@),
        decreases n - i,
    {
        proof {
            assert(forall|k: int|
                0 <= k < i + 1 ==> views_of(images@).take(i + 1)[k] == views_of(images@)[k]);
        }
        if contains_str(images[i].as_str(), image_name.as_str()) {
            found_image = true;
            proof {
                assert(contains_seq(views_of(images@).take(i + 1)[i as int], image_name@));
            }
        }
        proof {
            if any_image_matches(views_of(images@).take(i as int), image_name@) {
                let w = choose|k: int|
                    0 <= k < i && contains_seq(
                        #[trigger] views_of(images@).take(i as int)[k],
                        image_name@,
                    );
                assert(contains_seq(views_of(images@).take(i + 1)[w], image_name@));
            }
            if any_image_matches(views_of(images@).take(i + 1), image_name@)
                && !any_image_matches(views_of(images@).take(i as int), image_name@)
                && !contains_seq(views_of(images@)[i as int], image_name@) {
                let w = choose|k: int|
                    0 <= k < i + 1 && contains_seq(
                        #[trigger] views_of(images@).take(i + 1)[k],
                        image_name@,
                    );
                assert(contains_seq(views_of(images@).take(i as int)[w], image_name@));
            }
        }
        i += 1;
    }
    proof {
        assert(views_of(images@).take(n as int) =~~= views_of(images@));
    }
    if !found_image {
        return Err(String::from_str("No VM running on image with name matching {image_name}."));
    }
    let m = running_vms.len();
    let ghost vmsv = runner_views(running_vms@);
    let mut j: usize = 0;
    proof {
        assert(vmsv.skip(0) =~~= vmsv);
    }
    while j < m
        invariant
            j <= m,
            m == running_vms@.len(),
            image == Some(image_name),
            any_image_matches(views_of(images@), image_name@),
            vmsv == runner_views(running_vms@),
            first_matching_runner(vmsv, image_name@) == first_matching_runner(
                vmsv.skip(j as int),
                image_name@,
            ),
        decreases m - j,
    {
        proof {
            assert(vmsv.skip(j as int)[0] == vmsv[j as int]);
            assert(vmsv.skip(j as int).skip(1) =~~= vmsv.skip(j + 1));
            assert(vmsv[j as int] == running_vms@[j as int]@);
        }
        let name = running_vms[j].image_name();
        if contains_str(name.as_str(), image_name.as_str()) {
            return running_vms[j].stop();
        }
        j += 1;
    }
    proof {
        assert(vmsv.skip(m as int) =~~= Seq::<QemuRunnerView>::empty());
    }
    let mut e = String::from_str("Could not find a VM running with image name matching pattern '");
    e.append(image_name.as_str());
    e.append("'.");
    Err(e)
}

} // verus!
