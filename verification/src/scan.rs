//! Reconstructing the running instances from the operating-system process
//! table. The caller captures the process listing; everything after that —
//! filtering to hypervisor invocations, tokenizing each line, extracting
//! the process id, the disk image and the forwarded ports — is verified
//! parsing. The token layout is the one the command builder itself
//! produces: the process id first, the drive argument as the eighth field,
//! the network-interface argument as the twenty-second.

use vstd::prelude::*;
use vstd::string::*;

use crate::config::{Config, images_directory_of};
use crate::images::image_file_of;
use crate::runner::{QemuRunner, QemuRunnerView};
use crate::text::{
    contains_seq, contains_str, digits_after_sign, digits_val, file_stem, file_stem_of,
    parse_usize, parses_as_usize, split_char, split_seq, split_whitespace, tokens_of, views_of,
};

verus! {

/// The mathematical value of a parsed process-table record.
#[verifier::ext_equal]
pub struct RunningVmRecordView {
    pub pid: usize,
    pub ssh_port: usize,
    pub https_port: usize,
    pub image_name: Seq<char>,
}

/// One running instance as read off a process-table line: its process id,
/// its forwarded SSH and HTTPS host ports, and the stem of its disk image.
pub struct RunningVmRecord {
    pub pid: usize,
    pub ssh_port: usize,
    pub https_port: usize,
    pub image_name: String,
}

impl View for RunningVmRecord {
    type V = RunningVmRecordView;

    open spec fn view(&self) -> RunningVmRecordView {
        RunningVmRecordView {
            pid: self.pid,
            ssh_port: self.ssh_port,
            https_port: self.https_port,
            image_name: self.image_name@,
        }
    }
}

/// True when the line mentions the hypervisor binary.
pub open spec fn line_names_hypervisor(line: Seq<char>) -> bool {
    contains_seq(line, "qemu-system-x86_64"@)
}

/// A port field with its trailing delimiter removed.
pub open spec fn drop_trailing(s: Seq<char>) -> Seq<char> {
    if s.len() == 0 {
        s
    } else {
        s.drop_last()
    }
}

/// A hypervisor line that is passed over: its drive field carries no `=`
/// part to name a disk file.
pub open spec fn scan_line_skipped(line: Seq<char>) -> bool {
    let tokens = tokens_of(line);
    tokens.len() >= 8 && split_seq(tokens[7], '=').len() < 2
}

/// A hypervisor line with the full expected shape: enough fields, a disk
/// file with a stem, a numeric process id, and a network-interface
/// argument whose third and fourth comma-parts carry numeric ports.
pub open spec fn scan_line_ok(line: Seq<char>) -> bool {
    let tokens = tokens_of(line);
    &&& tokens.len() >= 22
    &&& split_seq(tokens[7], '=').len() >= 2
    &&& file_stem_of(split_seq(tokens[7], '=')[1]) is Some
    &&& parses_as_usize(tokens[0])
    &&& split_seq(tokens[21], ',').len() >= 4
    &&& split_seq(split_seq(tokens[21], ',')[2], ':').len() >= 3
    &&& split_seq(split_seq(tokens[21], ',')[3], ':').len() >= 3
    &&& parses_as_usize(drop_trailing(split_seq(split_seq(tokens[21], ',')[2], ':')[2]))
    &&& parses_as_usize(drop_trailing(split_seq(split_seq(tokens[21], ',')[3], ':')[2]))
}

/// The record a well-shaped line denotes.
pub open spec fn record_of_line(line: Seq<char>) -> RunningVmRecordView {
    let tokens = tokens_of(line);
    RunningVmRecordView {
        pid: digits_val(digits_after_sign(tokens[0])) as usize,
        ssh_port: digits_val(
            digits_after_sign(drop_trailing(split_seq(split_seq(tokens[21], ',')[2], ':')[2])),
        ) as usize,
        https_port: digits_val(
            digits_after_sign(drop_trailing(split_seq(split_seq(tokens[21], ',')[3], ':')[2])),
        ) as usize,
        image_name: match file_stem_of(split_seq(tokens[7], '=')[1]) {
            Some(st) => st,
            None => Seq::<char>::empty(),
        },
    }
}

/// Reads one process-table line. Lines that do not mention the hypervisor,
/// and hypervisor lines whose drive field names no file, yield nothing; a
/// well-shaped hypervisor line yields its record; any other hypervisor
/// line is a parse failure.
pub fn parse_ps_line(line: &str) -> (r: Result<Option<RunningVmRecord>, String>)
    ensures
        !line_names_hypervisor(line@) ==> (r matches Ok(o) && o is None),
        line_names_hypervisor(line@) && scan_line_skipped(line@) ==> (r matches Ok(o)
            && o is None),
        line_names_hypervisor(line@) && scan_line_ok(line@) ==> (r matches Ok(o) && o matches Some(
            rec,
        ) && rec@ == record_of_line(line@)),
        line_names_hypervisor(line@) && !scan_line_ok(line@) && !scan_line_skipped(line@)
            ==> r is Err,
{
    if !contains_str(line, "qemu-system-x86_64") {
        return Ok(None);
    }
    let tokens = split_whitespace(line);
    let ghost toks = tokens_of(line@);
    if tokens.len() < 8 {
        return Err(String::from_str("Process line holds too few fields."));
    }
    proof {
        assert(tokens@[7]@ == toks[7]);
        assert(tokens@[0]@ == toks[0]);
    }
    let parts = split_char(tokens[7].as_str(), '=');
    if parts.len() < 2 {
        return Ok(None);
    }
    proof {
        assert(parts@[1]@ == split_seq(toks[7], '=')[1]);
    }
    let image_name = match file_stem(parts[1].as_str()) {
        Some(st) => st,
        None => {
            let mut e = String::from_str("Unable to read an image name from '");
            e.append(parts[1].as_str());
            e.append("'.");
            return Err(e);
        },
    };
    let pid = match parse_usize(tokens[0].as_str()) {
        Some(p) => p,
        None => {
            let mut e = String::from_str("Unable to parse '");
            e.append(tokens[0].as_str());
            e.append("' as usize.");
            return Err(e);
        },
    };
    if tokens.len() < 22 {
        return Err(String::from_str("Process line holds no network-interface argument."));
    }
    proof {
        assert(tokens@[21]@ == toks[21]);
    }
    let port_data = split_char(tokens[21].as_str(), ',');
    if port_data.len() < 4 {
        return Err(String::from_str("Network-interface argument holds too few parts."));
    }
    proof {
        assert(port_data@[2]@ == split_seq(toks[21], ',')[2]);
        assert(port_data@[3]@ == split_seq(toks[21], ',')[3]);
    }
    let ssh_data = split_char(port_data[2].as_str(), ':');
    if ssh_data.len() < 3 {
        return Err(String::from_str("Forwarding clause holds too few parts."));
    }
    let https_data = split_char(port_data[3].as_str(), ':');
    if https_data.len() < 3 {
        return Err(String::from_str("Forwarding clause holds too few parts."));
    }
    proof {
        assert(ssh_data@[2]@ == split_seq(split_seq(toks[21], ',')[2], ':')[2]);
        assert(https_data@[2]@ == split_seq(split_seq(toks[21], ',')[3], ':')[2]);
    }
    // the port is followed by one delimiter character, which is dropped
    let ssh_len = ssh_data[2].as_str().unicode_len();
    let ssh_piece = if ssh_len == 0 {
        ssh_data[2].as_str()
    } else {
        ssh_data[2].as_str().substring_char(0, ssh_len - 1)
    };
    proof {
        assert(ssh_piece@ =~= drop_trailing(split_seq(split_seq(toks[21], ',')[2], ':')[2]));
    }
    let https_len = https_data[2].as_str().unicode_len();
    let https_piece = if https_len == 0 {
        https_data[2].as_str()
    } else {
        https_data[2].as_str().substring_char(0, https_len - 1)
    };
    proof {
        assert(https_piece@ =~= drop_trailing(split_seq(split_seq(toks[21], ',')[3], ':')[2]));
    }
    let ssh_port = match parse_usize(ssh_piece) {
        Some(p) => p,
        None => {
            let mut e = String::from_str("Unable to parse '");
            e.append(ssh_piece);
            e.append("' as a port.");
            return Err(e);
        },
    };
    let https_port = match parse_usize(https_piece) {
        Some(p) => p,
        None => {
            let mut e = String::from_str("Unable to parse '");
            e.append(https_piece);
            e.append("' as a port.");
            return Err(e);
        },
    };
    Ok(Some(RunningVmRecord { pid, ssh_port, https_port, image_name }))
}

/// The records of every well-shaped hypervisor line, in order.
pub open spec fn scan_records(lines: Seq<Seq<char>>) -> Seq<RunningVmRecordView>
    decreases lines.len(),
{
    if lines.len() == 0 {
        Seq::<RunningVmRecordView>::empty()
    } else {
        let prev = scan_records(lines.drop_last());
        let l = lines.last();
        if line_names_hypervisor(l) && scan_line_ok(l) {
            prev.push(record_of_line(l))
        } else {
            prev
        }
    }
}

/// True when every hypervisor line is either well shaped or skippable.
pub open spec fn scan_all_ok(lines: Seq<Seq<char>>) -> bool {
    forall|i: int|
        0 <= i < lines.len() ==> (line_names_hypervisor(#[trigger] lines[i]) ==> (scan_line_ok(
            lines[i],
        ) || scan_line_skipped(lines[i])))
}

/// The runner a scanned record reconstructs: detached, carrying the
/// record's ports and process id, its image file resolved among the
/// available images.
pub open spec fn runner_of_record(
    rec: RunningVmRecordView,
    images: Seq<Seq<char>>,
    dir: Seq<char>,
) -> QemuRunnerView {
    QemuRunnerView {
        daemonize: true,
        ssh_port: rec.ssh_port,
        https_port: rec.https_port,
        specified_ssh_port: false,
        specified_https_port: false,
        image: match image_file_of(images, rec.image_name, dir) {
            Some(p) => p,
            None => Seq::<char>::empty(),
        },
        pid: Some(rec.pid),
        vm_config: None,
    }
}

/// Rebuilds every running instance from a capture of the process table:
/// one runner per well-shaped hypervisor line, in order. Fails exactly
/// when some hypervisor line is malformed.
pub fn get_list_of_running_vms(ps_output: &str, config: &Config, images: &Vec<String>) -> (r:
    Result<Vec<QemuRunner>, String>)
    ensures
        r is Ok <==> scan_all_ok(split_seq(ps_output@, '\n')),
        r matches Ok(v) ==> {
            let recs = scan_records(split_seq(ps_output@, '\n'));
            &&& v@.len() == recs.len()
            &&& forall|i: int|
                0 <= i < recs.len() ==> (#[trigger] v@[i])@ == runner_of_record(
                    recs[i],
                    views_of(images@),
                    images_directory_of(config@),
                )
        },
{
    let lines = split_char(ps_output, '\n');
    let ghost lns = split_seq(ps_output@, '\n');
    let n = lines.len();
    let mut result: Vec<QemuRunner> = Vec::new();
    let mut i: usize = 0;
    while i < n
        invariant
            i <= n,
            n == lines@.len(),
            views_of(lines@) == lns,
            lns == split_seq(ps_output@, '\n'),
            forall|k: int|
                0 <= k < i ==> (line_names_hypervisor(#[trigger] lns[k]) ==> (scan_line_ok(
                    lns[k],
                ) || scan_line_skipped(lns[k]))),
            result@.len() == scan_records(lns.take(i as int)).len(),
            forall|k: int|
                0 <= k < result@.len() ==> (#[trigger] result@[k])@ == runner_of_record(
                    scan_records(lns.take(i as int))[k],
                    views_of(images@),
                    images_directory_of(config@),
                ),
        decreases n - i,
    {
        proof {
            assert(lines@[i as int]@ == lns[i as int]);
            assert(lns.take(i + 1).drop_last() =~~= lns.take(i as int));
            assert(lns.take(i + 1).last() == lns[i as int]);
        }
        match parse_ps_line(lines[i].as_str()) {
            Ok(Some(rec)) => {
                let runner = QemuRunner::new(
                    rec.ssh_port,
                    rec.https_port,
                    rec.image_name.as_str(),
                    Some(rec.pid),
                    config,
                    images,
                );
                proof {
                    assert(runner@ =~~= runner_of_record(
                        record_of_line(lns[i as int]),
                        views_of(images@),
                        images_directory_of(config@),
                    ));
                }
                result.push(runner);
            },
            Ok(None) => {},
            Err(e) => {
                proof {
                    assert(line_names_hypervisor(lns[i as int]) && !scan_line_ok(lns[i as int])
                        && !scan_line_skipped(lns[i as int]));
                }
                return Err(e);
            },
        }
        i += 1;
    }
    proof {
        assert(lns.take(n as int) =~~= lns);
    }
    Ok(result)
}

} // verus!
