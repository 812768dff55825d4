//! Buffered display output, and the table of running instances. The
//! stream only gathers text; whoever owns the real output writes the
//! drained buffer to it.

use vstd::prelude::*;
use vstd::string::*;

use crate::runner::{QemuRunner, QemuRunnerView, display_name, runner_views};
use crate::text::{dashes, dec_str, left_padded, pad_left, pad_right, repeat_char, right_padded,
    to_decimal};

verus! {

/// Where a stream's text is bound: the standard output.
pub enum OutputStreamTarget {
    Stdout,
}

/// A buffer gathering lines of display output for one target.
pub struct OutputStream {
    stream: OutputStreamTarget,
    buffer: String,
}

impl View for OutputStream {
    type V = Seq<char>;

    closed spec fn view(&self) -> Seq<char> {
        self.buffer@
    }
}

/// A buffer with a line break after it, unless it is still empty.
pub open spec fn spaced(buf: Seq<char>) -> Seq<char> {
    if buf.len() > 0 {
        buf + "\n"@
    } else {
        buf
    }
}

/// A buffer with one more line: a break first when text is already there.
pub open spec fn appended_line(buf: Seq<char>, line: Seq<char>) -> Seq<char> {
    spaced(buf) + line
}

impl OutputStream {
    /// An empty stream for the given target.
    pub fn new(stream: OutputStreamTarget) -> (r: Self)
        ensures
            r@ == Seq::<char>::empty(),
    {
        OutputStream { stream, buffer: String::new() }
    }

    /// Appends text as it is.
    pub fn add(&mut self, input: &str)
        ensures
            final(self)@ == old(self)@ + input@,
    {
        self.buffer.append(input);
    }

    /// Appends a line break, unless the buffer is still empty.
    pub fn add_spacer(&mut self)
        ensures
            final(self)@ == spaced(old(self)@),
    {
        if !self.buffer.as_str().is_empty() {
            self.buffer.append("\n");
        }
    }

    /// Appends one line: a break first when text is already there.
    pub fn addln(&mut self, input: &str)
        ensures
            final(self)@ == appended_line(old(self)@, input@),
    {
        if !self.buffer.as_str().is_empty() {
            self.add_spacer();
        }
        self.add(input);
    }

    /// Hands the gathered text out and leaves the stream empty; the
    /// caller writes it to the stream's target.
    pub fn take_buffer(&mut self) -> (r: String)
        ensures
            r@ == old(self)@,
            final(self)@ == Seq::<char>::empty(),
    {
        let r = self.buffer.clone();
        self.buffer = String::new();
        r
    }
}

/// The longest display name among the instances.
pub open spec fn max_display_name_len(vms: Seq<QemuRunnerView>) -> nat
    decreases vms.len(),
{
    if vms.len() == 0 {
        0
    } else {
        let prev = max_display_name_len(vms.drop_last());
        let l = display_name(vms.last()).len();
        if prev >= l {
            prev
        } else {
            l
        }
    }
}

/// The width of the table's name column: two more than the longest of the
/// display names and the header, bounded by what a width can hold.
pub open spec fn table_width(vms: Seq<QemuRunnerView>) -> nat {
    let m = if max_display_name_len(vms) >= "image name"@.len() {
        max_display_name_len(vms)
    } else {
        "image name"@.len()
    };
    if m + 2 > usize::MAX {
        usize::MAX as nat
    } else {
        m + 2
    }
}

/// The table's header line.
pub open spec fn table_header(width: nat) -> Seq<char> {
    right_padded("SSH Port"@, 8) + " | "@ + right_padded("HTTPS Port"@, 10) + " | "@
        + right_padded("Image Name"@, width)
}

/// The rule under the header.
pub open spec fn table_divider(width: nat) -> Seq<char> {
    repeat_char('-', 8) + "-+-"@ + repeat_char('-', 10) + "-+-"@ + repeat_char('-', width)
}

/// One instance's line: its ports right-aligned, its name left-aligned.
pub open spec fn table_row(vm: QemuRunnerView, width: nat) -> Seq<char> {
    left_padded(dec_str(vm.ssh_port as nat), 8) + " | "@ + left_padded(
        dec_str(vm.https_port as nat),
        10,
    ) + " | "@ + right_padded(display_name(vm), width)
}

/// The instance lines appended to a buffer, one per runner, in order.
pub open spec fn rows_appended(buf: Seq<char>, vms: Seq<QemuRunnerView>, width: nat) -> Seq<char>
    decreases vms.len(),
{
    if vms.len() == 0 {
        buf
    } else {
        appended_line(rows_appended(buf, vms.drop_last(), width), table_row(vms.last(), width))
    }
}

/// The whole table appended to a buffer: header, divider, one line per
/// instance.
pub open spec fn table_text(buf: Seq<char>, vms: Seq<QemuRunnerView>) -> Seq<char> {
    let w = table_width(vms);
    rows_appended(appended_line(appended_line(buf, table_header(w)), table_divider(w)), vms, w)
}

/// Appends the table of running instances to the output stream: SSH port,
/// HTTPS port and image name, under a header, the name column as wide as
/// the longest name asks.
pub fn print_running_vm_table(running_vms: &Vec<QemuRunner>, output_buffer: &mut OutputStream)
    ensures
        final(output_buffer)@ == table_text(old(output_buffer)@, runner_views(running_vms@)),
{
    let ghost vms = runner_views(running_vms@);
    let header_len = "image name".unicode_len();
    let n = running_vms.len();
    let mut max_len: usize = 0;
    let mut i: usize = 0;
    while i < n
        invariant
            i <= n,
            n == running_vms@.len(),
            vms == runner_views(running_vms@),
            max_len == max_display_name_len(vms.take(i as int)),
        decreases n - i,
    {
        proof {
            assert(vms.take(i + 1).drop_last() =~~= vms.take(i as int));
            assert(vms.take(i + 1).last() == running_vms@[i as int]@);
        }
        let name = running_vms[i].image_name();
        let l = name.as_str().unicode_len();
        if l > max_len {
            max_len = l;
        }
        i += 1;
    }
    proof {
        assert(vms.take(n as int) =~~= vms);
    }
    let m = if max_len >= header_len {
        max_len
    } else {
        header_len
    };
    let width = if m > usize::MAX - 2 {
        usize::MAX
    } else {
        m + 2
    };
    proof {
        assert(width as nat == table_width(vms));
    }

    let mut header = pad_right("SSH Port", 8);
    header.append(" | ");
    header.append(pad_right("HTTPS Port", 10).as_str());
    header.append(" | ");
    header.append(pad_right("Image Name", width).as_str());
    proof {
        assert(header@ =~= table_header(width as nat));
    }
    output_buffer.addln(header.as_str());

    let mut divider = dashes(8);
    divider.append("-+-");
    divider.append(dashes(10).as_str());
    divider.append("-+-");
    divider.append(dashes(width).as_str());
    proof {
        assert(divider@ =~= table_divider(width as nat));
    }
    output_buffer.addln(divider.as_str());

    let ghost base = output_buffer@;
    let mut j: usize = 0;
    while j < n
        invariant
            j <= n,
            n == running_vms@.len(),
            vms == runner_views(running_vms@),
            width as nat == table_width(vms),
            output_buffer@ == rows_appended(base, vms.take(j as int), width as nat),
        decreases n - j,
    {
        proof {
            assert(vms.take(j + 1).drop_last() =~~= vms.take(j as int));
            assert(vms.take(j + 1).last() == running_vms@[j as int]@);
        }
        let vm = &running_vms[j];
        let mut row = pad_left(to_decimal(vm.ssh_port()).as_str(), 8);
        row.append(" | ");
        row.append(pad_left(to_decimal(vm.https_port()).as_str(), 10).as_str());
        row.append(" | ");
        row.append(pad_right(vm.image_name().as_str(), width).as_str());
        proof {
            assert(row@ =~= table_row(running_vms@[j as int]@, width as nat));
        }
        output_buffer.addln(row.as_str());
        j += 1;
    }
    proof {
        assert(vms.take(n as int) =~~= vms);
    }
}

} // verus!
