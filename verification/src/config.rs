//! The configuration data model — options, port mappings, per-VM and whole
//! configurations — and the option merge engine that folds global options
//! into each VM and attaches the port-forwarding clauses to the
//! network-interface option.

use vstd::prelude::*;
use vstd::string::*;

use crate::text::{
    contains_seq, dec_str, digits_after_sign, digits_val, join_seq, join_str, parse_usize,
    parses_as_usize, replace_tabs, split_char, split_seq, starts_with_str, str_eq,
    tabs_to_spaces, views_of,
};

verus! {

/// A single hypervisor flag, possibly carrying arguments after spaces
/// (`-m 8G`, `-daemonize`). Tabs are normalized to spaces at construction.
pub struct QemuRunOption {
    option: String,
}

impl View for QemuRunOption {
    type V = Seq<char>;

    closed spec fn view(&self) -> Seq<char> {
        self.option@
    }
}

impl Clone for QemuRunOption {
    fn clone(&self) -> (r: Self)
        ensures
            r@ == self@,
    {
        QemuRunOption { option: self.option.clone() }
    }
}

/// The views of a list of options.
pub open spec fn option_views(v: Seq<QemuRunOption>) -> Seq<Seq<char>> {
    v.map_values(|o: QemuRunOption| o@)
}

impl QemuRunOption {
    /// Creates a new option, replacing every tab character with a space.
    pub fn new(option: &str) -> (r: Self)
        ensures
            r@ == tabs_to_spaces(option@),
    {
        QemuRunOption { option: replace_tabs(option) }
    }

    /// The option text.
    pub fn as_str(&self) -> (r: &str)
        ensures
            r@ == self@,
    {
        self.option.as_str()
    }

    /// True when the text holds more than one space-separated token.
    pub fn is_multi_opts(&self) -> (r: bool)
        ensures
            r == (split_seq(self@, ' ').len() > 1),
    {
        let parts = split_char(self.option.as_str(), ' ');
        proof {
            assert(views_of(parts@).len() == parts@.len());
        }
        parts.len() > 1
    }

    /// The space-separated tokens of the text, in order.
    pub fn get_opt_list(&self) -> (r: Vec<String>)
        ensures
            views_of(r@) == split_seq(self@, ' '),
    {
        split_char(self.option.as_str(), ' ')
    }
}

/// The mathematical value of a port mapping.
#[verifier::ext_equal]
pub struct PortMappingView {
    pub host_port: Seq<char>,
    pub vm_port: Seq<char>,
    pub explicit: bool,
}

/// One host-to-guest forwarded port. `explicit` means the given host port
/// must be used exactly; otherwise the allocator may substitute the next
/// free port at or above it.
pub struct PortMapping {
    host_port: String,
    vm_port: String,
    explicit: bool,
}

impl View for PortMapping {
    type V = PortMappingView;

    closed spec fn view(&self) -> PortMappingView {
        PortMappingView {
            host_port: self.host_port@,
            vm_port: self.vm_port@,
            explicit: self.explicit,
        }
    }
}

impl Clone for PortMapping {
    fn clone(&self) -> (r: Self)
        ensures
            r@ == self@,
    {
        PortMapping {
            host_port: self.host_port.clone(),
            vm_port: self.vm_port.clone(),
            explicit: self.explicit,
        }
    }
}

/// The views of a list of port mappings.
pub open spec fn mapping_views(v: Seq<PortMapping>) -> Seq<PortMappingView> {
    v.map_values(|m: PortMapping| m@)
}

/// The forwarding clause a resolved mapping contributes to the
/// network-interface option.
pub open spec fn forwarding_clause(host_port: Seq<char>, vm_port: Seq<char>) -> Seq<char> {
    "hostfwd=tcp::"@ + host_port + "-:"@ + vm_port
}

/// How the allocator may rewrite one mapping: an explicit mapping keeps its
/// host port; any other must hold a parseable port and receives the decimal
/// numeral of some port at or above the requested one.
pub open spec fn resolves_mapping(before: PortMappingView, after: PortMappingView) -> bool {
    &&& after.vm_port == before.vm_port
    &&& after.explicit == before.explicit
    &&& if before.explicit {
        after.host_port == before.host_port
    } else {
        &&& parses_as_usize(before.host_port)
        &&& exists|p: usize|
            digits_val(digits_after_sign(before.host_port)) <= p && after.host_port
                == #[trigger] dec_str(p as nat)
    }
}

/// The allocator's law for one mapping, as observed through the probe: a
/// non-explicit mapping's stored port is the first at or above the
/// requested one that the probe reported free — every port below it was
/// probed and reported occupied. (When every representable port is
/// reported occupied, the largest one is stored.)
pub open spec fn allocator_resolved<F: Fn(usize) -> bool>(
    before: PortMappingView,
    after: PortMappingView,
    port_in_use: F,
) -> bool {
    !before.explicit ==> exists|p: usize|
        {
            &&& digits_val(digits_after_sign(before.host_port)) <= p
            &&& after.host_port == #[trigger] dec_str(p as nat)
            &&& p < usize::MAX ==> call_ensures(port_in_use, (p,), false)
            &&& forall|q: usize|
                digits_val(digits_after_sign(before.host_port)) <= q < p ==> call_ensures(
                    port_in_use,
                    (q,),
                    true,
                )
        }
}

/// `allocator_resolved`, mapping-wise over two lists.
pub open spec fn allocator_resolved_all<F: Fn(usize) -> bool>(
    before: Seq<PortMappingView>,
    after: Seq<PortMappingView>,
    port_in_use: F,
) -> bool {
    forall|k: int|
        0 <= k < before.len() && k < after.len() ==> allocator_resolved(
            before[k],
            #[trigger] after[k],
            port_in_use,
        )
}

impl PortMapping {
    /// A mapping from `host_port` on the host to `vm_port` in the guest.
    pub fn new(host_port: &str, vm_port: &str, explicit: bool) -> (r: Self)
        ensures
            r@.host_port == host_port@,
            r@.vm_port == vm_port@,
            r@.explicit == explicit,
    {
        PortMapping {
            host_port: String::from_str(host_port),
            vm_port: String::from_str(vm_port),
            explicit,
        }
    }

    /// The stored host port.
    pub fn _host_port(&self) -> (r: &str)
        ensures
            r@ == self@.host_port,
    {
        self.host_port.as_str()
    }

    /// The guest port.
    pub fn _vm_port(&self) -> (r: &str)
        ensures
            r@ == self@.vm_port,
    {
        self.vm_port.as_str()
    }

    /// Whether the host port must be used exactly as given.
    pub fn is_explicit_mapping(&self) -> (r: bool)
        ensures
            r == self@.explicit,
    {
        self.explicit
    }

    /// Resolves the host port — probing for a free one unless the mapping
    /// is explicit — and formats the forwarding clause. The resolved port
    /// overwrites the stored host port, so this is to be called at most
    /// once per mapping. Fails exactly when a non-explicit host port does
    /// not parse as a port number.
    pub fn format_nic<F: Fn(usize) -> bool>(&mut self, port_in_use: &F) -> (r: Result<
        String,
        String,
    >)
        requires
            forall|p: usize| #[trigger] call_requires(*port_in_use, (p,)),
        ensures
            r is Ok <==> (old(self)@.explicit || parses_as_usize(old(self)@.host_port)),
            r matches Ok(c) ==> resolves_mapping(old(self)@, final(self)@) && c@
                == forwarding_clause(final(self)@.host_port, final(self)@.vm_port),
            r is Ok ==> allocator_resolved(old(self)@, final(self)@, *port_in_use),
            r is Err ==> final(self)@ == old(self)@,
    {
        if !self.explicit {
            match parse_usize(self.host_port.as_str()) {
                Some(requested) => {
                    let resolved = crate::ports::find_open_port(requested, port_in_use);
                    self.host_port = crate::text::to_decimal(resolved);
                },
                None => {
                    let mut e = String::from_str(
                        "ERROR: For intended mapping from host port '",
                    );
                    e.append(self.host_port.as_str());
                    e.append("' to VM port '");
                    e.append(self.vm_port.as_str());
                    e.append("', unable to read host port '");
                    e.append(self.host_port.as_str());
                    e.append("' as an unsigned integer.");
                    return Err(e);
                },
            }
        }
        let mut clause = String::from_str("hostfwd=tcp::");
        clause.append(self.host_port.as_str());
        clause.append("-:");
        clause.append(self.vm_port.as_str());
        proof {
            assert(clause@ =~= forwarding_clause(self@.host_port, self@.vm_port));
        }
        Ok(clause)
    }
}

/// The network-interface flag.
pub open spec fn nic_flag() -> Seq<char> {
    "-nic"@
}

/// True when an option's text starts with the network-interface flag.
pub open spec fn is_nic_text(t: Seq<char>) -> bool {
    nic_flag().is_prefix_of(t)
}

/// True when some option of the list is a network-interface option.
pub open spec fn has_nic(opts: Seq<Seq<char>>) -> bool {
    exists|i: int| 0 <= i < opts.len() && is_nic_text(#[trigger] opts[i])
}

/// Adding one option to a list: a network-interface option replaces the
/// text of every network-interface option already present; anything else —
/// and a network-interface option arriving first — is appended.
pub open spec fn add_option_spec(opts: Seq<Seq<char>>, new: Seq<char>) -> Seq<Seq<char>> {
    if is_nic_text(new) && has_nic(opts) {
        opts.map_values(|t: Seq<char>| if is_nic_text(t) { new } else { t })
    } else {
        opts.push(new)
    }
}

/// Adding a list of options in order, each by `add_option_spec`.
pub open spec fn add_options_spec(opts: Seq<Seq<char>>, news: Seq<Seq<char>>) -> Seq<Seq<char>>
    decreases news.len(),
{
    if news.len() == 0 {
        opts
    } else {
        add_option_spec(add_options_spec(opts, news.drop_last()), news.last())
    }
}

/// The forwarding clauses of a mapping list, in order.
pub open spec fn clauses_of(maps: Seq<PortMappingView>) -> Seq<Seq<char>> {
    maps.map_values(|m: PortMappingView| forwarding_clause(m.host_port, m.vm_port))
}

/// All forwarding clauses of a mapping list, comma-separated.
pub open spec fn joined_clauses(maps: Seq<PortMappingView>) -> Seq<char> {
    join_seq(clauses_of(maps), ","@)
}

/// Appending the joined port clauses to one option: only network-interface
/// options change; a bare `-nic` gets the clauses as its argument after a
/// space, one already carrying arguments gets them appended after a comma.
pub open spec fn attach_clauses_one(t: Seq<char>, cl: Seq<char>) -> Seq<char> {
    if !is_nic_text(t) {
        t
    } else if t == nic_flag() {
        t + " "@ + cl
    } else {
        t + ","@ + cl
    }
}

/// `attach_clauses_one` applied to every option of a list.
pub open spec fn attach_clauses(opts: Seq<Seq<char>>, cl: Seq<char>) -> Seq<Seq<char>> {
    opts.map_values(|t: Seq<char>| attach_clauses_one(t, cl))
}

/// `resolves_mapping`, mapping-wise over two lists.
pub open spec fn resolves_mappings(
    before: Seq<PortMappingView>,
    after: Seq<PortMappingView>,
) -> bool {
    after.len() == before.len() && forall|k: int|
        0 <= k < before.len() ==> resolves_mapping(before[k], #[trigger] after[k])
}

/// The option list of `vm` after the add phase of the merge: global options
/// folded in when the VM asks for them, then a bare network-interface
/// option synthesized when the VM has port mappings but no
/// network-interface option yet.
pub open spec fn merged_base(vm: VMConfigView, globals: Seq<Seq<char>>) -> Seq<Seq<char>> {
    let merged = if vm.use_global_options {
        add_options_spec(vm.options, globals)
    } else {
        vm.options
    };
    if !has_nic(merged) && vm.port_mappings.len() > 0 {
        add_option_spec(merged, nic_flag())
    } else {
        merged
    }
}

/// The whole effect of the merge pass on one VM: mappings resolved, and the
/// joined clauses attached to every network-interface option of the added
/// base.
pub open spec fn merged_vm(
    before: VMConfigView,
    globals: Seq<Seq<char>>,
    after: VMConfigView,
) -> bool {
    &&& after.image_name == before.image_name
    &&& after.use_global_options == before.use_global_options
    &&& after.daemonize == before.daemonize
    &&& resolves_mappings(before.port_mappings, after.port_mappings)
    &&& after.options == attach_clauses(
        merged_base(before, globals),
        joined_clauses(after.port_mappings),
    )
}

/// The mathematical value of a per-VM configuration.
#[verifier::ext_equal]
pub struct VMConfigView {
    pub image_name: Seq<char>,
    pub port_mappings: Seq<PortMappingView>,
    pub options: Seq<Seq<char>>,
    pub use_global_options: bool,
    pub daemonize: bool,
}

/// One declared VM: its image name, forwarded ports, hypervisor options,
/// and whether it takes the global options and runs detached.
pub struct VMConfig {
    image_name: String,
    port_mappings: Vec<PortMapping>,
    options: Vec<QemuRunOption>,
    use_global_options: bool,
    daemonize: bool,
}

impl View for VMConfig {
    type V = VMConfigView;

    closed spec fn view(&self) -> VMConfigView {
        VMConfigView {
            image_name: self.image_name@,
            port_mappings: mapping_views(self.port_mappings@),
            options: option_views(self.options@),
            use_global_options: self.use_global_options,
            daemonize: self.daemonize,
        }
    }
}

fn clone_options(v: &Vec<QemuRunOption>) -> (r: Vec<QemuRunOption>)
    ensures
        option_views(r@) == option_views(v@),
{
    let mut r: Vec<QemuRunOption> = Vec::new();
    let mut i: usize = 0;
    while i < v.len()
        invariant
            i <= v@.len(),
            r@.len() == i,
            forall|j: int| 0 <= j < i ==> (#[trigger] r@[j])@ == v@[j]@,
        decreases v@.len() - i,
    {
        r.push(v[i].clone());
        i += 1;
    }
    proof {
        assert(option_views(r@) =~~= option_views(v@));
    }
    r
}

fn clone_mappings(v: &Vec<PortMapping>) -> (r: Vec<PortMapping>)
    ensures
        mapping_views(r@) == mapping_views(v@),
{
    let mut r: Vec<PortMapping> = Vec::new();
    let mut i: usize = 0;
    while i < v.len()
        invariant
            i <= v@.len(),
            r@.len() == i,
            forall|j: int| 0 <= j < i ==> (#[trigger] r@[j])@ == v@[j]@,
        decreases v@.len() - i,
    {
        r.push(v[i].clone());
        i += 1;
    }
    proof {
        assert(mapping_views(r@) =~~= mapping_views(v@));
    }
    r
}

impl Clone for VMConfig {
    fn clone(&self) -> (r: Self)
        ensures
            r@ == self@,
    {
        let r = VMConfig {
            image_name: self.image_name.clone(),
            port_mappings: clone_mappings(&self.port_mappings),
            options: clone_options(&self.options),
            use_global_options: self.use_global_options,
            daemonize: self.daemonize,
        };
        proof {
            assert(r@ =~~= self@);
        }
        r
    }
}

impl VMConfig {
    /// A VM configuration with the given fields.
    pub fn new(
        image_name: &str,
        port_mappings: Vec<PortMapping>,
        options: Vec<QemuRunOption>,
        use_global_options: bool,
        daemonize: bool,
    ) -> (r: Self)
        ensures
            r@.image_name == image_name@,
            r@.port_mappings == mapping_views(port_mappings@),
            r@.options == option_views(options@),
            r@.use_global_options == use_global_options,
            r@.daemonize == daemonize,
    {
        VMConfig {
            image_name: String::from_str(image_name),
            port_mappings,
            options,
            use_global_options,
            daemonize,
        }
    }

    /// True when a network-interface option is already present.
    pub fn option_nic_present(&self) -> (r: bool)
        ensures
            r == has_nic(self@.options),
    {
        let n = self.options.len();
        let mut i: usize = 0;
        while i < n
            invariant
                i <= n,
                n == self.options@.len(),
                forall|j: int| 0 <= j < i ==> !is_nic_text(#[trigger] self@.options[j]),
            decreases n - i,
        {
            if starts_with_str(self.options[i].as_str(), "-nic") {
                proof {
                    assert(is_nic_text(self@.options[i as int]));
                }
                return true;
            }
            i += 1;
        }
        false
    }

    /// Adds one hypervisor option. A network-interface option overwrites
    /// the text of every network-interface option already in the list —
    /// the merge keeps at most one network-interface directive per VM —
    /// while any other option is appended.
    pub fn add_qemu_option(&mut self, option: &QemuRunOption)
        ensures
            final(self)@.options == add_option_spec(old(self)@.options, option@),
            final(self)@.image_name == old(self)@.image_name,
            final(self)@.port_mappings == old(self)@.port_mappings,
            final(self)@.use_global_options == old(self)@.use_global_options,
            final(self)@.daemonize == old(self)@.daemonize,
    {
        if starts_with_str(option.as_str(), "-nic") && self.option_nic_present() {
            let mut rewritten: Vec<QemuRunOption> = Vec::new();
            let n = self.options.len();
            let mut i: usize = 0;
            while i < n
                invariant
                    i <= n,
                    n == self.options@.len(),
                    rewritten@.len() == i,
                    forall|j: int|
                        0 <= j < i ==> (#[trigger] rewritten@[j])@ == (if is_nic_text(
                            self@.options[j],
                        ) {
                            option@
                        } else {
                            self@.options[j]
                        }),
                decreases n - i,
            {
                if starts_with_str(self.options[i].as_str(), "-nic") {
                    rewritten.push(option.clone());
                } else {
                    rewritten.push(self.options[i].clone());
                }
                i += 1;
            }
            let ghost pre = self@;
            self.options = rewritten;
            proof {
                assert(self@.options =~~= add_option_spec(pre.options, option@));
            }
        } else {
            let ghost pre = self@;
            self.options.push(option.clone());
            proof {
                assert(self@.options =~~= pre.options.push(option@));
            }
        }
    }

    /// Whether this VM runs detached.
    pub fn daemonize(&self) -> (r: bool)
        ensures
            r == self@.daemonize,
    {
        self.daemonize
    }

    /// The image name the VM runs on.
    pub fn image_name(&self) -> (r: &str)
        ensures
            r@ == self@.image_name,
    {
        self.image_name.as_str()
    }

    /// The hypervisor options of this VM.
    pub fn options(&self) -> (r: &Vec<QemuRunOption>)
        ensures
            option_views(r@) == self@.options,
    {
        &self.options
    }

    /// The port mappings of this VM.
    pub fn port_mappings(&self) -> (r: &Vec<PortMapping>)
        ensures
            mapping_views(r@) == self@.port_mappings,
    {
        &self.port_mappings
    }

    /// The merge pass for one VM: folds the global options in (when the VM
    /// asks for them), synthesizes a bare network-interface option when
    /// port mappings exist without one, resolves every mapping's host port,
    /// and appends the comma-separated forwarding clauses to every
    /// network-interface option. Not idempotent: a second call would
    /// resolve ports and append clauses again, so it is run exactly once
    /// per loaded configuration. Fails exactly when some non-explicit
    /// mapping's host port does not parse as a port number.
    pub fn merge_options<F: Fn(usize) -> bool>(
        &mut self,
        global_options: &Vec<QemuRunOption>,
        port_in_use: &F,
    ) -> (r: Result<(), String>)
        requires
            forall|p: usize| #[trigger] call_requires(*port_in_use, (p,)),
        ensures
            r is Ok <==> (forall|k: int|
                0 <= k < old(self)@.port_mappings.len()
                    ==> (#[trigger] old(self)@.port_mappings[k]).explicit
                    || parses_as_usize(old(self)@.port_mappings[k].host_port)),
            r is Ok ==> merged_vm(old(self)@, option_views(global_options@), final(self)@),
            r is Ok ==> allocator_resolved_all(
                old(self)@.port_mappings,
                final(self)@.port_mappings,
                *port_in_use,
            ),
            r is Err ==> final(self)@.port_mappings == old(self)@.port_mappings
                && final(self)@.options == merged_base(old(self)@, option_views(global_options@)),
            final(self)@.image_name == old(self)@.image_name,
            final(self)@.use_global_options == old(self)@.use_global_options,
            final(self)@.daemonize == old(self)@.daemonize,
    {
        let ghost orig = self@;
        let ghost globals = option_views(global_options@);

        // fold the global options in
        if self.use_global_options {
            let n = global_options.len();
            let mut i: usize = 0;
            while i < n
                invariant
                    i <= n,
                    n == global_options@.len(),
                    globals == option_views(global_options@),
                    self@.options == add_options_spec(orig.options, globals.take(i as int)),
                    self@.image_name == orig.image_name,
                    self@.port_mappings == orig.port_mappings,
                    self@.use_global_options == orig.use_global_options,
                    self@.daemonize == orig.daemonize,
                decreases n - i,
            {
                self.add_qemu_option(&global_options[i]);
                proof {
                    assert(globals.take(i + 1).drop_last() =~~= globals.take(i as int));
                    assert(globals.take(i + 1).last() == globals[i as int]);
                }
                i += 1;
            }
            proof {
                assert(globals.take(n as int) =~~= globals);
            }
        }
        let ghost added = self@.options;
        proof {
            assert(added == if orig.use_global_options {
                add_options_spec(orig.options, globals)
            } else {
                orig.options
            });
        }

        // synthesize a bare network-interface option when mappings exist
        if !self.option_nic_present() && self.port_mappings.len() > 0 {
            let nic = QemuRunOption::new("-nic");
            proof {
                reveal_strlit("-nic");
                assert(nic@ =~= nic_flag());
            }
            self.add_qemu_option(&nic);
        }
        proof {
            assert(self@.options == merged_base(orig, globals));
        }

        // resolve every mapping and collect its forwarding clause
        let ghost base = self@.options;
        let mut resolved: Vec<PortMapping> = Vec::new();
        let mut clauses: Vec<String> = Vec::new();
        let m = self.port_mappings.len();
        let mut j: usize = 0;
        while j < m
            invariant
                j <= m,
                m == self.port_mappings@.len(),
                orig == old(self)@,
                globals == option_views(global_options@),
                base == merged_base(orig, globals),
                self@.port_mappings == orig.port_mappings,
                self@.options == base,
                self@.image_name == orig.image_name,
                self@.use_global_options == orig.use_global_options,
                self@.daemonize == orig.daemonize,
                forall|p: usize| #[trigger] call_requires(*port_in_use, (p,)),
                resolved@.len() == j,
                clauses@.len() == j,
                forall|k: int|
                    0 <= k < j ==> resolves_mapping(
                        orig.port_mappings[k],
                        (#[trigger] resolved@[k])@,
                    ),
                forall|k: int|
                    0 <= k < j ==> allocator_resolved(
                        orig.port_mappings[k],
                        (#[trigger] resolved@[k])@,
                        *port_in_use,
                    ),
                forall|k: int|
                    0 <= k < j ==> (#[trigger] clauses@[k])@ == forwarding_clause(
                        resolved@[k]@.host_port,
                        resolved@[k]@.vm_port,
                    ),
            decreases m - j,
        {
            let mut pm = self.port_mappings[j].clone();
            match pm.format_nic(port_in_use) {
                Ok(clause) => {
                    clauses.push(clause);
                    resolved.push(pm);
                },
                Err(e) => {
                    proof {
                        assert(!orig.port_mappings[j as int].explicit && !parses_as_usize(
                            orig.port_mappings[j as int].host_port,
                        ));
                    }
                    return Err(e);
                },
            }
            j += 1;
        }
        let ghost pre_swap = self@;
        self.port_mappings = resolved;
        proof {
            assert(resolves_mappings(orig.port_mappings, self@.port_mappings));
        }

        // append the clauses to every network-interface option
        let cl = join_str(&clauses, ",");
        proof {
            assert(views_of(clauses@) =~~= clauses_of(self@.port_mappings));
            assert(cl@ == joined_clauses(self@.port_mappings));
        }
        let ghost final_maps = self@.port_mappings;
        let n2 = self.options.len();
        let mut new_opts: Vec<QemuRunOption> = Vec::new();
        let mut i2: usize = 0;
        while i2 < n2
            invariant
                i2 <= n2,
                n2 == self.options@.len(),
                self@.options == base,
                self@.port_mappings == final_maps,
                self@.image_name == orig.image_name,
                self@.use_global_options == orig.use_global_options,
                self@.daemonize == orig.daemonize,
                cl@ == joined_clauses(final_maps),
                new_opts@.len() == i2,
                forall|k: int|
                    0 <= k < i2 ==> (#[trigger] new_opts@[k])@ == attach_clauses_one(
                        self@.options[k],
                        cl@,
                    ),
            decreases n2 - i2,
        {
            let opt_is_nic = starts_with_str(self.options[i2].as_str(), "-nic");
            if opt_is_nic {
                let mut t = String::from_str(self.options[i2].as_str());
                if str_eq(self.options[i2].as_str(), "-nic") {
                    t.append(" ");
                } else {
                    t.append(",");
                }
                t.append(cl.as_str());
                proof {
                    assert(t@ =~= attach_clauses_one(self@.options[i2 as int], cl@));
                }
                new_opts.push(QemuRunOption { option: t });
            } else {
                new_opts.push(self.options[i2].clone());
            }
            i2 += 1;
        }
        self.options = new_opts;
        proof {
            assert(self@.options =~~= attach_clauses(base, joined_clauses(final_maps)));
            assert forall|k: int| 0 <= k < orig.port_mappings.len() implies (#[trigger] orig
                .port_mappings[k]).explicit || parses_as_usize(
                orig.port_mappings[k].host_port,
            ) by {
                assert(resolves_mapping(orig.port_mappings[k], self@.port_mappings[k]));
            }
        }
        Ok(())
    }
}

/// The views of a list of VM configurations.
pub open spec fn vm_views(v: Seq<VMConfig>) -> Seq<VMConfigView> {
    v.map_values(|x: VMConfig| x@)
}

/// True when every port mapping of the VM can be resolved: explicit, or
/// with a parseable host port.
pub open spec fn mappings_resolvable(vm: VMConfigView) -> bool {
    forall|k: int|
        0 <= k < vm.port_mappings.len() ==> (#[trigger] vm.port_mappings[k]).explicit
            || parses_as_usize(vm.port_mappings[k].host_port)
}

/// The mathematical value of a whole configuration.
#[verifier::ext_equal]
pub struct ConfigView {
    pub base_images_directory: Option<Seq<char>>,
    pub global_qemu_options: Seq<Seq<char>>,
    pub vms: Seq<VMConfigView>,
}

/// A loaded configuration: the image directory, the global hypervisor
/// options, and the declared VMs.
pub struct Config {
    base_images_directory: Option<String>,
    global_qemu_options: Vec<QemuRunOption>,
    vms: Vec<VMConfig>,
}

impl View for Config {
    type V = ConfigView;

    closed spec fn view(&self) -> ConfigView {
        ConfigView {
            base_images_directory: match self.base_images_directory {
                Some(d) => Some(d@),
                None => None,
            },
            global_qemu_options: option_views(self.global_qemu_options@),
            vms: vm_views(self.vms@),
        }
    }
}

/// The first VM of the list whose image name contains `pat`, if any.
pub open spec fn first_matching_vm(vms: Seq<VMConfigView>, pat: Seq<char>) -> Option<VMConfigView>
    decreases vms.len(),
{
    if vms.len() == 0 {
        None
    } else if contains_seq(vms[0].image_name, pat) {
        Some(vms[0])
    } else {
        first_matching_vm(vms.skip(1), pat)
    }
}

/// The directory a configuration stores its images in: the configured one,
/// or the well-known default.
pub open spec fn images_directory_of(c: ConfigView) -> Seq<char> {
    match c.base_images_directory {
        Some(d) => d,
        None => crate::IMAGES_DIRECTORY@,
    }
}

impl Config {
    /// A configuration with the given fields.
    pub fn new(
        base_images_directory: Option<String>,
        global_qemu_options: Vec<QemuRunOption>,
        vms: Vec<VMConfig>,
    ) -> (r: Self)
        ensures
            base_images_directory matches Some(d) ==> r@.base_images_directory == Some(d@),
            base_images_directory is None ==> r@.base_images_directory is None,
            r@.global_qemu_options == option_views(global_qemu_options@),
            r@.vms == vm_views(vms@),
    {
        Config { base_images_directory, global_qemu_options, vms }
    }

    /// The configured images directory, or the default when none was
    /// given.
    pub fn get_images_directory(&self) -> (r: String)
        ensures
            r@ == images_directory_of(self@),
    {
        match &self.base_images_directory {
            Some(d) => d.clone(),
            None => String::from_str(crate::IMAGES_DIRECTORY),
        }
    }

    /// The backups directory: `backups` under the images directory.
    pub fn get_backup_images_directory(&self) -> (r: String)
        ensures
            r@ == images_directory_of(self@) + "/backups"@,
    {
        let mut r = self.get_images_directory();
        r.append("/backups");
        r
    }

    /// The first declared VM whose image name contains `image_name`, if
    /// any.
    pub fn get_vm_config_with_image_name(&self, image_name: &str) -> (r: Option<&VMConfig>)
        ensures
            r is None <==> first_matching_vm(self@.vms, image_name@) is None,
            r matches Some(vm) ==> first_matching_vm(self@.vms, image_name@) == Some(vm@),
    {
        let n = self.vms.len();
        let mut i: usize = 0;
        proof {
            assert(self@.vms.skip(0) =~~= self@.vms);
        }
        while i < n
            invariant
                i <= n,
                n == self.vms@.len(),
                first_matching_vm(self@.vms, image_name@) == first_matching_vm(
                    self@.vms.skip(i as int),
                    image_name@,
                ),
            decreases n - i,
        {
            proof {
                assert(self@.vms.skip(i as int)[0] == self@.vms[i as int]);
                assert(self@.vms.skip(i as int).skip(1) =~~= self@.vms.skip(i + 1));
            }
            if crate::text::contains_str(self.vms[i].image_name(), image_name) {
                proof {
                    assert(self@.vms[i as int] == self.vms@[i as int]@);
                }
                return Some(&self.vms[i]);
            }
            i += 1;
        }
        proof {
            assert(self@.vms.skip(n as int) =~~= Seq::<VMConfigView>::empty());
        }
        None
    }

    /// The merge pass over every declared VM, in order. On success each VM
    /// has been merged as `merged_vm` describes; on failure — some
    /// non-explicit mapping whose host port does not parse — nothing is
    /// changed. Run exactly once per loaded configuration (the pass is not
    /// idempotent).
    pub fn merge_all_vm_options<F: Fn(usize) -> bool>(&mut self, port_in_use: &F) -> (r: Result<
        (),
        String,
    >)
        requires
            forall|p: usize| #[trigger] call_requires(*port_in_use, (p,)),
        ensures
            final(self)@.base_images_directory == old(self)@.base_images_directory,
            final(self)@.global_qemu_options == old(self)@.global_qemu_options,
            r is Ok <==> (forall|i: int|
                0 <= i < old(self)@.vms.len() ==> mappings_resolvable(
                    #[trigger] old(self)@.vms[i],
                )),
            r is Ok ==> final(self)@.vms.len() == old(self)@.vms.len() && (forall|i: int|
                0 <= i < old(self)@.vms.len() ==> merged_vm(
                    old(self)@.vms[i],
                    old(self)@.global_qemu_options,
                    #[trigger] final(self)@.vms[i],
                )),
            r is Ok ==> (forall|i: int|
                0 <= i < old(self)@.vms.len() ==> allocator_resolved_all(
                    old(self)@.vms[i].port_mappings,
                    (#[trigger] final(self)@.vms[i]).port_mappings,
                    *port_in_use,
                )),
            r is Err ==> final(self)@ == old(self)@,
    {
        let ghost orig = self@;
        let n = self.vms.len();
        let mut merged: Vec<VMConfig> = Vec::new();
        let mut i: usize = 0;
        while i < n
            invariant
                i <= n,
                n == self.vms@.len(),
                orig == old(self)@,
                self@ == orig,
                merged@.len() == i,
                forall|p: usize| #[trigger] call_requires(*port_in_use, (p,)),
                forall|idx: int| 0 <= idx < i ==> mappings_resolvable(#[trigger] orig.vms[idx]),
                forall|idx: int|
                    0 <= idx < i ==> merged_vm(
                        orig.vms[idx],
                        orig.global_qemu_options,
                        (#[trigger] merged@[idx])@,
                    ),
                forall|idx: int|
                    0 <= idx < i ==> allocator_resolved_all(
                        orig.vms[idx].port_mappings,
                        (#[trigger] merged@[idx])@.port_mappings,
                        *port_in_use,
                    ),
            decreases n - i,
        {
            let mut vm = self.vms[i].clone();
            proof {
                assert(vm@ == orig.vms[i as int]);
            }
            match vm.merge_options(&self.global_qemu_options, port_in_use) {
                Ok(_) => {
                    merged.push(vm);
                },
                Err(e) => {
                    proof {
                        assert(!mappings_resolvable(orig.vms[i as int]));
                    }
                    return Err(e);
                },
            }
            i += 1;
        }
        self.vms = merged;
        proof {
            assert forall|i2: int| 0 <= i2 < orig.vms.len() implies merged_vm(
                orig.vms[i2],
                orig.global_qemu_options,
                #[trigger] self@.vms[i2],
            ) by {
                assert(self@.vms[i2] == self.vms@[i2]@);
            }
            assert forall|i2: int| 0 <= i2 < orig.vms.len() implies allocator_resolved_all(
                orig.vms[i2].port_mappings,
                (#[trigger] self@.vms[i2]).port_mappings,
                *port_in_use,
            ) by {
                assert(self@.vms[i2] == self.vms@[i2]@);
            }
        }
        Ok(())
    }
}

/// True when at most one entry of the list is a network-interface option.
pub open spec fn at_most_one_nic(opts: Seq<Seq<char>>) -> bool {
    forall|i: int, j: int|
        0 <= i < opts.len() && 0 <= j < opts.len() && is_nic_text(#[trigger] opts[i])
            && is_nic_text(#[trigger] opts[j]) ==> i == j
}

/// The index of the first network-interface option, or minus one.
pub open spec fn first_nic_index(opts: Seq<Seq<char>>) -> int
    decreases opts.len(),
{
    if opts.len() == 0 {
        -1
    } else if is_nic_text(opts[0]) {
        0
    } else {
        let r = first_nic_index(opts.skip(1));
        if r == -1 {
            -1
        } else {
            r + 1
        }
    }
}

/// The text of the last network-interface option, if any.
pub open spec fn last_nic_text(opts: Seq<Seq<char>>) -> Option<Seq<char>>
    decreases opts.len(),
{
    if opts.len() == 0 {
        None
    } else if is_nic_text(opts.last()) {
        Some(opts.last())
    } else {
        last_nic_text(opts.drop_last())
    }
}

proof fn lemma_first_nic_index_props(s: Seq<Seq<char>>)
    ensures
        has_nic(s) ==> 0 <= first_nic_index(s) < s.len() && is_nic_text(s[first_nic_index(s)])
            && (forall|j: int| 0 <= j < first_nic_index(s) ==> !is_nic_text(#[trigger] s[j])),
        !has_nic(s) ==> first_nic_index(s) == -1,
    decreases s.len(),
{
    if s.len() > 0 {
        lemma_first_nic_index_props(s.skip(1));
        assert(forall|i: int| 1 <= i < s.len() ==> #[trigger] s[i] == s.skip(1)[i - 1]);
        if !is_nic_text(s[0]) {
            if has_nic(s) {
                let w = choose|i: int| 0 <= i < s.len() && is_nic_text(#[trigger] s[i]);
                assert(is_nic_text(s.skip(1)[w - 1]));
            }
            if has_nic(s.skip(1)) {
                let w = choose|i: int|
                    0 <= i < s.skip(1).len() && is_nic_text(#[trigger] s.skip(1)[i]);
                assert(is_nic_text(s[w + 1]));
            }
        }
    }
}

proof fn lemma_first_nic_index_push(s: Seq<Seq<char>>, g: Seq<char>)
    ensures
        first_nic_index(s.push(g)) == if first_nic_index(s) >= 0 {
            first_nic_index(s)
        } else if is_nic_text(g) {
            s.len() as int
        } else {
            -1
        },
    decreases s.len(),
{
    if s.len() == 0 {
        assert(s.push(g)[0] == g);
        assert(s.push(g).skip(1) =~~= Seq::<Seq<char>>::empty());
        assert(first_nic_index(Seq::<Seq<char>>::empty()) == -1);
    } else {
        assert(s.push(g)[0] == s[0]);
        assert(s.push(g).skip(1) =~~= s.skip(1).push(g));
        lemma_first_nic_index_push(s.skip(1), g);
    }
}

proof fn lemma_last_nic_snoc(opts: Seq<Seq<char>>, gd: Seq<Seq<char>>, g: Seq<char>)
    ensures
        is_nic_text(g) ==> last_nic_text(opts + gd.push(g)) == Some(g),
        !is_nic_text(g) ==> last_nic_text(opts + gd.push(g)) == last_nic_text(opts + gd),
{
    let w = (opts + gd).push(g);
    assert(opts + gd.push(g) =~~= w);
    assert(w.last() == g);
    assert(w.drop_last() =~~= opts + gd);
}

proof fn lemma_last_nic_unique(s: Seq<Seq<char>>, slot: int)
    requires
        0 <= slot < s.len(),
        is_nic_text(s[slot]),
        forall|j: int| 0 <= j < s.len() && j != slot ==> !is_nic_text(#[trigger] s[j]),
    ensures
        last_nic_text(s) == Some(s[slot]),
    decreases s.len(),
{
    if slot < s.len() - 1 {
        assert(s.drop_last()[slot] == s[slot]);
        lemma_last_nic_unique(s.drop_last(), slot);
    }
}

/// Law of the add phase: folding any list of options into one that holds
/// at most one network-interface entry keeps every non-network option (each
/// one added stays in the list), leaves at most one network-interface
/// entry however many inputs mention the flag, and that entry carries the
/// text of the last network-interface option seen — at the position of the
/// first: the slot of the VM's own entry when it had one, else the slot
/// where the first network-interface global was appended.
pub proof fn lemma_global_merge(opts: Seq<Seq<char>>, globals: Seq<Seq<char>>)
    requires
        at_most_one_nic(opts),
    ensures
        at_most_one_nic(add_options_spec(opts, globals)),
        forall|g: int|
            0 <= g < globals.len() && !is_nic_text(#[trigger] globals[g]) ==> add_options_spec(
                opts,
                globals,
            ).contains(globals[g]),
        has_nic(add_options_spec(opts, globals)) <==> (has_nic(opts) || has_nic(globals)),
        !has_nic(add_options_spec(opts, globals)) ==> add_options_spec(opts, globals) == opts
            + globals,
        (has_nic(opts) || has_nic(globals)) ==> {
            let r = add_options_spec(opts, globals);
            let slot = if has_nic(opts) {
                first_nic_index(opts)
            } else {
                opts.len() + first_nic_index(globals)
            };
            &&& 0 <= slot < r.len()
            &&& is_nic_text(r[slot])
            &&& last_nic_text(opts + globals) == Some(r[slot])
            &&& forall|j: int| 0 <= j < r.len() && j != slot ==> !is_nic_text(#[trigger] r[j])
        },
    decreases globals.len(),
{
    lemma_first_nic_index_props(opts);
    lemma_first_nic_index_props(globals);
    if globals.len() == 0 {
        assert(opts + globals =~~= opts);
        if has_nic(opts) {
            let slot = first_nic_index(opts);
            assert(forall|j: int|
                0 <= j < opts.len() && j != slot ==> !is_nic_text(#[trigger] opts[j]));
            lemma_last_nic_unique(opts, slot);
        }
    } else {
        let gd = globals.drop_last();
        let g = globals.last();
        lemma_global_merge(opts, gd);
        lemma_first_nic_index_props(gd);
        lemma_first_nic_index_push(gd, g);
        assert(gd.push(g) =~~= globals);
        let prev = add_options_spec(opts, gd);
        let r = add_options_spec(opts, globals);
        assert(r == add_option_spec(prev, g));
        assert(opts + globals =~~= (opts + gd).push(g));
        // membership of earlier non-network globals survives this add, and
        // positions of untouched entries are stable
        assert forall|t: Seq<char>| prev.contains(t) && !is_nic_text(t) implies r.contains(
            t,
        ) by {
            let w = choose|i: int| 0 <= i < prev.len() && prev[i] == t;
            assert(r[w] == t);
        }
        lemma_last_nic_snoc(opts, gd, g);
        if is_nic_text(g) && has_nic(prev) {
            // the new text overwrites the single existing entry in place
            let slot = if has_nic(opts) {
                first_nic_index(opts)
            } else {
                opts.len() + first_nic_index(gd)
            };
            assert(r[slot] == g);
            assert(forall|j: int| 0 <= j < r.len() && j != slot ==> !is_nic_text(#[trigger] r[j]));
            assert(last_nic_text(opts + globals) == Some(g));
        } else {
            // the option is appended
            assert(r =~~= prev.push(g));
            if is_nic_text(g) {
                assert(!has_nic(prev));
                assert(prev == opts + gd);
                assert(!has_nic(opts) && !has_nic(gd));
                let slot = opts.len() + first_nic_index(globals);
                assert(first_nic_index(globals) == gd.len());
                assert(r[slot] == g);
                assert(forall|j: int|
                    0 <= j < prev.len() ==> !is_nic_text(#[trigger] prev[j]));
                assert(last_nic_text(opts + globals) == Some(g));
                assert(has_nic(r));
            } else {
                assert(last_nic_text(opts + globals) == last_nic_text(opts + gd));
                if has_nic(prev) {
                    let slot = if has_nic(opts) {
                        first_nic_index(opts)
                    } else {
                        opts.len() + first_nic_index(gd)
                    };
                    assert(r[slot] == prev[slot]);
                    assert(has_nic(r));
                    assert(first_nic_index(globals) == first_nic_index(gd));
                    assert(forall|j: int|
                        0 <= j < r.len() && j != slot ==> !is_nic_text(#[trigger] r[j]));
                } else {
                    assert(!has_nic(r)) by {
                        if has_nic(r) {
                            let w = choose|i: int|
                                0 <= i < r.len() && is_nic_text(#[trigger] r[i]);
                            assert(w < prev.len() || r[w] == g);
                        }
                    }
                    assert(r =~~= opts + globals);
                }
            }
            assert(r.contains(g) || is_nic_text(g)) by {
                assert(r[prev.len() as int] == g);
            }
        }
        // membership of every non-network global, the new one included
        assert forall|gi: int|
            0 <= gi < globals.len() && !is_nic_text(#[trigger] globals[gi]) implies r.contains(
            globals[gi],
        ) by {
            if gi < gd.len() {
                assert(prev.contains(gd[gi]));
            } else {
                assert(globals[gi] == g);
                if is_nic_text(g) && has_nic(prev) {
                } else {
                    assert(r[prev.len() as int] == g);
                }
            }
        }
    }
}

/// Law of the whole merge for a VM with port mappings: starting from at
/// most one network-interface entry, the merged option list holds exactly
/// one network-interface option, and its text is the corresponding entry of
/// the added base followed — after a space when the base entry is the bare
/// flag, after a comma otherwise — by the comma-separated forwarding
/// clauses of the resolved mappings, one per mapping, in input order.
pub proof fn lemma_merged_nic_unique(
    before: VMConfigView,
    globals: Seq<Seq<char>>,
    after: VMConfigView,
)
    requires
        merged_vm(before, globals, after),
        at_most_one_nic(before.options),
        before.port_mappings.len() > 0,
    ensures
        after.port_mappings.len() == before.port_mappings.len(),
        exists|slot: int|
            {
                let base = merged_base(before, globals);
                let cl = joined_clauses(after.port_mappings);
                &&& 0 <= slot < after.options.len()
                &&& is_nic_text(#[trigger] after.options[slot])
                &&& (after.options[slot] == base[slot] + " "@ + cl || after.options[slot]
                    == base[slot] + ","@ + cl)
                &&& forall|j: int|
                    0 <= j < after.options.len() && j != slot ==> !is_nic_text(
                        #[trigger] after.options[j],
                    )
            },
{
    let added = if before.use_global_options {
        add_options_spec(before.options, globals)
    } else {
        before.options
    };
    let base = merged_base(before, globals);
    let cl = joined_clauses(after.port_mappings);
    if before.use_global_options {
        lemma_global_merge(before.options, globals);
    } else {
        lemma_global_merge(before.options, Seq::<Seq<char>>::empty());
        assert(added == add_options_spec(before.options, Seq::<Seq<char>>::empty()));
        assert(before.options + Seq::<Seq<char>>::empty() =~~= before.options);
    }
    lemma_first_nic_index_props(added);
    assert(nic_flag().is_prefix_of(nic_flag())) by {
        assert(nic_flag().subrange(0, nic_flag().len() as int) =~= nic_flag());
    }
    let slot: int = if has_nic(added) {
        first_nic_index(added)
    } else {
        added.len() as int
    };
    if !has_nic(added) {
        assert(base =~~= added.push(nic_flag()));
        assert(base[slot] == nic_flag());
    }
    assert(0 <= slot < base.len());
    assert(is_nic_text(base[slot]));
    assert(forall|j: int| 0 <= j < base.len() && j != slot ==> !is_nic_text(#[trigger] base[j]));
    // appending never strips the flag prefix
    assert forall|t: Seq<char>, u: Seq<char>| is_nic_text(t) implies is_nic_text(t + u) by {
        assert((t + u).subrange(0, nic_flag().len() as int) =~= t.subrange(
            0,
            nic_flag().len() as int,
        ));
    }
    assert(after.options.len() == base.len());
    assert(after.options[slot] == attach_clauses_one(base[slot], cl));
    assert(is_nic_text(after.options[slot]));
    assert(forall|j: int|
        0 <= j < after.options.len() && j != slot ==> #[trigger] after.options[j] == base[j]);
    assert((after.options[slot] == base[slot] + " "@ + cl || after.options[slot] == base[slot]
        + ","@ + cl));
}

} // verus!
