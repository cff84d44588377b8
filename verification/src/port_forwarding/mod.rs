//! IPv4-to-IPv4 rules of `netsh interface portproxy`: the rule type, the
//! command lines that add, update, delete and reset rules, and the reading
//! of the rule listing that `netsh` prints. Listing needs no administrator
//! rights; changing the table does.

pub mod cmd;
pub mod command;
pub mod ipv;

use crate::port_forwarding::cmd::{add_cmd, rule_cmd_text, del_cmd_text};
use crate::port_forwarding::command::{admin_run, from_cmd_load_port_forwarding, rules_of, rules_view};
use crate::port_forwarding::ipv::Ipv;
use crate::text::{i64_to_string, int_to_dec, lines, push_str, str_eq};
use vstd::std_specs::cmp::PartialEqSpecImpl;
use crate::utils::command::{join_commands, join_with, CommandRun, RunCommandOptions};
use crate::utils::net::{check_ipv4_by_string, is_ipv4};
use vstd::prelude::*;

verus! {

broadcast use vstd::string::group_string_axioms;

/// A rule as plain values: listen address and port, connect address and port.
pub type RuleView = (Seq<char>, int, Seq<char>, int);

/// One IPv4 forwarding rule: connections to `listen` go on to `connect`.
#[derive(Debug, Clone, Hash)]
pub struct PortForwarding {
    pub listen: Ipv,
    pub connect: Ipv,
}

impl View for PortForwarding {
    type V = RuleView;

    open spec fn view(&self) -> RuleView {
        (self.listen.address@, self.listen.port as int, self.connect.address@, self.connect.port as int)
    }
}

/// Both addresses of the rule are dotted-quad IPv4 addresses.
pub open spec fn rule_addresses_ok(r: RuleView) -> bool {
    is_ipv4(r.0) && is_ipv4(r.2)
}

/// The add commands of the rules whose addresses are valid, in order.
pub open spec fn add_cmds_of_valid(rs: Seq<RuleView>) -> Seq<Seq<char>>
    decreases rs.len(),
{
    if rs.len() == 0 {
        seq![]
    } else {
        let c = add_cmds_of_valid(rs.drop_last());
        if rule_addresses_ok(rs.last()) {
            c.push(rule_cmd_text("add"@, rs.last()))
        } else {
            c
        }
    }
}

impl PortForwarding {
    /// The rules listed in `listing`, the output of the run that
    /// [`PortForwarding::list_run`] describes.
    pub fn get_ipv4_to_ipv4(listing: &String) -> (r: Vec<PortForwarding>)
        ensures
            rules_view(r@) == rules_of(lines(listing@)),
    {
        from_cmd_load_port_forwarding(listing)
    }

    /// The run that lists the IPv4 rules: hidden, not elevated, echoed.
    pub fn list_run() -> (r: CommandRun)
        ensures
            r.command@ == "netsh interface portproxy show v4tov4"@,
            r.options.hide_window && !r.options.use_admin && r.options.print_command,
    {
        CommandRun {
            command: crate::port_forwarding::cmd::port_proxy_v4tov4_cmd().to_string(),
            options: RunCommandOptions::new(true, false, true),
        }
    }

    /// The run that removes every rule.
    pub fn reset() -> (r: CommandRun)
        ensures
            admin_run(r, "netsh interface portproxy reset"@),
    {
        command::reset()
    }

    /// The run that updates the rule `po`.
    pub fn set(po: &PortForwarding) -> (r: CommandRun)
        ensures
            admin_run(r, rule_cmd_text("set"@, po@)),
    {
        command::set(po)
    }

    /// A rule from its two ends.
    pub fn new(listen_from: (&str, i64), connect_to: (&str, i64)) -> (r: Self)
        ensures
            r@ == (listen_from.0@, listen_from.1 as int, connect_to.0@, connect_to.1 as int),
    {
        let listen = Ipv::new(listen_from.0, listen_from.1);
        let connect = Ipv::new(connect_to.0, connect_to.1);
        PortForwarding { listen, connect }
    }

    /// One elevated run that adds every rule of `list` whose addresses are
    /// valid, the add commands joined with ` && `; it is not echoed and its
    /// window shows.
    pub fn new_multiple(list: Vec<PortForwarding>) -> (r: CommandRun)
        ensures
            r.command@ == join_with(add_cmds_of_valid(rules_view(list@)), " && "@),
            !r.options.hide_window && r.options.use_admin && r.options.print_command,
    {
        let ghost rv = rules_view(list@);
        let mut cmds: Vec<String> = Vec::new();
        let mut i: usize = 0;
        assert(rv.take(0) =~= Seq::<RuleView>::empty());
        assert(cmds@.map_values(|c: String| c@) =~= Seq::<Seq<char>>::empty());
        while i < list.len()
            invariant
                i <= list@.len(),
                rv == rules_view(list@),
                cmds@.map_values(|c: String| c@) == add_cmds_of_valid(rv.take(i as int)),
            decreases list@.len() - i,
        {
            let p = &list[i];
            let ghost pre = rv.take(i + 1);
            assert(pre.drop_last() =~= rv.take(i as int));
            assert(pre.last() == p@);
            if p.check_ipv_address() {
                let c = add_cmd(p);
                cmds.push(c);
                assert(cmds@.map_values(|c: String| c@) =~= add_cmds_of_valid(pre));
            }
            i = i + 1;
        }
        assert(rv.take(list@.len() as int) =~= rv);
        let command = join_commands(cmds.as_slice());
        CommandRun { command, options: RunCommandOptions::new(false, true, true) }
    }

    /// The run that adds this rule.
    pub fn forward(&self) -> (r: CommandRun)
        ensures
            admin_run(r, rule_cmd_text("add"@, self@)),
    {
        command::add(self)
    }

    /// The run that deletes the rule listening where this one listens.
    pub fn del(&self) -> (r: CommandRun)
        ensures
            admin_run(r, del_cmd_text(self.listen.address@, self.listen.port as int)),
    {
        command::del(&self.listen.address, &self.listen.port)
    }

    /// Whether `listing` (the output of the run [`PortForwarding::list_run`]
    /// describes) lists this very rule.
    pub fn check(&self, listing: &String) -> (r: bool)
        ensures
            r == rules_of(lines(listing@)).contains(self@),
    {
        let items = from_cmd_load_port_forwarding(listing);
        let ghost rs = rules_view(items@);
        let mut i: usize = 0;
        while i < items.len()
            invariant
                i <= items@.len(),
                rs == rules_view(items@),
                rs == rules_of(lines(listing@)),
                forall|j: int| 0 <= j < i ==> rs[j] != self@,
            decreases items@.len() - i,
        {
            assert(rs[i as int] == items@[i as int]@);
            if items[i].same_rule(self) {
                return true;
            }
            i = i + 1;
        }
        false
    }

    /// Whether both addresses are dotted-quad IPv4 addresses.
    pub fn check_ipv_address(&self) -> (r: bool)
        ensures
            r == rule_addresses_ok(self@),
    {
        check_ipv4_by_string(self.listen.address.as_str()) && check_ipv4_by_string(self.connect.address.as_str())
    }

    /// Whether the two rules have the same addresses and ports.
    pub fn same_rule(&self, other: &PortForwarding) -> (r: bool)
        ensures
            r == (self@ == other@),
    {
        str_eq(self.listen.address.as_str(), other.listen.address.as_str())
            && self.listen.port == other.listen.port
            && str_eq(self.connect.address.as_str(), other.connect.address.as_str())
            && self.connect.port == other.connect.port
    }

    /// `PortForwarding(from <address>:<port>,to <address>:<port>)`.
    pub fn to_string(&self) -> (r: String)
        ensures
            r@ == "PortForwarding(from "@ + self.listen.address@ + ":"@ + int_to_dec(self.listen.port as int) + ",to "@
                + self.connect.address@ + ":"@ + int_to_dec(self.connect.port as int) + ")"@,
    {
        let mut out = String::new();
        push_str(&mut out, "PortForwarding(from ");
        push_str(&mut out, self.listen.address.as_str());
        push_str(&mut out, ":");
        push_str(&mut out, i64_to_string(self.listen.port).as_str());
        push_str(&mut out, ",to ");
        push_str(&mut out, self.connect.address.as_str());
        push_str(&mut out, ":");
        push_str(&mut out, i64_to_string(self.connect.port).as_str());
        push_str(&mut out, ")");
        out
    }
}

impl PartialEq for PortForwarding {
    fn eq(&self, other: &Self) -> (r: bool) {
        self.same_rule(other)
    }
}

impl Eq for PortForwarding {}

impl PartialEqSpecImpl for PortForwarding {
    open spec fn obeys_eq_spec() -> bool {
        true
    }

    open spec fn eq_spec(&self, other: &Self) -> bool {
        self@ == other@
    }
}

} // verus!
