//! The `netsh interface portproxy` command lines.

use crate::port_forwarding::{PortForwarding, RuleView};
use crate::text::{i64_to_string, int_to_dec, push_str};
use vstd::prelude::*;

verus! {

broadcast use vstd::string::group_string_axioms;

/// `... listenaddress=A listenport=P  connectaddress=B connectport=Q`, after
/// the given verb (two spaces stand before `connectaddress`).
pub open spec fn rule_cmd_text(verb: Seq<char>, r: RuleView) -> Seq<char> {
    "netsh interface portproxy "@ + verb + " v4tov4 listenaddress="@ + r.0 + " listenport="@
        + int_to_dec(r.1) + "  connectaddress="@ + r.2 + " connectport="@ + int_to_dec(r.3)
}

fn rule_cmd(verb: &str, forward: &PortForwarding) -> (r: String)
    ensures
        r@ == rule_cmd_text(verb@, forward@),
{
    let mut out = String::new();
    push_str(&mut out, "netsh interface portproxy ");
    push_str(&mut out, verb);
    push_str(&mut out, " v4tov4 listenaddress=");
    push_str(&mut out, forward.listen.address.as_str());
    push_str(&mut out, " listenport=");
    let lp = i64_to_string(forward.listen.port);
    push_str(&mut out, lp.as_str());
    push_str(&mut out, "  connectaddress=");
    push_str(&mut out, forward.connect.address.as_str());
    push_str(&mut out, " connectport=");
    let cp = i64_to_string(forward.connect.port);
    push_str(&mut out, cp.as_str());
    out
}

/// The command that adds the rule (it needs administrator rights).
pub fn add_cmd(forward: &PortForwarding) -> (r: String)
    ensures
        r@ == rule_cmd_text("add"@, forward@),
{
    rule_cmd("add", forward)
}

/// `netsh interface portproxy del v4tov4 listenaddress=A listenport=P`.
pub open spec fn del_cmd_text(address: Seq<char>, port: int) -> Seq<char> {
    "netsh interface portproxy del v4tov4 listenaddress="@ + address + " listenport="@ + int_to_dec(port)
}

/// The command that deletes the rule listening on `address:port`.
pub fn del_cmd(address: &String, port: &i64) -> (r: String)
    ensures
        r@ == del_cmd_text(address@, *port as int),
{
    let mut out = String::new();
    push_str(&mut out, "netsh interface portproxy del v4tov4 listenaddress=");
    push_str(&mut out, address.as_str());
    push_str(&mut out, " listenport=");
    let p = i64_to_string(*port);
    push_str(&mut out, p.as_str());
    out
}

/// The command that updates the rule listening where `port` listens.
pub fn set_cmd(port: &PortForwarding) -> (r: String)
    ensures
        r@ == rule_cmd_text("set"@, port@),
{
    rule_cmd("set", port)
}

/// `netsh interface portproxy reset`: removes every rule.
pub fn reset_cmd() -> (r: &'static str)
    ensures
        r@ == "netsh interface portproxy reset"@,
{
    "netsh interface portproxy reset"
}

/// `netsh interface portproxy show v4tov4`: lists the IPv4 rules.
pub fn port_proxy_v4tov4_cmd() -> (r: &'static str)
    ensures
        r@ == "netsh interface portproxy show v4tov4"@,
{
    "netsh interface portproxy show v4tov4"
}

} // verus!
