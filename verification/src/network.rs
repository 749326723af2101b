//! Network planning: the veth pair, its migration into the container's
//! network namespace, addressing, NAT, and default-interface discovery.
//!
//! Every command is returned as an argument vector for the thin shell to
//! run through `ip` or `iptables`; the contracts pin each argument.

use vstd::prelude::*;
use vstd::string::*;
use crate::strutil::{
    chars_eq_str, chars_string, dec_of, str_chars, tokens_from, u64_to_string, views_of,
    ws_tokens,
};

verus! {

fn lit(s: &str) -> (r: String)
    ensures
        r@ == s@,
{
    String::from_str(s)
}

/// `veth-<pid>`: the host end of the pair.
pub fn veth_host_name(pid: u64) -> (r: String)
    ensures
        r@ == "veth-"@ + dec_of(pid as int),
{
    let mut r = String::from_str("veth-");
    let d = u64_to_string(pid);
    r.append(d.as_str());
    r
}

/// `veth-c-<pid>`: the end migrated into the container.
pub fn veth_container_name(pid: u64) -> (r: String)
    ensures
        r@ == "veth-c-"@ + dec_of(pid as int),
{
    let mut r = String::from_str("veth-c-");
    let d = u64_to_string(pid);
    r.append(d.as_str());
    r
}

/// `cnt-<pid>`: the named network namespace standing for the container.
pub fn netns_name(pid: u64) -> (r: String)
    ensures
        r@ == "cnt-"@ + dec_of(pid as int),
{
    let mut r = String::from_str("cnt-");
    let d = u64_to_string(pid);
    r.append(d.as_str());
    r
}

/// `/proc/<pid>/ns/net`: the container's network-namespace file.
pub fn netns_path(pid: u64) -> (r: String)
    ensures
        r@ == "/proc/"@ + dec_of(pid as int) + "/ns/net"@,
{
    let mut r = String::from_str("/proc/");
    let d = u64_to_string(pid);
    r.append(d.as_str());
    r.append("/ns/net");
    r
}

/// `/var/run/netns/cnt-<pid>`: where the namespace file is linked.
pub fn netns_link(pid: u64) -> (r: String)
    ensures
        r@ == "/var/run/netns/cnt-"@ + dec_of(pid as int),
{
    let mut r = String::from_str("/var/run/netns/cnt-");
    let d = u64_to_string(pid);
    r.append(d.as_str());
    r
}

/// The `ip` arguments that create the veth pair.
pub fn create_veth_pair(veth_host: &str, veth_container: &str) -> (r: Vec<String>)
    ensures
        r@.len() == 8,
        r@[0]@ == "link"@,
        r@[1]@ == "add"@,
        r@[2]@ == veth_host@,
        r@[3]@ == "type"@,
        r@[4]@ == "veth"@,
        r@[5]@ == "peer"@,
        r@[6]@ == "name"@,
        r@[7]@ == veth_container@,
{
    let mut r: Vec<String> = Vec::new();
    r.push(lit("link"));
    r.push(lit("add"));
    r.push(lit(veth_host));
    r.push(lit("type"));
    r.push(lit("veth"));
    r.push(lit("peer"));
    r.push(lit("name"));
    r.push(lit(veth_container));
    r
}

/// The `ip` arguments that move the container end into the namespace.
pub fn move_to_netns_args(veth_container: &str, ns: &str) -> (r: Vec<String>)
    ensures
        r@.len() == 5,
        r@[0]@ == "link"@,
        r@[1]@ == "set"@,
        r@[2]@ == veth_container@,
        r@[3]@ == "netns"@,
        r@[4]@ == ns@,
{
    let mut r: Vec<String> = Vec::new();
    r.push(lit("link"));
    r.push(lit("set"));
    r.push(lit(veth_container));
    r.push(lit("netns"));
    r.push(lit(ns));
    r
}

/// The two `ip` commands that address the host end and bring it up.
pub fn configure_host_veth(veth_host: &str) -> (r: Vec<Vec<String>>)
    ensures
        r@.len() == 2,
        r@[0]@.len() == 5,
        r@[0]@[0]@ == "addr"@,
        r@[0]@[1]@ == "add"@,
        r@[0]@[2]@ == "10.0.0.1/24"@,
        r@[0]@[3]@ == "dev"@,
        r@[0]@[4]@ == veth_host@,
        r@[1]@.len() == 4,
        r@[1]@[0]@ == "link"@,
        r@[1]@[1]@ == "set"@,
        r@[1]@[2]@ == veth_host@,
        r@[1]@[3]@ == "up"@,
{
    let mut c1: Vec<String> = Vec::new();
    c1.push(lit("addr"));
    c1.push(lit("add"));
    c1.push(lit("10.0.0.1/24"));
    c1.push(lit("dev"));
    c1.push(lit(veth_host));
    let mut c2: Vec<String> = Vec::new();
    c2.push(lit("link"));
    c2.push(lit("set"));
    c2.push(lit(veth_host));
    c2.push(lit("up"));
    let mut r: Vec<Vec<String>> = Vec::new();
    r.push(c1);
    r.push(c2);
    r
}

fn ns_exec_prefix(ns: &str) -> (r: Vec<String>)
    ensures
        r@.len() == 4,
        r@[0]@ == "netns"@,
        r@[1]@ == "exec"@,
        r@[2]@ == ns@,
        r@[3]@ == "ip"@,
{
    let mut r: Vec<String> = Vec::new();
    r.push(lit("netns"));
    r.push(lit("exec"));
    r.push(lit(ns));
    r.push(lit("ip"));
    r
}

/// The four `ip` commands, run through the namespace, that address the
/// container end, bring it and the loopback up, and set the default route.
pub fn configure_container_veth(veth_container: &str, ns: &str) -> (r: Vec<Vec<String>>)
    ensures
        r@.len() == 4,
        forall|i: int|
            0 <= i < 4 ==> {
                &&& #[trigger] r@[i]@.len() >= 4
                &&& r@[i]@[0]@ == "netns"@
                &&& r@[i]@[1]@ == "exec"@
                &&& r@[i]@[2]@ == ns@
                &&& r@[i]@[3]@ == "ip"@
            },
        r@[0]@.len() == 9,
        r@[0]@[4]@ == "addr"@,
        r@[0]@[5]@ == "add"@,
        r@[0]@[6]@ == "10.0.0.2/24"@,
        r@[0]@[7]@ == "dev"@,
        r@[0]@[8]@ == veth_container@,
        r@[1]@.len() == 8,
        r@[1]@[4]@ == "link"@,
        r@[1]@[5]@ == "set"@,
        r@[1]@[6]@ == veth_container@,
        r@[1]@[7]@ == "up"@,
        r@[2]@.len() == 8,
        r@[2]@[4]@ == "link"@,
        r@[2]@[5]@ == "set"@,
        r@[2]@[6]@ == "lo"@,
        r@[2]@[7]@ == "up"@,
        r@[3]@.len() == 9,
        r@[3]@[4]@ == "route"@,
        r@[3]@[5]@ == "add"@,
        r@[3]@[6]@ == "default"@,
        r@[3]@[7]@ == "via"@,
        r@[3]@[8]@ == "10.0.0.1"@,
{
    let mut c1 = ns_exec_prefix(ns);
    c1.push(lit("addr"));
    c1.push(lit("add"));
    c1.push(lit("10.0.0.2/24"));
    c1.push(lit("dev"));
    c1.push(lit(veth_container));
    let mut c2 = ns_exec_prefix(ns);
    c2.push(lit("link"));
    c2.push(lit("set"));
    c2.push(lit(veth_container));
    c2.push(lit("up"));
    let mut c3 = ns_exec_prefix(ns);
    c3.push(lit("link"));
    c3.push(lit("set"));
    c3.push(lit("lo"));
    c3.push(lit("up"));
    let mut c4 = ns_exec_prefix(ns);
    c4.push(lit("route"));
    c4.push(lit("add"));
    c4.push(lit("default"));
    c4.push(lit("via"));
    c4.push(lit("10.0.0.1"));
    let mut r: Vec<Vec<String>> = Vec::new();
    r.push(c1);
    r.push(c2);
    r.push(c3);
    r.push(c4);
    r
}

/// The three `iptables` rules: masquerade the container subnet out of the
/// default interface, and accept forwarding both ways between the veth
/// host end and the default interface.
pub fn nat_rules(veth_host: &str, default_iface: &str) -> (r: Vec<Vec<String>>)
    ensures
        r@.len() == 3,
        r@[0]@.len() == 10,
        r@[0]@[0]@ == "-t"@,
        r@[0]@[1]@ == "nat"@,
        r@[0]@[2]@ == "-A"@,
        r@[0]@[3]@ == "POSTROUTING"@,
        r@[0]@[4]@ == "-s"@,
        r@[0]@[5]@ == "10.0.0.0/24"@,
        r@[0]@[6]@ == "-o"@,
        r@[0]@[7]@ == default_iface@,
        r@[0]@[8]@ == "-j"@,
        r@[0]@[9]@ == "MASQUERADE"@,
        r@[1]@.len() == 8,
        r@[1]@[0]@ == "-A"@,
        r@[1]@[1]@ == "FORWARD"@,
        r@[1]@[2]@ == "-i"@,
        r@[1]@[3]@ == veth_host@,
        r@[1]@[4]@ == "-o"@,
        r@[1]@[5]@ == default_iface@,
        r@[1]@[6]@ == "-j"@,
        r@[1]@[7]@ == "ACCEPT"@,
        r@[2]@.len() == 8,
        r@[2]@[0]@ == "-A"@,
        r@[2]@[1]@ == "FORWARD"@,
        r@[2]@[2]@ == "-i"@,
        r@[2]@[3]@ == default_iface@,
        r@[2]@[4]@ == "-o"@,
        r@[2]@[5]@ == veth_host@,
        r@[2]@[6]@ == "-j"@,
        r@[2]@[7]@ == "ACCEPT"@,
{
    let mut c1: Vec<String> = Vec::new();
    c1.push(lit("-t"));
    c1.push(lit("nat"));
    c1.push(lit("-A"));
    c1.push(lit("POSTROUTING"));
    c1.push(lit("-s"));
    c1.push(lit("10.0.0.0/24"));
    c1.push(lit("-o"));
    c1.push(lit(default_iface));
    c1.push(lit("-j"));
    c1.push(lit("MASQUERADE"));
    let mut c2: Vec<String> = Vec::new();
    c2.push(lit("-A"));
    c2.push(lit("FORWARD"));
    c2.push(lit("-i"));
    c2.push(lit(veth_host));
    c2.push(lit("-o"));
    c2.push(lit(default_iface));
    c2.push(lit("-j"));
    c2.push(lit("ACCEPT"));
    let mut c3: Vec<String> = Vec::new();
    c3.push(lit("-A"));
    c3.push(lit("FORWARD"));
    c3.push(lit("-i"));
    c3.push(lit(default_iface));
    c3.push(lit("-o"));
    c3.push(lit(veth_host));
    c3.push(lit("-j"));
    c3.push(lit("ACCEPT"));
    let mut r: Vec<Vec<String>> = Vec::new();
    r.push(c1);
    r.push(c2);
    r.push(c3);
    r
}

/// The write that enables IPv4 forwarding on the host.
pub fn ip_forward_write() -> (r: (String, String))
    ensures
        r.0@ == "/proc/sys/net/ipv4/ip_forward"@,
        r.1@ == "1"@,
{
    (lit("/proc/sys/net/ipv4/ip_forward"), lit("1"))
}

/// First token index at or after `i` spelling `dev`.
pub open spec fn first_dev(toks: Seq<Seq<char>>, i: int) -> int
    decreases toks.len() - i,
{
    if i < 0 || i >= toks.len() {
        toks.len() as int
    } else if toks[i] == "dev"@ {
        i
    } else {
        first_dev(toks, i + 1)
    }
}

/// The interface named after the first `dev` token of a route listing, or
/// the fallback name when there is none.
pub open spec fn default_iface_of(route_output: Seq<char>) -> Seq<char> {
    let toks = tokens_from(route_output, 0);
    let d = first_dev(toks, 0);
    if d + 1 < toks.len() {
        toks[d + 1]
    } else {
        "enp0s1"@
    }
}

/// Pick the default outbound interface out of the route-listing output:
/// the word after `dev`, or `enp0s1` when no default route is shown.
pub fn get_default_interface_public(route_output: &str) -> (r: String)
    ensures
        r@ == default_iface_of(route_output@),
{
    let chars = str_chars(route_output);
    let toks = ws_tokens(&chars);
    let ghost tv = views_of(toks@);
    let mut i: usize = 0;
    while i < toks.len()
        invariant
            i <= toks@.len(),
            tv == views_of(toks@),
            tv == tokens_from(route_output@, 0),
            first_dev(tv, 0) == first_dev(tv, i as int),
        decreases toks@.len() - i,
    {
        if chars_eq_str(&toks[i], "dev") {
            proof {
                assert(tv[i as int] == "dev"@);
                assert(first_dev(tv, i as int) == i);
            }
            if i + 1 < toks.len() {
                return chars_string(&toks[i + 1]);
            }
            return lit("enp0s1");
        }
        proof {
            assert(tv[i as int] != "dev"@);
            assert(first_dev(tv, i as int) == first_dev(tv, i + 1 as int));
        }
        i += 1;
    }
    proof {
        assert(first_dev(tv, toks@.len() as int) == tv.len());
    }
    lit("enp0s1")
}

/// Everything veth setup needs, as data.  The commands are executed in
/// order: create the pair, link the namespace file, move the container
/// end, configure the host end, configure the container end through the
/// namespace, then install the NAT rules; the namespace link is removed
/// after each use.
pub struct VethPlan {
    pub veth_host: String,
    pub veth_container: String,
    pub netns_name: String,
    pub netns_path: String,
    pub netns_link: String,
    pub create: Vec<String>,
    pub move_cmd: Vec<String>,
    pub host_cfg: Vec<Vec<String>>,
    pub container_cfg: Vec<Vec<String>>,
    pub nat_cmds: Vec<Vec<String>>,
}

/// Plan the network setup for a container process.
pub fn setup_veth_pair_with_iface(container_pid: u64, default_iface: &str) -> (r: VethPlan)
    ensures
        r.veth_host@ == "veth-"@ + dec_of(container_pid as int),
        r.veth_container@ == "veth-c-"@ + dec_of(container_pid as int),
        r.netns_name@ == "cnt-"@ + dec_of(container_pid as int),
        r.netns_path@ == "/proc/"@ + dec_of(container_pid as int) + "/ns/net"@,
        r.netns_link@ == "/var/run/netns/cnt-"@ + dec_of(container_pid as int),
        r.create@.len() == 8 && r.create@[2]@ == r.veth_host@ && r.create@[7]@
            == r.veth_container@,
        r.move_cmd@.len() == 5 && r.move_cmd@[2]@ == r.veth_container@ && r.move_cmd@[4]@
            == r.netns_name@,
        r.host_cfg@.len() == 2,
        r.container_cfg@.len() == 4,
        r.nat_cmds@.len() == 3 && r.nat_cmds@[0]@[7]@ == default_iface@ && r.nat_cmds@[1]@[3]@ == r.veth_host@,
{
    let veth_host = veth_host_name(container_pid);
    let veth_container = veth_container_name(container_pid);
    let ns = netns_name(container_pid);
    let path = netns_path(container_pid);
    let link = netns_link(container_pid);
    let create = create_veth_pair(veth_host.as_str(), veth_container.as_str());
    let move_cmd = move_to_netns_args(veth_container.as_str(), ns.as_str());
    let host_cfg = configure_host_veth(veth_host.as_str());
    let container_cfg = configure_container_veth(veth_container.as_str(), ns.as_str());
    let nat_cmds = nat_rules(veth_host.as_str(), default_iface);
    VethPlan {
        veth_host,
        veth_container,
        netns_name: ns,
        netns_path: path,
        netns_link: link,
        create,
        move_cmd,
        host_cfg,
        container_cfg,
        nat_cmds,
    }
}

} // verus!
