//! Network namespaces: the privileged commands that create, enter and tear
//! down the namespace a sandbox runs in (a veth pair, NAT, no IPv6).
use crate::runner::{groups_view, push_group};
use crate::text::{concat2, decimal, u32_to_string, views};
use vstd::prelude::*;

verus! {

/// A network namespace wired to the host through a veth pair.
pub struct Netns {
    pub name: String,
    pub veth_host: String,
    pub veth_guest: String,
    pub ip_guest: String,
    pub ip_host: String,
}

pub open spec fn strs_view(s: Seq<&str>) -> Seq<Seq<char>> {
    s.map_values(|x: &str| x@)
}

/// The strings of `parts`, in order.
pub fn from_strs(parts: &[&str]) -> (v: Vec<String>)
    ensures
        views(v@) == strs_view(parts@),
{
    let mut v: Vec<String> = Vec::new();
    let mut i: usize = 0;
    while i < parts.len()
        invariant
            i <= parts.len(),
            views(v@) == strs_view(parts@).take(i as int),
        decreases parts.len() - i,
    {
        let ghost before = v@;
        v.push(String::from_str(parts[i]));
        assert(views(v@) =~= strs_view(parts@).take(i + 1)) by {
            assert(views(v@) =~= views(before).push(parts@[i as int]@));
        }
        i = i + 1;
    }
    assert(strs_view(parts@).take(parts@.len() as int) =~= strs_view(parts@));
    v
}

impl Netns {
    /// The namespace, interfaces and addresses used for sandbox `id`.
    pub open spec fn names_for(self, id: u32) -> bool {
        &&& self.name@ == "mirage-"@ + decimal(id as nat)
        &&& self.veth_host@ == "vm-"@ + decimal(id as nat)
        &&& self.veth_guest@ == "vg-"@ + decimal(id as nat)
        &&& self.ip_host@ == "10.200.1.1"@
        &&& self.ip_guest@ == "10.200.1.2"@
    }

    /// `args`, run inside the namespace.
    pub open spec fn exec_args(self, args: Seq<Seq<char>>) -> Seq<Seq<char>> {
        seq!["ip"@, "netns"@, "exec"@, self.name@] + args
    }

    /// The commands (each run through `sudo`) that build the namespace, in order.
    pub open spec fn setup_steps(self, mac: Option<Seq<char>>) -> Seq<Seq<Seq<char>>> {
        seq![
            seq!["ip"@, "netns"@, "add"@, self.name@],
            seq!["ip"@, "link"@, "add"@, self.veth_host@, "type"@, "veth"@, "peer"@, "name"@, self.veth_guest@],
            seq!["ip"@, "link"@, "set"@, self.veth_guest@, "netns"@, self.name@],
            seq!["ip"@, "addr"@, "add"@, self.ip_host@ + "/24"@, "dev"@, self.veth_host@],
            seq!["ip"@, "link"@, "set"@, self.veth_host@, "up"@],
            self.exec_args(seq!["ip"@, "addr"@, "add"@, self.ip_guest@ + "/24"@, "dev"@, self.veth_guest@]),
        ] + (match mac {
            Some(m) => seq![self.exec_args(seq!["ip"@, "link"@, "set"@, "dev"@, self.veth_guest@, "address"@, m])],
            None => seq![],
        }) + seq![
            self.exec_args(seq!["ip"@, "link"@, "set"@, self.veth_guest@, "up"@]),
            self.exec_args(seq!["ip"@, "link"@, "set"@, "lo"@, "up"@]),
            self.exec_args(seq!["ip"@, "route"@, "add"@, "default"@, "via"@, self.ip_host@]),
            self.exec_args(seq!["sysctl"@, "-w"@, "net.ipv6.conf.all.disable_ipv6=1"@]),
            self.exec_args(seq!["sysctl"@, "-w"@, "net.ipv6.conf.default.disable_ipv6=1"@]),
            self.exec_args(seq!["sysctl"@, "-w"@, "net.ipv4.ping_group_range=0 2147483647"@]),
            seq!["sysctl"@, "-w"@, "net.ipv4.ip_forward=1"@],
            seq!["iptables"@, "-t"@, "nat"@, "-A"@, "POSTROUTING"@, "-s"@, "10.200.1.0/24"@, "-j"@, "MASQUERADE"@],
            seq!["iptables"@, "-A"@, "FORWARD"@, "-i"@, self.veth_host@, "-j"@, "ACCEPT"@],
            seq!["iptables"@, "-A"@, "FORWARD"@, "-o"@, self.veth_host@, "-j"@, "ACCEPT"@],
        ]
    }

    /// The commands (each run through `sudo`) that tear the namespace down.
    pub open spec fn teardown_steps(self) -> Seq<Seq<Seq<char>>> {
        seq![
            seq!["ip"@, "link"@, "delete"@, self.veth_host@],
            seq!["ip"@, "netns"@, "delete"@, self.name@],
            seq!["iptables"@, "-t"@, "nat"@, "-D"@, "POSTROUTING"@, "-s"@, "10.200.1.0/24"@, "-j"@, "MASQUERADE"@],
            seq!["iptables"@, "-D"@, "FORWARD"@, "-i"@, self.veth_host@, "-j"@, "ACCEPT"@],
            seq!["iptables"@, "-D"@, "FORWARD"@, "-o"@, self.veth_host@, "-j"@, "ACCEPT"@],
        ]
    }

    /// The namespace for sandbox `id`, and the commands that build it; `mac`
    /// is given to the guest interface when present.  The commands must run
    /// in order, each through `sudo`, stopping at the first failure.
    pub fn create(id: u32, mac: Option<&str>) -> (r: (Netns, Vec<Vec<String>>))
        ensures
            r.0.names_for(id),
            groups_view(r.1@) == r.0.setup_steps(
                match mac {
                    Some(m) => Some(m@),
                    None => None,
                },
            ),
    {
        let n = u32_to_string(id);
        let ns = Netns {
            name: concat2("mirage-", n.as_str()),
            veth_host: concat2("vm-", n.as_str()),
            veth_guest: concat2("vg-", n.as_str()),
            ip_host: String::from_str("10.200.1.1"),
            ip_guest: String::from_str("10.200.1.2"),
        };
        let name = ns.name.as_str();
        let vh = ns.veth_host.as_str();
        let vg = ns.veth_guest.as_str();
        let host_cidr = concat2(ns.ip_host.as_str(), "/24");
        let guest_cidr = concat2(ns.ip_guest.as_str(), "/24");
        let mut steps: Vec<Vec<String>> = Vec::new();
        push_group(&mut steps, from_strs(&["ip", "netns", "add", name]));
        push_group(&mut steps, from_strs(&["ip", "link", "add", vh, "type", "veth", "peer", "name", vg]));
        push_group(&mut steps, from_strs(&["ip", "link", "set", vg, "netns", name]));
        push_group(&mut steps, from_strs(&["ip", "addr", "add", host_cidr.as_str(), "dev", vh]));
        push_group(&mut steps, from_strs(&["ip", "link", "set", vh, "up"]));
        push_group(&mut steps, ns.exec(&from_strs(&["ip", "addr", "add", guest_cidr.as_str(), "dev", vg])));
        let ghost part1 = groups_view(steps@);
        match mac {
            Some(m) => {
                push_group(&mut steps, ns.exec(&from_strs(&["ip", "link", "set", "dev", vg, "address", m])));
            },
            None => {},
        }
        let ghost part2 = groups_view(steps@);
        push_group(&mut steps, ns.exec(&from_strs(&["ip", "link", "set", vg, "up"])));
        push_group(&mut steps, ns.exec(&from_strs(&["ip", "link", "set", "lo", "up"])));
        push_group(&mut steps, ns.exec(&from_strs(&["ip", "route", "add", "default", "via", ns.ip_host.as_str()])));
        push_group(&mut steps, ns.exec(&from_strs(&["sysctl", "-w", "net.ipv6.conf.all.disable_ipv6=1"])));
        push_group(&mut steps, ns.exec(&from_strs(&["sysctl", "-w", "net.ipv6.conf.default.disable_ipv6=1"])));
        push_group(&mut steps, ns.exec(&from_strs(&["sysctl", "-w", "net.ipv4.ping_group_range=0 2147483647"])));
        push_group(&mut steps, from_strs(&["sysctl", "-w", "net.ipv4.ip_forward=1"]));
        push_group(&mut steps, from_strs(&["iptables", "-t", "nat", "-A", "POSTROUTING", "-s", "10.200.1.0/24", "-j", "MASQUERADE"]));
        push_group(&mut steps, from_strs(&["iptables", "-A", "FORWARD", "-i", vh, "-j", "ACCEPT"]));
        push_group(&mut steps, from_strs(&["iptables", "-A", "FORWARD", "-o", vh, "-j", "ACCEPT"]));
        proof {
            let m = match mac {
                Some(m) => Some(m@),
                None => None,
            };
            assert(part2 =~~= part1 + (match m {
                Some(mm) => seq![ns.exec_args(seq!["ip"@, "link"@, "set"@, "dev"@, ns.veth_guest@, "address"@, mm])],
                None => seq![],
            }));
            assert(groups_view(steps@) =~~= ns.setup_steps(m));
        }
        (ns, steps)
    }

    /// The command that runs `args` inside this namespace (through `sudo`).
    pub fn exec(&self, args: &Vec<String>) -> (r: Vec<String>)
        ensures
            views(r@) == self.exec_args(views(args@)),
    {
        let mut r = from_strs(&["ip", "netns", "exec", self.name.as_str()]);
        let ghost pre = views(r@);
        let mut i: usize = 0;
        while i < args.len()
            invariant
                i <= args.len(),
                views(r@) == pre + views(args@).take(i as int),
            decreases args.len() - i,
        {
            let ghost before = r@;
            r.push(args[i].clone());
            assert(views(r@) =~= pre + views(args@).take(i + 1)) by {
                assert(views(r@) =~= views(before).push(args@[i as int]@));
            }
            i = i + 1;
        }
        assert(views(args@).take(args.len() as int) =~= views(args@));
        assert(pre =~= seq!["ip"@, "netns"@, "exec"@, self.name@]);
        r
    }

    /// The commands (each through `sudo`) that tear the namespace down; their
    /// failures are ignored.
    pub fn destroy(&self) -> (r: Vec<Vec<String>>)
        ensures
            groups_view(r@) == self.teardown_steps(),
    {
        let vh = self.veth_host.as_str();
        let mut steps: Vec<Vec<String>> = Vec::new();
        push_group(&mut steps, from_strs(&["ip", "link", "delete", vh]));
        push_group(&mut steps, from_strs(&["ip", "netns", "delete", self.name.as_str()]));
        push_group(&mut steps, from_strs(&["iptables", "-t", "nat", "-D", "POSTROUTING", "-s", "10.200.1.0/24", "-j", "MASQUERADE"]));
        push_group(&mut steps, from_strs(&["iptables", "-D", "FORWARD", "-i", vh, "-j", "ACCEPT"]));
        push_group(&mut steps, from_strs(&["iptables", "-D", "FORWARD", "-o", vh, "-j", "ACCEPT"]));
        assert(groups_view(steps@) =~~= self.teardown_steps());
        steps
    }
}

/// The words of a command with each `-A` (append a firewall rule) turned
/// into `-D` (delete it).
pub open spec fn deleting(step: Seq<Seq<char>>) -> Seq<Seq<char>> {
    step.map_values(|w: Seq<char>| if w == "-A"@ { "-D"@ } else { w })
}

/// Tearing a namespace down undoes what building it installed: the
/// namespace and the host end of the veth pair are deleted, and every
/// firewall rule that was appended is deleted again.
pub proof fn lemma_teardown_undoes_setup(ns: Netns, id: u32, mac: Option<Seq<char>>)
    requires
        ns.names_for(id),
    ensures
        ns.setup_steps(mac).contains(seq!["ip"@, "netns"@, "add"@, ns.name@]),
        ns.teardown_steps().contains(seq!["ip"@, "netns"@, "delete"@, ns.name@]),
        ns.setup_steps(mac)[1].take(4) == seq!["ip"@, "link"@, "add"@, ns.veth_host@],
        ns.teardown_steps().contains(seq!["ip"@, "link"@, "delete"@, ns.veth_host@]),
        forall|i: int|
            0 <= i < ns.setup_steps(mac).len() && (#[trigger] ns.setup_steps(mac)[i])[0] == "iptables"@
                ==> ns.teardown_steps().contains(deleting(ns.setup_steps(mac)[i])),
{
    let s = ns.setup_steps(mac);
    let t = ns.teardown_steps();
    let vh = ns.veth_host@;
    let a = seq![
        seq!["ip"@, "netns"@, "add"@, ns.name@],
        seq!["ip"@, "link"@, "add"@, vh, "type"@, "veth"@, "peer"@, "name"@, ns.veth_guest@],
        seq!["ip"@, "link"@, "set"@, ns.veth_guest@, "netns"@, ns.name@],
        seq!["ip"@, "addr"@, "add"@, ns.ip_host@ + "/24"@, "dev"@, vh],
        seq!["ip"@, "link"@, "set"@, vh, "up"@],
        ns.exec_args(seq!["ip"@, "addr"@, "add"@, ns.ip_guest@ + "/24"@, "dev"@, ns.veth_guest@]),
    ];
    let b: Seq<Seq<Seq<char>>> = match mac {
        Some(m) => seq![ns.exec_args(seq!["ip"@, "link"@, "set"@, "dev"@, ns.veth_guest@, "address"@, m])],
        None => seq![],
    };
    let c = seq![
        ns.exec_args(seq!["ip"@, "link"@, "set"@, ns.veth_guest@, "up"@]),
        ns.exec_args(seq!["ip"@, "link"@, "set"@, "lo"@, "up"@]),
        ns.exec_args(seq!["ip"@, "route"@, "add"@, "default"@, "via"@, ns.ip_host@]),
        ns.exec_args(seq!["sysctl"@, "-w"@, "net.ipv6.conf.all.disable_ipv6=1"@]),
        ns.exec_args(seq!["sysctl"@, "-w"@, "net.ipv6.conf.default.disable_ipv6=1"@]),
        ns.exec_args(seq!["sysctl"@, "-w"@, "net.ipv4.ping_group_range=0 2147483647"@]),
        seq!["sysctl"@, "-w"@, "net.ipv4.ip_forward=1"@],
        seq!["iptables"@, "-t"@, "nat"@, "-A"@, "POSTROUTING"@, "-s"@, "10.200.1.0/24"@, "-j"@, "MASQUERADE"@],
        seq!["iptables"@, "-A"@, "FORWARD"@, "-i"@, vh, "-j"@, "ACCEPT"@],
        seq!["iptables"@, "-A"@, "FORWARD"@, "-o"@, vh, "-j"@, "ACCEPT"@],
    ];
    assert(s =~= a + b + c);
    assert(s[0] == a[0]);
    assert(t[1] == seq!["ip"@, "netns"@, "delete"@, ns.name@]);
    assert(t[0] == seq!["ip"@, "link"@, "delete"@, vh]);
    assert(s[1] == a[1]);
    assert(s[1].take(4) =~= seq!["ip"@, "link"@, "add"@, vh]);
    reveal_strlit("ip");
    reveal_strlit("sysctl");
    reveal_strlit("iptables");
    reveal_strlit("-A");
    reveal_strlit("-D");
    reveal_strlit("-t");
    reveal_strlit("nat");
    reveal_strlit("POSTROUTING");
    reveal_strlit("-s");
    reveal_strlit("10.200.1.0/24");
    reveal_strlit("-j");
    reveal_strlit("MASQUERADE");
    reveal_strlit("FORWARD");
    reveal_strlit("-i");
    reveal_strlit("-o");
    reveal_strlit("ACCEPT");
    reveal_strlit("vm-");
    assert(vh[0] == 'v');
    assert(vh != "-A"@);
    assert("-t"@[1] != "-A"@[1]);
    assert("-s"@[1] != "-A"@[1]);
    assert("-j"@[1] != "-A"@[1]);
    assert("-i"@[1] != "-A"@[1]);
    assert("-o"@[1] != "-A"@[1]);
    let n = a.len() + b.len();
    assert("ip"@.len() != "iptables"@.len());
    assert("sysctl"@.len() != "iptables"@.len());
    assert(deleting(c[7]) =~= t[2]) by {
        let d = deleting(c[7]);
        assert(d[0] == t[2][0]);
        assert(d[1] == t[2][1]);
        assert(d[2] == t[2][2]);
        assert(d[3] == t[2][3]);
        assert(d[4] == t[2][4]);
        assert(d[5] == t[2][5]);
        assert(d[6] == t[2][6]);
        assert(d[7] == t[2][7]);
        assert(d[8] == t[2][8]);
    }
    assert(deleting(c[8]) =~= t[3]);
    assert(deleting(c[9]) =~= t[4]);
    assert forall|i: int|
        0 <= i < s.len() && (#[trigger] s[i])[0] == "iptables"@ implies t.contains(deleting(s[i])) by {
        if i < a.len() {
            assert(s[i] == a[i]);
            assert(a[i][0] == "ip"@);
            assert(s[i][0] != "iptables"@);
        } else if i < n {
            assert(s[i] == b[i - a.len()]);
            assert(b[i - a.len()][0] == "ip"@);
            assert(s[i][0] != "iptables"@);
        } else {
            let j = i - n;
            assert(s[i] == c[j]);
            if j < 6 {
                assert(c[j][0] == "ip"@);
                assert(s[i][0] != "iptables"@);
            } else if j == 6 {
                assert(c[j][0] == "sysctl"@);
                assert(s[i][0] != "iptables"@);
            } else if j == 7 {
                assert(t[2] == deleting(s[i]));
            } else if j == 8 {
                assert(t[3] == deleting(s[i]));
            } else {
                assert(t[4] == deleting(s[i]));
            }
        }
    }
}

} // verus!
