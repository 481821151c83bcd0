use mirage::netns::Netns;

fn strs(v: &[&str]) -> Vec<String> {
    v.iter().map(|s| s.to_string()).collect()
}

#[test]
fn namespace_names_follow_the_id() {
    let (ns, steps) = Netns::create(42, None);
    assert_eq!(ns.name, "mirage-42");
    assert_eq!(ns.veth_host, "vm-42");
    assert_eq!(ns.veth_guest, "vg-42");
    assert_eq!(ns.ip_host, "10.200.1.1");
    assert_eq!(ns.ip_guest, "10.200.1.2");
    assert_eq!(steps.len(), 16);
    assert_eq!(steps[0], strs(&["ip", "netns", "add", "mirage-42"]));
    assert_eq!(steps[5], strs(&["ip", "netns", "exec", "mirage-42", "ip", "addr", "add", "10.200.1.2/24", "dev", "vg-42"]));
    assert_eq!(steps[11], strs(&["ip", "netns", "exec", "mirage-42", "sysctl", "-w", "net.ipv4.ping_group_range=0 2147483647"]));
    assert_eq!(steps[15], strs(&["iptables", "-A", "FORWARD", "-o", "vm-42", "-j", "ACCEPT"]));
}

#[test]
fn mac_is_set_on_the_guest_interface() {
    let (_, steps) = Netns::create(7, Some("02:00:00:aa:bb:cc"));
    assert_eq!(steps.len(), 17);
    assert_eq!(
        steps[6],
        strs(&["ip", "netns", "exec", "mirage-7", "ip", "link", "set", "dev", "vg-7", "address", "02:00:00:aa:bb:cc"])
    );
}

#[test]
fn exec_prefixes_ip_netns_exec() {
    let (ns, _) = Netns::create(3, None);
    assert_eq!(ns.exec(&strs(&["ping", "-c", "1", "x"])), strs(&["ip", "netns", "exec", "mirage-3", "ping", "-c", "1", "x"]));
}

#[test]
fn teardown_deletes_every_appended_rule() {
    let (ns, setup) = Netns::create(9, None);
    let teardown = ns.destroy();
    assert_eq!(teardown[0], strs(&["ip", "link", "delete", "vm-9"]));
    assert_eq!(teardown[1], strs(&["ip", "netns", "delete", "mirage-9"]));
    for step in setup.iter().filter(|s| s[0] == "iptables") {
        let undone: Vec<String> = step.iter().map(|w| if w == "-A" { "-D".to_string() } else { w.clone() }).collect();
        assert!(teardown.contains(&undone), "{:?} is not undone", step);
    }
}
