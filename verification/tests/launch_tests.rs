use mirage::launch::{
    launch_command, ovpn_config_path, sandbox_tmp_dir, session_script, session_script_with,
    tor_country, tor_country_of_lowercase,
};
use mirage::netns::Netns;
use mirage::protocol::Profile;

#[test]
fn run_directory_is_keyed_by_pid() {
    assert_eq!(sandbox_tmp_dir(4242), "/tmp/mirage-4242");
    assert_eq!(sandbox_tmp_dir(0), "/tmp/mirage-0");
}

#[test]
fn plain_launch_runs_bwrap() {
    let argv = vec!["--bind".to_string(), "/".to_string(), "/".to_string()];
    assert_eq!(launch_command(None, Some("alice"), &argv), vec!["bwrap", "--bind", "/", "/"]);
}

#[test]
fn isolated_launch_enters_the_namespace_and_drops_privileges() {
    let (ns, _) = Netns::create(77, None);
    let argv = vec!["--".to_string(), "bash".to_string()];
    assert_eq!(
        launch_command(Some(&ns), Some("alice"), &argv),
        vec!["sudo", "ip", "netns", "exec", "mirage-77", "sudo", "-E", "-u", "alice", "bwrap", "--", "bash"]
    );
    assert_eq!(launch_command(Some(&ns), None, &argv)[8], "nobody");
}

#[test]
fn tor_region_follows_the_profile_name() {
    assert_eq!(tor_country("London-VPN"), Some("uk".to_string()));
    assert_eq!(tor_country("TOKYO"), Some("jp".to_string()));
    assert_eq!(tor_country("us-east"), Some("us".to_string()));
    assert_eq!(tor_country("Canada"), Some("ca".to_string()));
    assert_eq!(tor_country("berlin"), None);
    // the checks are substring matches, tried in order
    assert_eq!(tor_country_of_lowercase("ukulele"), Some("uk".to_string()));
    assert_eq!(tor_country_of_lowercase("caucasus"), Some("us".to_string()));
    assert_eq!(tor_country_of_lowercase("japan"), Some("jp".to_string()));
}

#[test]
fn ovpn_configuration_sits_under_ovpn() {
    assert_eq!(ovpn_config_path("tokyo"), "ovpn/tokyo.ovpn");
}

#[test]
fn plain_session_script() {
    let s = session_script_with("berlin", false, None, false);
    let lines: Vec<&str> = s.lines().collect();
    assert_eq!(lines[0], "export MIRAGE_PROFILE=\"berlin\"");
    assert_eq!(lines[1], "unset DBUS_SESSION_BUS_ADDRESS");
    assert_eq!(lines[2], "unset DBUS_SYSTEM_BUS_ADDRESS");
    assert_eq!(lines[3], "cat << 'EOF'");
    assert_eq!(lines[5], format!("    ║  MIRAGE SESSION: {:<34} ║", "berlin"));
    assert_eq!(lines.last().unwrap(), &"exec bash");
    assert!(s.ends_with("exec bash\n"));
    assert!(!s.contains("openvpn"));
    assert!(!s.contains("tor -f"));
}

#[test]
fn tmux_session_script_with_vpn_and_tor() {
    let s = session_script_with("tokyo", true, Some("jp"), true);
    assert!(s.contains("  sudo openvpn --config ovpn/tokyo.ovpn --daemon\n"));
    assert!(s.contains("  echo 'ExitNodes {jp}' > /tmp/torrc\n"));
    assert!(s.contains("  echo \"[mirage] Starting isolated Tor proxy for region: {jp} (Port 9050)...\"\n"));
    assert!(s.contains(&format!("    ║  MIRAGE SESSION (tmux): {:<27} ║\n", "tokyo")));
    assert!(s.ends_with("exec tmux new-session -s \"mirage-tokyo\"\n"));
    let vpn = s.find("openvpn").unwrap();
    let tor = s.find("command -v tor ").unwrap();
    let tmux = s.find("command -v tmux").unwrap();
    assert!(vpn < tor && tor < tmux);
}

#[test]
fn session_script_judges_tor_on_the_lowercased_name() {
    let p = Profile::named("LONDON".to_string());
    let s = session_script(&p, false, false);
    assert!(s.contains("ExitNodes {uk}"));
    assert_eq!(s, session_script_with("LONDON", false, Some("uk"), false));
}
