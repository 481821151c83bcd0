use mirage::protocol::Profile;
use mirage::runner::{build_bwrap_command, HostFacts};
use mirage::sandbox::SandboxHandle;
use rand::rngs::StdRng;
use rand::SeedableRng;

fn bare_facts() -> HostFacts {
    HostFacts {
        machine_id_staged: false,
        hostname_staged: false,
        timezone_staged: false,
        resolv_conf_staged: false,
        cpuinfo_staged: false,
        passwd_staged: false,
        mac_address_staged: false,
        dbus_socket_staged: false,
        etc_timezone_exists: false,
        zoneinfo_exists: false,
        usr_lib_locale_exists: false,
        home: None,
        xauthority_exists: false,
        user: None,
        x11_unix_exists: false,
        display: None,
        xdg_runtime_dir: None,
        wayland_display: None,
    }
}

fn groups_of(argv: &[String], start: usize, end: usize) -> Vec<Vec<String>> {
    // every dynamic group starts with a flag (`--bind`, `--setenv`, `--dir`)
    let mut groups: Vec<Vec<String>> = Vec::new();
    for a in &argv[start..end] {
        if a.starts_with("--") {
            groups.push(vec![a.clone()]);
        } else {
            groups.last_mut().unwrap().push(a.clone());
        }
    }
    groups
}

#[test]
fn bare_launch_has_skeleton_software_gl_and_the_app() {
    let ns = SandboxHandle::with_tmp_dir("/tmp/mirage-1".to_string());
    let p = Profile::named("bare".to_string());
    let mut rng = StdRng::seed_from_u64(1);
    let args = vec!["-c".to_string(), "true".to_string()];
    let argv = build_bwrap_command(&ns, &p, "bash", &args, &bare_facts(), &mut rng);
    let expected: Vec<&str> = vec![
        "--bind", "/", "/", "--dev-bind", "/dev", "/dev", "--proc", "/proc", "--tmpfs", "/tmp", "--tmpfs",
        "/home", "--unshare-uts", "--unshare-net", "--tmpfs", "/tmp", "--setenv", "LIBGL_ALWAYS_SOFTWARE",
        "1", "--", "bash", "-c", "true",
    ];
    assert_eq!(argv, expected);
}

#[test]
fn isolated_profile_drops_unshare_net_and_mac_mounts() {
    let ns = SandboxHandle::with_tmp_dir("/tmp/mirage-2".to_string());
    let mut p = Profile::named("iso".to_string());
    p.isolate_network = Some(true);
    p.hostname = Some("alex-xps".to_string());
    let mut facts = bare_facts();
    facts.mac_address_staged = true;
    let mut rng = StdRng::seed_from_u64(2);
    let argv = build_bwrap_command(&ns, &p, "app", &vec![], &facts, &mut rng);
    assert!(!argv.iter().any(|a| a == "--unshare-net"));
    assert_eq!(&argv[12..15], &["--unshare-uts", "--hostname", "alex-xps"]);
    assert!(!argv.iter().any(|a| a.contains("mac_address")));
}

#[test]
fn dynamic_groups_are_all_present_in_some_order() {
    let ns = SandboxHandle::with_tmp_dir("/tmp/mirage-3".to_string());
    let mut p = Profile::named("full".to_string());
    p.timezone = Some("Asia/Tokyo".to_string());
    p.locale = Some("ja_JP.UTF-8".to_string());
    p.username = Some("sakura".to_string());
    let mut facts = bare_facts();
    facts.machine_id_staged = true;
    facts.hostname_staged = true;
    facts.dbus_socket_staged = true;
    facts.zoneinfo_exists = true;
    facts.home = Some("/home/real".to_string());
    facts.user = Some("real".to_string());
    facts.display = Some(":0".to_string());
    let mut rng = StdRng::seed_from_u64(3);
    let argv = build_bwrap_command(&ns, &p, "app", &vec!["x".to_string()], &facts, &mut rng);
    let dash = argv.iter().position(|a| a == "--").unwrap();
    assert_eq!(&argv[dash..], &["--", "app", "x"]);
    let mut got = groups_of(&argv, 16, dash);
    let mut want: Vec<Vec<String>> = vec![
        vec!["--bind", "/tmp/mirage-3/machine-id", "/etc/machine-id"],
        vec!["--bind", "/tmp/mirage-3/hostname", "/etc/hostname"],
        vec!["--bind", "/usr/share/zoneinfo/Asia/Tokyo", "/etc/localtime"],
        vec!["--setenv", "TZ", "Asia/Tokyo"],
        vec!["--bind", "/tmp/mirage-3/system_bus_socket", "/run/dbus/system_bus_socket"],
        vec!["--setenv", "DBUS_SESSION_BUS_ADDRESS", "unix:path=/tmp/mirage-3/system_bus_socket"],
        vec!["--setenv", "DBUS_SYSTEM_BUS_ADDRESS", "unix:path=/tmp/mirage-3/system_bus_socket"],
        vec!["--setenv", "LANG", "ja_JP.UTF-8"],
        vec!["--setenv", "LC_ALL", "ja_JP.UTF-8"],
        vec!["--dir", "/home/sakura"],
        vec!["--bind", "/home/real", "/home/sakura"],
        vec!["--setenv", "HOME", "/home/sakura"],
        vec!["--setenv", "USER", "sakura"],
        vec!["--setenv", "DISPLAY", ":0"],
        vec!["--setenv", "LIBGL_ALWAYS_SOFTWARE", "1"],
    ]
    .into_iter()
    .map(|g| g.into_iter().map(String::from).collect())
    .collect();
    got.sort();
    want.sort();
    assert_eq!(got, want);
}
