use mirage::account::UsernameProvider;
use mirage::network::{BluetoothProvider, GeoClueProvider, Ipv4Provider, WebRtcProvider, WifiProvider};
use mirage::protocol::{Profile, SignalKind, SignalValue};
use mirage::providers::{
    CpuProvider, DnsProvider, HostnameProvider, LocaleProvider, MacProvider, MachineIdProvider, ProviderError,
    TimezoneProvider,
};
use mirage::sandbox::{hex_name_of, SandboxError, SandboxHandle};
use rand::rngs::StdRng;
use rand::SeedableRng;

fn profile() -> Profile {
    let mut p = Profile::named("london-vpn".to_string());
    p.hostname = Some("james-thinkpad".to_string());
    p.machine_id = Some("0123456789abcdef-0123456789ABCDEF".to_string());
    p.timezone = Some("Europe/London".to_string());
    p.locale = Some("en_GB.UTF-8".to_string());
    p.dns = Some(vec!["1.1.1.1".to_string(), "9.9.9.9".to_string()]);
    p.cpu_model = Some("Intel(R) Core(TM) i7-1165G7".to_string());
    p.mac_address = Some("00:11:24:aa:bb:cc".to_string());
    p.username = Some("james".to_string());
    p
}

#[test]
fn hostname_is_projected_from_the_profile() {
    match HostnameProvider.projected_value(&profile()) {
        Ok(SignalValue::Hostname(h)) => assert_eq!(h, "james-thinkpad"),
        other => panic!("{:?}", other),
    }
    assert_eq!(HostnameProvider.staged_file(&profile()).unwrap(), "james-thinkpad\n");
    let e = HostnameProvider.staged_file(&Profile::named("bare".to_string())).unwrap_err();
    assert_eq!(e.message(), "Profile 'bare' has no hostname field");
    assert_eq!(HostnameProvider.signal_kind(), SignalKind::Hostname);
}

#[test]
fn machine_id_is_validated_before_staging() {
    assert_eq!(MachineIdProvider.staged_file(&profile()).unwrap(), "0123456789abcdef0123456789ABCDEF\n");
    let mut bad = profile();
    bad.machine_id = Some("not-hex".to_string());
    match MachineIdProvider.staged_file(&bad) {
        Err(e @ ProviderError::InvalidMachineId(_)) => {
            assert_eq!(e.message(), "machine_id 'not-hex' is not a valid 32-char hex string")
        }
        other => panic!("{:?}", other),
    }
    match MachineIdProvider.real_value("  abc\n") {
        SignalValue::MachineId(m) => assert_eq!(m, "abc"),
        other => panic!("{:?}", other),
    }
}

#[test]
fn host_timezone_prefers_etc_timezone() {
    match TimezoneProvider.real_value(Some("Europe/Berlin\n"), Some("/usr/share/zoneinfo/Asia/Tokyo")) {
        Ok(SignalValue::Timezone(t)) => assert_eq!(t, "Europe/Berlin"),
        other => panic!("{:?}", other),
    }
    match TimezoneProvider.real_value(Some("  \n"), Some("../usr/share/zoneinfo/Asia/Tokyo")) {
        Ok(SignalValue::Timezone(t)) => assert_eq!(t, "Asia/Tokyo"),
        other => panic!("{:?}", other),
    }
    match TimezoneProvider.real_value(None, Some("/etc/elsewhere")) {
        Err(e @ ProviderError::Undetermined(_)) => assert_eq!(e.message(), "Failed to determine system timezone"),
        other => panic!("{:?}", other),
    }
    match TimezoneProvider.projected_value(&profile()) {
        Ok(SignalValue::Timezone(t)) => assert_eq!(t, "Europe/London"),
        other => panic!("{:?}", other),
    }
}

#[test]
fn host_locale_prefers_lang() {
    match LocaleProvider.real_value(Some("de_DE.UTF-8"), Some("LANG=fr_FR.UTF-8\n")) {
        Ok(SignalValue::Locale(l)) => assert_eq!(l, "de_DE.UTF-8"),
        other => panic!("{:?}", other),
    }
    match LocaleProvider.real_value(Some(""), Some("LC_TIME=x\nLANG=\"fr_FR.UTF-8\"\n")) {
        Ok(SignalValue::Locale(l)) => assert_eq!(l, "fr_FR.UTF-8"),
        other => panic!("{:?}", other),
    }
    assert!(LocaleProvider.real_value(None, None).is_err());
}

#[test]
fn dns_reads_and_writes_nameserver_lines() {
    match DnsProvider.real_value("# generated\nnameserver 8.8.8.8\n  nameserver 1.1.1.1 # cf\nsearch lan\n") {
        SignalValue::Dns(s) => assert_eq!(s, vec!["8.8.8.8", "1.1.1.1"]),
        other => panic!("{:?}", other),
    }
    assert_eq!(DnsProvider.staged_file(&profile()).unwrap(), "nameserver 1.1.1.1\nnameserver 9.9.9.9\n");
}

#[test]
fn cpu_model_is_read_and_masked() {
    let cpuinfo = "processor\t: 0\nmodel name\t: AMD Ryzen 7 5800X\nflags\t: fpu\n";
    match CpuProvider.real_value(cpuinfo) {
        SignalValue::Cpu(c) => assert_eq!(c, "AMD Ryzen 7 5800X"),
        other => panic!("{:?}", other),
    }
    assert_eq!(
        CpuProvider.staged_file(&profile(), cpuinfo).unwrap(),
        "processor\t: 0\nmodel name\t: Intel(R) Core(TM) i7-1165G7\nflags\t: fpu\n"
    );
}

#[test]
fn mac_prefers_eth0() {
    match MacProvider.real_value(Some("aa:bb:cc:dd:ee:ff\n"), Some("11:22:33:44:55:66\n")) {
        SignalValue::MacAddress(m) => assert_eq!(m, "aa:bb:cc:dd:ee:ff"),
        other => panic!("{:?}", other),
    }
    match MacProvider.real_value(None, None) {
        SignalValue::MacAddress(m) => assert_eq!(m, "00:00:00:00:00:00"),
        other => panic!("{:?}", other),
    }
    assert_eq!(MacProvider.staged_file(&profile()).unwrap(), "00:11:24:aa:bb:cc\n");
}

#[test]
fn passwd_entry_of_the_real_user_is_renamed() {
    let passwd = "root:x:0:0:root:/root:/bin/bash\nreal:x:1000:1000:Real:/home/real:/bin/zsh\n";
    assert!(UsernameProvider.can_rewrite(passwd, 1000));
    assert_eq!(
        UsernameProvider.staged_file(&profile(), passwd, 1000).unwrap(),
        "root:x:0:0:root:/root:/bin/bash\njames:x:1000:1000:Real:/home/james:/bin/zsh\n"
    );
    assert_eq!(UsernameProvider.staged_file(&profile(), passwd, 4242), None);
    assert!(!UsernameProvider.can_rewrite("short:x:1000:1000:x:/h\n", 1000));
    match UsernameProvider.projected_value(&Profile::named("x".to_string())) {
        SignalValue::Username(u) => assert_eq!(u, "devuser"),
        other => panic!("{:?}", other),
    }
    match UsernameProvider.real_value(None) {
        SignalValue::Username(u) => assert_eq!(u, "nobody"),
        other => panic!("{:?}", other),
    }
}

#[test]
fn webrtc_lists_sorted_non_loopback_addresses() {
    let ifs = vec![
        ("192.168.1.20".to_string(), false),
        ("127.0.0.1".to_string(), true),
        ("10.0.0.5".to_string(), false),
        ("192.168.1.20".to_string(), false),
    ];
    match WebRtcProvider.real_value(&ifs, Some("203.0.113.9\n")) {
        SignalValue::WebRtc { public_ips, local_ips } => {
            assert_eq!(local_ips, vec!["10.0.0.5", "192.168.1.20"]);
            assert_eq!(public_ips, vec!["203.0.113.9"]);
        }
        other => panic!("{:?}", other),
    }
    match WebRtcProvider.real_value(&ifs, None) {
        SignalValue::WebRtc { public_ips, .. } => assert!(public_ips.is_empty()),
        other => panic!("{:?}", other),
    }
}

#[test]
fn unprojected_signals_say_so() {
    let p = profile();
    assert!(matches!(Ipv4Provider.projected_value(&p), Err(ProviderError::NotImplemented)));
    assert_eq!(ProviderError::NotImplemented.message(), "Not implemented yet");
    assert!(matches!(GeoClueProvider.real_value(), SignalValue::Gps { lat_micro: 0, lon_micro: 0, accuracy_micro: 0 }));
    assert!(matches!(WifiProvider.real_value(), SignalValue::WifiScan(v) if v.is_empty()));
    assert!(matches!(BluetoothProvider.real_value(), SignalValue::BluetoothScan(v) if v.is_empty()));
    match Ipv4Provider.real_value(" 198.51.100.7\n") {
        SignalValue::Ipv4(ip) => assert_eq!(ip, "198.51.100.7"),
        other => panic!("{:?}", other),
    }
}

#[test]
fn sandbox_handles() {
    let h = SandboxHandle::with_tmp_dir("/tmp/mirage-5".to_string());
    assert!(!h.is_active());
    assert!(h.bind_mount("/a", "/b").is_ok());
    assert!(h.set_env("K", "V").is_ok());
    let mut rng = StdRng::seed_from_u64(9);
    let fresh = SandboxHandle::new(Some("/run/user/1000".to_string()), &mut rng);
    assert!(fresh.tmp_dir.starts_with("/run/user/1000/"));
    let name = &fresh.tmp_dir["/run/user/1000/".len()..];
    assert_eq!(name.len(), 8);
    assert!(name.chars().all(|c| c.is_ascii_hexdigit() && !c.is_ascii_uppercase()));
    let fallback = SandboxHandle::new(None, &mut rng);
    assert!(fallback.tmp_dir.starts_with("/tmp/"));
    let _ = SandboxError::NotActive;
}

#[test]
fn staged_resolv_conf_reads_back_as_the_profile_servers() {
    let staged = DnsProvider.staged_file(&profile()).unwrap();
    match DnsProvider.real_value(&staged) {
        SignalValue::Dns(s) => assert_eq!(Some(s), profile().dns),
        other => panic!("{:?}", other),
    }
}

#[test]
fn run_directory_names_take_the_low_hex_digit_of_each_byte() {
    assert_eq!(hex_name_of(&vec![0x00, 0x1f, 0xa3, 0x7c, 0x10, 0xff, 0x09, 0x2b]), "0f3c0f9b");
}

#[test]
fn a_localtime_link_ending_in_zoneinfo_names_no_timezone() {
    assert!(TimezoneProvider.real_value(None, Some("/usr/share/zoneinfo/")).is_err());
    assert!(TimezoneProvider.real_value(Some(""), Some("zoneinfo/")).is_err());
}
