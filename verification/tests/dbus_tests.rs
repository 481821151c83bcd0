use mirage::dbus::{bus_plan, proxy_values};
use mirage::protocol::{GpsCoord, Profile};

#[test]
fn bus_lives_in_the_run_directory() {
    let plan = bus_plan("/tmp/mirage-9");
    assert_eq!(plan.socket_path, "/tmp/mirage-9/system_bus_socket");
    assert_eq!(plan.config_path, "/tmp/mirage-9/dbus.conf");
    assert_eq!(plan.address, "unix:path=/tmp/mirage-9/system_bus_socket");
    assert_eq!(plan.daemon_args, vec!["--nofork", "--config-file=/tmp/mirage-9/dbus.conf"]);
    assert!(plan.config.contains("  <listen>unix:path=/tmp/mirage-9/system_bus_socket</listen>\n"));
    assert!(plan.config.starts_with("<!DOCTYPE busconfig PUBLIC"));
    assert!(plan.config.ends_with("</busconfig>\n"));
}

#[test]
fn trailing_slash_is_not_doubled() {
    assert_eq!(bus_plan("/run/x/").socket_path, "/run/x/system_bus_socket");
}

#[test]
fn neutral_values_fill_what_the_profile_leaves_out() {
    let v = proxy_values(&Profile::named("empty".to_string()));
    assert_eq!(v.hostname, "localhost");
    assert_eq!(v.machine_id, "00000000000000000000000000000000");
    assert_eq!(v.timezone, "UTC");
    assert_eq!(v.locale_env, vec!["LANG=en_US.UTF-8", "LC_TIME=en_US.UTF-8", "LC_NUMERIC=en_US.UTF-8"]);
    assert_eq!(v.gps, GpsCoord { lat_micro: 51_507_400, lon_micro: -127_800, accuracy_micro: 100_000_000 });
}

#[test]
fn profile_values_are_served() {
    let mut p = Profile::named("tokyo".to_string());
    p.hostname = Some("sakura-xps".to_string());
    p.timezone = Some("Asia/Tokyo".to_string());
    p.locale = Some("ja_JP.UTF-8".to_string());
    p.gps = Some(GpsCoord { lat_micro: 35_676_200, lon_micro: 139_650_300, accuracy_micro: 50_000_000 });
    let v = proxy_values(&p);
    assert_eq!(v.hostname, "sakura-xps");
    assert_eq!(v.timezone, "Asia/Tokyo");
    assert_eq!(v.locale_env[1], "LC_TIME=ja_JP.UTF-8");
    assert_eq!(v.gps.lat_micro, 35_676_200);
}
