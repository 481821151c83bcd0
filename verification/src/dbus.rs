//! The fake D-Bus system bus of a sandbox: where its daemon listens, the
//! configuration it runs with, and the identity values its intercepting
//! services answer with.
use crate::protocol::{GpsCoord, Profile};
use crate::runner::{push_owned, push_str};
use crate::sandbox::{path_join, path_join_exec};
use crate::text::{concat2, concat3, lines_text, views, with_newlines};
use vstd::prelude::*;

verus! {

/// Where the fake bus lives and how its daemon is started.
pub struct BusPlan {
    /// The socket the daemon listens on, bound over the system bus socket
    /// inside the sandbox.
    pub socket_path: String,
    /// The daemon's configuration file.
    pub config_path: String,
    /// The configuration written there.
    pub config: String,
    /// The arguments of `dbus-daemon`.
    pub daemon_args: Vec<String>,
    /// The bus address clients inside the sandbox are given.
    pub address: String,
}

/// The address of a bus listening on the socket at `socket`.
pub open spec fn unix_address(socket: Seq<char>) -> Seq<char> {
    "unix:path="@ + socket
}

/// The configuration of a session-type bus on `socket` that lets every
/// client send, receive and own any name.
pub open spec fn bus_config_lines(socket: Seq<char>) -> Seq<Seq<char>> {
    seq![
        "<!DOCTYPE busconfig PUBLIC \"-//freedesktop//DTD D-Bus Bus Configuration 1.0//EN\""@,
        " \"http://www.freedesktop.org/standards/dbus/1.0/busconfig.dtd\">"@,
        "<busconfig>"@,
        "  <type>session</type>"@,
        "  <listen>"@ + unix_address(socket) + "</listen>"@,
        "  <auth>EXTERNAL</auth>"@,
        "  <policy context=\"default\">"@,
        "    <allow send_destination=\"*\"/>"@,
        "    <allow receive_sender=\"*\"/>"@,
        "    <allow own=\"*\"/>"@,
        "  </policy>"@,
        "</busconfig>"@,
    ]
}

impl BusPlan {
    /// The plan for a run whose directory is `tmp`.
    pub open spec fn for_run(self, tmp: Seq<char>) -> bool {
        let socket = path_join(tmp, "system_bus_socket"@);
        let conf = path_join(tmp, "dbus.conf"@);
        &&& self.socket_path@ == socket
        &&& self.config_path@ == conf
        &&& self.config@ == with_newlines(bus_config_lines(socket))
        &&& views(self.daemon_args@) == seq!["--nofork"@, "--config-file="@ + conf]
        &&& self.address@ == unix_address(socket)
    }
}

fn bus_config(socket: &str) -> (r: String)
    ensures
        r@ == with_newlines(bus_config_lines(socket@)),
{
    let mut lines: Vec<String> = Vec::new();
    push_str(&mut lines, "<!DOCTYPE busconfig PUBLIC \"-//freedesktop//DTD D-Bus Bus Configuration 1.0//EN\"");
    push_str(&mut lines, " \"http://www.freedesktop.org/standards/dbus/1.0/busconfig.dtd\">");
    push_str(&mut lines, "<busconfig>");
    push_str(&mut lines, "  <type>session</type>");
    let address = concat2("unix:path=", socket);
    push_owned(&mut lines, concat3("  <listen>", address.as_str(), "</listen>"));
    push_str(&mut lines, "  <auth>EXTERNAL</auth>");
    push_str(&mut lines, "  <policy context=\"default\">");
    push_str(&mut lines, "    <allow send_destination=\"*\"/>");
    push_str(&mut lines, "    <allow receive_sender=\"*\"/>");
    push_str(&mut lines, "    <allow own=\"*\"/>");
    push_str(&mut lines, "  </policy>");
    push_str(&mut lines, "</busconfig>");
    assert(views(lines@) =~= bus_config_lines(socket@));
    lines_text(&lines)
}

/// The bus plan for the run directory `tmp_dir`.
pub fn bus_plan(tmp_dir: &str) -> (p: BusPlan)
    ensures
        p.for_run(tmp_dir@),
{
    let socket_path = path_join_exec(tmp_dir, "system_bus_socket");
    let config_path = path_join_exec(tmp_dir, "dbus.conf");
    let config = bus_config(socket_path.as_str());
    let mut daemon_args: Vec<String> = Vec::new();
    push_str(&mut daemon_args, "--nofork");
    push_owned(&mut daemon_args, concat2("--config-file=", config_path.as_str()));
    assert(views(daemon_args@) =~= seq!["--nofork"@, "--config-file="@ + config_path@]);
    let address = concat2("unix:path=", socket_path.as_str());
    BusPlan { socket_path, config_path, config, daemon_args, address }
}

/// The values the intercepting services answer with.
pub struct ProxyValues {
    /// GeoClue2's location.
    pub gps: GpsCoord,
    /// hostname1's hostname and static hostname.
    pub hostname: String,
    /// hostname1's machine id.
    pub machine_id: String,
    /// timedate1's timezone.
    pub timezone: String,
    /// locale1's locale environment.
    pub locale_env: Vec<String>,
}

/// Central London, to within a hundred metres: the position served when the
/// profile has none.
pub open spec fn default_gps() -> GpsCoord {
    GpsCoord { lat_micro: 51507400i64, lon_micro: -127800i64, accuracy_micro: 100000000i64 }
}

/// The profile's value, or `default` when it has none.
pub open spec fn or_default(v: Option<String>, default: Seq<char>) -> Seq<char> {
    match v {
        Some(s) => s@,
        None => default,
    }
}

/// The locale environment for `locale`: the language, the time format and
/// the number format all set to it.
pub open spec fn locale_env_of(locale: Seq<char>) -> Seq<Seq<char>> {
    seq!["LANG="@ + locale, "LC_TIME="@ + locale, "LC_NUMERIC="@ + locale]
}

fn value_or(v: &Option<String>, default: &str) -> (r: String)
    ensures
        r@ == or_default(*v, default@),
{
    match v {
        Some(s) => s.clone(),
        None => String::from_str(default),
    }
}

/// What the fake bus serves for `profile`: its position, hostname, machine
/// id, timezone and locale, each replaced by a neutral default when the
/// profile leaves it out.
pub fn proxy_values(profile: &Profile) -> (v: ProxyValues)
    ensures
        v.gps == match profile.gps {
            Some(g) => g,
            None => default_gps(),
        },
        v.hostname@ == or_default(profile.hostname, "localhost"@),
        v.machine_id@ == or_default(profile.machine_id, "00000000000000000000000000000000"@),
        v.timezone@ == or_default(profile.timezone, "UTC"@),
        views(v.locale_env@) == locale_env_of(or_default(profile.locale, "en_US.UTF-8"@)),
{
    let gps = match profile.gps {
        Some(g) => g,
        None => GpsCoord { lat_micro: 51507400, lon_micro: -127800, accuracy_micro: 100000000 },
    };
    let hostname = value_or(&profile.hostname, "localhost");
    let machine_id = value_or(&profile.machine_id, "00000000000000000000000000000000");
    let timezone = value_or(&profile.timezone, "UTC");
    let locale = value_or(&profile.locale, "en_US.UTF-8");
    let mut locale_env: Vec<String> = Vec::new();
    push_owned(&mut locale_env, concat2("LANG=", locale.as_str()));
    push_owned(&mut locale_env, concat2("LC_TIME=", locale.as_str()));
    push_owned(&mut locale_env, concat2("LC_NUMERIC=", locale.as_str()));
    assert(views(locale_env@) =~= locale_env_of(locale@));
    ProxyValues { gps, hostname, machine_id, timezone, locale_env }
}

} // verus!
