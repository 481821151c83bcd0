//! What a launch runs besides `bwrap` itself: the run directory, the command
//! line that enters a network namespace, and the script of an interactive
//! session (its VPN and Tor set-up and its banner).
use crate::netns::Netns;
use crate::protocol::Profile;
use crate::runner::{push_owned, push_str};
use crate::text::{
    chars_of, concat2, concat3, contains_exec, contains_sub, decimal, lemma_views_push, pad_right,
    lines_text, lowercase, pad_right_string, to_lowercase, u32_to_string, views, with_newlines,
};
use vstd::prelude::*;

verus! {

// ───────────────────────────── run directory and command line ─────────────────────────────

/// The run directory of the sandbox launched by process `pid`.
pub open spec fn run_dir(pid: nat) -> Seq<char> {
    "/tmp/mirage-"@ + decimal(pid)
}

/// The run directory of the sandbox launched by process `pid`, so that
/// concurrent launches do not share files.
pub fn sandbox_tmp_dir(pid: u32) -> (r: String)
    ensures
        r@ == run_dir(pid as nat),
{
    let n = u32_to_string(pid);
    concat2("/tmp/mirage-", n.as_str())
}

/// The account a launch in a network namespace drops back to: `$USER`, or
/// `nobody` when it is not set.
pub open spec fn launch_user(user_env: Option<Seq<char>>) -> Seq<char> {
    match user_env {
        Some(u) => u,
        None => "nobody"@,
    }
}

/// The full command line of a launch: `bwrap` with its arguments, or, in a
/// network namespace, the same run through `sudo ip netns exec` and back to
/// the user's account with `sudo -E -u`.
pub open spec fn launch_line(ns: Option<Netns>, user: Seq<char>, argv: Seq<Seq<char>>) -> Seq<Seq<char>> {
    match ns {
        None => seq!["bwrap"@] + argv,
        Some(n) => seq!["sudo"@] + n.exec_args(seq!["sudo"@, "-E"@, "-u"@, user, "bwrap"@] + argv),
    }
}

fn push_all(v: &mut Vec<String>, items: &Vec<String>)
    ensures
        views(final(v)@) == views(old(v)@) + views(items@),
{
    let ghost pre = views(v@);
    let mut i: usize = 0;
    while i < items.len()
        invariant
            i <= items.len(),
            views(v@) == pre + views(items@).take(i as int),
        decreases items.len() - i,
    {
        let ghost before = v@;
        v.push(items[i].clone());
        proof {
            lemma_views_push(before, items@[i as int]);
            assert(views(items@).take(i + 1) =~= views(items@).take(i as int).push(items@[i as int]@));
        }
        i = i + 1;
    }
    assert(views(items@).take(items.len() as int) =~= views(items@));
}

/// The command line (program first) that launches `bwrap` with `argv`,
/// inside `netns` when there is one.
pub fn launch_command(netns: Option<&Netns>, user_env: Option<&str>, argv: &Vec<String>) -> (r: Vec<String>)
    ensures
        views(r@) == launch_line(
            match netns {
                Some(n) => Some(*n),
                None => None,
            },
            launch_user(
                match user_env {
                    Some(u) => Some(u@),
                    None => None,
                },
            ),
            views(argv@),
        ),
{
    let mut r: Vec<String> = Vec::new();
    match netns {
        None => {
            push_str(&mut r, "bwrap");
            push_all(&mut r, argv);
            assert(views(r@) =~= seq!["bwrap"@] + views(argv@));
        },
        Some(n) => {
            let user = match user_env {
                Some(u) => u,
                None => "nobody",
            };
            push_str(&mut r, "sudo");
            push_str(&mut r, "ip");
            push_str(&mut r, "netns");
            push_str(&mut r, "exec");
            push_str(&mut r, n.name.as_str());
            push_str(&mut r, "sudo");
            push_str(&mut r, "-E");
            push_str(&mut r, "-u");
            push_str(&mut r, user);
            push_str(&mut r, "bwrap");
            push_all(&mut r, argv);
            assert(views(r@) =~= seq!["sudo"@] + n.exec_args(
                seq!["sudo"@, "-E"@, "-u"@, user@, "bwrap"@] + views(argv@),
            ));
        },
    }
    r
}

// ───────────────────────────── session script ─────────────────────────────

/// The OpenVPN configuration a profile may come with.
pub open spec fn ovpn_path(name: Seq<char>) -> Seq<char> {
    "ovpn/"@ + name + ".ovpn"@
}

/// The OpenVPN configuration a profile may come with, relative to the
/// working directory.
pub fn ovpn_config_path(profile_name: &str) -> (r: String)
    ensures
        r@ == ovpn_path(profile_name@),
{
    concat3("ovpn/", profile_name, ".ovpn")
}

/// The Tor exit region named by a lowercased profile name, if any.  The
/// names are tried in this order, and a match may sit inside a longer word.
pub open spec fn tor_region(lower: Seq<char>) -> Option<Seq<char>> {
    if contains_sub(lower, "london"@) || contains_sub(lower, "uk"@) {
        Some("uk"@)
    } else if contains_sub(lower, "tokyo"@) || contains_sub(lower, "jp"@) || contains_sub(lower, "japan"@) {
        Some("jp"@)
    } else if contains_sub(lower, "us"@) || contains_sub(lower, "america"@) {
        Some("us"@)
    } else if contains_sub(lower, "ca"@) || contains_sub(lower, "canada"@) {
        Some("ca"@)
    } else {
        None
    }
}

fn has(v: &Vec<char>, t: &str) -> (r: bool)
    ensures
        r == contains_sub(v@, t@),
{
    let tv = chars_of(t);
    contains_exec(v, &tv)
}

/// The Tor exit region for a profile name that is already lowercased.
pub fn tor_country_of_lowercase(lower: &str) -> (r: Option<String>)
    ensures
        match r {
            Some(c) => tor_region(lower@) == Some(c@),
            None => tor_region(lower@) is None,
        },
{
    let v = chars_of(lower);
    if has(&v, "london") || has(&v, "uk") {
        Some(String::from_str("uk"))
    } else if has(&v, "tokyo") || has(&v, "jp") || has(&v, "japan") {
        Some(String::from_str("jp"))
    } else if has(&v, "us") || has(&v, "america") {
        Some(String::from_str("us"))
    } else if has(&v, "ca") || has(&v, "canada") {
        Some(String::from_str("ca"))
    } else {
        None
    }
}

/// The Tor exit region for a profile, judged on its lowercased name.
pub fn tor_country(profile_name: &str) -> (r: Option<String>)
    ensures
        match r {
            Some(c) => tor_region(lowercase(profile_name@)) == Some(c@),
            None => tor_region(lowercase(profile_name@)) is None,
        },
{
    let lower = to_lowercase(profile_name);
    tor_country_of_lowercase(lower.as_str())
}

/// The opening of every session script: the profile's name in the
/// environment, and the host's D-Bus addresses forgotten.
pub open spec fn preamble_lines(name: Seq<char>) -> Seq<Seq<char>> {
    seq![
        "export MIRAGE_PROFILE=\""@ + name + "\""@,
        "unset DBUS_SESSION_BUS_ADDRESS"@,
        "unset DBUS_SYSTEM_BUS_ADDRESS"@,
    ]
}

/// Starts OpenVPN on the configuration at `path` when it is installed.
pub open spec fn ovpn_lines(path: Seq<char>) -> Seq<Seq<char>> {
    seq![
        "if command -v openvpn >/dev/null 2>&1; then"@,
        "  echo \"[mirage] Found "@ + path + "! Starting OpenVPN in background...\""@,
        "  sudo openvpn --config "@ + path + " --daemon"@,
        "else"@,
        "  echo \"[mirage] Warning: "@ + path + " found but 'openvpn' is not installed.\""@,
        "fi"@,
    ]
}

/// Starts a Tor daemon whose exits are held to region `c`, when Tor is
/// installed.
pub open spec fn tor_lines(c: Seq<char>) -> Seq<Seq<char>> {
    seq![
        "if command -v tor >/dev/null 2>&1; then"@,
        "  echo \"[mirage] Starting isolated Tor proxy for region: {"@ + c + "} (Port 9050)...\""@,
        "  mkdir -p /tmp/tor_data && chmod 700 /tmp/tor_data"@,
        "  echo 'ExitNodes {"@ + c + "}' > /tmp/torrc"@,
        "  echo 'StrictNodes 1' >> /tmp/torrc"@,
        "  echo 'DataDirectory /tmp/tor_data' >> /tmp/torrc"@,
        "  echo 'PidFile /tmp/tor.pid' >> /tmp/torrc"@,
        "  echo 'Log notice file /tmp/tor.log' >> /tmp/torrc"@,
        "  tor -f /tmp/torrc --RunAsDaemon 1"@,
        "else"@,
        "  echo \"[mirage] 'tor' is not installed. Run 'sudo apt install tor' on your host to use Auto-Tor.\""@,
        "fi"@,
    ]
}

/// The banner of a tmux session and the tmux server that replaces the shell.
pub open spec fn tmux_lines(name: Seq<char>) -> Seq<Seq<char>> {
    seq![
        "if ! command -v tmux >/dev/null 2>&1; then"@,
        "  echo \"[mirage] Error: tmux not found in the sandbox. Install tmux or omit --tmux.\""@,
        "  exit 1"@,
        "fi"@,
        "cat << 'EOF'"@,
        "    ╔══════════════════════════════════════════════════════╗"@,
        "    ║  MIRAGE SESSION (tmux): "@ + pad_right(name, 27) + " ║"@,
        "    ║  New tmux panes inherit the sandbox (they are        ║"@,
        "    ║  real children of this tmux server).                 ║"@,
        "    ║                                                      ║"@,
        "    ║  SHARP EDGE: terminal emulator 'New Tab' / 'New      ║"@,
        "    ║  Window' buttons spawn outside the sandbox — they    ║"@,
        "    ║  ask the GUI app (not this shell) to fork a new      ║"@,
        "    ║  process, which is NOT in the namespace.             ║"@,
        "    ║  Always use tmux panes (Ctrl-B %) inside this        ║"@,
        "    ║  session, or a new `mirage shell` invocation.        ║"@,
        "    ╚══════════════════════════════════════════════════════╝"@,
        "EOF"@,
        "exec tmux new-session -s \"mirage-"@ + name + "\""@,
    ]
}

/// The banner of a plain session and the shell that replaces the script.
pub open spec fn plain_lines(name: Seq<char>) -> Seq<Seq<char>> {
    seq![
        "cat << 'EOF'"@,
        "    ╔══════════════════════════════════════════════════════╗"@,
        "    ║  MIRAGE SESSION: "@ + pad_right(name, 34) + " ║"@,
        "    ║  All child processes inherit this profile.           ║"@,
        "    ║  WARNING: terminal 'New Tab' opens outside sandbox.  ║"@,
        "    ║  Use tmux panes or a new `mirage shell` invocation.  ║"@,
        "    ║  Type 'exit' or Ctrl-D to leave the session.         ║"@,
        "    ╚══════════════════════════════════════════════════════╝"@,
        "EOF"@,
        "exec bash"@,
    ]
}

/// The lines of the script an interactive session runs: the preamble, the
/// OpenVPN block when the profile has a configuration, the Tor block when
/// its name names a region, and the tmux or plain banner.
pub open spec fn session_lines(name: Seq<char>, ovpn: bool, country: Option<Seq<char>>, tmux: bool) -> Seq<Seq<char>> {
    preamble_lines(name) + (if ovpn {
        ovpn_lines(ovpn_path(name))
    } else {
        seq![]
    }) + (match country {
        Some(c) => tor_lines(c),
        None => seq![],
    }) + (if tmux {
        tmux_lines(name)
    } else {
        plain_lines(name)
    })
}

fn push_preamble(v: &mut Vec<String>, name: &str)
    ensures
        views(final(v)@) == views(old(v)@) + preamble_lines(name@),
{
    let ghost pre = views(v@);
    push_owned(v, concat3("export MIRAGE_PROFILE=\"", name, "\""));
    push_str(v, "unset DBUS_SESSION_BUS_ADDRESS");
    push_str(v, "unset DBUS_SYSTEM_BUS_ADDRESS");
    assert(views(v@) =~= pre + preamble_lines(name@));
}

fn push_ovpn(v: &mut Vec<String>, path: &str)
    ensures
        views(final(v)@) == views(old(v)@) + ovpn_lines(path@),
{
    let ghost pre = views(v@);
    push_str(v, "if command -v openvpn >/dev/null 2>&1; then");
    push_owned(v, concat3("  echo \"[mirage] Found ", path, "! Starting OpenVPN in background...\""));
    push_owned(v, concat3("  sudo openvpn --config ", path, " --daemon"));
    push_str(v, "else");
    push_owned(v, concat3("  echo \"[mirage] Warning: ", path, " found but 'openvpn' is not installed.\""));
    push_str(v, "fi");
    assert(views(v@) =~= pre + ovpn_lines(path@));
}

fn push_tor(v: &mut Vec<String>, c: &str)
    ensures
        views(final(v)@) == views(old(v)@) + tor_lines(c@),
{
    let ghost pre = views(v@);
    push_str(v, "if command -v tor >/dev/null 2>&1; then");
    push_owned(v, concat3("  echo \"[mirage] Starting isolated Tor proxy for region: {", c, "} (Port 9050)...\""));
    push_str(v, "  mkdir -p /tmp/tor_data && chmod 700 /tmp/tor_data");
    push_owned(v, concat3("  echo 'ExitNodes {", c, "}' > /tmp/torrc"));
    push_str(v, "  echo 'StrictNodes 1' >> /tmp/torrc");
    push_str(v, "  echo 'DataDirectory /tmp/tor_data' >> /tmp/torrc");
    push_str(v, "  echo 'PidFile /tmp/tor.pid' >> /tmp/torrc");
    push_str(v, "  echo 'Log notice file /tmp/tor.log' >> /tmp/torrc");
    push_str(v, "  tor -f /tmp/torrc --RunAsDaemon 1");
    push_str(v, "else");
    push_str(v, "  echo \"[mirage] 'tor' is not installed. Run 'sudo apt install tor' on your host to use Auto-Tor.\"");
    push_str(v, "fi");
    assert(views(v@) =~= pre + tor_lines(c@));
}

fn push_tmux(v: &mut Vec<String>, name: &str)
    ensures
        views(final(v)@) == views(old(v)@) + tmux_lines(name@),
{
    let ghost pre = views(v@);
    let padded = pad_right_string(name, 27);
    push_str(v, "if ! command -v tmux >/dev/null 2>&1; then");
    push_str(v, "  echo \"[mirage] Error: tmux not found in the sandbox. Install tmux or omit --tmux.\"");
    push_str(v, "  exit 1");
    push_str(v, "fi");
    push_str(v, "cat << 'EOF'");
    push_str(v, "    ╔══════════════════════════════════════════════════════╗");
    push_owned(v, concat3("    ║  MIRAGE SESSION (tmux): ", padded.as_str(), " ║"));
    push_str(v, "    ║  New tmux panes inherit the sandbox (they are        ║");
    push_str(v, "    ║  real children of this tmux server).                 ║");
    push_str(v, "    ║                                                      ║");
    push_str(v, "    ║  SHARP EDGE: terminal emulator 'New Tab' / 'New      ║");
    push_str(v, "    ║  Window' buttons spawn outside the sandbox — they    ║");
    push_str(v, "    ║  ask the GUI app (not this shell) to fork a new      ║");
    push_str(v, "    ║  process, which is NOT in the namespace.             ║");
    push_str(v, "    ║  Always use tmux panes (Ctrl-B %) inside this        ║");
    push_str(v, "    ║  session, or a new `mirage shell` invocation.        ║");
    push_str(v, "    ╚══════════════════════════════════════════════════════╝");
    push_str(v, "EOF");
    push_owned(v, concat3("exec tmux new-session -s \"mirage-", name, "\""));
    assert(views(v@) =~= pre + tmux_lines(name@));
}

fn push_plain(v: &mut Vec<String>, name: &str)
    ensures
        views(final(v)@) == views(old(v)@) + plain_lines(name@),
{
    let ghost pre = views(v@);
    let padded = pad_right_string(name, 34);
    push_str(v, "cat << 'EOF'");
    push_str(v, "    ╔══════════════════════════════════════════════════════╗");
    push_owned(v, concat3("    ║  MIRAGE SESSION: ", padded.as_str(), " ║"));
    push_str(v, "    ║  All child processes inherit this profile.           ║");
    push_str(v, "    ║  WARNING: terminal 'New Tab' opens outside sandbox.  ║");
    push_str(v, "    ║  Use tmux panes or a new `mirage shell` invocation.  ║");
    push_str(v, "    ║  Type 'exit' or Ctrl-D to leave the session.         ║");
    push_str(v, "    ╚══════════════════════════════════════════════════════╝");
    push_str(v, "EOF");
    push_str(v, "exec bash");
    assert(views(v@) =~= pre + plain_lines(name@));
}

/// The script of an interactive session for the profile named `name`:
/// `ovpn_exists` tells whether its OpenVPN configuration exists, `country`
/// is its Tor exit region, and `use_tmux` picks a tmux session over a plain
/// shell.
pub fn session_script_with(name: &str, ovpn_exists: bool, country: Option<&str>, use_tmux: bool) -> (r: String)
    ensures
        r@ == with_newlines(
            session_lines(
                name@,
                ovpn_exists,
                match country {
                    Some(c) => Some(c@),
                    None => None,
                },
                use_tmux,
            ),
        ),
{
    let mut v: Vec<String> = Vec::new();
    push_preamble(&mut v, name);
    if ovpn_exists {
        let path = ovpn_config_path(name);
        push_ovpn(&mut v, path.as_str());
    }
    match country {
        Some(c) => push_tor(&mut v, c),
        None => {},
    }
    if use_tmux {
        push_tmux(&mut v, name);
    } else {
        push_plain(&mut v, name);
    }
    assert(views(v@) =~= session_lines(
        name@,
        ovpn_exists,
        match country {
            Some(c) => Some(c@),
            None => None,
        },
        use_tmux,
    ));
    lines_text(&v)
}

/// The script of an interactive session for `profile`; the Tor region is
/// judged on the lowercased profile name.
pub fn session_script(profile: &Profile, ovpn_exists: bool, use_tmux: bool) -> (r: String)
    ensures
        r@ == with_newlines(session_lines(profile.name@, ovpn_exists, tor_region(lowercase(profile.name@)), use_tmux)),
{
    let country = tor_country(profile.name.as_str());
    match country {
        Some(c) => session_script_with(profile.name.as_str(), ovpn_exists, Some(c.as_str()), use_tmux),
        None => session_script_with(profile.name.as_str(), ovpn_exists, None, use_tmux),
    }
}

/// The Tor exit region follows the place a lowercased profile name names,
/// the United Kingdom first, then Japan, the United States and Canada: a
/// name with `london` or `uk` exits in the UK; otherwise one with `tokyo`,
/// `jp` or `japan` in Japan; otherwise one with `america` or `us` in the
/// US; otherwise one with `canada` or `ca` in Canada; and a name with none
/// of these gets no pinned region.
pub proof fn lemma_tor_region_follows_the_name(lower: Seq<char>)
    ensures
        contains_sub(lower, "london"@) || contains_sub(lower, "uk"@) ==> tor_region(lower) == Some("uk"@),
        !(contains_sub(lower, "london"@) || contains_sub(lower, "uk"@)) && (contains_sub(lower, "tokyo"@)
            || contains_sub(lower, "jp"@) || contains_sub(lower, "japan"@)) ==> tor_region(lower) == Some(
            "jp"@,
        ),
        !(contains_sub(lower, "london"@) || contains_sub(lower, "uk"@)) && !(contains_sub(lower, "tokyo"@)
            || contains_sub(lower, "jp"@) || contains_sub(lower, "japan"@)) && (contains_sub(
            lower,
            "america"@,
        ) || contains_sub(lower, "us"@)) ==> tor_region(lower) == Some("us"@),
        !(contains_sub(lower, "london"@) || contains_sub(lower, "uk"@)) && !(contains_sub(lower, "tokyo"@)
            || contains_sub(lower, "jp"@) || contains_sub(lower, "japan"@)) && !(contains_sub(
            lower,
            "america"@,
        ) || contains_sub(lower, "us"@)) && (contains_sub(lower, "canada"@) || contains_sub(lower, "ca"@))
            ==> tor_region(lower) == Some("ca"@),
        !(contains_sub(lower, "london"@) || contains_sub(lower, "uk"@) || contains_sub(lower, "tokyo"@)
            || contains_sub(lower, "jp"@) || contains_sub(lower, "japan"@) || contains_sub(lower, "america"@)
            || contains_sub(lower, "us"@) || contains_sub(lower, "canada"@) || contains_sub(lower, "ca"@))
            ==> tor_region(lower) is None,
{
}

} // verus!
