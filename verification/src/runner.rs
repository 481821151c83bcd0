//! The launch plan of a sandbox: the `bwrap` argument list that projects a
//! profile's identity, given what the host offers.
use crate::protocol::Profile;
use crate::rng::{is_index_perm, permutes, shuffle};
use crate::sandbox::{path_join, path_join_exec, SandboxHandle};
use crate::text::{concat2, lemma_views_push, views};
use rand::rngs::StdRng;
use vstd::prelude::*;

verus! {

/// What the host offers, as observed just before launch.
pub struct HostFacts {
    /// `machine-id` was staged in the run's directory.
    pub machine_id_staged: bool,
    /// `hostname` was staged.
    pub hostname_staged: bool,
    /// `timezone` was staged.
    pub timezone_staged: bool,
    /// `resolv.conf` was staged.
    pub resolv_conf_staged: bool,
    /// `cpuinfo` was staged.
    pub cpuinfo_staged: bool,
    /// `passwd` was staged.
    pub passwd_staged: bool,
    /// `mac_address` was staged.
    pub mac_address_staged: bool,
    /// The fake D-Bus daemon's `system_bus_socket` exists.
    pub dbus_socket_staged: bool,
    /// `/etc/timezone` exists on the host.
    pub etc_timezone_exists: bool,
    /// `/usr/share/zoneinfo/<profile timezone>` exists on the host.
    pub zoneinfo_exists: bool,
    /// `/usr/lib/locale` exists on the host.
    pub usr_lib_locale_exists: bool,
    /// `$HOME`.
    pub home: Option<String>,
    /// `$HOME/.Xauthority` exists.
    pub xauthority_exists: bool,
    /// `$USER`.
    pub user: Option<String>,
    /// `/tmp/.X11-unix` exists.
    pub x11_unix_exists: bool,
    /// `$DISPLAY`.
    pub display: Option<String>,
    /// `$XDG_RUNTIME_DIR`.
    pub xdg_runtime_dir: Option<String>,
    /// `$WAYLAND_DISPLAY`.
    pub wayland_display: Option<String>,
}

// ───────────────────────────── argument groups ─────────────────────────────

pub open spec fn groups_view(v: Seq<Vec<String>>) -> Seq<Seq<Seq<char>>> {
    v.map_values(|g: Vec<String>| views(g@))
}

pub open spec fn flatten(gs: Seq<Seq<Seq<char>>>) -> Seq<Seq<char>>
    decreases gs.len(),
{
    if gs.len() == 0 {
        seq![]
    } else {
        flatten(gs.drop_last()) + gs.last()
    }
}

pub open spec fn opt_group(c: bool, g: Seq<Seq<char>>) -> Seq<Seq<Seq<char>>> {
    if c {
        seq![g]
    } else {
        seq![]
    }
}

pub open spec fn bind(src: Seq<char>, dst: Seq<char>) -> Seq<Seq<char>> {
    seq!["--bind"@, src, dst]
}

pub open spec fn setenv(key: Seq<char>, value: Seq<char>) -> Seq<Seq<char>> {
    seq!["--setenv"@, key, value]
}

pub open spec fn timezone_groups(p: Profile, f: HostFacts) -> Seq<Seq<Seq<char>>> {
    match p.timezone {
        Some(tz) => opt_group(f.zoneinfo_exists, bind("/usr/share/zoneinfo/"@ + tz@, "/etc/localtime"@))
            + seq![setenv("TZ"@, tz@)],
        None => seq![],
    }
}

pub open spec fn dbus_groups(tmp: Seq<char>, f: HostFacts) -> Seq<Seq<Seq<char>>> {
    let sock = path_join(tmp, "system_bus_socket"@);
    if f.dbus_socket_staged {
        seq![
            bind(sock, "/run/dbus/system_bus_socket"@),
            setenv("DBUS_SESSION_BUS_ADDRESS"@, "unix:path="@ + sock),
            setenv("DBUS_SYSTEM_BUS_ADDRESS"@, "unix:path="@ + sock),
        ]
    } else {
        seq![]
    }
}

pub open spec fn staged_id_groups(tmp: Seq<char>, f: HostFacts) -> Seq<Seq<Seq<char>>> {
    opt_group(f.machine_id_staged, bind(path_join(tmp, "machine-id"@), "/etc/machine-id"@))
        + opt_group(f.hostname_staged, bind(path_join(tmp, "hostname"@), "/etc/hostname"@))
        + opt_group(
        f.timezone_staged && f.etc_timezone_exists,
        bind(path_join(tmp, "timezone"@), "/etc/timezone"@),
    )
}

pub open spec fn staged_sys_groups(tmp: Seq<char>, p: Profile, f: HostFacts) -> Seq<Seq<Seq<char>>> {
    opt_group(f.resolv_conf_staged, bind(path_join(tmp, "resolv.conf"@), "/etc/resolv.conf"@))
        + opt_group(f.cpuinfo_staged, bind(path_join(tmp, "cpuinfo"@), "/proc/cpuinfo"@))
        + opt_group(f.passwd_staged, bind(path_join(tmp, "passwd"@), "/etc/passwd"@))
        + opt_group(
        f.mac_address_staged && !p.isolates_network(),
        bind(path_join(tmp, "mac_address"@), "/sys/class/net/eth0/address"@),
    ) + opt_group(
        f.mac_address_staged && !p.isolates_network(),
        bind(path_join(tmp, "mac_address"@), "/sys/class/net/wlan0/address"@),
    )
}

/// Bind mounts of the staged identity files.
pub open spec fn file_groups(tmp: Seq<char>, p: Profile, f: HostFacts) -> Seq<Seq<Seq<char>>> {
    staged_id_groups(tmp, f) + timezone_groups(p, f) + staged_sys_groups(tmp, p, f) + dbus_groups(
        tmp,
        f,
    )
}

pub open spec fn home_groups(p: Profile, f: HostFacts) -> Seq<Seq<Seq<char>>> {
    match f.home {
        Some(h) => match p.username {
            Some(u) => {
                let fake = "/home/"@ + u@;
                seq![seq!["--dir"@, fake], bind(h@, fake), setenv("HOME"@, fake)] + opt_group(
                    f.xauthority_exists,
                    bind(h@ + "/.Xauthority"@, fake + "/.Xauthority"@),
                )
            },
            None => seq![seq!["--dir"@, h@], bind(h@, h@), setenv("HOME"@, h@)] + opt_group(
                f.xauthority_exists,
                bind(h@ + "/.Xauthority"@, h@ + "/.Xauthority"@),
            ),
        },
        None => seq![],
    }
}

pub open spec fn user_groups(p: Profile, f: HostFacts) -> Seq<Seq<Seq<char>>> {
    match p.username {
        Some(u) => seq![setenv("USER"@, u@)],
        None => match f.user {
            Some(u) => seq![setenv("USER"@, u@)],
            None => seq![],
        },
    }
}

pub open spec fn opt_env(key: Seq<char>, v: Option<String>) -> Seq<Seq<Seq<char>>> {
    match v {
        Some(x) => seq![setenv(key, x@)],
        None => seq![],
    }
}

pub open spec fn locale_groups(p: Profile, f: HostFacts) -> Seq<Seq<Seq<char>>> {
    opt_group(f.usr_lib_locale_exists, bind("/usr/lib/locale"@, "/usr/lib/locale"@)) + (match p.locale {
        Some(l) => seq![setenv("LANG"@, l@), setenv("LC_ALL"@, l@)],
        None => seq![],
    })
}

pub open spec fn display_groups(f: HostFacts) -> Seq<Seq<Seq<char>>> {
    opt_group(f.x11_unix_exists, bind("/tmp/.X11-unix"@, "/tmp/.X11-unix"@)) + opt_env(
        "DISPLAY"@,
        f.display,
    ) + (match f.xdg_runtime_dir {
        Some(x) => seq![bind(x@, x@), setenv("XDG_RUNTIME_DIR"@, x@)],
        None => seq![],
    }) + opt_env("WAYLAND_DISPLAY"@, f.wayland_display) + seq![
        setenv("LIBGL_ALWAYS_SOFTWARE"@, "1"@),
    ]
}

/// Environment of the sandboxed session.
pub open spec fn env_groups(p: Profile, f: HostFacts) -> Seq<Seq<Seq<char>>> {
    locale_groups(p, f) + home_groups(p, f) + user_groups(p, f) + display_groups(f)
}

/// The argument groups whose order is randomised at each launch.
pub open spec fn dynamic_groups(tmp: Seq<char>, p: Profile, f: HostFacts) -> Seq<Seq<Seq<char>>> {
    file_groups(tmp, p, f) + env_groups(p, f)
}

/// The fixed head of the argument list: filesystem skeleton and namespaces.
pub open spec fn bwrap_prefix(p: Profile) -> Seq<Seq<char>> {
    seq![
        "--bind"@,
        "/"@,
        "/"@,
        "--dev-bind"@,
        "/dev"@,
        "/dev"@,
        "--proc"@,
        "/proc"@,
        "--tmpfs"@,
        "/tmp"@,
        "--tmpfs"@,
        "/home"@,
        "--unshare-uts"@,
    ] + (match p.hostname {
        Some(h) => seq!["--hostname"@, h@],
        None => seq![],
    }) + (if !p.isolates_network() {
        seq!["--unshare-net"@]
    } else {
        seq![]
    }) + seq!["--tmpfs"@, "/tmp"@]
}

// ───────────────────────────── exec helpers ─────────────────────────────

pub(crate) fn push_str(v: &mut Vec<String>, s: &str)
    ensures
        views(final(v)@) == views(old(v)@).push(s@),
{
    let x = String::from_str(s);
    proof {
        lemma_views_push(v@, x);
    }
    v.push(x);
}

pub(crate) fn push_owned(v: &mut Vec<String>, s: String)
    ensures
        views(final(v)@) == views(old(v)@).push(s@),
{
    proof {
        lemma_views_push(v@, s);
    }
    v.push(s);
}

fn group2(a: &str, b: &str) -> (g: Vec<String>)
    ensures
        views(g@) == seq![a@, b@],
{
    let mut g = Vec::new();
    push_str(&mut g, a);
    push_str(&mut g, b);
    assert(views(g@) =~= seq![a@, b@]);
    g
}

fn group3(a: &str, b: &str, c: &str) -> (g: Vec<String>)
    ensures
        views(g@) == seq![a@, b@, c@],
{
    let mut g = Vec::new();
    push_str(&mut g, a);
    push_str(&mut g, b);
    push_str(&mut g, c);
    assert(views(g@) =~= seq![a@, b@, c@]);
    g
}

pub(crate) fn push_group(v: &mut Vec<Vec<String>>, g: Vec<String>)
    ensures
        groups_view(final(v)@) == groups_view(old(v)@) + seq![views(g@)],
{
    let ghost before = v@;
    v.push(g);
    assert(groups_view(v@) =~= groups_view(before) + seq![views(g@)]);
}

fn push_group_if(v: &mut Vec<Vec<String>>, c: bool, g: Vec<String>)
    ensures
        groups_view(final(v)@) == groups_view(old(v)@) + opt_group(c, views(g@)),
{
    if c {
        push_group(v, g);
    } else {
        assert(groups_view(v@) =~= groups_view(v@) + opt_group(c, views(g@)));
    }
}

fn push_staged_id_groups(v: &mut Vec<Vec<String>>, tmp: &str, f: &HostFacts)
    ensures
        groups_view(final(v)@) == groups_view(old(v)@) + staged_id_groups(tmp@, *f),
{
    let ghost start = groups_view(v@);
    let path = path_join_exec(tmp, "machine-id");
    push_group_if(v, f.machine_id_staged, group3("--bind", path.as_str(), "/etc/machine-id"));
    let path = path_join_exec(tmp, "hostname");
    push_group_if(v, f.hostname_staged, group3("--bind", path.as_str(), "/etc/hostname"));
    let path = path_join_exec(tmp, "timezone");
    push_group_if(
        v,
        f.timezone_staged && f.etc_timezone_exists,
        group3("--bind", path.as_str(), "/etc/timezone"),
    );
    assert(groups_view(v@) =~= start + staged_id_groups(tmp@, *f));
}

fn push_timezone_groups(v: &mut Vec<Vec<String>>, p: &Profile, f: &HostFacts)
    ensures
        groups_view(final(v)@) == groups_view(old(v)@) + timezone_groups(*p, *f),
{
    let ghost start = groups_view(v@);
    match &p.timezone {
        Some(tz) => {
            let src = concat2("/usr/share/zoneinfo/", tz.as_str());
            push_group_if(v, f.zoneinfo_exists, group3("--bind", src.as_str(), "/etc/localtime"));
            push_group(v, group3("--setenv", "TZ", tz.as_str()));
        },
        None => {},
    }
    assert(groups_view(v@) =~= start + timezone_groups(*p, *f));
}

fn push_staged_sys_groups(v: &mut Vec<Vec<String>>, tmp: &str, p: &Profile, f: &HostFacts)
    ensures
        groups_view(final(v)@) == groups_view(old(v)@) + staged_sys_groups(tmp@, *p, *f),
{
    let ghost start = groups_view(v@);
    let isolate = p.isolate_network_flag();
    let path = path_join_exec(tmp, "resolv.conf");
    push_group_if(v, f.resolv_conf_staged, group3("--bind", path.as_str(), "/etc/resolv.conf"));
    let path = path_join_exec(tmp, "cpuinfo");
    push_group_if(v, f.cpuinfo_staged, group3("--bind", path.as_str(), "/proc/cpuinfo"));
    let path = path_join_exec(tmp, "passwd");
    push_group_if(v, f.passwd_staged, group3("--bind", path.as_str(), "/etc/passwd"));
    let path = path_join_exec(tmp, "mac_address");
    push_group_if(
        v,
        f.mac_address_staged && !isolate,
        group3("--bind", path.as_str(), "/sys/class/net/eth0/address"),
    );
    push_group_if(
        v,
        f.mac_address_staged && !isolate,
        group3("--bind", path.as_str(), "/sys/class/net/wlan0/address"),
    );
    assert(groups_view(v@) =~= start + staged_sys_groups(tmp@, *p, *f));
}

fn push_dbus_groups(v: &mut Vec<Vec<String>>, tmp: &str, f: &HostFacts)
    ensures
        groups_view(final(v)@) == groups_view(old(v)@) + dbus_groups(tmp@, *f),
{
    let ghost start = groups_view(v@);
    if f.dbus_socket_staged {
        let sock = path_join_exec(tmp, "system_bus_socket");
        let addr = concat2("unix:path=", sock.as_str());
        push_group(v, group3("--bind", sock.as_str(), "/run/dbus/system_bus_socket"));
        push_group(v, group3("--setenv", "DBUS_SESSION_BUS_ADDRESS", addr.as_str()));
        push_group(v, group3("--setenv", "DBUS_SYSTEM_BUS_ADDRESS", addr.as_str()));
    }
    assert(groups_view(v@) =~= start + dbus_groups(tmp@, *f));
}

fn push_file_groups(v: &mut Vec<Vec<String>>, tmp: &str, p: &Profile, f: &HostFacts)
    ensures
        groups_view(final(v)@) == groups_view(old(v)@) + file_groups(tmp@, *p, *f),
{
    let ghost g0 = groups_view(v@);
    push_staged_id_groups(v, tmp, f);
    push_timezone_groups(v, p, f);
    push_staged_sys_groups(v, tmp, p, f);
    push_dbus_groups(v, tmp, f);
    proof {
        lemma_concat4(
            g0,
            staged_id_groups(tmp@, *f),
            timezone_groups(*p, *f),
            staged_sys_groups(tmp@, *p, *f),
            dbus_groups(tmp@, *f),
        );
    }
}

fn push_home_groups(v: &mut Vec<Vec<String>>, p: &Profile, f: &HostFacts)
    ensures
        groups_view(final(v)@) == groups_view(old(v)@) + home_groups(*p, *f),
{
    let ghost start = groups_view(v@);
    match &f.home {
        Some(h) => {
            let xauth = concat2(h.as_str(), "/.Xauthority");
            match &p.username {
                Some(u) => {
                    let fake = concat2("/home/", u.as_str());
                    let fake_xauth = concat2(fake.as_str(), "/.Xauthority");
                    push_group(v, group2("--dir", fake.as_str()));
                    push_group(v, group3("--bind", h.as_str(), fake.as_str()));
                    push_group(v, group3("--setenv", "HOME", fake.as_str()));
                    push_group_if(
                        v,
                        f.xauthority_exists,
                        group3("--bind", xauth.as_str(), fake_xauth.as_str()),
                    );
                },
                None => {
                    push_group(v, group2("--dir", h.as_str()));
                    push_group(v, group3("--bind", h.as_str(), h.as_str()));
                    push_group(v, group3("--setenv", "HOME", h.as_str()));
                    push_group_if(
                        v,
                        f.xauthority_exists,
                        group3("--bind", xauth.as_str(), xauth.as_str()),
                    );
                },
            }
        },
        None => {},
    }
    assert(groups_view(v@) =~= start + home_groups(*p, *f));
}

fn push_locale_groups(v: &mut Vec<Vec<String>>, p: &Profile, f: &HostFacts)
    ensures
        groups_view(final(v)@) == groups_view(old(v)@) + locale_groups(*p, *f),
{
    let ghost start = groups_view(v@);
    push_group_if(
        v,
        f.usr_lib_locale_exists,
        group3("--bind", "/usr/lib/locale", "/usr/lib/locale"),
    );
    match &p.locale {
        Some(l) => {
            push_group(v, group3("--setenv", "LANG", l.as_str()));
            push_group(v, group3("--setenv", "LC_ALL", l.as_str()));
        },
        None => {},
    }
    assert(groups_view(v@) =~= start + locale_groups(*p, *f));
}

fn push_user_groups(v: &mut Vec<Vec<String>>, p: &Profile, f: &HostFacts)
    ensures
        groups_view(final(v)@) == groups_view(old(v)@) + user_groups(*p, *f),
{
    let ghost start = groups_view(v@);
    match &p.username {
        Some(u) => push_group(v, group3("--setenv", "USER", u.as_str())),
        None => match &f.user {
            Some(u) => push_group(v, group3("--setenv", "USER", u.as_str())),
            None => {},
        },
    }
    assert(groups_view(v@) =~= start + user_groups(*p, *f));
}

fn push_display_groups(v: &mut Vec<Vec<String>>, f: &HostFacts)
    ensures
        groups_view(final(v)@) == groups_view(old(v)@) + display_groups(*f),
{
    let ghost start = groups_view(v@);
    push_group_if(v, f.x11_unix_exists, group3("--bind", "/tmp/.X11-unix", "/tmp/.X11-unix"));
    let ghost m5 = groups_view(v@);
    match &f.display {
        Some(d) => push_group(v, group3("--setenv", "DISPLAY", d.as_str())),
        None => {},
    }
    let ghost m6 = groups_view(v@);
    match &f.xdg_runtime_dir {
        Some(x) => {
            push_group(v, group3("--bind", x.as_str(), x.as_str()));
            push_group(v, group3("--setenv", "XDG_RUNTIME_DIR", x.as_str()));
        },
        None => {},
    }
    let ghost m7 = groups_view(v@);
    match &f.wayland_display {
        Some(w) => push_group(v, group3("--setenv", "WAYLAND_DISPLAY", w.as_str())),
        None => {},
    }
    let ghost m8 = groups_view(v@);
    push_group(v, group3("--setenv", "LIBGL_ALWAYS_SOFTWARE", "1"));
    proof {
        assert(m6 =~= m5 + opt_env("DISPLAY"@, f.display));
        assert(m7 =~= m6 + (match f.xdg_runtime_dir {
            Some(x) => seq![bind(x@, x@), setenv("XDG_RUNTIME_DIR"@, x@)],
            None => seq![],
        }));
        assert(m8 =~= m7 + opt_env("WAYLAND_DISPLAY"@, f.wayland_display));
        assert(groups_view(v@) =~= start + display_groups(*f));
    }
}

fn push_env_groups(v: &mut Vec<Vec<String>>, p: &Profile, f: &HostFacts)
    ensures
        groups_view(final(v)@) == groups_view(old(v)@) + env_groups(*p, *f),
{
    let ghost g0 = groups_view(v@);
    push_locale_groups(v, p, f);
    push_home_groups(v, p, f);
    push_user_groups(v, p, f);
    push_display_groups(v, f);
    proof {
        lemma_concat4(
            g0,
            locale_groups(*p, *f),
            home_groups(*p, *f),
            user_groups(*p, *f),
            display_groups(*f),
        );
    }
}

proof fn lemma_concat4<T>(g: Seq<T>, a: Seq<T>, b: Seq<T>, c: Seq<T>, d: Seq<T>)
    ensures
        g + a + b + c + d == g + (a + b + c + d),
{
    assert(g + a + b + c + d =~= g + (a + b + c + d));
}

fn push_prefix(argv: &mut Vec<String>, p: &Profile)
    requires
        old(argv)@.len() == 0,
    ensures
        views(final(argv)@) == bwrap_prefix(*p),
{
    push_str(argv, "--bind");
    push_str(argv, "/");
    push_str(argv, "/");
    push_str(argv, "--dev-bind");
    push_str(argv, "/dev");
    push_str(argv, "/dev");
    push_str(argv, "--proc");
    push_str(argv, "/proc");
    push_str(argv, "--tmpfs");
    push_str(argv, "/tmp");
    push_str(argv, "--tmpfs");
    push_str(argv, "/home");
    push_str(argv, "--unshare-uts");
    let ghost m1 = views(argv@);
    match &p.hostname {
        Some(h) => {
            push_str(argv, "--hostname");
            push_str(argv, h.as_str());
        },
        None => {},
    }
    let ghost m2 = views(argv@);
    if !p.isolate_network_flag() {
        push_str(argv, "--unshare-net");
    }
    let ghost m3 = views(argv@);
    push_str(argv, "--tmpfs");
    push_str(argv, "/tmp");
    proof {
        assert(m2 =~= m1 + (match p.hostname {
            Some(h) => seq!["--hostname"@, h@],
            None => seq![],
        }));
        assert(m3 =~= m2 + (if !p.isolates_network() {
            seq!["--unshare-net"@]
        } else {
            seq![]
        }));
        assert(views(argv@) =~= bwrap_prefix(*p));
    }
}

proof fn lemma_groups_view_permutes(a: Seq<Vec<String>>, b: Seq<Vec<String>>)
    requires
        permutes(a, b),
    ensures
        permutes(groups_view(a), groups_view(b)),
{
    let p = choose|p: Seq<int>|
        is_index_perm(p, b.len()) && forall|i: int| 0 <= i < a.len() ==> #[trigger] a[i] == b[p[i]];
    assert forall|i: int| 0 <= i < groups_view(a).len() implies #[trigger] groups_view(a)[i]
        == groups_view(b)[p[i]] by {
        assert(a[i] == b[p[i]]);
    }
    assert(groups_view(a).len() == groups_view(b).len());
    assert(is_index_perm(p, groups_view(b).len()));
}

/// The `bwrap` argument list that runs `app` with `args` under `profile`:
/// the fixed skeleton, then every dynamic group (identity files, environment)
/// in an order shuffled afresh at each launch, then `--`, the app and its
/// arguments.
pub fn build_bwrap_command(
    ns: &SandboxHandle,
    profile: &Profile,
    app: &str,
    args: &Vec<String>,
    facts: &HostFacts,
    rng: &mut StdRng,
) -> (argv: Vec<String>)
    ensures
        exists|order: Seq<Seq<Seq<char>>>|
            permutes(order, dynamic_groups(ns.tmp_dir@, *profile, *facts)) && views(argv@)
                == bwrap_prefix(*profile) + flatten(order) + seq!["--"@, app@] + views(args@),
{
    let mut argv: Vec<String> = Vec::new();
    push_prefix(&mut argv, profile);
    let mut groups: Vec<Vec<String>> = Vec::new();
    push_file_groups(&mut groups, ns.tmp_dir.as_str(), profile, facts);
    push_env_groups(&mut groups, profile, facts);
    assert(groups_view(groups@) =~= dynamic_groups(ns.tmp_dir@, *profile, *facts));
    let ghost unshuffled = groups@;
    shuffle(&mut groups, rng);
    proof {
        lemma_groups_view_permutes(groups@, unshuffled);
    }
    let ghost order = groups_view(groups@);
    let ghost pre = views(argv@);
    let mut i: usize = 0;
    while i < groups.len()
        invariant
            i <= groups.len(),
            order == groups_view(groups@),
            views(argv@) == pre + flatten(order.take(i as int)),
        decreases groups.len() - i,
    {
        let g = &groups[i];
        let mut j: usize = 0;
        while j < g.len()
            invariant
                j <= g.len(),
                i < groups.len(),
                g == groups@[i as int],
                order == groups_view(groups@),
                views(argv@) == pre + flatten(order.take(i as int)) + views(g@).take(j as int),
            decreases g.len() - j,
        {
            let ghost before = argv@;
            argv.push(g[j].clone());
            proof {
                lemma_views_push(before, g@[j as int]);
                assert(views(g@).take(j + 1) =~= views(g@).take(j as int).push(g@[j as int]@));
            }
            j = j + 1;
        }
        proof {
            assert(views(g@).take(j as int) =~= views(g@));
            assert(order.take(i + 1).drop_last() =~= order.take(i as int));
            assert(order.take(i + 1).last() == views(g@));
        }
        i = i + 1;
    }
    assert(order.take(groups.len() as int) =~= order);
    let ghost mid = views(argv@);
    push_str(&mut argv, "--");
    push_str(&mut argv, app);
    let mut k: usize = 0;
    while k < args.len()
        invariant
            k <= args.len(),
            views(argv@) == mid + seq!["--"@, app@] + views(args@).take(k as int),
        decreases args.len() - k,
    {
        let ghost before = argv@;
        argv.push(args[k].clone());
        proof {
            lemma_views_push(before, args@[k as int]);
            assert(views(args@).take(k + 1) =~= views(args@).take(k as int).push(args@[k as int]@));
        }
        k = k + 1;
    }
    assert(views(args@).take(args.len() as int) =~= views(args@));
    argv
}

/// `--unshare-net` is passed exactly when the profile does not ask for a
/// network namespace of its own (which then takes its place), so the host's
/// abstract sockets stay out of reach.  A hostname spelled `--unshare-net`
/// would put the same word in the list and is left out.
pub proof fn lemma_unshare_net_unless_isolated(p: Profile)
    requires
        p.hostname matches Some(h) ==> h@ != "--unshare-net"@,
    ensures
        bwrap_prefix(p).contains("--unshare-net"@) <==> !p.isolates_network(),
{
    let pre = bwrap_prefix(p);
    let head = seq![
        "--bind"@,
        "/"@,
        "/"@,
        "--dev-bind"@,
        "/dev"@,
        "/dev"@,
        "--proc"@,
        "/proc"@,
        "--tmpfs"@,
        "/tmp"@,
        "--tmpfs"@,
        "/home"@,
        "--unshare-uts"@,
    ];
    let host: Seq<Seq<char>> = match p.hostname {
        Some(h) => seq!["--hostname"@, h@],
        None => seq![],
    };
    reveal_strlit("--unshare-net");
    reveal_strlit("--bind");
    reveal_strlit("/");
    reveal_strlit("--dev-bind");
    reveal_strlit("/dev");
    reveal_strlit("--proc");
    reveal_strlit("/proc");
    reveal_strlit("--tmpfs");
    reveal_strlit("/tmp");
    reveal_strlit("/home");
    reveal_strlit("--unshare-uts");
    reveal_strlit("--hostname");
    if p.isolates_network() {
        assert(pre =~= head + host + seq!["--tmpfs"@, "/tmp"@]);
        assert("--unshare-uts"@[10] != "--unshare-net"@[10]);
        assert("--hostname"@.len() != "--unshare-net"@.len());
        assert forall|i: int| 0 <= i < pre.len() implies pre[i] != "--unshare-net"@ by {
            if i < 13 {
                assert(pre[i] == head[i]);
                assert(head[i].len() != 13 || head[i] == "--unshare-uts"@);
            } else if i < 13 + host.len() {
                assert(pre[i] == host[i - 13]);
            } else {
                assert(pre[i].len() != 13);
            }
        }
    } else {
        let k: int = 13 + host.len() as int;
        assert(pre =~= head + host + seq!["--unshare-net"@] + seq!["--tmpfs"@, "/tmp"@]);
        assert(pre[k] == "--unshare-net"@);
    }
}

/// When the fake bus is up, every launch binds its socket over the system
/// bus socket and points both bus addresses at it, so a client inside the
/// sandbox reaches the fake bus whichever way it looks for one.
pub proof fn lemma_bus_redirected(tmp: Seq<char>, p: Profile, f: HostFacts)
    requires
        f.dbus_socket_staged,
    ensures
        ({
            let sock = path_join(tmp, "system_bus_socket"@);
            let g = dynamic_groups(tmp, p, f);
            &&& g.contains(bind(sock, "/run/dbus/system_bus_socket"@))
            &&& g.contains(setenv("DBUS_SESSION_BUS_ADDRESS"@, "unix:path="@ + sock))
            &&& g.contains(setenv("DBUS_SYSTEM_BUS_ADDRESS"@, "unix:path="@ + sock))
        }),
{
    let a = staged_id_groups(tmp, f) + timezone_groups(p, f) + staged_sys_groups(tmp, p, f);
    let d = dbus_groups(tmp, f);
    let g = dynamic_groups(tmp, p, f);
    assert(g =~= a + d + env_groups(p, f));
    let n = a.len() as int;
    assert(g[n] == d[0]);
    assert(g[n + 1] == d[1]);
    assert(g[n + 2] == d[2]);
}

/// Every staged identity file is mounted over the file it fakes, with the
/// staged copy in the run directory as the source: the machine id, the
/// hostname, the timezone (where the host has `/etc/timezone`), the resolver
/// configuration, the CPU description, the account database, and (unless
/// the profile has a network namespace of its own) the MAC address of both
/// the wired and the wireless interface.
pub proof fn lemma_staged_files_mounted(tmp: Seq<char>, p: Profile, f: HostFacts)
    ensures
        ({
            let g = dynamic_groups(tmp, p, f);
            &&& f.machine_id_staged ==> g.contains(
                seq!["--bind"@, path_join(tmp, "machine-id"@), "/etc/machine-id"@],
            )
            &&& f.hostname_staged ==> g.contains(
                seq!["--bind"@, path_join(tmp, "hostname"@), "/etc/hostname"@],
            )
            &&& f.timezone_staged && f.etc_timezone_exists ==> g.contains(
                seq!["--bind"@, path_join(tmp, "timezone"@), "/etc/timezone"@],
            )
            &&& f.resolv_conf_staged ==> g.contains(
                seq!["--bind"@, path_join(tmp, "resolv.conf"@), "/etc/resolv.conf"@],
            )
            &&& f.cpuinfo_staged ==> g.contains(
                seq!["--bind"@, path_join(tmp, "cpuinfo"@), "/proc/cpuinfo"@],
            )
            &&& f.passwd_staged ==> g.contains(
                seq!["--bind"@, path_join(tmp, "passwd"@), "/etc/passwd"@],
            )
            &&& f.mac_address_staged && !p.isolates_network() ==> g.contains(
                seq!["--bind"@, path_join(tmp, "mac_address"@), "/sys/class/net/eth0/address"@],
            )
            &&& f.mac_address_staged && !p.isolates_network() ==> g.contains(
                seq!["--bind"@, path_join(tmp, "mac_address"@), "/sys/class/net/wlan0/address"@],
            )
        }),
{
    let id = staged_id_groups(tmp, f);
    let tz = timezone_groups(p, f);
    let sys = staged_sys_groups(tmp, p, f);
    let rest = dbus_groups(tmp, f) + env_groups(p, f);
    let d = dbus_groups(tmp, f);
    let env = env_groups(p, f);
    assert(dynamic_groups(tmp, p, f) == id + tz + sys + d + env);
    lemma_assoc5(id, tz, sys, d, env);
    lemma_id_files_mounted(tmp, f, tz + sys + rest);
    lemma_sys_files_mounted(tmp, p, f, id + tz, rest);
}

proof fn lemma_assoc5<T>(a: Seq<T>, b: Seq<T>, c: Seq<T>, d: Seq<T>, e: Seq<T>)
    ensures
        a + b + c + d + e == a + (b + c + (d + e)),
        a + b + c + d + e == (a + b) + c + (d + e),
{
    assert(a + b + c + d + e =~= a + (b + c + (d + e)));
    assert(a + b + c + d + e =~= (a + b) + c + (d + e));
}

proof fn lemma_id_files_mounted(tmp: Seq<char>, f: HostFacts, rest: Seq<Seq<Seq<char>>>)
    ensures
        ({
            let g = staged_id_groups(tmp, f) + rest;
            &&& f.machine_id_staged ==> g.contains(
                seq!["--bind"@, path_join(tmp, "machine-id"@), "/etc/machine-id"@],
            )
            &&& f.hostname_staged ==> g.contains(
                seq!["--bind"@, path_join(tmp, "hostname"@), "/etc/hostname"@],
            )
            &&& f.timezone_staged && f.etc_timezone_exists ==> g.contains(
                seq!["--bind"@, path_join(tmp, "timezone"@), "/etc/timezone"@],
            )
        }),
{
    let g1 = opt_group(f.machine_id_staged, bind(path_join(tmp, "machine-id"@), "/etc/machine-id"@));
    let g2 = opt_group(f.hostname_staged, bind(path_join(tmp, "hostname"@), "/etc/hostname"@));
    let g3 = opt_group(f.timezone_staged && f.etc_timezone_exists, bind(path_join(tmp, "timezone"@), "/etc/timezone"@));
    let g = staged_id_groups(tmp, f) + rest;
    assert(g =~= g1 + g2 + g3 + rest);
    let n1 = g1.len() as int;
    let n2 = n1 + g2.len();
    if f.machine_id_staged {
        assert(g[0] == g1[0]);
    }
    if f.hostname_staged {
        assert(g[n1] == g2[0]);
    }
    if f.timezone_staged && f.etc_timezone_exists {
        assert(g[n2] == g3[0]);
    }
}

proof fn lemma_sys_files_mounted(
    tmp: Seq<char>,
    p: Profile,
    f: HostFacts,
    before: Seq<Seq<Seq<char>>>,
    rest: Seq<Seq<Seq<char>>>,
)
    ensures
        ({
            let g = before + staged_sys_groups(tmp, p, f) + rest;
            &&& f.resolv_conf_staged ==> g.contains(
                seq!["--bind"@, path_join(tmp, "resolv.conf"@), "/etc/resolv.conf"@],
            )
            &&& f.cpuinfo_staged ==> g.contains(
                seq!["--bind"@, path_join(tmp, "cpuinfo"@), "/proc/cpuinfo"@],
            )
            &&& f.passwd_staged ==> g.contains(
                seq!["--bind"@, path_join(tmp, "passwd"@), "/etc/passwd"@],
            )
            &&& f.mac_address_staged && !p.isolates_network() ==> g.contains(
                seq!["--bind"@, path_join(tmp, "mac_address"@), "/sys/class/net/eth0/address"@],
            )
            &&& f.mac_address_staged && !p.isolates_network() ==> g.contains(
                seq!["--bind"@, path_join(tmp, "mac_address"@), "/sys/class/net/wlan0/address"@],
            )
        }),
{
    let mac = f.mac_address_staged && !p.isolates_network();
    let s1 = opt_group(f.resolv_conf_staged, bind(path_join(tmp, "resolv.conf"@), "/etc/resolv.conf"@));
    let s2 = opt_group(f.cpuinfo_staged, bind(path_join(tmp, "cpuinfo"@), "/proc/cpuinfo"@));
    let s3 = opt_group(f.passwd_staged, bind(path_join(tmp, "passwd"@), "/etc/passwd"@));
    let s4 = opt_group(mac, bind(path_join(tmp, "mac_address"@), "/sys/class/net/eth0/address"@));
    let s5 = opt_group(mac, bind(path_join(tmp, "mac_address"@), "/sys/class/net/wlan0/address"@));
    let g = before + staged_sys_groups(tmp, p, f) + rest;
    assert(g =~= before + s1 + s2 + s3 + s4 + s5 + rest);
    let n0 = before.len() as int;
    let n1 = n0 + s1.len();
    let n2 = n1 + s2.len();
    let n3 = n2 + s3.len();
    let n4 = n3 + s4.len();
    if f.resolv_conf_staged {
        assert(g[n0] == s1[0]);
    }
    if f.cpuinfo_staged {
        assert(g[n1] == s2[0]);
    }
    if f.passwd_staged {
        assert(g[n2] == s3[0]);
    }
    if mac {
        assert(g[n3] == s4[0]);
        assert(g[n4] == s5[0]);
    }
}

} // verus!
