//! Identity providers: for each signal, how its real value is read from what
//! the host shows, which value a profile projects, and which file is staged
//! for the sandbox.  Reading and writing files is the caller's part; the
//! providers turn contents into values and values into contents.
use crate::protocol::{Profile, SignalKind, SignalValue};
use crate::text::{
    chars_of, char_is_hex_digit, concat2, concat3, decimal, is_hex_digit, lines, lines_exec,
    split_char, split_char_exec, split_ws, split_ws_exec, starts_with, str_eq, str_starts_with,
    suffix_from, trim, trim_char, trim_char_exec, trim_exec, u32_to_string, views, find_sub,
    find_sub_exec, push_char, is_ws, strip_cr, lemma_find_first_at, lemma_trailing_at, char_is,
    non_ws_pred, ws_pred,
};
use vstd::prelude::*;

verus! {

/// Why a provider could not produce a value or a staged file.
#[derive(Debug)]
pub enum ProviderError {
    /// The profile lacks the field; `field` names it as the message does.
    MissingField { profile: String, field: String },
    /// The provider does not project this signal.
    NotImplemented,
    /// The profile's machine id is not 32 hexadecimal digits.
    InvalidMachineId(String),
    /// The host shows no value for the signal.
    Undetermined(String),
}

pub open spec fn missing_message(profile: Seq<char>, field: Seq<char>) -> Seq<char> {
    "Profile '"@ + profile + "' has no "@ + field
}

impl ProviderError {
    /// The error's message.
    pub fn message(&self) -> (r: String)
        ensures
            match self {
                ProviderError::MissingField { profile, field } => r@ == missing_message(
                    profile@,
                    field@,
                ),
                ProviderError::NotImplemented => r@ == "Not implemented yet"@,
                ProviderError::InvalidMachineId(id) => r@ == "machine_id '"@ + id@
                    + "' is not a valid 32-char hex string"@,
                ProviderError::Undetermined(what) => r@ == "Failed to determine system "@ + what@,
            },
    {
        match self {
            ProviderError::MissingField { profile, field } => {
                let mut r = concat3("Profile '", profile.as_str(), "' has no ");
                r.append(field.as_str());
                r
            },
            ProviderError::NotImplemented => String::from_str("Not implemented yet"),
            ProviderError::InvalidMachineId(id) => concat3(
                "machine_id '",
                id.as_str(),
                "' is not a valid 32-char hex string",
            ),
            ProviderError::Undetermined(what) => concat2("Failed to determine system ", what.as_str()),
        }
    }
}

fn missing(profile: &Profile, field: &str) -> (e: ProviderError)
    ensures
        e matches ProviderError::MissingField { profile: p, field: f } && p@ == profile.name@
            && f@ == field@,
{
    ProviderError::MissingField { profile: profile.name.clone(), field: String::from_str(field) }
}

// ───────────────────────────── shared text helpers ─────────────────────────────

/// The concatenation of the pieces.
pub open spec fn concat_all(parts: Seq<Seq<char>>) -> Seq<char>
    decreases parts.len(),
{
    if parts.len() == 0 {
        seq![]
    } else {
        concat_all(parts.drop_last()) + parts.last()
    }
}

// ───────────────────────────── hostname ─────────────────────────────

pub struct HostnameProvider;

impl HostnameProvider {
    pub fn signal_kind(&self) -> (k: SignalKind)
        ensures
            k == SignalKind::Hostname,
    {
        SignalKind::Hostname
    }

    /// The profile's hostname.
    pub fn projected_value(&self, profile: &Profile) -> (r: Result<SignalValue, ProviderError>)
        ensures
            match profile.hostname {
                Some(h) => r matches Ok(SignalValue::Hostname(v)) && v@ == h@,
                None => r matches Err(ProviderError::MissingField { profile: p, field: f })
                    && p@ == profile.name@ && f@ == "hostname field"@,
            },
    {
        match &profile.hostname {
            Some(h) => Ok(SignalValue::Hostname(h.clone())),
            None => Err(missing(profile, "hostname field")),
        }
    }

    /// Contents of the staged `hostname` file: the profile's hostname and a
    /// newline.
    pub fn staged_file(&self, profile: &Profile) -> (r: Result<String, ProviderError>)
        ensures
            match profile.hostname {
                Some(h) => r matches Ok(c) && c@ == h@ + "\n"@,
                None => r matches Err(ProviderError::MissingField { profile: p, field: f })
                    && p@ == profile.name@ && f@ == "hostname field"@,
            },
    {
        match &profile.hostname {
            Some(h) => Ok(concat2(h.as_str(), "\n")),
            None => Err(missing(profile, "hostname field")),
        }
    }
}

// ───────────────────────────── machine id ─────────────────────────────

/// `s` without any `c`.
pub open spec fn without_char(s: Seq<char>, c: char) -> Seq<char>
    decreases s.len(),
{
    if s.len() == 0 {
        seq![]
    } else if s.last() == c {
        without_char(s.drop_last(), c)
    } else {
        without_char(s.drop_last(), c).push(s.last())
    }
}

/// A machine id is valid when, dashes removed, it is 32 hexadecimal digits.
pub open spec fn valid_machine_id(id: Seq<char>) -> bool {
    let s = without_char(id, '-');
    s.len() == 32 && forall|i: int| 0 <= i < s.len() ==> is_hex_digit(#[trigger] s[i])
}

pub fn without_char_exec(s: &str, c: char) -> (r: String)
    ensures
        r@ == without_char(s@, c),
{
    let v = chars_of(s);
    let mut r = String::new();
    let mut i: usize = 0;
    while i < v.len()
        invariant
            i <= v.len(),
            r@ == without_char(v@.subrange(0, i as int), c),
        decreases v.len() - i,
    {
        let ghost pre = v@.subrange(0, i as int);
        assert(v@.subrange(0, i + 1).drop_last() =~= pre);
        if v[i] != c {
            push_char(&mut r, v[i]);
        }
        i = i + 1;
    }
    assert(v@.subrange(0, v.len() as int) =~= v@);
    r
}

pub struct MachineIdProvider;

impl MachineIdProvider {
    pub fn signal_kind(&self) -> (k: SignalKind)
        ensures
            k == SignalKind::MachineId,
    {
        SignalKind::MachineId
    }

    /// The machine id in the contents of `/etc/machine-id`, trimmed.
    pub fn real_value(&self, contents: &str) -> (r: SignalValue)
        ensures
            r matches SignalValue::MachineId(v) && v@ == trim(contents@),
    {
        SignalValue::MachineId(trim_exec(contents))
    }

    /// The profile's machine id.
    pub fn projected_value(&self, profile: &Profile) -> (r: Result<SignalValue, ProviderError>)
        ensures
            match profile.machine_id {
                Some(m) => r matches Ok(SignalValue::MachineId(v)) && v@ == m@,
                None => r matches Err(ProviderError::MissingField { profile: p, field: f })
                    && p@ == profile.name@ && f@ == "machine_id field"@,
            },
    {
        match &profile.machine_id {
            Some(m) => Ok(SignalValue::MachineId(m.clone())),
            None => Err(missing(profile, "machine_id field")),
        }
    }

    /// Contents of the staged `machine-id` file: the profile's id without
    /// dashes, and a newline; refused unless that is 32 hexadecimal digits.
    pub fn staged_file(&self, profile: &Profile) -> (r: Result<String, ProviderError>)
        ensures
            match profile.machine_id {
                Some(m) => if valid_machine_id(m@) {
                    r matches Ok(c) && c@ == without_char(m@, '-') + "\n"@
                } else {
                    r matches Err(ProviderError::InvalidMachineId(x)) && x@ == m@
                },
                None => r matches Err(ProviderError::MissingField { profile: p, field: f })
                    && p@ == profile.name@ && f@ == "machine_id field"@,
            },
    {
        let id = match &profile.machine_id {
            Some(m) => m,
            None => {
                return Err(missing(profile, "machine_id field"));
            },
        };
        let stripped = without_char_exec(id.as_str(), '-');
        let v = chars_of(stripped.as_str());
        let mut ok = v.len() == 32;
        let mut i: usize = 0;
        while i < v.len()
            invariant
                i <= v.len(),
                ok == (v.len() == 32 && forall|j: int| 0 <= j < i ==> is_hex_digit(#[trigger] v@[j])),
            decreases v.len() - i,
        {
            if !char_is_hex_digit(v[i]) {
                ok = false;
            }
            i = i + 1;
        }
        if !ok {
            return Err(ProviderError::InvalidMachineId(id.clone()));
        }
        Ok(concat2(stripped.as_str(), "\n"))
    }
}

// ───────────────────────────── timezone ─────────────────────────────

/// The timezone the host shows: the trimmed contents of `/etc/timezone` when
/// not empty, else what follows `zoneinfo/` in the target of the
/// `/etc/localtime` link, when something does.  A timezone is never empty.
pub open spec fn host_timezone(etc_timezone: Option<Seq<char>>, localtime_target: Option<Seq<char>>) -> Option<Seq<char>> {
    let from_file = match etc_timezone {
        Some(t) => if trim(t).len() > 0 {
            Some(trim(t))
        } else {
            None
        },
        None => None,
    };
    match from_file {
        Some(t) => Some(t),
        None => match localtime_target {
            Some(l) => if find_sub(l, "zoneinfo/"@) >= 0 && find_sub(l, "zoneinfo/"@) + 9 < l.len() {
                Some(l.subrange(find_sub(l, "zoneinfo/"@) + 9, l.len() as int))
            } else {
                None
            },
            None => None,
        },
    }
}

pub struct TimezoneProvider;

impl TimezoneProvider {
    pub fn signal_kind(&self) -> (k: SignalKind)
        ensures
            k == SignalKind::Timezone,
    {
        SignalKind::Timezone
    }

    /// The host's timezone, from `/etc/timezone` or the `/etc/localtime` link.
    pub fn real_value(&self, etc_timezone: Option<&str>, localtime_target: Option<&str>) -> (r: Result<SignalValue, ProviderError>)
        ensures
            match host_timezone(
                match etc_timezone {
                    Some(t) => Some(t@),
                    None => None,
                },
                match localtime_target {
                    Some(l) => Some(l@),
                    None => None,
                },
            ) {
                Some(tz) => r matches Ok(SignalValue::Timezone(v)) && v@ == tz,
                None => r matches Err(ProviderError::Undetermined(w)) && w@ == "timezone"@,
            },
            r matches Ok(SignalValue::Timezone(v)) ==> v@.len() > 0,
    {
        proof {
            reveal_strlit("zoneinfo/");
        }
        match etc_timezone {
            Some(t) => {
                let tz = trim_exec(t);
                if tz.unicode_len() > 0 {
                    return Ok(SignalValue::Timezone(tz));
                }
            },
            None => {},
        }
        match localtime_target {
            Some(l) => {
                let lv = chars_of(l);
                let pat = chars_of("zoneinfo/");
                proof {
                    reveal_strlit("zoneinfo/");
                }
                assert(pat@.len() == 9);
                match find_sub_exec(&lv, &pat) {
                    Some(i) => {
                        let n = lv.len();
                        assert(i + 9 <= n);
                        if i + 9 < n {
                            return Ok(SignalValue::Timezone(suffix_from(l, i + 9)));
                        }
                    },
                    None => {},
                }
            },
            None => {},
        }
        Err(ProviderError::Undetermined(String::from_str("timezone")))
    }

    /// The profile's timezone.
    pub fn projected_value(&self, profile: &Profile) -> (r: Result<SignalValue, ProviderError>)
        ensures
            match profile.timezone {
                Some(t) => r matches Ok(SignalValue::Timezone(v)) && v@ == t@,
                None => r matches Err(ProviderError::MissingField { profile: p, field: f })
                    && p@ == profile.name@ && f@ == "timezone field"@,
            },
    {
        match &profile.timezone {
            Some(t) => Ok(SignalValue::Timezone(t.clone())),
            None => Err(missing(profile, "timezone field")),
        }
    }
}

// ───────────────────────────── locale ─────────────────────────────

/// The value of the first `LANG=` line, unquoted and trimmed.
pub open spec fn lang_line_value(ls: Seq<Seq<char>>) -> Option<Seq<char>>
    decreases ls.len(),
{
    if ls.len() == 0 {
        None
    } else {
        match lang_line_value(ls.drop_last()) {
            Some(v) => Some(v),
            None => if starts_with(ls.last(), "LANG="@) {
                Some(trim(trim_char(ls.last().subrange(5, ls.last().len() as int), '"')))
            } else {
                None
            },
        }
    }
}

/// The locale the host shows: `$LANG` when set and not empty, else the first
/// `LANG=` line of `/etc/locale.conf`.
pub open spec fn host_locale(lang_env: Option<Seq<char>>, locale_conf: Option<Seq<char>>) -> Option<Seq<char>> {
    match lang_env {
        Some(l) if l.len() > 0 => Some(l),
        _ => match locale_conf {
            Some(c) => lang_line_value(lines(c)),
            None => None,
        },
    }
}

pub struct LocaleProvider;

impl LocaleProvider {
    pub fn signal_kind(&self) -> (k: SignalKind)
        ensures
            k == SignalKind::Locale,
    {
        SignalKind::Locale
    }

    pub fn real_value(&self, lang_env: Option<&str>, locale_conf: Option<&str>) -> (r: Result<SignalValue, ProviderError>)
        ensures
            match host_locale(
                match lang_env {
                    Some(l) => Some(l@),
                    None => None,
                },
                match locale_conf {
                    Some(c) => Some(c@),
                    None => None,
                },
            ) {
                Some(l) => r matches Ok(SignalValue::Locale(v)) && v@ == l,
                None => r matches Err(ProviderError::Undetermined(w)) && w@ == "locale"@,
            },
    {
        proof {
            reveal_strlit("LANG=");
        }
        match lang_env {
            Some(l) => {
                if l.unicode_len() > 0 {
                    return Ok(SignalValue::Locale(String::from_str(l)));
                }
            },
            None => {},
        }
        match locale_conf {
            Some(c) => {
                let ls = lines_exec(c);
                let mut i: usize = 0;
                while i < ls.len()
                    invariant
                        i <= ls.len(),
                        views(ls@) == lines(c@),
                        locale_conf == Some(c),
                        match lang_env {
                            Some(l) => l@.len() == 0,
                            None => true,
                        },
                        lang_line_value(views(ls@).take(i as int)) is None,
                    decreases ls.len() - i,
                {
                    proof {
                        assert(views(ls@).take(i + 1).drop_last() =~= views(ls@).take(i as int));
                        assert(views(ls@).take(i + 1).last() == ls@[i as int]@);
                    }
                    if str_starts_with(ls[i].as_str(), "LANG=") {
                        proof {
                            reveal_strlit("LANG=");
                        }
                        assert("LANG="@.len() == 5);
                        let rest = suffix_from(ls[i].as_str(), 5);
                        let unq = trim_char_exec(rest.as_str(), '"');
                        let v = trim_exec(unq.as_str());
                        proof {
                            lemma_first_found(views(ls@), i as int);
                        }
                        return Ok(SignalValue::Locale(v));
                    }
                    i = i + 1;
                }
                assert(views(ls@).take(ls.len() as int) =~= views(ls@));
            },
            None => {},
        }
        Err(ProviderError::Undetermined(String::from_str("locale")))
    }

    /// The profile's locale.
    pub fn projected_value(&self, profile: &Profile) -> (r: Result<SignalValue, ProviderError>)
        ensures
            match profile.locale {
                Some(l) => r matches Ok(SignalValue::Locale(v)) && v@ == l@,
                None => r matches Err(ProviderError::MissingField { profile: p, field: f })
                    && p@ == profile.name@ && f@ == "locale field"@,
            },
    {
        match &profile.locale {
            Some(l) => Ok(SignalValue::Locale(l.clone())),
            None => Err(missing(profile, "locale field")),
        }
    }
}

proof fn lemma_first_found(ls: Seq<Seq<char>>, i: int)
    requires
        0 <= i < ls.len(),
        lang_line_value(ls.take(i)) is None,
        starts_with(ls[i], "LANG="@),
    ensures
        lang_line_value(ls) == Some(trim(trim_char(ls[i].subrange(5, ls[i].len() as int), '"'))),
    decreases ls.len() - i,
{
    if i + 1 < ls.len() {
        assert(ls.drop_last().take(i) =~= ls.take(i));
        lemma_first_found(ls.drop_last(), i);
    } else {
        assert(ls.take(i) =~= ls.drop_last());
    }
}

// ───────────────────────────── DNS ─────────────────────────────

/// The nameservers of a `resolv.conf`: the second field of each trimmed line
/// that starts with `nameserver`.
pub open spec fn nameservers(ls: Seq<Seq<char>>) -> Seq<Seq<char>>
    decreases ls.len(),
{
    if ls.len() == 0 {
        seq![]
    } else {
        let t = trim(ls.last());
        nameservers(ls.drop_last()) + if starts_with(t, "nameserver"@) && split_ws(t).len() > 1 {
            seq![split_ws(t)[1]]
        } else {
            seq![]
        }
    }
}

/// A `resolv.conf` listing the servers.
pub open spec fn resolv_conf(servers: Seq<Seq<char>>) -> Seq<char>
    decreases servers.len(),
{
    if servers.len() == 0 {
        seq![]
    } else {
        resolv_conf(servers.drop_last()) + "nameserver "@ + servers.last() + "\n"@
    }
}

/// A server name as the staged file can carry it back: not empty, and free
/// of whitespace.
pub open spec fn plain_server(d: Seq<char>) -> bool {
    d.len() > 0 && forall|j: int| 0 <= j < d.len() ==> !is_ws(#[trigger] d[j])
}

proof fn lemma_resolv_conf_first(servers: Seq<Seq<char>>)
    requires
        servers.len() > 0,
    ensures
        resolv_conf(servers) == "nameserver "@ + servers[0] + "\n"@ + resolv_conf(servers.drop_first()),
    decreases servers.len(),
{
    if servers.len() == 1 {
        assert(servers.drop_last() =~= Seq::<Seq<char>>::empty());
        assert(servers.drop_first() =~= Seq::<Seq<char>>::empty());
        assert(resolv_conf(servers) =~= "nameserver "@ + servers[0] + "\n"@ + resolv_conf(servers.drop_first()));
    } else {
        let init = servers.drop_last();
        lemma_resolv_conf_first(init);
        assert(init.drop_first() =~= servers.drop_first().drop_last());
        assert(servers.drop_first().last() == servers.last());
        assert(resolv_conf(servers) =~= "nameserver "@ + servers[0] + "\n"@ + resolv_conf(servers.drop_first()));
    }
}

proof fn lemma_lines_cons(l: Seq<char>, rest: Seq<char>)
    requires
        forall|j: int| 0 <= j < l.len() ==> l[j] != '\n',
    ensures
        lines(l + "\n"@ + rest) == seq![strip_cr(l)] + lines(rest),
{
    reveal_strlit("\n");
    let s = l + "\n"@ + rest;
    assert(s[l.len() as int] == '\n');
    assert forall|j: int| 0 <= j < l.len() implies !(#[trigger] char_is('\n')(s[j])) by {
        assert(s[j] == l[j]);
    }
    lemma_find_first_at(s, char_is('\n'), l.len() as int);
    assert(s.subrange(0, l.len() as int) =~= l);
    assert(s.subrange(l.len() as int + 1, s.len() as int) =~= rest);
}

/// The line that names a server.
pub open spec fn server_line(d: Seq<char>) -> Seq<char> {
    "nameserver "@ + d
}

proof fn lemma_server_line_read(d: Seq<char>)
    requires
        plain_server(d),
    ensures
        strip_cr(server_line(d)) == server_line(d),
        trim(server_line(d)) == server_line(d),
        starts_with(server_line(d), "nameserver"@),
        split_ws(server_line(d)) == seq!["nameserver"@, d],
{
    reveal_strlit("nameserver ");
    reveal_strlit("nameserver");
    let s = server_line(d);
    let n = s.len() as int;
    assert(s[n - 1] == d[d.len() - 1]);
    assert(!is_ws(s[n - 1]));
    assert(s.last() != '\r');
    // trim: no leading or trailing whitespace
    lemma_find_first_at(s, non_ws_pred(), 0);
    lemma_trailing_at(s, ws_pred(), n);
    assert(s.subrange(0, n) =~= s);
    assert(s.subrange(0, 10) =~= "nameserver"@);
    // split_ws: "nameserver", then the server
    assert forall|j: int| 0 <= j < 10 implies !(#[trigger] ws_pred()(s[j])) by {}
    assert(ws_pred()(s[10]));
    lemma_find_first_at(s, ws_pred(), 10);
    let tail = s.subrange(10, n);
    assert(!non_ws_pred()(tail[0]));
    assert(non_ws_pred()(tail[1]));
    assert forall|j: int| 0 <= j < 1 implies !(#[trigger] non_ws_pred()(tail[j])) by {}
    lemma_find_first_at(tail, non_ws_pred(), 1);
    let rest = tail.subrange(1, tail.len() as int);
    assert(rest =~= d);
    assert forall|j: int| 0 <= j < d.len() implies !(#[trigger] ws_pred()(d[j])) by {}
    lemma_find_first_at(d, ws_pred(), d.len() as int);
    assert(d.subrange(d.len() as int, d.len() as int) =~= Seq::<char>::empty());
    lemma_find_first_at(Seq::<char>::empty(), non_ws_pred(), 0);
    assert(split_ws(Seq::<char>::empty()) =~= Seq::<Seq<char>>::empty());
    assert(d.subrange(0, d.len() as int) =~= d);
    assert(split_ws(tail) =~= seq![d]);
    assert(s.subrange(0, n).subrange(0, 10) =~= "nameserver"@);
    assert(s.subrange(0, n).subrange(10, n) =~= tail);
    assert(split_ws(s) =~= seq!["nameserver"@, d]);
}

proof fn lemma_lines_of_resolv_conf(servers: Seq<Seq<char>>)
    requires
        forall|i: int| 0 <= i < servers.len() ==> plain_server(#[trigger] servers[i]),
    ensures
        lines(resolv_conf(servers)) == servers.map_values(|d: Seq<char>| server_line(d)),
    decreases servers.len(),
{
    if servers.len() == 0 {
        assert(servers.map_values(|d: Seq<char>| server_line(d)) =~= Seq::<Seq<char>>::empty());
    } else {
        let d = servers[0];
        reveal_strlit("nameserver ");
        lemma_resolv_conf_first(servers);
        lemma_lines_of_resolv_conf(servers.drop_first());
        assert forall|j: int| 0 <= j < server_line(d).len() implies server_line(d)[j] != '\n' by {
            if j >= 11 {
                assert(server_line(d)[j] == d[j - 11]);
                assert(!is_ws(d[j - 11]));
            }
        }
        assert("nameserver "@ + d + "\n"@ + resolv_conf(servers.drop_first()) =~= server_line(d) + "\n"@
            + resolv_conf(servers.drop_first()));
        lemma_lines_cons(server_line(d), resolv_conf(servers.drop_first()));
        lemma_server_line_read(d);
        assert(servers.map_values(|d: Seq<char>| server_line(d)) =~= seq![server_line(d)]
            + servers.drop_first().map_values(|d: Seq<char>| server_line(d)));
    }
}

proof fn lemma_nameservers_of_lines(servers: Seq<Seq<char>>)
    requires
        forall|i: int| 0 <= i < servers.len() ==> plain_server(#[trigger] servers[i]),
    ensures
        nameservers(servers.map_values(|d: Seq<char>| server_line(d))) == servers,
    decreases servers.len(),
{
    if servers.len() > 0 {
        let ls = servers.map_values(|d: Seq<char>| server_line(d));
        assert(ls.drop_last() =~= servers.drop_last().map_values(|d: Seq<char>| server_line(d)));
        lemma_nameservers_of_lines(servers.drop_last());
        lemma_server_line_read(servers.last());
        assert(ls.last() == server_line(servers.last()));
        assert(nameservers(ls) =~= servers);
    }
}

/// What the staged `resolv.conf` lists is what a reader of `/etc/resolv.conf`
/// gets back, for server names that are not empty and hold no whitespace.
pub proof fn lemma_dns_round_trip(servers: Seq<Seq<char>>)
    requires
        forall|i: int| 0 <= i < servers.len() ==> plain_server(#[trigger] servers[i]),
    ensures
        nameservers(lines(resolv_conf(servers))) == servers,
{
    lemma_lines_of_resolv_conf(servers);
    lemma_nameservers_of_lines(servers);
}

pub struct DnsProvider;

impl DnsProvider {
    pub fn signal_kind(&self) -> (k: SignalKind)
        ensures
            k == SignalKind::Dns,
    {
        SignalKind::Dns
    }

    /// The nameservers listed in the contents of `/etc/resolv.conf`.
    pub fn real_value(&self, resolv: &str) -> (r: SignalValue)
        ensures
            r matches SignalValue::Dns(v) && views(v@) == nameservers(lines(resolv@)),
    {
        let ls = lines_exec(resolv);
        let mut out: Vec<String> = Vec::new();
        let mut i: usize = 0;
        while i < ls.len()
            invariant
                i <= ls.len(),
                views(ls@) == lines(resolv@),
                views(out@) == nameservers(views(ls@).take(i as int)),
            decreases ls.len() - i,
        {
            let t = trim_exec(ls[i].as_str());
            let ghost before = out@;
            if str_starts_with(t.as_str(), "nameserver") {
                let parts = split_ws_exec(t.as_str());
                if parts.len() > 1 {
                    out.push(parts[1].clone());
                }
            }
            proof {
                assert(views(ls@).take(i + 1).drop_last() =~= views(ls@).take(i as int));
                assert(views(ls@).take(i + 1).last() == ls@[i as int]@);
                assert(views(out@) =~= nameservers(views(ls@).take(i + 1)));
            }
            i = i + 1;
        }
        assert(views(ls@).take(ls.len() as int) =~= views(ls@));
        SignalValue::Dns(out)
    }

    /// The profile's nameservers.
    pub fn projected_value(&self, profile: &Profile) -> (r: Result<SignalValue, ProviderError>)
        ensures
            match profile.dns {
                Some(d) => r matches Ok(SignalValue::Dns(v)) && views(v@) == views(d@),
                None => r matches Err(ProviderError::MissingField { profile: p, field: f })
                    && p@ == profile.name@ && f@ == "dns field"@,
            },
    {
        match &profile.dns {
            Some(d) => Ok(SignalValue::Dns(clone_strings(d))),
            None => Err(missing(profile, "dns field")),
        }
    }

    /// Contents of the staged `resolv.conf`: one `nameserver` line per server.
    pub fn staged_file(&self, profile: &Profile) -> (r: Result<String, ProviderError>)
        ensures
            match profile.dns {
                Some(d) => r matches Ok(c) && c@ == resolv_conf(views(d@)),
                None => r matches Err(ProviderError::MissingField { profile: p, field: f })
                    && p@ == profile.name@ && f@ == "dns field"@,
            },
    {
        let d = match &profile.dns {
            Some(d) => d,
            None => {
                return Err(missing(profile, "dns field"));
            },
        };
        let mut r = String::new();
        let mut i: usize = 0;
        while i < d.len()
            invariant
                i <= d.len(),
                r@ == resolv_conf(views(d@).take(i as int)),
            decreases d.len() - i,
        {
            r.append("nameserver ");
            r.append(d[i].as_str());
            r.append("\n");
            proof {
                assert(views(d@).take(i + 1).drop_last() =~= views(d@).take(i as int));
                assert(views(d@).take(i + 1).last() == d@[i as int]@);
            }
            i = i + 1;
        }
        assert(views(d@).take(d.len() as int) =~= views(d@));
        Ok(r)
    }
}

/// A copy of the strings.
pub fn clone_strings(v: &Vec<String>) -> (r: Vec<String>)
    ensures
        views(r@) == views(v@),
{
    let mut r: Vec<String> = Vec::new();
    let mut i: usize = 0;
    while i < v.len()
        invariant
            i <= v.len(),
            views(r@) == views(v@).take(i as int),
        decreases v.len() - i,
    {
        let ghost before = r@;
        r.push(v[i].clone());
        assert(views(r@) =~= views(v@).take(i + 1)) by {
            assert(views(r@) =~= views(before).push(v@[i as int]@));
        }
        i = i + 1;
    }
    assert(views(v@).take(v.len() as int) =~= views(v@));
    r
}

// ───────────────────────────── CPU ─────────────────────────────

/// The model of a `model name` line: its second `:`-field, trimmed.
pub open spec fn model_of_line(l: Seq<char>) -> Option<Seq<char>> {
    if starts_with(l, "model name"@) && split_char(l, ':').len() > 1 {
        Some(trim(split_char(l, ':')[1]))
    } else {
        None
    }
}

/// The model of the first `model name` line that has one.
pub open spec fn first_model(ls: Seq<Seq<char>>) -> Option<Seq<char>>
    decreases ls.len(),
{
    if ls.len() == 0 {
        None
    } else {
        match first_model(ls.drop_last()) {
            Some(m) => Some(m),
            None => model_of_line(ls.last()),
        }
    }
}

/// `/proc/cpuinfo` with every `model name` line naming `cpu`.
pub open spec fn masked_cpuinfo(ls: Seq<Seq<char>>, cpu: Seq<char>) -> Seq<char>
    decreases ls.len(),
{
    if ls.len() == 0 {
        seq![]
    } else {
        masked_cpuinfo(ls.drop_last(), cpu) + if starts_with(ls.last(), "model name"@) {
            "model name\t: "@ + cpu + "\n"@
        } else {
            ls.last() + "\n"@
        }
    }
}

/// A line free of line breaks and carriage returns.
pub open spec fn plain_line(l: Seq<char>) -> bool {
    forall|j: int| 0 <= j < l.len() ==> #[trigger] l[j] != '\n' && l[j] != '\r'
}

/// The line that names the CPU model.
pub open spec fn model_line(cpu: Seq<char>) -> Seq<char> {
    "model name\t: "@ + cpu
}

spec fn masked_line(l: Seq<char>, cpu: Seq<char>) -> Seq<char> {
    if starts_with(l, "model name"@) {
        model_line(cpu)
    } else {
        l
    }
}

proof fn lemma_masked_first(ls: Seq<Seq<char>>, cpu: Seq<char>)
    requires
        ls.len() > 0,
    ensures
        masked_cpuinfo(ls, cpu) == masked_line(ls[0], cpu) + "\n"@ + masked_cpuinfo(ls.drop_first(), cpu),
    decreases ls.len(),
{
    if ls.len() == 1 {
        assert(ls.drop_last() =~= Seq::<Seq<char>>::empty());
        assert(ls.drop_first() =~= Seq::<Seq<char>>::empty());
        assert(masked_cpuinfo(ls, cpu) =~= masked_line(ls[0], cpu) + "\n"@ + masked_cpuinfo(ls.drop_first(), cpu));
    } else {
        let init = ls.drop_last();
        lemma_masked_first(init, cpu);
        assert(init.drop_first() =~= ls.drop_first().drop_last());
        assert(ls.drop_first().last() == ls.last());
        assert(masked_cpuinfo(ls, cpu) =~= masked_line(ls[0], cpu) + "\n"@ + masked_cpuinfo(ls.drop_first(), cpu));
    }
}

proof fn lemma_lines_of_masked(ls: Seq<Seq<char>>, cpu: Seq<char>)
    requires
        forall|i: int| 0 <= i < ls.len() ==> plain_line(#[trigger] ls[i]),
        plain_line(cpu),
    ensures
        lines(masked_cpuinfo(ls, cpu)) == ls.map_values(|l: Seq<char>| masked_line(l, cpu)),
    decreases ls.len(),
{
    if ls.len() == 0 {
        assert(ls.map_values(|l: Seq<char>| masked_line(l, cpu)) =~= Seq::<Seq<char>>::empty());
    } else {
        reveal_strlit("model name\t: ");
        let l0 = masked_line(ls[0], cpu);
        lemma_masked_first(ls, cpu);
        lemma_lines_of_masked(ls.drop_first(), cpu);
        assert(plain_line(ls[0]));
        assert forall|j: int| 0 <= j < l0.len() implies l0[j] != '\n' && l0[j] != '\r' by {
            if starts_with(ls[0], "model name"@) {
                if j >= 13 {
                    assert(l0[j] == cpu[j - 13]);
                }
            } else {
                assert(l0[j] == ls[0][j]);
            }
        }
        lemma_lines_cons(l0, masked_cpuinfo(ls.drop_first(), cpu));
        if l0.len() > 0 {
            assert(l0.last() == l0[l0.len() - 1]);
        }
        assert(strip_cr(l0) == l0);
        assert(ls.map_values(|l: Seq<char>| masked_line(l, cpu)) =~= seq![l0] + ls.drop_first().map_values(
            |l: Seq<char>| masked_line(l, cpu),
        ));
    }
}

/// In the staged `cpuinfo` no model of the real one survives: it has one
/// line per line of the real `cpuinfo`, every line that starts with
/// `model name` names the profile's CPU, and every other line is the real
/// one, unchanged (for lines and a model free of line breaks and carriage
/// returns).
pub proof fn lemma_no_real_model_survives(ls: Seq<Seq<char>>, cpu: Seq<char>)
    requires
        forall|i: int| 0 <= i < ls.len() ==> plain_line(#[trigger] ls[i]),
        plain_line(cpu),
    ensures
        lines(masked_cpuinfo(ls, cpu)).len() == ls.len(),
        forall|j: int|
            0 <= j < ls.len() && starts_with(#[trigger] lines(masked_cpuinfo(ls, cpu))[j], "model name"@)
                ==> lines(masked_cpuinfo(ls, cpu))[j] == "model name\t: "@ + cpu,
        forall|j: int|
            0 <= j < ls.len() && !starts_with(#[trigger] ls[j], "model name"@) ==> lines(
                masked_cpuinfo(ls, cpu),
            )[j] == ls[j],
{
    lemma_lines_of_masked(ls, cpu);
    let out = lines(masked_cpuinfo(ls, cpu));
    assert forall|j: int|
        0 <= j < ls.len() && starts_with(#[trigger] out[j], "model name"@) implies out[j]
            == "model name\t: "@ + cpu by {
        assert(out[j] == masked_line(ls[j], cpu));
        if !starts_with(ls[j], "model name"@) {
            assert(out[j] == ls[j]);
        }
    }
    assert forall|j: int| 0 <= j < ls.len() && !starts_with(#[trigger] ls[j], "model name"@) implies out[j]
        == ls[j] by {
        assert(out[j] == masked_line(ls[j], cpu));
    }
}

pub struct CpuProvider;

impl CpuProvider {
    pub fn signal_kind(&self) -> (k: SignalKind)
        ensures
            k == SignalKind::Cpu,
    {
        SignalKind::Cpu
    }

    /// The CPU model in the contents of `/proc/cpuinfo` (empty if none).
    pub fn real_value(&self, cpuinfo: &str) -> (r: SignalValue)
        ensures
            r matches SignalValue::Cpu(v) && v@ == match first_model(lines(cpuinfo@)) {
                Some(m) => m,
                None => seq![],
            },
    {
        let ls = lines_exec(cpuinfo);
        let mut i: usize = 0;
        while i < ls.len()
            invariant
                i <= ls.len(),
                views(ls@) == lines(cpuinfo@),
                first_model(views(ls@).take(i as int)) is None,
            decreases ls.len() - i,
        {
            proof {
                assert(views(ls@).take(i + 1).drop_last() =~= views(ls@).take(i as int));
                assert(views(ls@).take(i + 1).last() == ls@[i as int]@);
            }
            if str_starts_with(ls[i].as_str(), "model name") {
                let parts = split_char_exec(ls[i].as_str(), ':');
                if parts.len() > 1 {
                    let m = trim_exec(parts[1].as_str());
                    proof {
                        lemma_first_model_found(views(ls@), i as int);
                    }
                    return SignalValue::Cpu(m);
                }
            }
            i = i + 1;
        }
        assert(views(ls@).take(ls.len() as int) =~= views(ls@));
        SignalValue::Cpu(String::new())
    }

    /// The profile's CPU model.
    pub fn projected_value(&self, profile: &Profile) -> (r: Result<SignalValue, ProviderError>)
        ensures
            match profile.cpu_model {
                Some(c) => r matches Ok(SignalValue::Cpu(v)) && v@ == c@,
                None => r matches Err(ProviderError::MissingField { profile: p, field: f })
                    && p@ == profile.name@ && f@ == "cpu_model"@,
            },
    {
        match &profile.cpu_model {
            Some(c) => Ok(SignalValue::Cpu(c.clone())),
            None => Err(missing(profile, "cpu_model")),
        }
    }

    /// Contents of the staged `cpuinfo`: the host's `/proc/cpuinfo` with every
    /// `model name` line naming the profile's model.
    pub fn staged_file(&self, profile: &Profile, real_cpuinfo: &str) -> (r: Result<String, ProviderError>)
        ensures
            match profile.cpu_model {
                Some(c) => r matches Ok(t) && t@ == masked_cpuinfo(lines(real_cpuinfo@), c@),
                None => r matches Err(ProviderError::MissingField { profile: p, field: f })
                    && p@ == profile.name@ && f@ == "cpu_model field"@,
            },
    {
        let cpu = match &profile.cpu_model {
            Some(c) => c,
            None => {
                return Err(missing(profile, "cpu_model field"));
            },
        };
        let ls = lines_exec(real_cpuinfo);
        let mut r = String::new();
        let mut i: usize = 0;
        while i < ls.len()
            invariant
                i <= ls.len(),
                views(ls@) == lines(real_cpuinfo@),
                r@ == masked_cpuinfo(views(ls@).take(i as int), cpu@),
            decreases ls.len() - i,
        {
            if str_starts_with(ls[i].as_str(), "model name") {
                r.append("model name\t: ");
                r.append(cpu.as_str());
                r.append("\n");
            } else {
                r.append(ls[i].as_str());
                r.append("\n");
            }
            proof {
                assert(views(ls@).take(i + 1).drop_last() =~= views(ls@).take(i as int));
                assert(views(ls@).take(i + 1).last() == ls@[i as int]@);
            }
            i = i + 1;
        }
        assert(views(ls@).take(ls.len() as int) =~= views(ls@));
        Ok(r)
    }
}

proof fn lemma_first_model_found(ls: Seq<Seq<char>>, i: int)
    requires
        0 <= i < ls.len(),
        first_model(ls.take(i)) is None,
        model_of_line(ls[i]) is Some,
    ensures
        first_model(ls) == model_of_line(ls[i]),
    decreases ls.len() - i,
{
    if i + 1 < ls.len() {
        assert(ls.drop_last().take(i) =~= ls.take(i));
        lemma_first_model_found(ls.drop_last(), i);
    } else {
        assert(ls.take(i) =~= ls.drop_last());
    }
}

// ───────────────────────────── MAC address ─────────────────────────────

pub struct MacProvider;

impl MacProvider {
    pub fn signal_kind(&self) -> (k: SignalKind)
        ensures
            k == SignalKind::MacAddress,
    {
        SignalKind::MacAddress
    }

    /// The MAC address of `eth0`, else of `wlan0`, else all zeros, trimmed.
    pub fn real_value(&self, eth0: Option<&str>, wlan0: Option<&str>) -> (r: SignalValue)
        ensures
            r matches SignalValue::MacAddress(v) && v@ == trim(
                match eth0 {
                    Some(e) => e@,
                    None => match wlan0 {
                        Some(w) => w@,
                        None => "00:00:00:00:00:00\n"@,
                    },
                },
            ),
    {
        let raw = match eth0 {
            Some(e) => e,
            None => match wlan0 {
                Some(w) => w,
                None => "00:00:00:00:00:00\n",
            },
        };
        SignalValue::MacAddress(trim_exec(raw))
    }

    /// The profile's MAC address.
    pub fn projected_value(&self, profile: &Profile) -> (r: Result<SignalValue, ProviderError>)
        ensures
            match profile.mac_address {
                Some(m) => r matches Ok(SignalValue::MacAddress(v)) && v@ == m@,
                None => r matches Err(ProviderError::MissingField { profile: p, field: f })
                    && p@ == profile.name@ && f@ == "mac_address"@,
            },
    {
        match &profile.mac_address {
            Some(m) => Ok(SignalValue::MacAddress(m.clone())),
            None => Err(missing(profile, "mac_address")),
        }
    }

    /// Contents of the staged `mac_address`: the profile's MAC and a newline.
    pub fn staged_file(&self, profile: &Profile) -> (r: Result<String, ProviderError>)
        ensures
            match profile.mac_address {
                Some(m) => r matches Ok(c) && c@ == m@ + "\n"@,
                None => r matches Err(ProviderError::MissingField { profile: p, field: f })
                    && p@ == profile.name@ && f@ == "mac_address field"@,
            },
    {
        match &profile.mac_address {
            Some(m) => Ok(concat2(m.as_str(), "\n")),
            None => Err(missing(profile, "mac_address field")),
        }
    }
}

} // verus!
