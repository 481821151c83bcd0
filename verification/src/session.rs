//! Session-boundary leak detection: which processes belong to a sandbox, and
//! whether a process has an established TCP connection.
use crate::runner::push_owned;
use crate::text::{
    chars_of, contains_exec, contains_sub, lines, lines_exec, parse_u32, parse_u32_exec, split_ws,
    split_ws_exec, str_eq, trim, trim_exec, u32_to_string, decimal, views,
};
use vstd::prelude::*;

verus! {

// ───────────────────────────── /proc/<pid>/net/tcp ─────────────────────────────

/// Some row after the header has the state field (the fourth column) `01`,
/// which is ESTABLISHED.
pub open spec fn has_established(content: Seq<char>) -> bool {
    exists|i: int|
        1 <= i < lines(content).len() && split_ws(#[trigger] lines(content)[i]).len() >= 4
            && split_ws(lines(content)[i])[3] == "01"@
}

/// Whether a `/proc/<pid>/net/tcp` (or `tcp6`) table lists an established
/// connection.
pub fn check_established(net_content: &str) -> (r: bool)
    ensures
        r == has_established(net_content@),
{
    let ls = lines_exec(net_content);
    let mut i: usize = 1;
    while i < ls.len()
        invariant
            1 <= i,
            views(ls@) == lines(net_content@),
            forall|j: int|
                1 <= j < i && j < ls@.len() ==> !(split_ws(#[trigger] lines(net_content@)[j]).len()
                    >= 4 && split_ws(lines(net_content@)[j])[3] == "01"@),
        decreases ls.len() - i,
    {
        let parts = split_ws_exec(ls[i].as_str());
        assert(ls@[i as int]@ == lines(net_content@)[i as int]);
        if parts.len() >= 4 {
            if str_eq(parts[3].as_str(), "01") {
                assert(split_ws(lines(net_content@)[i as int])[3] == "01"@);
                return true;
            }
        }
        i = i + 1;
    }
    false
}

// ───────────────────────────── /proc/<pid>/stat ─────────────────────────────

/// Index of the last `c` in `s`, or -1.
pub open spec fn rfind_char(s: Seq<char>, c: char) -> int
    decreases s.len(),
{
    if s.len() == 0 {
        -1
    } else if s.last() == c {
        s.len() - 1
    } else {
        rfind_char(s.drop_last(), c)
    }
}

/// The parent PID in a `/proc/<pid>/stat` line: the second field after the
/// last `)` (which closes the command name).
pub open spec fn stat_ppid(stat: Seq<char>) -> Option<u32> {
    let r = rfind_char(stat, ')');
    if r < 0 {
        None
    } else {
        let parts = split_ws(stat.subrange(r + 1, stat.len() as int));
        if parts.len() >= 2 {
            parse_u32(parts[1])
        } else {
            None
        }
    }
}

pub(crate) proof fn lemma_rfind_char(s: Seq<char>, c: char, i: int)
    requires
        -1 <= i < s.len(),
        forall|j: int| i < j < s.len() ==> s[j] != c,
        i >= 0 ==> s[i] == c,
    ensures
        rfind_char(s, c) == i,
    decreases s.len(),
{
    if s.len() > 0 && s.last() != c {
        assert forall|j: int| i < j < s.drop_last().len() implies s.drop_last()[j] != c by {
            assert(s.drop_last()[j] == s[j]);
        }
        if i >= 0 {
            assert(s.drop_last()[i] == s[i]);
        }
        lemma_rfind_char(s.drop_last(), c, i);
    }
}

pub fn parse_stat_ppid(stat: &str) -> (r: Option<u32>)
    ensures
        r == stat_ppid(stat@),
{
    let v = chars_of(stat);
    let mut k = v.len();
    while k > 0 && v[k - 1] != ')'
        invariant
            k <= v.len(),
            forall|j: int| k <= j < v.len() ==> v@[j] != ')',
        decreases k,
    {
        k = k - 1;
    }
    proof {
        lemma_rfind_char(v@, ')', k - 1);
    }
    if k == 0 {
        return None;
    }
    let mut rest = String::new();
    let mut i = k;
    while i < v.len()
        invariant
            k <= i <= v.len(),
            rest@ == v@.subrange(k as int, i as int),
        decreases v.len() - i,
    {
        crate::text::push_char(&mut rest, v[i]);
        i = i + 1;
        assert(rest@ =~= v@.subrange(k as int, i as int));
    }
    let parts = split_ws_exec(rest.as_str());
    if parts.len() >= 2 {
        parse_u32_exec(parts[1].as_str())
    } else {
        None
    }
}

/// Whether a `bwrap` process was started for a sandbox of this tool: its
/// command name is `bwrap` and its command line names a run directory or a
/// profile.
pub open spec fn is_sandbox_bwrap(comm: Seq<char>, cmdline: Seq<char>) -> bool {
    trim(comm) == "bwrap"@ && (contains_sub(cmdline, "/tmp/mirage-"@) || contains_sub(
        cmdline,
        "MIRAGE_PROFILE"@,
    ))
}

pub fn is_sandbox_bwrap_exec(comm: &str, cmdline: &str) -> (r: bool)
    ensures
        r == is_sandbox_bwrap(comm@, cmdline@),
{
    let name = trim_exec(comm);
    if !str_eq(name.as_str(), "bwrap") {
        return false;
    }
    let cv = chars_of(cmdline);
    let a = chars_of("/tmp/mirage-");
    let b = chars_of("MIRAGE_PROFILE");
    contains_exec(&cv, &a) || contains_exec(&cv, &b)
}

// ───────────────────────────── process tree ─────────────────────────────

/// `x` is a root, or (within `d` steps) the child of a process that is.
pub open spec fn reach_within(roots: Seq<u32>, procs: Seq<(u32, u32)>, x: u32, d: nat) -> bool
    decreases d,
{
    roots.contains(x) || (d > 0 && exists|k: int|
        0 <= k < procs.len() && (#[trigger] procs[k]).0 == x && reach_within(
            roots,
            procs,
            procs[k].1,
            (d - 1) as nat,
        ))
}

/// `x` descends from (or is) one of the roots, through the `(pid, ppid)` edges.
pub open spec fn descends(roots: Seq<u32>, procs: Seq<(u32, u32)>, x: u32) -> bool {
    exists|d: nat| reach_within(roots, procs, x, d)
}

proof fn lemma_closed_contains_descendants(
    roots: Seq<u32>,
    procs: Seq<(u32, u32)>,
    res: Seq<u32>,
    x: u32,
    d: nat,
)
    requires
        forall|y: u32| roots.contains(y) ==> res.contains(y),
        forall|k: int| 0 <= k < procs.len() && res.contains((#[trigger] procs[k]).1) ==> res.contains(procs[k].0),
        reach_within(roots, procs, x, d),
    ensures
        res.contains(x),
    decreases d,
{
    if !roots.contains(x) {
        let k = choose|k: int|
            0 <= k < procs.len() && (#[trigger] procs[k]).0 == x && reach_within(
                roots,
                procs,
                procs[k].1,
                (d - 1) as nat,
            );
        lemma_closed_contains_descendants(roots, procs, res, procs[k].1, (d - 1) as nat);
    }
}

fn contains_u32(v: &Vec<u32>, x: u32) -> (r: bool)
    ensures
        r == v@.contains(x),
{
    let mut i: usize = 0;
    while i < v.len()
        invariant
            i <= v.len(),
            forall|j: int| 0 <= j < i ==> v@[j] != x,
        decreases v.len() - i,
    {
        if v[i] == x {
            return true;
        }
        i = i + 1;
    }
    false
}

pub open spec fn count_true(m: Seq<bool>) -> nat
    decreases m.len(),
{
    if m.len() == 0 {
        0
    } else {
        count_true(m.drop_last()) + if m.last() {
            1nat
        } else {
            0nat
        }
    }
}

proof fn lemma_count_true_bound(m: Seq<bool>)
    ensures
        count_true(m) <= m.len(),
    decreases m.len(),
{
    if m.len() > 0 {
        lemma_count_true_bound(m.drop_last());
    }
}

proof fn lemma_count_true_set(m: Seq<bool>, i: int)
    requires
        0 <= i < m.len(),
        !m[i],
    ensures
        count_true(m.update(i, true)) == count_true(m) + 1,
    decreases m.len(),
{
    let u = m.update(i, true);
    if i == m.len() - 1 {
        assert(u.drop_last() =~= m.drop_last());
    } else {
        assert(u.drop_last() =~= m.drop_last().update(i, true));
        lemma_count_true_set(m.drop_last(), i);
    }
}

/// The processes that belong to a sandbox: the given `bwrap` processes and
/// all their descendants, following the `(pid, ppid)` pairs of the process
/// table.  Each appears once.
pub fn sandboxed_pids(roots: &Vec<u32>, procs: &Vec<(u32, u32)>) -> (res: Vec<u32>)
    ensures
        res@.no_duplicates(),
        forall|x: u32| res@.contains(x) <==> descends(roots@, procs@, x),
{
    let mut res: Vec<u32> = Vec::new();
    let mut i: usize = 0;
    while i < roots.len()
        invariant
            i <= roots.len(),
            res@.no_duplicates(),
            forall|x: u32| res@.contains(x) ==> roots@.contains(x),
            forall|j: int| 0 <= j < i ==> res@.contains(#[trigger] roots@[j]),
        decreases roots.len() - i,
    {
        let r = roots[i];
        let ghost before = res@;
        if !contains_u32(&res, r) {
            res.push(r);
            proof {
                assert(res@[before.len() as int] == r);
                assert forall|j: int| 0 <= j < i implies res@.contains(#[trigger] roots@[j]) by {
                    let q = choose|q: int| 0 <= q < before.len() && before[q] == roots@[j];
                    assert(res@[q] == roots@[j]);
                }
                assert forall|x: u32| res@.contains(x) implies roots@.contains(x) by {
                    let q = choose|q: int| 0 <= q < res@.len() && res@[q] == x;
                    if q < before.len() {
                        assert(before[q] == x);
                    } else {
                        assert(roots@[i as int] == x);
                    }
                }
                assert(res@.no_duplicates()) by {
                    assert forall|a: int, b: int| 0 <= a < b < res@.len() implies res@[a] != res@[b] by {
                        assert(before[a] == res@[a]);
                        if b < before.len() {
                            assert(before[b] == res@[b]);
                        }
                    }
                }
            }
        }
        i = i + 1;
    }
    assert forall|x: u32| roots@.contains(x) implies res@.contains(x) by {
        let j = choose|j: int| 0 <= j < roots@.len() && roots@[j] == x;
        assert(res@.contains(roots@[j]));
    }
    assert forall|x: u32| res@.contains(x) implies reach_within(roots@, procs@, x, 0) by {}
    let mut marks: Vec<bool> = Vec::new();
    let mut j: usize = 0;
    while j < procs.len()
        invariant
            j <= procs.len(),
            marks@.len() == j,
            forall|k: int| 0 <= k < j ==> !marks@[k],
        decreases procs.len() - j,
    {
        marks.push(false);
        j = j + 1;
    }
    proof {
        assert(count_true(marks@) == 0) by {
            lemma_count_zero(marks@);
        }
    }
    let mut changed = true;
    while changed
        invariant
            res@.no_duplicates(),
            marks@.len() == procs@.len(),
            forall|x: u32| roots@.contains(x) ==> res@.contains(x),
            forall|x: u32| #[trigger] res@.contains(x) ==> exists|d: nat| reach_within(roots@, procs@, x, d),
            forall|k: int| 0 <= k < marks@.len() && #[trigger] marks@[k] ==> res@.contains(procs@[k].0),
            !changed ==> forall|k: int|
                0 <= k < procs@.len() && res@.contains((#[trigger] procs@[k]).1) ==> res@.contains(procs@[k].0),
        decreases procs@.len() - count_true(marks@), if changed { 1int } else { 0int },
    {
        changed = false;
        proof {
            lemma_count_true_bound(marks@);
        }
        let ghost count_before = count_true(marks@);
        let mut k: usize = 0;
        while k < procs.len()
            invariant
                k <= procs.len(),
                res@.no_duplicates(),
                marks@.len() == procs@.len(),
                forall|x: u32| roots@.contains(x) ==> res@.contains(x),
                forall|x: u32| #[trigger] res@.contains(x) ==> exists|d: nat| reach_within(roots@, procs@, x, d),
                forall|k2: int| 0 <= k2 < marks@.len() && #[trigger] marks@[k2] ==> res@.contains(procs@[k2].0),
                changed ==> count_true(marks@) > count_before,
                !changed ==> count_true(marks@) == count_before,
                !changed ==> forall|k2: int|
                    0 <= k2 < k && res@.contains((#[trigger] procs@[k2]).1) ==> res@.contains(procs@[k2].0),
            decreases procs.len() - k,
        {
            let (pid, ppid) = procs[k];
            if contains_u32(&res, ppid) && !contains_u32(&res, pid) {
                proof {
                    let d = choose|d: nat| reach_within(roots@, procs@, ppid, d);
                    assert(procs@[k as int].0 == pid);
                    assert(reach_within(roots@, procs@, pid, d + 1));
                    assert(!marks@[k as int]);
                    lemma_count_true_set(marks@, k as int);
                }
                let ghost old_res = res@;
                res.push(pid);
                marks.set(k, true);
                changed = true;
                proof {
                    assert forall|x: u32| #[trigger] res@.contains(x) implies exists|d: nat|
                        reach_within(roots@, procs@, x, d) by {
                        if x != pid {
                            assert(old_res.contains(x));
                        }
                    }
                    assert forall|x: u32| roots@.contains(x) implies res@.contains(x) by {
                        assert(old_res.contains(x));
                        let q = choose|q: int| 0 <= q < old_res.len() && old_res[q] == x;
                        assert(res@[q] == x);
                    }
                    assert forall|k2: int| 0 <= k2 < marks@.len() && #[trigger] marks@[k2]
                        implies res@.contains(procs@[k2].0) by {
                        if k2 != k {
                            assert(old_res.contains(procs@[k2].0));
                            let q = choose|q: int| 0 <= q < old_res.len() && old_res[q] == procs@[k2].0;
                            assert(res@[q] == procs@[k2].0);
                        } else {
                            assert(res@[old_res.len() as int] == pid);
                        }
                    }
                    assert(res@.no_duplicates()) by {
                        assert forall|a: int, b: int| 0 <= a < b < res@.len() implies res@[a] != res@[b] by {
                            if b == old_res.len() {
                                assert(old_res[a] == res@[a]);
                            } else {
                                assert(old_res[a] == res@[a]);
                                assert(old_res[b] == res@[b]);
                            }
                        }
                    }
                }
            }
            k = k + 1;
        }
        proof {
            lemma_count_true_bound(marks@);
        }
    }
    proof {
        assert forall|x: u32| res@.contains(x) <==> descends(roots@, procs@, x) by {
            if descends(roots@, procs@, x) {
                let d = choose|d: nat| reach_within(roots@, procs@, x, d);
                lemma_closed_contains_descendants(roots@, procs@, res@, x, d);
            }
        }
    }
    res
}

proof fn lemma_count_zero(m: Seq<bool>)
    requires
        forall|k: int| 0 <= k < m.len() ==> !m[k],
    ensures
        count_true(m) == 0,
    decreases m.len(),
{
    if m.len() > 0 {
        assert forall|k: int| 0 <= k < m.drop_last().len() implies !m.drop_last()[k] by {
            assert(m.drop_last()[k] == m[k]);
        }
        lemma_count_zero(m.drop_last());
    }
}

// ───────────────────────────── the warning ─────────────────────────────

/// The leak warning is due when a sandboxed process and the host are both on
/// the network and warnings are not suppressed.
pub open spec fn leak_warning_due(sandboxed_active: bool, host_active: bool, suppress: bool) -> bool {
    sandboxed_active && host_active && !suppress
}

pub fn should_warn_leak(sandboxed_active: bool, host_active: bool, suppress: bool) -> (r: bool)
    ensures
        r == leak_warning_due(sandboxed_active, host_active, suppress),
{
    sandboxed_active && host_active && !suppress
}

/// The name shown for the host process: its command name, or `systemd`.
pub open spec fn host_name(comm: Option<Seq<char>>) -> Seq<char> {
    match comm {
        Some(c) => c,
        None => "systemd"@,
    }
}

pub open spec fn leak_warning_text(sandboxed_pid: u32, host_comm: Option<Seq<char>>) -> Seq<
    Seq<char>,
> {
    seq![
        "\n[WARN] SESSION BOUNDARY LEAK RISK"@,
        "Sandboxed process "@ + decimal(sandboxed_pid as nat) + " (profile: unknown) and host process"@,
        "1 ("@ + host_name(host_comm) + ") are both active on the network at the"@,
        "same time."@,
        "A remote observer correlating connection timing, TLS"@,
        "fingerprints, or DNS queries may link the two identities."@,
        "Consider closing host-side browser or app sessions before"@,
        "starting a profile session, or use `mirage shell` so all"@,
        "activity is contained within one session.\n"@,
    ]
}

/// The lines of the leak warning (PID 1 stands for the host).
pub fn leak_warning_lines(sandboxed_pid: u32, host_comm: Option<&str>) -> (r: Vec<String>)
    ensures
        views(r@) == leak_warning_text(
            sandboxed_pid,
            match host_comm {
                Some(c) => Some(c@),
                None => None,
            },
        ),
{
    let mut r: Vec<String> = Vec::new();
    push_owned(&mut r, String::from_str("\n[WARN] SESSION BOUNDARY LEAK RISK"));
    let mut l = String::from_str("Sandboxed process ");
    let pid = u32_to_string(sandboxed_pid);
    l.append(pid.as_str());
    l.append(" (profile: unknown) and host process");
    push_owned(&mut r, l);
    let mut h = String::from_str("1 (");
    match host_comm {
        Some(c) => h.append(c),
        None => h.append("systemd"),
    }
    h.append(") are both active on the network at the");
    push_owned(&mut r, h);
    push_owned(&mut r, String::from_str("same time."));
    push_owned(&mut r, String::from_str("A remote observer correlating connection timing, TLS"));
    push_owned(&mut r, String::from_str("fingerprints, or DNS queries may link the two identities."));
    push_owned(&mut r, String::from_str("Consider closing host-side browser or app sessions before"));
    push_owned(&mut r, String::from_str("starting a profile session, or use `mirage shell` so all"));
    push_owned(&mut r, String::from_str("activity is contained within one session.\n"));
    let ghost hc = match host_comm {
        Some(c) => Some(c@),
        None => None,
    };
    assert(views(r@) =~= leak_warning_text(sandboxed_pid, hc));
    r
}

/// Any row after the header whose fourth field is `01` (ESTABLISHED) makes
/// the table report an established connection, wherever the row stands;
/// and a table of no more than its header reports none.
pub proof fn lemma_established_row_counts(content: Seq<char>, i: int)
    ensures
        1 <= i < lines(content).len() && split_ws(lines(content)[i]).len() >= 4 && split_ws(
            lines(content)[i],
        )[3] == "01"@ ==> has_established(content),
        lines(content).len() <= 1 ==> !has_established(content),
{
}

} // verus!
