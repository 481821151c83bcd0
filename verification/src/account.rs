//! The user account a sandbox shows: the user name, and a `passwd` whose
//! entry for the real user carries the profile's name and home directory.
use crate::protocol::{Profile, SignalKind, SignalValue};
use crate::text::{decimal, lines, lines_exec, split_char, split_char_exec, str_eq, u32_to_string, views};
use vstd::prelude::*;

verus! {

/// A `passwd` entry of the user with this uid (as decimal text).
pub open spec fn is_user_entry(line: Seq<char>, uid: Seq<char>) -> bool {
    split_char(line, ':').len() >= 6 && split_char(line, ':')[2] == uid
}

/// The entry rewritten for `user`: name and home directory replaced.
pub open spec fn renamed_entry(line: Seq<char>, user: Seq<char>) -> Seq<char> {
    let p = split_char(line, ':');
    user + ":"@ + p[1] + ":"@ + p[2] + ":"@ + p[3] + ":"@ + p[4] + ":"@ + "/home/"@ + user + ":"@
        + p[6] + "\n"@
}

/// The whole `passwd`, with every entry of the uid rewritten.
pub open spec fn renamed_passwd(ls: Seq<Seq<char>>, uid: Seq<char>, user: Seq<char>) -> Seq<char>
    decreases ls.len(),
{
    if ls.len() == 0 {
        seq![]
    } else {
        renamed_passwd(ls.drop_last(), uid, user) + if is_user_entry(ls.last(), uid) {
            renamed_entry(ls.last(), user)
        } else {
            ls.last() + "\n"@
        }
    }
}

/// Every entry of the uid has a seventh field (the shell) to carry over.
pub open spec fn entries_complete(ls: Seq<Seq<char>>, uid: Seq<char>) -> bool {
    forall|i: int|
        0 <= i < ls.len() && is_user_entry(#[trigger] ls[i], uid) ==> split_char(ls[i], ':').len()
            >= 7
}

pub open spec fn has_user_entry(ls: Seq<Seq<char>>, uid: Seq<char>) -> bool {
    exists|i: int| 0 <= i < ls.len() && is_user_entry(#[trigger] ls[i], uid)
}

/// One line of the staged `passwd`, and whether it was the user's entry.
fn passwd_line(line: &str, uid: &str, user: &str) -> (r: (String, bool))
    requires
        is_user_entry(line@, uid@) ==> split_char(line@, ':').len() >= 7,
    ensures
        r.1 == is_user_entry(line@, uid@),
        r.0@ == if r.1 {
            renamed_entry(line@, user@)
        } else {
            line@ + "\n"@
        },
{
    let parts = split_char_exec(line, ':');
    if parts.len() >= 6 && str_eq(parts[2].as_str(), uid) {
        let mut out = String::from_str(user);
        out.append(":");
        out.append(parts[1].as_str());
        out.append(":");
        out.append(parts[2].as_str());
        out.append(":");
        out.append(parts[3].as_str());
        out.append(":");
        out.append(parts[4].as_str());
        out.append(":");
        out.append("/home/");
        out.append(user);
        out.append(":");
        out.append(parts[6].as_str());
        out.append("\n");
        (out, true)
    } else {
        let mut out = String::from_str(line);
        out.append("\n");
        (out, false)
    }
}

proof fn lemma_renamed_step(ls: Seq<Seq<char>>, i: int, uid: Seq<char>, user: Seq<char>)
    requires
        0 <= i < ls.len(),
    ensures
        renamed_passwd(ls.take(i + 1), uid, user) == renamed_passwd(ls.take(i), uid, user) + if is_user_entry(ls[i], uid) {
            renamed_entry(ls[i], user)
        } else {
            ls[i] + "\n"@
        },
        has_user_entry(ls.take(i + 1), uid) == (has_user_entry(ls.take(i), uid) || is_user_entry(ls[i], uid)),
{
    let t = ls.take(i + 1);
    assert(t.drop_last() =~= ls.take(i));
    assert(t.last() == ls[i]);
    if has_user_entry(t, uid) {
        let k = choose|k: int| 0 <= k < t.len() && is_user_entry(#[trigger] t[k], uid);
        if k < i {
            assert(ls.take(i)[k] == t[k]);
        }
    }
    if has_user_entry(ls.take(i), uid) {
        let k = choose|k: int| 0 <= k < i && is_user_entry(#[trigger] ls.take(i)[k], uid);
        assert(t[k] == ls.take(i)[k]);
    }
    if is_user_entry(ls[i], uid) {
        assert(is_user_entry(t[i], uid));
    }
}

pub struct UsernameProvider;

impl UsernameProvider {
    pub fn signal_kind(&self) -> (k: SignalKind)
        ensures
            k == SignalKind::Username,
    {
        SignalKind::Username
    }

    /// The real user: `$USER`, or `nobody`.
    pub fn real_value(&self, user_env: Option<&str>) -> (r: SignalValue)
        ensures
            r matches SignalValue::Username(v) && v@ == match user_env {
                Some(u) => u@,
                None => "nobody"@,
            },
    {
        match user_env {
            Some(u) => SignalValue::Username(String::from_str(u)),
            None => SignalValue::Username(String::from_str("nobody")),
        }
    }

    /// The profile's user name, or `devuser`.
    pub fn projected_value(&self, profile: &Profile) -> (r: SignalValue)
        ensures
            r matches SignalValue::Username(v) && v@ == match profile.username {
                Some(u) => u@,
                None => "devuser"@,
            },
    {
        match &profile.username {
            Some(u) => SignalValue::Username(u.clone()),
            None => SignalValue::Username(String::from_str("devuser")),
        }
    }

    /// Whether `staged_file` can rewrite this `passwd` for this uid: every
    /// entry of the uid has its seventh field.
    pub fn can_rewrite(&self, passwd: &str, uid: u32) -> (r: bool)
        ensures
            r == entries_complete(lines(passwd@), decimal(uid as nat)),
    {
        let ls = lines_exec(passwd);
        let uid_s = u32_to_string(uid);
        let mut i: usize = 0;
        while i < ls.len()
            invariant
                i <= ls.len(),
                views(ls@) == lines(passwd@),
                uid_s@ == decimal(uid as nat),
                forall|j: int|
                    0 <= j < i && is_user_entry(#[trigger] lines(passwd@)[j], uid_s@) ==> split_char(
                        lines(passwd@)[j],
                        ':',
                    ).len() >= 7,
            decreases ls.len() - i,
        {
            let parts = split_char_exec(ls[i].as_str(), ':');
            assert(ls@[i as int]@ == lines(passwd@)[i as int]);
            if parts.len() >= 6 && str_eq(parts[2].as_str(), uid_s.as_str()) && parts.len() < 7 {
                return false;
            }
            i = i + 1;
        }
        true
    }

    /// The staged `passwd`: the host's, with the real user's entry (uid
    /// `uid`) renamed to the profile's user and home.  Nothing is staged when
    /// the profile names no user or the uid has no entry.
    pub fn staged_file(&self, profile: &Profile, passwd: &str, uid: u32) -> (r: Option<String>)
        requires
            profile.username is Some ==> entries_complete(lines(passwd@), decimal(uid as nat)),
        ensures
            match profile.username {
                Some(u) => if has_user_entry(lines(passwd@), decimal(uid as nat)) {
                    r matches Some(t) && t@ == renamed_passwd(lines(passwd@), decimal(uid as nat), u@)
                } else {
                    r is None
                },
                None => r is None,
            },
    {
        let user = match &profile.username {
            Some(u) => u,
            None => {
                return None;
            },
        };
        let ls = lines_exec(passwd);
        let uid_s = u32_to_string(uid);
        let mut out = String::new();
        let mut found = false;
        let mut i: usize = 0;
        while i < ls.len()
            invariant
                i <= ls.len(),
                views(ls@) == lines(passwd@),
                uid_s@ == decimal(uid as nat),
                entries_complete(lines(passwd@), uid_s@),
                out@ == renamed_passwd(views(ls@).take(i as int), uid_s@, user@),
                found == has_user_entry(views(ls@).take(i as int), uid_s@),
            decreases ls.len() - i,
        {
            assert(ls@[i as int]@ == lines(passwd@)[i as int]);
            let (piece, hit) = passwd_line(ls[i].as_str(), uid_s.as_str(), user.as_str());
            out.append(piece.as_str());
            proof {
                lemma_renamed_step(views(ls@), i as int, uid_s@, user@);
            }
            found = found || hit;
            i = i + 1;
        }
        assert(views(ls@).take(ls.len() as int) =~= views(ls@));
        if found {
            Some(out)
        } else {
            None
        }
    }
}

} // verus!
