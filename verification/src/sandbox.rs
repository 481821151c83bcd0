//! The handle of one sandbox run: where its staged files live and whether
//! it is running.
use crate::rng::gen_u8;
use crate::text::{hex_char, hex_char_exec, push_char, starts_with};
use rand::rngs::StdRng;
use vstd::prelude::*;

verus! {

/// `Path::join` of a relative or absolute component onto `base`: an absolute
/// component replaces the base; otherwise a separator is added unless `base`
/// is empty or already ends with one.
pub open spec fn path_join(base: Seq<char>, rel: Seq<char>) -> Seq<char> {
    if starts_with(rel, "/"@) {
        rel
    } else if base.len() > 0 && base.last() != '/' {
        base + "/"@ + rel
    } else {
        base + rel
    }
}

pub fn path_join_exec(base: &str, rel: &str) -> (r: String)
    ensures
        r@ == path_join(base@, rel@),
{
    proof {
        reveal_strlit("/");
    }
    let rel_starts = rel.unicode_len() > 0 && rel.get_char(0) == '/';
    assert("/"@ =~= seq!['/']);
    assert(rel_starts == starts_with(rel@, "/"@)) by {
        if rel@.len() > 0 {
            assert(rel@.subrange(0, 1) =~= seq![rel@[0]]);
            if !rel_starts {
                assert(rel@.subrange(0, 1)[0] != "/"@[0]);
            }
        }
    }
    if rel_starts {
        return String::from_str(rel);
    }
    let n = base.unicode_len();
    let mut r = String::from_str(base);
    if n > 0 && base.get_char(n - 1) != '/' {
        r.append("/");
    }
    r.append(rel);
    r
}

/// Errors of sandbox operations.
#[derive(Debug)]
pub enum SandboxError {
    NotActive,
    Bwrap(String),
    Io(std::io::Error),
}

#[verifier::external_type_specification]
#[verifier::external_body]
pub struct ExIoError(std::io::Error);

/// A sandbox, running or about to be.
#[derive(Debug)]
pub struct SandboxHandle {
    /// PID of the sandboxed process, if running.
    pub pid: Option<u32>,
    /// Ephemeral root directory of the overlay, if any.
    pub root: Option<String>,
    /// Directory where the identity files of this run are staged.
    pub tmp_dir: String,
}

/// A lowercase hexadecimal digit.
pub open spec fn is_lower_hex(c: char) -> bool {
    ('0' <= c && c <= '9') || ('a' <= c && c <= 'f')
}

/// Eight lowercase hexadecimal digits.
pub open spec fn is_hex_name(s: Seq<char>) -> bool {
    s.len() == 8 && forall|i: int| 0 <= i < 8 ==> is_lower_hex(#[trigger] s[i])
}

proof fn lemma_hex_char_lower(d: nat)
    requires
        d < 16,
    ensures
        is_lower_hex(hex_char(d)),
{
}

/// The directory name of the bytes: the low hexadecimal digit of each.
pub open spec fn hex_name(bytes: Seq<u8>) -> Seq<char> {
    Seq::new(bytes.len(), |i: int| hex_char((bytes[i] % 16) as nat))
}

/// The directory name of the drawn bytes.
pub fn hex_name_of(bytes: &Vec<u8>) -> (r: String)
    ensures
        r@ == hex_name(bytes@),
{
    let mut r = String::new();
    let mut k: usize = 0;
    while k < bytes.len()
        invariant
            k <= bytes.len(),
            r@ == hex_name(bytes@.take(k as int)),
        decreases bytes.len() - k,
    {
        let d = bytes[k] % 16;
        push_char(&mut r, hex_char_exec(d));
        k = k + 1;
        assert(r@ =~= hex_name(bytes@.take(k as int)));
    }
    assert(bytes@.take(bytes.len() as int) =~= bytes@);
    r
}

impl SandboxHandle {
    /// A handle for the given staging directory, not running.
    pub fn with_tmp_dir(tmp_dir: String) -> (h: SandboxHandle)
        ensures
            h.pid is None,
            h.root is None,
            h.tmp_dir == tmp_dir,
    {
        SandboxHandle { pid: None, root: None, tmp_dir }
    }

    /// A fresh handle, not running, whose staging directory is a random
    /// eight-hex-digit name under `runtime_dir` (`$XDG_RUNTIME_DIR`), or under
    /// `/tmp` when there is none: the name of eight random bytes.
    pub fn new(runtime_dir: Option<String>, rng: &mut StdRng) -> (h: SandboxHandle)
        ensures
            h.pid is None,
            h.root is None,
            exists|bytes: Seq<u8>|
                bytes.len() == 8 && h.tmp_dir@ == path_join(
                    match runtime_dir {
                        Some(d) => d@,
                        None => "/tmp"@,
                    },
                    hex_name(bytes),
                ),
            exists|name: Seq<char>|
                is_hex_name(name) && h.tmp_dir@ == path_join(
                    match runtime_dir {
                        Some(d) => d@,
                        None => "/tmp"@,
                    },
                    name,
                ),
    {
        let mut bytes: Vec<u8> = Vec::new();
        let mut k: usize = 0;
        while k < 8
            invariant
                k <= 8,
                bytes@.len() == k,
            decreases 8 - k,
        {
            bytes.push(gen_u8(rng));
            k = k + 1;
        }
        let name = hex_name_of(&bytes);
        let base = match runtime_dir {
            Some(d) => d,
            None => String::from_str("/tmp"),
        };
        let tmp_dir = path_join_exec(base.as_str(), name.as_str());
        proof {
            assert forall|i: int| 0 <= i < 8 implies is_lower_hex(#[trigger] name@[i]) by {
                assert(name@[i] == hex_char((bytes@[i] % 16) as nat));
                lemma_hex_char_lower((bytes@[i] % 16) as nat);
            }
            assert(is_hex_name(name@));
        }
        assert(base@ == match runtime_dir {
            Some(d) => d@,
            None => "/tmp"@,
        });
        SandboxHandle { pid: None, root: None, tmp_dir }
    }

    /// Whether the sandboxed process is running.
    pub fn is_active(&self) -> (r: bool)
        ensures
            r == self.pid is Some,
    {
        self.pid.is_some()
    }

    /// Bind-mount `source` over `dest` inside the sandbox.  The launch plan
    /// carries the mounts, so this records nothing and always succeeds.
    pub fn bind_mount(&self, source: &str, dest: &str) -> (r: Result<(), SandboxError>)
        ensures
            r is Ok,
    {
        Ok(())
    }

    /// Set an environment variable inside the sandbox.  The launch plan
    /// carries the environment, so this records nothing and always succeeds.
    pub fn set_env(&self, key: &str, value: &str) -> (r: Result<(), SandboxError>)
        ensures
            r is Ok,
    {
        Ok(())
    }
}

} // verus!
