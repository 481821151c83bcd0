//! The decisions of plugin loading that do not touch the loaded library:
//! which files are plugins, what a plugin is called, and which return codes
//! and ABI versions are accepted.
use crate::session::{lemma_rfind_char, rfind_char};
use crate::text::{chars_of, str_eq, string_of, string_of_range};
use vstd::prelude::*;

verus! {

/// The ABI version this host speaks.
pub const PLUGIN_ABI_VERSION: u32 = 1;

/// The return code of a plugin hook that succeeded.
pub const MIRAGE_OK: i32 = 0;

/// A file name cut at its last dot, as `Path::file_stem` and
/// `Path::extension` cut it: an empty name is no file name at all; `..`, a
/// name without a dot and a name whose only dot leads have no extension.
pub open spec fn dot_split(name: Seq<char>) -> (Option<Seq<char>>, Option<Seq<char>>) {
    let k = rfind_char(name, '.');
    if name.len() == 0 {
        (None, None)
    } else if name == ".."@ {
        (Some(name), None)
    } else if k < 0 {
        (None, Some(name))
    } else if k == 0 {
        (Some(name), None)
    } else {
        (Some(name.subrange(0, k)), Some(name.subrange(k + 1, name.len() as int)))
    }
}

/// `Path::extension` of a file name.
pub open spec fn extension_of(name: Seq<char>) -> Option<Seq<char>> {
    match dot_split(name) {
        (Some(_), Some(e)) => Some(e),
        _ => None,
    }
}

/// `Path::file_stem` of a file name.
pub open spec fn stem_of(name: Seq<char>) -> Option<Seq<char>> {
    match dot_split(name) {
        (Some(b), _) => Some(b),
        (None, a) => a,
    }
}

fn last_dot(v: &Vec<char>) -> (k: Option<usize>)
    ensures
        match k {
            Some(i) => i < v.len() && rfind_char(v@, '.') == i,
            None => rfind_char(v@, '.') == -1,
        },
{
    let mut k = v.len();
    while k > 0 && v[k - 1] != '.'
        invariant
            k <= v.len(),
            forall|j: int| k <= j < v.len() ==> v@[j] != '.',
        decreases k,
    {
        k = k - 1;
    }
    proof {
        lemma_rfind_char(v@, '.', k - 1);
    }
    if k == 0 {
        None
    } else {
        Some(k - 1)
    }
}

/// `Path::extension` of the file name `name`.
pub fn file_extension(name: &str) -> (r: Option<String>)
    ensures
        match r {
            Some(e) => extension_of(name@) == Some(e@),
            None => extension_of(name@) is None,
        },
{
    if name.unicode_len() == 0 || str_eq(name, "..") {
        return None;
    }
    let v = chars_of(name);
    match last_dot(&v) {
        None => None,
        Some(k) => {
            if k == 0 {
                None
            } else {
                Some(string_of_range(&v, k + 1, v.len()))
            }
        },
    }
}

/// `Path::file_stem` of the file name `name`.
pub fn file_stem(name: &str) -> (r: Option<String>)
    ensures
        match r {
            Some(s) => stem_of(name@) == Some(s@),
            None => stem_of(name@) is None,
        },
{
    if name.unicode_len() == 0 {
        return None;
    }
    if str_eq(name, "..") {
        return Some(String::from_str(name));
    }
    let v = chars_of(name);
    match last_dot(&v) {
        None => Some(string_of(&v)),
        Some(k) => {
            if k == 0 {
                Some(string_of(&v))
            } else {
                Some(string_of_range(&v, 0, k))
            }
        },
    }
}

/// Whether the file name `name` has the extension `ext`.
pub fn has_extension(name: &str, ext: &str) -> (r: bool)
    ensures
        r == (extension_of(name@) == Some(ext@)),
{
    match file_extension(name) {
        Some(e) => str_eq(e.as_str(), ext),
        None => false,
    }
}

/// Whether a directory entry named `name` is a plugin: a `.so` file.
pub fn is_plugin_file(name: &str) -> (r: bool)
    ensures
        r == (extension_of(name@) == Some("so"@)),
{
    has_extension(name, "so")
}

/// The name a plugin goes by: the one its vtable gives, else the stem of its
/// file name, else `unknown`.
pub open spec fn display_name(vtable_name: Option<Seq<char>>, file_name: Seq<char>) -> Seq<char> {
    match vtable_name {
        Some(n) => n,
        None => match stem_of(file_name) {
            Some(s) => s,
            None => "unknown"@,
        },
    }
}

pub fn plugin_display_name(vtable_name: Option<&str>, file_name: &str) -> (r: String)
    ensures
        r@ == display_name(
            match vtable_name {
                Some(n) => Some(n@),
                None => None,
            },
            file_name@,
        ),
{
    match vtable_name {
        Some(n) => String::from_str(n),
        None => match file_stem(file_name) {
            Some(s) => s,
            None => String::from_str("unknown"),
        },
    }
}

/// Why a plugin was refused or failed.
#[derive(Debug)]
pub enum PluginError {
    /// Its vtable export returned a null pointer.
    NullVtable,
    /// It speaks another ABI version.
    AbiMismatch { found: u32 },
    /// Its `init` hook returned an error code.
    InitFailed { name: String, code: i32 },
    /// Its `apply` hook returned an error code.
    ApplyFailed { name: String, code: i32 },
}

/// A plugin is accepted only if it speaks this host's ABI version.
pub fn check_abi(version: u32) -> (r: Result<(), PluginError>)
    ensures
        version == PLUGIN_ABI_VERSION <==> r is Ok,
        version != PLUGIN_ABI_VERSION ==> (r matches Err(PluginError::AbiMismatch { found }) && found == version),
{
    if version == PLUGIN_ABI_VERSION {
        Ok(())
    } else {
        Err(PluginError::AbiMismatch { found: version })
    }
}

/// The outcome of a plugin's `init` hook, which returned `code`.
pub fn check_init(name: &str, code: i32) -> (r: Result<(), PluginError>)
    ensures
        code == MIRAGE_OK <==> r is Ok,
        code != MIRAGE_OK ==> (r matches Err(PluginError::InitFailed { name: n, code: c }) && n@ == name@ && c == code),
{
    if code == MIRAGE_OK {
        Ok(())
    } else {
        Err(PluginError::InitFailed { name: String::from_str(name), code })
    }
}

/// The outcome of a plugin's `apply` hook, which returned `code`.
pub fn check_apply(name: &str, code: i32) -> (r: Result<(), PluginError>)
    ensures
        code == MIRAGE_OK <==> r is Ok,
        code != MIRAGE_OK ==> (r matches Err(PluginError::ApplyFailed { name: n, code: c }) && n@ == name@ && c == code),
{
    if code == MIRAGE_OK {
        Ok(())
    } else {
        Err(PluginError::ApplyFailed { name: String::from_str(name), code })
    }
}

} // verus!
