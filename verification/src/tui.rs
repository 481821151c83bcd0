//! The profile browser's selection and the details it shows of a profile.
use crate::protocol::Profile;
use crate::text::{join, join_exec, views};
use vstd::prelude::*;

verus! {

/// The last index of a list of `len` items, or 0 for an empty list.
pub open spec fn last_index(len: nat) -> nat {
    if len == 0 {
        0
    } else {
        (len - 1) as nat
    }
}

/// The selection after moving down: the next item, wrapping from the last
/// to the first; with nothing selected, the first.
pub open spec fn next_of(selected: Option<usize>, len: nat) -> nat {
    match selected {
        Some(i) => if i >= last_index(len) {
            0
        } else {
            (i + 1) as nat
        },
        None => 0,
    }
}

/// The selection after moving up: the previous item, wrapping from the
/// first to the last; with nothing selected, the first.
pub open spec fn previous_of(selected: Option<usize>, len: nat) -> nat {
    match selected {
        Some(i) => if i == 0 {
            last_index(len)
        } else {
            (i - 1) as nat
        },
        None => 0,
    }
}

/// The index selected after moving down in a list of `len` profiles.
pub fn next_index(selected: Option<usize>, len: usize) -> (r: usize)
    ensures
        r == next_of(selected, len as nat),
{
    match selected {
        Some(i) => {
            if i >= len.saturating_sub(1) {
                0
            } else {
                i + 1
            }
        },
        None => 0,
    }
}

/// The index selected after moving up in a list of `len` profiles.
pub fn previous_index(selected: Option<usize>, len: usize) -> (r: usize)
    ensures
        r == previous_of(selected, len as nat),
{
    match selected {
        Some(i) => {
            if i == 0 {
                len.saturating_sub(1)
            } else {
                i - 1
            }
        },
        None => 0,
    }
}

/// Moving down, then up, comes back to the item one started from; and so
/// does moving up, then down.
pub proof fn lemma_moves_undo(i: usize, len: usize)
    requires
        i < len,
    ensures
        previous_of(Some(next_of(Some(i), len as nat) as usize), len as nat) == i,
        next_of(Some(previous_of(Some(i), len as nat) as usize), len as nat) == i,
{
}

/// In a non-empty list the selection never leaves the list, whatever was
/// selected before moving down, and whatever item of the list was selected
/// before moving up.
pub proof fn lemma_moves_stay_in_list(selected: Option<usize>, len: usize)
    requires
        len > 0,
        selected matches Some(i) ==> i < len,
    ensures
        next_of(selected, len as nat) < len,
        previous_of(selected, len as nat) < len,
{
}

/// The views of labelled rows.
pub open spec fn rows_view(v: Seq<(String, String)>) -> Seq<(Seq<char>, Seq<char>)> {
    v.map_values(|r: (String, String)| (r.0@, r.1@))
}

/// The value of an optional field, or `N/A`.
pub open spec fn or_na(v: Option<String>) -> Seq<char> {
    match v {
        Some(s) => s@,
        None => "N/A"@,
    }
}

/// The rows that describe a profile: its fields in a fixed order, `N/A`
/// for those it leaves out; then its position, when there is one (written
/// by the caller as `gps`), and its DNS servers, comma-separated, when it
/// names any.
pub open spec fn detail_rows(p: Profile, gps: Option<Seq<char>>) -> Seq<(Seq<char>, Seq<char>)> {
    seq![
        ("Name: "@, p.name@),
        ("Hostname: "@, or_na(p.hostname)),
        ("Machine ID: "@, or_na(p.machine_id)),
        ("Timezone: "@, or_na(p.timezone)),
        ("Locale: "@, or_na(p.locale)),
        ("CPU Model: "@, or_na(p.cpu_model)),
        ("MAC Address: "@, or_na(p.mac_address)),
        ("Isolate Network: "@, if p.isolates_network() { "Yes"@ } else { "No"@ }),
    ] + (match gps {
        Some(g) => seq![("GPS: "@, g)],
        None => seq![],
    }) + (match p.dns {
        Some(d) => seq![("DNS: "@, join(views(d@), ", "@))],
        None => seq![],
    })
}

fn push_row(v: &mut Vec<(String, String)>, label: &str, value: String)
    ensures
        rows_view(final(v)@) == rows_view(old(v)@).push((label@, value@)),
{
    let ghost before = v@;
    v.push((String::from_str(label), value));
    assert(rows_view(v@) =~= rows_view(before).push((label@, value@)));
}

fn value_or_na(v: &Option<String>) -> (r: String)
    ensures
        r@ == or_na(*v),
{
    match v {
        Some(s) => s.clone(),
        None => String::from_str("N/A"),
    }
}

/// The labelled rows that describe `profile`; `gps` is its position as the
/// caller writes it, when it has one.
pub fn profile_details(profile: &Profile, gps: Option<String>) -> (rows: Vec<(String, String)>)
    ensures
        rows_view(rows@) == detail_rows(
            *profile,
            match gps {
                Some(g) => Some(g@),
                None => None,
            },
        ),
{
    let mut rows: Vec<(String, String)> = Vec::new();
    push_row(&mut rows, "Name: ", profile.name.clone());
    push_row(&mut rows, "Hostname: ", value_or_na(&profile.hostname));
    push_row(&mut rows, "Machine ID: ", value_or_na(&profile.machine_id));
    push_row(&mut rows, "Timezone: ", value_or_na(&profile.timezone));
    push_row(&mut rows, "Locale: ", value_or_na(&profile.locale));
    push_row(&mut rows, "CPU Model: ", value_or_na(&profile.cpu_model));
    push_row(&mut rows, "MAC Address: ", value_or_na(&profile.mac_address));
    let isolated = if profile.isolate_network_flag() {
        String::from_str("Yes")
    } else {
        String::from_str("No")
    };
    push_row(&mut rows, "Isolate Network: ", isolated);
    let ghost gv = match &gps {
        Some(g) => Some(g@),
        None => None::<Seq<char>>,
    };
    match gps {
        Some(g) => push_row(&mut rows, "GPS: ", g),
        None => {},
    }
    match &profile.dns {
        Some(d) => push_row(&mut rows, "DNS: ", join_exec(d, ", ")),
        None => {},
    }
    assert(rows_view(rows@) =~= detail_rows(*profile, gv));
    rows
}

} // verus!
