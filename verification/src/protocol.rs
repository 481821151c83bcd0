//! The signals that identify a machine, the values they carry, and the
//! profile that says which values a sandbox should present instead.
use vstd::prelude::*;

verus! {

/// Which identity signal a value belongs to.
#[derive(Debug, Clone, Copy, PartialEq, Eq, Hash, Structural)]
pub enum SignalKind {
    Gps,
    Timezone,
    Locale,
    Dns,
    Ipv4,
    Ipv6,
    Hostname,
    MachineId,
    WebRtc,
    WifiScan,
    BluetoothScan,
    Cpu,
    MacAddress,
    Username,
    HostnamePattern,
    MachineIdAge,
    FontSet,
    ScreenResolution,
}

/// A geographic position in millionths of a degree, with its accuracy in
/// millionths of a metre.
#[derive(Debug, Clone, Copy, PartialEq, Eq, Structural)]
pub struct GpsCoord {
    pub lat_micro: i64,
    pub lon_micro: i64,
    pub accuracy_micro: i64,
}

#[derive(Debug, Clone)]
pub struct WifiNetwork {
    pub ssid: String,
    pub bssid: String,
    pub signal_level: i32,
}

#[derive(Debug, Clone)]
pub struct BluetoothDevice {
    pub name: Option<String>,
    pub address: String,
    pub rssi: i16,
}

/// The value of one identity signal.
#[derive(Debug, Clone)]
pub enum SignalValue {
    Gps { lat_micro: i64, lon_micro: i64, accuracy_micro: i64 },
    Timezone(String),
    Locale(String),
    Dns(Vec<String>),
    Ipv4(String),
    Ipv6(String),
    Hostname(String),
    MachineId(String),
    WebRtc { public_ips: Vec<String>, local_ips: Vec<String> },
    WifiScan(Vec<WifiNetwork>),
    BluetoothScan(Vec<BluetoothDevice>),
    Cpu(String),
    MacAddress(String),
    Username(String),
    HostnamePattern(String),
    MachineIdAgeDays(u32),
    FontSet(u32),
    ScreenResolution(u32, u32),
}

/// The identity a sandbox should present.  Every field but the name is optional:
/// what a profile leaves out is not projected.
#[derive(Debug, Clone)]
pub struct Profile {
    pub name: String,
    pub hostname: Option<String>,
    pub machine_id: Option<String>,
    pub timezone: Option<String>,
    pub locale: Option<String>,
    pub dns: Option<Vec<String>>,
    pub gps: Option<GpsCoord>,
    pub isolate_network: Option<bool>,
    pub cpu_model: Option<String>,
    pub mac_address: Option<String>,
    pub username: Option<String>,
}

impl Profile {
    /// A profile with the given name and nothing to project.
    pub fn named(name: String) -> (p: Profile)
        ensures
            p.name == name,
            p.hostname is None,
            p.machine_id is None,
            p.timezone is None,
            p.locale is None,
            p.dns is None,
            p.gps is None,
            p.isolate_network is None,
            p.cpu_model is None,
            p.mac_address is None,
            p.username is None,
    {
        Profile {
            name,
            hostname: None,
            machine_id: None,
            timezone: None,
            locale: None,
            dns: None,
            gps: None,
            isolate_network: None,
            cpu_model: None,
            mac_address: None,
            username: None,
        }
    }

    /// Whether the profile asks for a network namespace of its own.
    pub open spec fn isolates_network(&self) -> bool {
        self.isolate_network == Some(true)
    }

    pub fn isolate_network_flag(&self) -> (r: bool)
        ensures
            r == self.isolates_network(),
    {
        match self.isolate_network {
            Some(b) => b,
            None => false,
        }
    }
}

impl Default for Profile {
    fn default() -> (p: Profile)
        ensures
            p.name@ == Seq::<char>::empty(),
            p.hostname is None,
            p.machine_id is None,
            p.timezone is None,
            p.locale is None,
            p.dns is None,
            p.gps is None,
            p.isolate_network is None,
            p.cpu_model is None,
            p.mac_address is None,
            p.username is None,
    {
        Profile::named(String::new())
    }
}

/// Each kind occurs at most once among the entries.
spec fn distinct_keys(s: Seq<(SignalKind, SignalValue)>) -> bool {
    forall|i: int, j: int| 0 <= i < j < s.len() ==> (#[trigger] s[i]).0 != (#[trigger] s[j]).0
}

/// The map the entries stand for.
spec fn map_of(s: Seq<(SignalKind, SignalValue)>) -> Map<SignalKind, SignalValue> {
    Map::new(
        |k: SignalKind| exists|i: int| 0 <= i < s.len() && s[i].0 == k,
        |k: SignalKind| s[choose|i: int| 0 <= i < s.len() && s[i].0 == k].1,
    )
}

proof fn lemma_map_of_at(s: Seq<(SignalKind, SignalValue)>, i: int)
    requires
        distinct_keys(s),
        0 <= i < s.len(),
    ensures
        map_of(s).dom().contains(s[i].0),
        map_of(s)[s[i].0] == s[i].1,
{
    let k = s[i].0;
    let c = choose|j: int| 0 <= j < s.len() && s[j].0 == k;
    assert(0 <= c < s.len() && s[c].0 == k);
    if c != i {
        if c < i {
            assert(s[c].0 != s[i].0);
        } else {
            assert(s[i].0 != s[c].0);
        }
    }
}

proof fn lemma_map_of_len(s: Seq<(SignalKind, SignalValue)>)
    requires
        distinct_keys(s),
    ensures
        map_of(s).dom().finite(),
        map_of(s).dom().len() == s.len(),
{
    let keys = s.map_values(|e: (SignalKind, SignalValue)| e.0);
    assert(keys.no_duplicates()) by {
        assert forall|i: int, j: int|
            0 <= i < keys.len() && 0 <= j < keys.len() && i != j implies keys[i] != keys[j] by {
            if i < j {
                assert(s[i].0 != s[j].0);
            } else {
                assert(s[j].0 != s[i].0);
            }
        }
    }
    assert(map_of(s).dom() =~= keys.to_set()) by {
        assert forall|k: SignalKind| map_of(s).dom().contains(k) implies keys.to_set().contains(k) by {
            let c = choose|j: int| 0 <= j < s.len() && s[j].0 == k;
            assert(keys[c] == k);
        }
        assert forall|k: SignalKind| keys.to_set().contains(k) implies map_of(s).dom().contains(k) by {
            let c = choose|j: int| 0 <= j < keys.len() && keys[j] == k;
            assert(s[c].0 == k);
        }
    }
    keys.unique_seq_to_set();
}

fn insert_entry(v: &mut Vec<(SignalKind, SignalValue)>, kind: SignalKind, value: SignalValue)
    requires
        distinct_keys(old(v)@),
    ensures
        distinct_keys(final(v)@),
        map_of(final(v)@) == map_of(old(v)@).insert(kind, value),
{
    let ghost before = map_of(v@);
    let mut i: usize = 0;
    while i < v.len()
        invariant
            distinct_keys(v@),
            map_of(v@) == before,
            before == map_of(old(v)@),
            i <= v.len(),
            forall|j: int| 0 <= j < i ==> v@[j].0 != kind,
        decreases v.len() - i,
    {
        if v[i].0 == kind {
            let ghost old_entries = v@;
            v.set(i, (kind, value));
            proof {
                assert forall|a: int, b: int|
                    0 <= a < b < v@.len() implies (#[trigger] v@[a]).0
                    != (#[trigger] v@[b]).0 by {
                    assert(old_entries[a].0 == v@[a].0);
                    assert(old_entries[b].0 == v@[b].0);
                }
                assert forall|k: SignalKind| #[trigger] map_of(v@).dom().contains(k)
                    == before.insert(kind, value).dom().contains(k) by {
                    if before.dom().contains(k) {
                        let c = choose|j: int|
                            0 <= j < old_entries.len() && old_entries[j].0 == k;
                        assert(v@[c].0 == k);
                    }
                    if map_of(v@).dom().contains(k) {
                        let c = choose|j: int|
                            0 <= j < v@.len() && v@[j].0 == k;
                        assert(old_entries[c].0 == k);
                    }
                    if k == kind {
                        assert(v@[i as int].0 == k);
                    }
                }
                assert forall|k: SignalKind| #[trigger] map_of(v@).dom().contains(k) implies
                    map_of(v@)[k] == before.insert(kind, value)[k] by {
                    let c = choose|j: int|
                        0 <= j < v@.len() && v@[j].0 == k;
                    lemma_map_of_at(v@, c);
                    if k != kind {
                        assert(c != i);
                        assert(old_entries[c] == v@[c]);
                        assert(before[k] == old_entries[c].1) by {
                            let oc = choose|j: int|
                                0 <= j < old_entries.len() && old_entries[j].0 == k;
                            assert(0 <= oc < old_entries.len() && old_entries[oc].0 == k);
                            if oc != c {
                                if oc < c {
                                    assert(old_entries[oc].0 != old_entries[c].0);
                                } else {
                                    assert(old_entries[c].0 != old_entries[oc].0);
                                }
                            }
                        }
                    } else {
                        lemma_map_of_at(v@, i as int);
                    }
                }
                assert(map_of(v@) =~= before.insert(kind, value));
            }
            return;
        }
        i = i + 1;
    }
    let ghost old_entries = v@;
    v.push((kind, value));
    proof {
        let n = old_entries.len() as int;
        assert forall|a: int, b: int|
            0 <= a < b < v@.len() implies (#[trigger] v@[a]).0
            != (#[trigger] v@[b]).0 by {
            if b < n {
                assert(old_entries[a] == v@[a]);
                assert(old_entries[b] == v@[b]);
            } else {
                assert(old_entries[a] == v@[a]);
            }
        }
        assert forall|k: SignalKind| #[trigger] map_of(v@).dom().contains(k)
            == before.insert(kind, value).dom().contains(k) by {
            if before.dom().contains(k) {
                let c = choose|j: int| 0 <= j < old_entries.len() && old_entries[j].0 == k;
                assert(v@[c].0 == k);
            }
            if map_of(v@).dom().contains(k) {
                let c = choose|j: int|
                    0 <= j < v@.len() && v@[j].0 == k;
                if c < n {
                    assert(old_entries[c].0 == k);
                }
            }
            if k == kind {
                assert(v@[n].0 == k);
            }
        }
        assert forall|k: SignalKind| #[trigger] map_of(v@).dom().contains(k) implies
            map_of(v@)[k] == before.insert(kind, value)[k] by {
            let c = choose|j: int| 0 <= j < v@.len() && v@[j].0 == k;
            lemma_map_of_at(v@, c);
            if k != kind {
                assert(c < n);
                assert(before[k] == old_entries[c].1) by {
                    let oc = choose|j: int|
                        0 <= j < old_entries.len() && old_entries[j].0 == k;
                    assert(0 <= oc < old_entries.len() && old_entries[oc].0 == k);
                    if oc != c {
                        if oc < c {
                            assert(old_entries[oc].0 != old_entries[c].0);
                        } else {
                            assert(old_entries[c].0 != old_entries[oc].0);
                        }
                    }
                }
            } else {
                lemma_map_of_at(v@, n);
            }
        }
        assert(map_of(v@) =~= before.insert(kind, value));
    }
}


/// The signals gathered for one machine: at most one value per kind.
pub struct SignalMap {
    entries: Vec<(SignalKind, SignalValue)>,
}

impl SignalMap {
    /// No kind is recorded twice.
    #[verifier::type_invariant]
    spec fn wf(self) -> bool {
        distinct_keys(self.entries@)
    }
}

impl View for SignalMap {
    type V = Map<SignalKind, SignalValue>;

    closed spec fn view(&self) -> Map<SignalKind, SignalValue> {
        map_of(self.entries@)
    }
}

impl SignalMap {
    /// An empty map.
    pub fn new() -> (m: SignalMap)
        ensures
            m@ == Map::<SignalKind, SignalValue>::empty(),
    {
        let m = SignalMap { entries: Vec::new() };
        assert(m@ =~= Map::<SignalKind, SignalValue>::empty());
        m
    }

    /// The value recorded for `kind`, if any.
    pub fn get(&self, kind: &SignalKind) -> (r: Option<&SignalValue>)
        ensures
            match r {
                Some(v) => self@.dom().contains(*kind) && self@[*kind] == *v,
                None => !self@.dom().contains(*kind),
            },
    {
        proof {
            use_type_invariant(self);
        }
        let mut i: usize = 0;
        while i < self.entries.len()
            invariant
                distinct_keys(self.entries@),
                i <= self.entries.len(),
                forall|j: int| 0 <= j < i ==> self.entries@[j].0 != *kind,
            decreases self.entries.len() - i,
        {
            if self.entries[i].0 == *kind {
                proof {
                    lemma_map_of_at(self.entries@, i as int);
                }
                return Some(&self.entries[i].1);
            }
            i = i + 1;
        }
        None
    }

    /// Whether a value is recorded for `kind`.
    pub fn contains_key(&self, kind: &SignalKind) -> (r: bool)
        ensures
            r == self@.dom().contains(*kind),
    {
        self.get(kind).is_some()
    }

    /// Records `value` for `kind`, replacing what was recorded before.
    pub fn insert(&mut self, kind: SignalKind, value: SignalValue)
        ensures
            final(self)@ == old(self)@.insert(kind, value),
    {
        proof {
            use_type_invariant(&*self);
        }
        let mut entries: Vec<(SignalKind, SignalValue)> = Vec::new();
        std::mem::swap(&mut entries, &mut self.entries);
        insert_entry(&mut entries, kind, value);
        self.entries = entries;
    }

    /// The recorded signals, each kind once, in no particular order.
    pub fn entries(&self) -> (r: &Vec<(SignalKind, SignalValue)>)
        ensures
            r@.len() == self@.dom().len(),
            forall|i: int|
                0 <= i < r@.len() ==> self@.dom().contains((#[trigger] r@[i]).0) && self@[r@[i].0] == r@[i].1,
            forall|i: int, j: int| 0 <= i < j < r@.len() ==> (#[trigger] r@[i]).0 != (#[trigger] r@[j]).0,
    {
        proof {
            use_type_invariant(self);
            lemma_map_of_len(self.entries@);
            assert forall|i: int| 0 <= i < self.entries@.len() implies self@.dom().contains(
                (#[trigger] self.entries@[i]).0,
            ) && self@[self.entries@[i].0] == self.entries@[i].1 by {
                lemma_map_of_at(self.entries@, i);
            }
        }
        &self.entries
    }

    /// Number of signals recorded.
    pub fn len(&self) -> (n: usize)
        ensures
            n == self@.dom().len(),
    {
        proof {
            use_type_invariant(self);
            lemma_map_of_len(self.entries@);
        }
        self.entries.len()
    }

    pub fn is_empty(&self) -> (b: bool)
        ensures
            b == (self@.dom().len() == 0),
    {
        self.len() == 0
    }
}

/// Reading a kind back after recording a value for it gives that value;
/// the other kinds keep what they had; and the number of signals grows by
/// one exactly when the kind was new.
pub proof fn lemma_read_after_write(
    before: Map<SignalKind, SignalValue>,
    kind: SignalKind,
    value: SignalValue,
    other: SignalKind,
)
    requires
        before.dom().finite(),
    ensures
        before.insert(kind, value).dom().contains(kind),
        before.insert(kind, value)[kind] == value,
        other != kind ==> (before.insert(kind, value).dom().contains(other) == before.dom().contains(other)),
        other != kind && before.dom().contains(other) ==> before.insert(kind, value)[other] == before[other],
        before.insert(kind, value).dom().len() == if before.dom().contains(kind) {
            before.dom().len()
        } else {
            before.dom().len() + 1
        },
{
    if before.dom().contains(kind) {
        assert(before.insert(kind, value).dom() =~= before.dom());
    }
}

} // verus!
