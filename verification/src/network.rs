//! Network identity providers: the public IPv4/IPv6 addresses and what WebRTC
//! would reveal (local interface addresses and the public address).
use crate::protocol::{Profile, SignalKind, SignalValue};
use crate::providers::ProviderError;
use crate::text::{chars_of, trim, trim_exec, views};
use vstd::prelude::*;

verus! {

// ───────────────────────────── string order ─────────────────────────────

/// The order of `String`'s `Ord`: lexicographic by character code.
pub open spec fn lex_lt(a: Seq<char>, b: Seq<char>) -> bool
    decreases a.len(),
{
    if b.len() == 0 {
        false
    } else if a.len() == 0 {
        true
    } else if (a[0] as int) < (b[0] as int) {
        true
    } else if a[0] == b[0] {
        lex_lt(a.drop_first(), b.drop_first())
    } else {
        false
    }
}

pub proof fn lemma_lex_irreflexive(a: Seq<char>)
    ensures
        !lex_lt(a, a),
    decreases a.len(),
{
    if a.len() > 0 {
        lemma_lex_irreflexive(a.drop_first());
    }
}

pub proof fn lemma_lex_transitive(a: Seq<char>, b: Seq<char>, c: Seq<char>)
    requires
        lex_lt(a, b),
        lex_lt(b, c),
    ensures
        lex_lt(a, c),
    decreases a.len(),
{
    if a.len() > 0 && b.len() > 0 && c.len() > 0 && a[0] == b[0] && b[0] == c[0] {
        lemma_lex_transitive(a.drop_first(), b.drop_first(), c.drop_first());
    }
}

pub proof fn lemma_lex_total(a: Seq<char>, b: Seq<char>)
    ensures
        a == b || lex_lt(a, b) || lex_lt(b, a),
    decreases a.len(),
{
    if a.len() > 0 && b.len() > 0 && a[0] == b[0] {
        lemma_lex_total(a.drop_first(), b.drop_first());
        if a.drop_first() == b.drop_first() {
            assert(a =~= seq![a[0]] + a.drop_first());
            assert(b =~= seq![b[0]] + b.drop_first());
        }
    } else if a.len() == 0 && b.len() == 0 {
        assert(a =~= b);
    } else if a.len() > 0 && b.len() > 0 {
        assert((a[0] as int) != (b[0] as int));
    }
}

pub proof fn lemma_lex_asymmetric(a: Seq<char>, b: Seq<char>)
    requires
        lex_lt(a, b),
    ensures
        !lex_lt(b, a),
{
    if lex_lt(b, a) {
        lemma_lex_transitive(a, b, a);
        lemma_lex_irreflexive(a);
    }
}

proof fn lemma_lex_skip(a: Seq<char>, b: Seq<char>, i: int)
    requires
        0 <= i <= a.len(),
        i <= b.len(),
        forall|j: int| 0 <= j < i ==> a[j] == b[j],
    ensures
        lex_lt(a, b) == lex_lt(a.subrange(i, a.len() as int), b.subrange(i, b.len() as int)),
    decreases i,
{
    if i > 0 {
        assert(a.drop_first().subrange(i - 1, a.len() - 1) =~= a.subrange(i, a.len() as int));
        assert(b.drop_first().subrange(i - 1, b.len() - 1) =~= b.subrange(i, b.len() as int));
        assert forall|j: int| 0 <= j < i - 1 implies a.drop_first()[j] == b.drop_first()[j] by {
            assert(a[j + 1] == b[j + 1]);
        }
        lemma_lex_skip(a.drop_first(), b.drop_first(), i - 1);
    } else {
        assert(a.subrange(0, a.len() as int) =~= a);
        assert(b.subrange(0, b.len() as int) =~= b);
    }
}

/// Whether `a` sorts before `b`.
pub fn lex_less(a: &str, b: &str) -> (r: bool)
    ensures
        r == lex_lt(a@, b@),
{
    let av = chars_of(a);
    let bv = chars_of(b);
    let mut i: usize = 0;
    while i < av.len() && i < bv.len() && av[i] == bv[i]
        invariant
            i <= av.len(),
            i <= bv.len(),
            forall|j: int| 0 <= j < i ==> av@[j] == bv@[j],
        decreases av.len() - i,
    {
        i = i + 1;
    }
    proof {
        lemma_lex_skip(av@, bv@, i as int);
    }
    if i == bv.len() {
        false
    } else if i == av.len() {
        true
    } else {
        av[i] < bv[i]
    }
}

/// Strictly increasing: sorted, and no duplicates.
pub open spec fn sorted_strict(s: Seq<Seq<char>>) -> bool {
    forall|i: int, j: int| 0 <= i < j < s.len() ==> lex_lt(#[trigger] s[i], #[trigger] s[j])
}

fn insert_sorted(v: &mut Vec<String>, x: String)
    requires
        sorted_strict(views(old(v)@)),
    ensures
        sorted_strict(views(final(v)@)),
        forall|s: Seq<char>| views(final(v)@).contains(s) <==> (views(old(v)@).contains(s) || s == x@),
{
    let mut p: usize = 0;
    while p < v.len() && lex_less(v[p].as_str(), x.as_str())
        invariant
            p <= v.len(),
            forall|j: int| 0 <= j < p ==> lex_lt(v@[j]@, x@),
        decreases v.len() - p,
    {
        p = p + 1;
    }
    let ghost old_v = views(v@);
    if p < v.len() && v[p] == x {
        assert(old_v[p as int] == x@);
        assert(views(v@).contains(x@));
        return;
    }
    proof {
        if p < v.len() {
            lemma_lex_total(v@[p as int]@, x@);
        }
    }
    v.insert(p, x);
    proof {
        let nv = views(v@);
        assert(nv =~= old_v.insert(p as int, x@));
        assert forall|i: int, j: int| 0 <= i < j < nv.len() implies lex_lt(#[trigger] nv[i], #[trigger] nv[j]) by {
            if j < p {
                assert(nv[i] == old_v[i] && nv[j] == old_v[j]);
            } else if j == p {
                assert(nv[i] == old_v[i]);
            } else if i == p {
                assert(nv[j] == old_v[j - 1]);
                if j - 1 > p {
                    assert(lex_lt(old_v[p as int], old_v[j - 1]));
                    lemma_lex_transitive(x@, old_v[p as int], old_v[j - 1]);
                }
            } else if i < p {
                assert(nv[i] == old_v[i] && nv[j] == old_v[j - 1]);
                if i < j - 1 {
                } else {
                }
                assert(lex_lt(old_v[i], x@));
                if p < old_v.len() {
                    if j - 1 == p {
                        lemma_lex_transitive(old_v[i], x@, old_v[p as int]);
                    } else {
                        assert(lex_lt(old_v[i], old_v[j - 1]));
                    }
                } else {
                    assert(lex_lt(old_v[i], old_v[j - 1]));
                }
            } else {
                assert(nv[i] == old_v[i - 1] && nv[j] == old_v[j - 1]);
            }
        }
        assert forall|s: Seq<char>| nv.contains(s) <==> (old_v.contains(s) || s == x@) by {
            if nv.contains(s) {
                let k = choose|k: int| 0 <= k < nv.len() && nv[k] == s;
                if k < p {
                    assert(old_v[k] == s);
                } else if k > p {
                    assert(old_v[k - 1] == s);
                }
            }
            if old_v.contains(s) {
                let k = choose|k: int| 0 <= k < old_v.len() && old_v[k] == s;
                if k < p {
                    assert(nv[k] == s);
                } else {
                    assert(nv[k + 1] == s);
                }
            }
            if s == x@ {
                assert(nv[p as int] == s);
            }
        }
    }
}

// ───────────────────────────── providers ─────────────────────────────

pub struct Ipv4Provider;

impl Ipv4Provider {
    pub fn signal_kind(&self) -> (k: SignalKind)
        ensures
            k == SignalKind::Ipv4,
    {
        SignalKind::Ipv4
    }

    /// The public IPv4 address in the reply of the address echo service.
    pub fn real_value(&self, reply: &str) -> (r: SignalValue)
        ensures
            r matches SignalValue::Ipv4(v) && v@ == trim(reply@),
    {
        SignalValue::Ipv4(trim_exec(reply))
    }

    /// Not projected.
    pub fn projected_value(&self, profile: &Profile) -> (r: Result<SignalValue, ProviderError>)
        ensures
            r matches Err(ProviderError::NotImplemented),
    {
        Err(ProviderError::NotImplemented)
    }
}

pub struct Ipv6Provider;

impl Ipv6Provider {
    pub fn signal_kind(&self) -> (k: SignalKind)
        ensures
            k == SignalKind::Ipv6,
    {
        SignalKind::Ipv6
    }

    /// The public IPv6 address in the reply of the address echo service.
    pub fn real_value(&self, reply: &str) -> (r: SignalValue)
        ensures
            r matches SignalValue::Ipv6(v) && v@ == trim(reply@),
    {
        SignalValue::Ipv6(trim_exec(reply))
    }

    /// Not projected.
    pub fn projected_value(&self, profile: &Profile) -> (r: Result<SignalValue, ProviderError>)
        ensures
            r matches Err(ProviderError::NotImplemented),
    {
        Err(ProviderError::NotImplemented)
    }
}

/// The addresses of the interfaces that are not loopback.
pub open spec fn non_loopback(ifs: Seq<(String, bool)>, s: Seq<char>) -> bool {
    exists|i: int| 0 <= i < ifs.len() && !(#[trigger] ifs[i]).1 && ifs[i].0@ == s
}

pub struct WebRtcProvider;

impl WebRtcProvider {
    pub fn signal_kind(&self) -> (k: SignalKind)
        ensures
            k == SignalKind::WebRtc,
    {
        SignalKind::WebRtc
    }

    /// What WebRTC reveals: the local addresses of the interfaces (each given
    /// with whether it is loopback), loopback left out, sorted and without
    /// duplicates; and the public address, when the echo service replied.
    pub fn real_value(&self, interfaces: &Vec<(String, bool)>, public_reply: Option<&str>) -> (r: SignalValue)
        ensures
            r matches SignalValue::WebRtc { public_ips, local_ips } && sorted_strict(
                views(local_ips@),
            ) && (forall|s: Seq<char>|
                views(local_ips@).contains(s) <==> non_loopback(interfaces@, s)) && views(
                public_ips@,
            ) == match public_reply {
                Some(p) => seq![trim(p@)],
                None => Seq::<Seq<char>>::empty(),
            },
    {
        let mut local: Vec<String> = Vec::new();
        let mut i: usize = 0;
        while i < interfaces.len()
            invariant
                i <= interfaces.len(),
                sorted_strict(views(local@)),
                forall|s: Seq<char>|
                    views(local@).contains(s) <==> non_loopback(interfaces@.take(i as int), s),
            decreases interfaces.len() - i,
        {
            let ghost before = views(local@);
            if !interfaces[i].1 {
                insert_sorted(&mut local, interfaces[i].0.clone());
            }
            proof {
                assert forall|s: Seq<char>|
                    views(local@).contains(s) <==> non_loopback(interfaces@.take(i + 1), s) by {
                    let t = interfaces@.take(i + 1);
                    if non_loopback(t, s) {
                        let k = choose|k: int| 0 <= k < t.len() && !(#[trigger] t[k]).1 && t[k].0@ == s;
                        if k < i {
                            assert(interfaces@.take(i as int)[k] == t[k]);
                            assert(non_loopback(interfaces@.take(i as int), s));
                        }
                    }
                    if non_loopback(interfaces@.take(i as int), s) {
                        let k = choose|k: int| 0 <= k < i && !(#[trigger] interfaces@.take(i as int)[k]).1 && interfaces@.take(i as int)[k].0@ == s;
                        assert(t[k] == interfaces@.take(i as int)[k]);
                    }
                    if !interfaces@[i as int].1 && s == interfaces@[i as int].0@ {
                        assert(t[i as int] == interfaces@[i as int]);
                    }
                }
            }
            i = i + 1;
        }
        assert(interfaces@.take(interfaces.len() as int) =~= interfaces@);
        let mut public: Vec<String> = Vec::new();
        match public_reply {
            Some(p) => {
                public.push(trim_exec(p));
                assert(views(public@) =~= seq![trim(p@)]);
            },
            None => {
                assert(views(public@) =~= Seq::<Seq<char>>::empty());
            },
        }
        SignalValue::WebRtc { public_ips: public, local_ips: local }
    }

    /// Not projected.
    pub fn projected_value(&self, profile: &Profile) -> (r: Result<SignalValue, ProviderError>)
        ensures
            r matches Err(ProviderError::NotImplemented),
    {
        Err(ProviderError::NotImplemented)
    }
}

// ───────────────────────────── GPS, Wi-Fi, Bluetooth ─────────────────────────────

/// GPS position.  Reading the real position is not supported: it reads as
/// the origin with no accuracy.
pub struct GeoClueProvider;

impl GeoClueProvider {
    pub fn signal_kind(&self) -> (k: SignalKind)
        ensures
            k == SignalKind::Gps,
    {
        SignalKind::Gps
    }

    pub fn real_value(&self) -> (r: SignalValue)
        ensures
            r == (SignalValue::Gps { lat_micro: 0, lon_micro: 0, accuracy_micro: 0 }),
    {
        SignalValue::Gps { lat_micro: 0, lon_micro: 0, accuracy_micro: 0 }
    }

    /// Not projected.
    pub fn projected_value(&self, profile: &Profile) -> (r: Result<SignalValue, ProviderError>)
        ensures
            r matches Err(ProviderError::NotImplemented),
    {
        Err(ProviderError::NotImplemented)
    }
}

/// Wi-Fi scan.  Scanning is not supported: it reads as no networks.
pub struct WifiProvider;

impl WifiProvider {
    pub fn signal_kind(&self) -> (k: SignalKind)
        ensures
            k == SignalKind::WifiScan,
    {
        SignalKind::WifiScan
    }

    pub fn real_value(&self) -> (r: SignalValue)
        ensures
            r matches SignalValue::WifiScan(v) && v@.len() == 0,
    {
        SignalValue::WifiScan(Vec::new())
    }

    /// Not projected.
    pub fn projected_value(&self, profile: &Profile) -> (r: Result<SignalValue, ProviderError>)
        ensures
            r matches Err(ProviderError::NotImplemented),
    {
        Err(ProviderError::NotImplemented)
    }
}

/// Bluetooth scan.  Scanning is not supported: it reads as no devices.
pub struct BluetoothProvider;

impl BluetoothProvider {
    pub fn signal_kind(&self) -> (k: SignalKind)
        ensures
            k == SignalKind::BluetoothScan,
    {
        SignalKind::BluetoothScan
    }

    pub fn real_value(&self) -> (r: SignalValue)
        ensures
            r matches SignalValue::BluetoothScan(v) && v@.len() == 0,
    {
        SignalValue::BluetoothScan(Vec::new())
    }

    /// Not projected.
    pub fn projected_value(&self, profile: &Profile) -> (r: Result<SignalValue, ProviderError>)
        ensures
            r matches Err(ProviderError::NotImplemented),
    {
        Err(ProviderError::NotImplemented)
    }
}

} // verus!
