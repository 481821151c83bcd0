//! Profile diversity: generated identity values drawn from realistic pools,
//! so that profiles made by this tool do not all look alike.
use crate::netns::strs_view;
use crate::providers::{without_char, without_char_exec};
use crate::rng::{choose_one, fill_16, gen_range_u32, gen_ratio, gen_u8, permutes, shuffle};
use crate::text::{
    chars_of, concat2, decimal, hex2, hex2_string, lowercase, push_char, to_lowercase,
    u32_to_string, zero_pad, zero_pad_string,
};
use rand::rngs::StdRng;
use vstd::prelude::*;

verus! {

#[derive(Debug, Clone)]
pub struct Region {
    pub name: String,
    pub has_macos_share: bool,
    pub primary_lang: String,
}

#[derive(Debug, Clone)]
pub struct MachineId(pub String);

#[derive(Debug, Clone, Copy, PartialEq, Eq, Structural)]
pub enum NicCategory {
    LaptopWifi,
    DesktopEthernet,
    VmVirtio,
    PhoneWifi,
}

#[derive(Debug, Clone)]
pub struct MacAddress(pub String);

#[derive(Debug, Clone, Copy, PartialEq, Eq, Structural)]
pub enum DeviceClass {
    Laptop,
    Desktop,
    Phone,
}

#[derive(Debug, Clone, Copy, PartialEq, Eq, Structural)]
pub struct Resolution {
    pub width: u32,
    pub height: u32,
}

#[derive(Debug, Clone)]
pub struct FontName(pub String);

#[derive(Debug, Clone)]
pub struct LocaleCombo {
    pub lang: String,
    pub lc_time: String,
    pub lc_numeric: String,
    pub tz: String,
}

#[derive(Debug, Clone)]
pub struct GitPersona {
    pub user_name: String,
    pub user_email: String,
}

// ───────────────────────────── hostname ─────────────────────────────

pub open spec fn host_first_names() -> Seq<Seq<char>> {
    seq!["priya"@, "james"@, "alex"@, "sakura"@, "chen"@]
}

pub open spec fn laptop_models() -> Seq<Seq<char>> {
    seq!["thinkpad"@, "latitude"@, "xps"@, "elitebook"@]
}

pub open spec fn departments() -> Seq<Seq<char>> {
    seq!["fin"@, "eng"@, "hr"@, "sales"@]
}

pub open spec fn generic_words() -> Seq<Seq<char>> {
    seq!["archlinux"@, "workstation"@, "dev-box"@, "ninja"@]
}

/// Pattern A: `<name>-<laptop model>`.
pub open spec fn hostname_pattern_a(h: Seq<char>) -> bool {
    exists|n: Seq<char>, m: Seq<char>|
        host_first_names().contains(n) && laptop_models().contains(m) && h == n + "-"@ + m
}

/// Pattern B: `<name>s-macbook-pro`.
pub open spec fn hostname_pattern_b(h: Seq<char>) -> bool {
    exists|n: Seq<char>| host_first_names().contains(n) && h == n + "s-macbook-pro"@
}

/// Pattern C: `<generic word>-<1..99>`.
pub open spec fn hostname_pattern_c(h: Seq<char>) -> bool {
    exists|w: Seq<char>, k: nat| generic_words().contains(w) && 1 <= k < 100 && h == w + "-"@ + decimal(k)
}

/// Pattern D: `<department>-ws-<0001..9998>`.
pub open spec fn hostname_pattern_d(h: Seq<char>) -> bool {
    exists|d: Seq<char>, k: nat|
        departments().contains(d) && 1 <= k < 9999 && h == d + "-ws-"@ + zero_pad(k, 4)
}

/// A hostname of one of the patterns open to the region: pattern B (a Mac
/// name) only where Macs have a market share.
pub open spec fn plausible_hostname(region: Region, h: Seq<char>) -> bool {
    ||| hostname_pattern_a(h)
    ||| region.has_macos_share && hostname_pattern_b(h)
    ||| hostname_pattern_c(h)
    ||| hostname_pattern_d(h)
}

/// The hostname of pattern `pattern` (0: A, 1: B, 3: D, any other: C)
/// made of the `a`-th and `b`-th pool entries and the number `k`.
pub open spec fn hostname_of(pattern: u32, a: int, b: int, k: nat) -> Seq<char> {
    if pattern == 0 {
        host_first_names()[a] + "-"@ + laptop_models()[b]
    } else if pattern == 1 {
        host_first_names()[a] + "s-macbook-pro"@
    } else if pattern == 3 {
        departments()[a] + "-ws-"@ + zero_pad(k, 4)
    } else {
        generic_words()[a] + "-"@ + decimal(k)
    }
}

/// The draws name entries of the pools the pattern uses.
pub open spec fn hostname_draws_fit(pattern: u32, a: int, b: int) -> bool {
    if pattern == 0 {
        0 <= a < host_first_names().len() && 0 <= b < laptop_models().len()
    } else if pattern == 1 {
        0 <= a < host_first_names().len()
    } else if pattern == 3 {
        0 <= a < departments().len()
    } else {
        0 <= a < generic_words().len()
    }
}

/// The hostname made of the drawn values: the pattern, the positions of the
/// pool entries, and the number.
pub fn hostname_from(pattern: u32, a: usize, b: usize, k: u32) -> (h: String)
    requires
        hostname_draws_fit(pattern, a as int, b as int),
    ensures
        h@ == hostname_of(pattern, a as int, b as int, k as nat),
{
    let names = ["priya", "james", "alex", "sakura", "chen"];
    let models = ["thinkpad", "latitude", "xps", "elitebook"];
    let depts = ["fin", "eng", "hr", "sales"];
    let words = ["archlinux", "workstation", "dev-box", "ninja"];
    assert(strs_view(names@) =~= host_first_names());
    assert(strs_view(models@) =~= laptop_models());
    assert(strs_view(depts@) =~= departments());
    assert(strs_view(words@) =~= generic_words());
    if pattern == 0 {
        assert(host_first_names()[a as int] == names@[a as int]@);
        assert(laptop_models()[b as int] == models@[b as int]@);
        crate::text::concat3(names[a], "-", models[b])
    } else if pattern == 1 {
        assert(host_first_names()[a as int] == names@[a as int]@);
        concat2(names[a], "s-macbook-pro")
    } else if pattern == 3 {
        assert(departments()[a as int] == depts@[a as int]@);
        let num = zero_pad_string(k, 4);
        crate::text::concat3(depts[a], "-ws-", num.as_str())
    } else {
        assert(generic_words()[a as int] == words@[a as int]@);
        let num = u32_to_string(k);
        crate::text::concat3(words[a], "-", num.as_str())
    }
}

/// A generated hostname, following one of the patterns open to the region:
/// the hostname made of a pattern drawn from those open to the region,
/// pool entries drawn from its pools and a number drawn from its range.
pub fn generate_hostname(region: &Region, rng: &mut StdRng) -> (h: String)
    ensures
        exists|pattern: u32, a: int, b: int, k: nat|
            hostname_draws_fit(pattern, a, b) && (pattern == 1 ==> region.has_macos_share) && (pattern
                == 3 ==> 1 <= k < 9999) && (pattern != 0 && pattern != 1 && pattern != 3 ==> 1 <= k
                < 100) && h@ == hostname_of(pattern, a, b, k),
        plausible_hostname(*region, h@),
{
    let with_mac = [0u32, 1, 2, 3];
    let without_mac = [0u32, 2, 3];
    let pattern = if region.has_macos_share {
        choose_one(&with_mac, rng)
    } else {
        choose_one(&without_mac, rng)
    };
    assert(pattern == 1 ==> region.has_macos_share);
    assert(pattern <= 3);
    let (a, b, k) = if pattern == 0 {
        let a = gen_range_u32(rng, 0, 5);
        let b = gen_range_u32(rng, 0, 4);
        (a, b, 0u32)
    } else if pattern == 1 {
        (gen_range_u32(rng, 0, 5), 0u32, 0u32)
    } else if pattern == 3 {
        let a = gen_range_u32(rng, 0, 4);
        (a, 0u32, gen_range_u32(rng, 1, 9999))
    } else {
        let a = gen_range_u32(rng, 0, 4);
        (a, 0u32, gen_range_u32(rng, 1, 100))
    };
    let h = hostname_from(pattern, a as usize, b as usize, k);
    proof {
        let (ai, bi, kn) = (a as int, b as int, k as nat);
        if pattern == 0 {
            assert(host_first_names().contains(host_first_names()[ai]));
            assert(laptop_models().contains(laptop_models()[bi]));
            assert(hostname_pattern_a(h@));
        } else if pattern == 1 {
            assert(host_first_names().contains(host_first_names()[ai]));
            assert(hostname_pattern_b(h@));
        } else if pattern == 3 {
            assert(departments().contains(departments()[ai]));
            assert(hostname_pattern_d(h@));
        } else {
            assert(generic_words().contains(generic_words()[ai]));
            assert(hostname_pattern_c(h@));
        }
    }
    h
}

// ───────────────────────────── machine id ─────────────────────────────

/// The lowercase hexadecimal digits of the bytes, two per byte.
pub open spec fn hex_bytes(b: Seq<u8>) -> Seq<char>
    decreases b.len(),
{
    if b.len() == 0 {
        seq![]
    } else {
        hex_bytes(b.drop_last()) + hex2(b.last())
    }
}

/// The hyphenated form of a UUID: 8-4-4-4-12 hexadecimal digits.
pub open spec fn uuid_text(b: Seq<u8>) -> Seq<char> {
    hex_bytes(b.subrange(0, 4)) + "-"@ + hex_bytes(b.subrange(4, 6)) + "-"@ + hex_bytes(
        b.subrange(6, 8),
    ) + "-"@ + hex_bytes(b.subrange(8, 10)) + "-"@ + hex_bytes(b.subrange(10, 16))
}

/// `Uuid::from_bytes(bytes).to_string()`: the lowercase hyphenated form.
#[verifier::external_body]
fn uuid_hyphenated(bytes: [u8; 16]) -> (r: String)
    ensures
        r@ == uuid_text(bytes@),
{
    uuid::Uuid::from_bytes(bytes).to_string()
}

/// The bytes are a version-4, RFC 4122 variant UUID.
pub open spec fn is_uuid_v4(b: Seq<u8>) -> bool {
    b.len() == 16 && b[6] / 16 == 4 && b[8] / 64 == 2
}

proof fn lemma_without_concat(a: Seq<char>, b: Seq<char>, c: char)
    ensures
        without_char(a + b, c) == without_char(a, c) + without_char(b, c),
    decreases b.len(),
{
    if b.len() == 0 {
        assert(a + b =~= a);
        assert(without_char(b, c) =~= Seq::<char>::empty());
        assert(without_char(a, c) + without_char(b, c) =~= without_char(a, c));
    } else {
        assert((a + b).drop_last() =~= a + b.drop_last());
        assert((a + b).last() == b.last());
        lemma_without_concat(a, b.drop_last(), c);
        if b.last() != c {
            assert(without_char(a, c) + without_char(b, c) =~= (without_char(a, c) + without_char(
                b.drop_last(),
                c,
            )).push(b.last()));
        }
    }
}

proof fn lemma_without_absent(s: Seq<char>, c: char)
    requires
        forall|i: int| 0 <= i < s.len() ==> s[i] != c,
    ensures
        without_char(s, c) == s,
    decreases s.len(),
{
    if s.len() > 0 {
        lemma_without_absent(s.drop_last(), c);
        assert(s.drop_last().push(s.last()) =~= s);
    }
}

proof fn lemma_hex_no_dash(b: Seq<u8>)
    ensures
        without_char(hex_bytes(b), '-') == hex_bytes(b),
    decreases b.len(),
{
    if b.len() > 0 {
        lemma_hex_no_dash(b.drop_last());
        let h = hex2(b.last());
        lemma_without_concat(hex_bytes(b.drop_last()), h, '-');
        lemma_without_absent(h, '-');
    }
}

proof fn lemma_hex_concat(a: Seq<u8>, b: Seq<u8>)
    ensures
        hex_bytes(a + b) == hex_bytes(a) + hex_bytes(b),
    decreases b.len(),
{
    if b.len() == 0 {
        assert(a + b =~= a);
    } else {
        assert((a + b).drop_last() =~= a + b.drop_last());
        lemma_hex_concat(a, b.drop_last());
    }
}

proof fn lemma_uuid_without_dashes(b: Seq<u8>)
    requires
        b.len() == 16,
    ensures
        without_char(uuid_text(b), '-') == hex_bytes(b),
{
    let p0 = hex_bytes(b.subrange(0, 4));
    let p1 = hex_bytes(b.subrange(4, 6));
    let p2 = hex_bytes(b.subrange(6, 8));
    let p3 = hex_bytes(b.subrange(8, 10));
    let p4 = hex_bytes(b.subrange(10, 16));
    let d = "-"@;
    reveal_strlit("-");
    assert(d =~= seq!['-']);
    assert(without_char(d, '-') =~= Seq::<char>::empty()) by {
        assert(d.drop_last() =~= Seq::<char>::empty());
        reveal_with_fuel(without_char, 2);
    }
    lemma_hex_no_dash(b.subrange(0, 4));
    lemma_hex_no_dash(b.subrange(4, 6));
    lemma_hex_no_dash(b.subrange(6, 8));
    lemma_hex_no_dash(b.subrange(8, 10));
    lemma_hex_no_dash(b.subrange(10, 16));
    lemma_without_concat(p0, d, '-');
    lemma_without_concat(p0 + d, p1, '-');
    lemma_without_concat(p0 + d + p1, d, '-');
    lemma_without_concat(p0 + d + p1 + d, p2, '-');
    lemma_without_concat(p0 + d + p1 + d + p2, d, '-');
    lemma_without_concat(p0 + d + p1 + d + p2 + d, p3, '-');
    lemma_without_concat(p0 + d + p1 + d + p2 + d + p3, d, '-');
    lemma_without_concat(p0 + d + p1 + d + p2 + d + p3 + d, p4, '-');
    lemma_hex_concat(b.subrange(0, 4), b.subrange(4, 6));
    assert(b.subrange(0, 4) + b.subrange(4, 6) =~= b.subrange(0, 6));
    lemma_hex_concat(b.subrange(0, 6), b.subrange(6, 8));
    assert(b.subrange(0, 6) + b.subrange(6, 8) =~= b.subrange(0, 8));
    lemma_hex_concat(b.subrange(0, 8), b.subrange(8, 10));
    assert(b.subrange(0, 8) + b.subrange(8, 10) =~= b.subrange(0, 10));
    lemma_hex_concat(b.subrange(0, 10), b.subrange(10, 16));
    assert(b.subrange(0, 10) + b.subrange(10, 16) =~= b);
    assert(without_char(uuid_text(b), '-') =~= p0 + p1 + p2 + p3 + p4);
}

/// The bytes with the version (4) and variant (RFC 4122) bits of a UUID set.
pub open spec fn with_v4_bits(b: Seq<u8>) -> Seq<u8> {
    b.update(6, (b[6] & 0x0f) | 0x40).update(8, (b[8] & 0x3f) | 0x80)
}

/// The machine id made of 16 random bytes: they are marked as a version-4
/// UUID and written as 32 lowercase hexadecimal digits, without dashes.
pub fn machine_id_from_bytes(bytes: [u8; 16]) -> (m: MachineId)
    ensures
        m.0@ == hex_bytes(with_v4_bits(bytes@)),
        is_uuid_v4(with_v4_bits(bytes@)),
{
    let mut bytes = bytes;
    let ghost raw = bytes@;
    let b6 = bytes[6];
    let b8 = bytes[8];
    let v6: u8 = (b6 & 0x0f) | 0x40;
    let v8: u8 = (b8 & 0x3f) | 0x80;
    assert(((b6 & 0x0f) | 0x40) / 16 == 4) by (bit_vector);
    assert(((b8 & 0x3f) | 0x80) / 64 == 2) by (bit_vector);
    bytes[6] = v6;
    bytes[8] = v8;
    assert(bytes@ =~= with_v4_bits(raw));
    let text = uuid_hyphenated(bytes);
    let id = without_char_exec(text.as_str(), '-');
    proof {
        lemma_uuid_without_dashes(bytes@);
    }
    MachineId(id)
}

/// A random machine id: a version-4 UUID written as 32 lowercase
/// hexadecimal digits without dashes.
pub fn generate_machine_id(rng: &mut StdRng) -> (m: MachineId)
    ensures
        exists|b: Seq<u8>| b.len() == 16 && m.0@ == hex_bytes(with_v4_bits(b)),
        exists|b: Seq<u8>| is_uuid_v4(b) && m.0@ == hex_bytes(b),
{
    let bytes = fill_16(rng);
    let m = machine_id_from_bytes(bytes);
    assert(bytes@.len() == 16);
    m
}

// ───────────────────────────── MAC address ─────────────────────────────

/// The OUIs of the vendors most common for each kind of interface.
pub open spec fn category_ouis(c: NicCategory) -> Seq<Seq<u8>> {
    match c {
        NicCategory::LaptopWifi => seq![seq![0x00u8, 0x11u8, 0x24u8], seq![0x00u8, 0x14u8, 0x22u8]],
        NicCategory::DesktopEthernet => seq![seq![0x00u8, 0x1Cu8, 0xC0u8], seq![0x00u8, 0x1Bu8, 0x21u8]],
        NicCategory::VmVirtio => seq![
            seq![0x52u8, 0x54u8, 0x00u8],
            seq![0x08u8, 0x00u8, 0x27u8],
            seq![0x00u8, 0x05u8, 0x69u8],
        ],
        NicCategory::PhoneWifi => seq![seq![0x00u8, 0x22u8, 0xABu8], seq![0x00u8, 0x11u8, 0x22u8]],
    }
}

/// Six bytes written as colon-separated pairs of lowercase hex digits.
pub open spec fn mac_text(b: Seq<u8>) -> Seq<char> {
    hex2(b[0]) + ":"@ + hex2(b[1]) + ":"@ + hex2(b[2]) + ":"@ + hex2(b[3]) + ":"@ + hex2(b[4]) + ":"@
        + hex2(b[5])
}

/// A MAC address of the category: one of its OUIs, with the locally
/// administered bit cleared, and three random bytes.
pub open spec fn generated_mac(c: NicCategory, mac: Seq<char>) -> bool {
    exists|b: Seq<u8>, oui: Seq<u8>|
        b.len() == 6 && category_ouis(c).contains(oui) && b[0] == (oui[0] & 0xFD) && b[1] == oui[1]
            && b[2] == oui[2] && mac == mac_text(b)
}

fn ouis_of(category: NicCategory, rng: &mut StdRng) -> (o: [u8; 3])
    ensures
        category_ouis(category).contains(o@),
{
    match category {
        NicCategory::LaptopWifi => {
            let v = [[0x00u8, 0x11, 0x24], [0x00u8, 0x14, 0x22]];
            let o = choose_one(&v, rng);
            proof { lemma_pick_oui(v@, o, category_ouis(category)); }
            o
        },
        NicCategory::DesktopEthernet => {
            let v = [[0x00u8, 0x1C, 0xC0], [0x00u8, 0x1B, 0x21]];
            let o = choose_one(&v, rng);
            proof { lemma_pick_oui(v@, o, category_ouis(category)); }
            o
        },
        NicCategory::VmVirtio => {
            let v = [[0x52u8, 0x54, 0x00], [0x08u8, 0x00, 0x27], [0x00u8, 0x05, 0x69]];
            let o = choose_one(&v, rng);
            proof { lemma_pick_oui(v@, o, category_ouis(category)); }
            o
        },
        NicCategory::PhoneWifi => {
            let v = [[0x00u8, 0x22, 0xAB], [0x00u8, 0x11, 0x22]];
            let o = choose_one(&v, rng);
            proof { lemma_pick_oui(v@, o, category_ouis(category)); }
            o
        },
    }
}

proof fn lemma_pick_oui(v: Seq<[u8; 3]>, o: [u8; 3], ouis: Seq<Seq<u8>>)
    requires
        v.contains(o),
        v.len() == ouis.len(),
        forall|i: int| 0 <= i < v.len() ==> (#[trigger] v[i])@ =~= ouis[i],
    ensures
        ouis.contains(o@),
{
    let i = choose|i: int| 0 <= i < v.len() && v[i] == o;
    assert(v[i]@ =~= ouis[i]);
}

/// The bytes of the MAC address made of an OUI and three random bytes: the
/// OUI's first byte loses its locally administered bit.
pub open spec fn mac_bytes(oui: Seq<u8>, tail: Seq<u8>) -> Seq<u8> {
    seq![oui[0] & 0xFD, oui[1], oui[2], tail[0], tail[1], tail[2]]
}

/// The MAC address made of the vendor prefix `oui` and the random bytes
/// `tail`.
pub fn mac_from_parts(oui: [u8; 3], tail: [u8; 3]) -> (m: MacAddress)
    ensures
        m.0@ == mac_text(mac_bytes(oui@, tail@)),
{
    let b1 = oui[0] & 0xFD;
    let mut s = hex2_string(b1);
    s.append(":");
    s.append(hex2_string(oui[1]).as_str());
    s.append(":");
    s.append(hex2_string(oui[2]).as_str());
    s.append(":");
    s.append(hex2_string(tail[0]).as_str());
    s.append(":");
    s.append(hex2_string(tail[1]).as_str());
    s.append(":");
    s.append(hex2_string(tail[2]).as_str());
    assert(s@ =~= mac_text(mac_bytes(oui@, tail@)));
    MacAddress(s)
}

/// A generated MAC address for the interface category; the region does not
/// affect it.
pub fn generate_mac(category: NicCategory, region: &Region, rng: &mut StdRng) -> (m: MacAddress)
    ensures
        generated_mac(category, m.0@),
{
    let oui = ouis_of(category, rng);
    let r1 = gen_u8(rng);
    let r2 = gen_u8(rng);
    let r3 = gen_u8(rng);
    let m = mac_from_parts(oui, [r1, r2, r3]);
    proof {
        let b = mac_bytes(oui@, seq![r1, r2, r3]);
        assert(generated_mac(category, m.0@)) by {
            assert(b.len() == 6 && category_ouis(category).contains(oui@) && b[0] == (oui@[0] & 0xFD)
                && b[1] == oui@[1] && b[2] == oui@[2] && m.0@ == mac_text(b));
        }
    }
    m
}

/// A generated MAC address is a universally administered one: the
/// locally administered bit of its first byte is clear.
pub proof fn lemma_generated_mac_universal(c: NicCategory, mac: Seq<char>)
    requires
        generated_mac(c, mac),
    ensures
        exists|b: Seq<u8>| b.len() == 6 && mac == mac_text(b) && #[trigger] (b[0] & 0x02) == 0,
{
    let (b, oui) = choose|b: Seq<u8>, oui: Seq<u8>|
        b.len() == 6 && category_ouis(c).contains(oui) && b[0] == (oui[0] & 0xFD) && b[1] == oui[1]
            && b[2] == oui[2] && mac == mac_text(b);
    let x = oui[0];
    assert((x & 0xFD) & 0x02 == 0) by (bit_vector);
    assert(b[0] & 0x02 == 0);
}

// ───────────────────────────── screen resolution ─────────────────────────────

pub open spec fn class_resolutions(c: DeviceClass) -> Seq<(u32, u32)> {
    match c {
        DeviceClass::Laptop => seq![(2560u32, 1600u32), (1920, 1200), (1920, 1080), (1366, 768), (2880, 1800)],
        DeviceClass::Desktop => seq![(3840u32, 2160u32), (2560, 1440), (1920, 1080), (1680, 1050)],
        DeviceClass::Phone => seq![(1080u32, 2340u32), (1170, 2532), (1440, 3200)],
    }
}

/// A generated screen resolution, one of those common for the device class.
pub fn generate_screen_resolution(device_class: DeviceClass, region: &Region, rng: &mut StdRng) -> (r: Resolution)
    ensures
        class_resolutions(device_class).contains((r.width, r.height)),
{
    let chosen = match device_class {
        DeviceClass::Laptop => {
            let v = [(2560u32, 1600u32), (1920, 1200), (1920, 1080), (1366, 768), (2880, 1800)];
            let c = choose_one(&v, rng);
            assert(v@ =~= class_resolutions(device_class));
            c
        },
        DeviceClass::Desktop => {
            let v = [(3840u32, 2160u32), (2560, 1440), (1920, 1080), (1680, 1050)];
            let c = choose_one(&v, rng);
            assert(v@ =~= class_resolutions(device_class));
            c
        },
        DeviceClass::Phone => {
            let v = [(1080u32, 2340u32), (1170, 2532), (1440, 3200)];
            let c = choose_one(&v, rng);
            assert(v@ =~= class_resolutions(device_class));
            c
        },
    };
    Resolution { width: chosen.0, height: chosen.1 }
}

// ───────────────────────────── font set ─────────────────────────────

pub open spec fn base_fonts() -> Seq<Seq<char>> {
    seq![
        "Arial"@,
        "Times New Roman"@,
        "Courier New"@,
        "Verdana"@,
        "Tahoma"@,
        "Trebuchet MS"@,
        "Georgia"@,
        "Impact"@,
        "Comic Sans MS"@,
        "Lucida Console"@,
        "Garamond"@,
        "Palatino Linotype"@,
    ]
}

pub open spec fn supplement_fonts() -> Seq<Seq<char>> {
    seq!["Noto Sans CJK JP"@, "Noto Sans Arabic"@, "Noto Sans Devanagari"@, "FreeSans"@, "DejaVu Sans"@]
}

pub open spec fn application_fonts() -> Seq<Seq<char>> {
    seq!["Liberation Sans"@, "Ubuntu"@, "Droid Sans"@, "Roboto"@, "Open Sans"@]
}

pub open spec fn font_names(fonts: Seq<FontName>) -> Seq<Seq<char>> {
    fonts.map_values(|f: FontName| f.0@)
}

/// The fonts before shuffling: the base fonts, then the supplements at the
/// drawn positions, then the application fonts at the drawn positions.
pub open spec fn font_list(supp: Seq<usize>, apps: Seq<usize>) -> Seq<Seq<char>> {
    base_fonts() + supp.map_values(|i: usize| supplement_fonts()[i as int]) + apps.map_values(
        |i: usize| application_fonts()[i as int],
    )
}

/// Every drawn position is one of the pool's.
pub open spec fn picks_fit(picks: Seq<usize>, pool: nat) -> bool {
    forall|i: int| 0 <= i < picks.len() ==> #[trigger] picks[i] < pool
}

/// A font set made of one or two supplements and three to five application
/// fonts (each drawn with repetition allowed) besides the base fonts, in
/// some order.
pub open spec fn generated_font_set(names: Seq<Seq<char>>) -> bool {
    exists|supp: Seq<usize>, apps: Seq<usize>|
        1 <= supp.len() < 3 && 3 <= apps.len() < 6 && picks_fit(supp, 5) && picks_fit(apps, 5)
            && permutes(names, font_list(supp, apps))
}

fn push_font(out: &mut Vec<FontName>, name: &str)
    ensures
        font_names(final(out)@) == font_names(old(out)@).push(name@),
{
    let ghost before = out@;
    out.push(FontName(String::from_str(name)));
    assert(font_names(out@) =~= font_names(before).push(name@));
}

/// The font list made of the drawn positions, before shuffling.
pub fn fonts_from(supp: &Vec<usize>, apps: &Vec<usize>) -> (r: Vec<FontName>)
    requires
        picks_fit(supp@, 5),
        picks_fit(apps@, 5),
    ensures
        font_names(r@) == font_list(supp@, apps@),
{
    let base = [
        "Arial",
        "Times New Roman",
        "Courier New",
        "Verdana",
        "Tahoma",
        "Trebuchet MS",
        "Georgia",
        "Impact",
        "Comic Sans MS",
        "Lucida Console",
        "Garamond",
        "Palatino Linotype",
    ];
    let supp_pool = ["Noto Sans CJK JP", "Noto Sans Arabic", "Noto Sans Devanagari", "FreeSans", "DejaVu Sans"];
    let app_pool = ["Liberation Sans", "Ubuntu", "Droid Sans", "Roboto", "Open Sans"];
    assert(strs_view(base@) =~= base_fonts());
    assert(strs_view(supp_pool@) =~= supplement_fonts());
    assert(strs_view(app_pool@) =~= application_fonts());
    let mut out: Vec<FontName> = Vec::new();
    let mut i: usize = 0;
    while i < 12
        invariant
            i <= 12,
            base@.len() == 12,
            strs_view(base@) == base_fonts(),
            font_names(out@) == base_fonts().take(i as int),
        decreases 12 - i,
    {
        push_font(&mut out, base[i]);
        assert(base_fonts().take(i + 1) =~= base_fonts().take(i as int).push(base@[i as int]@));
        i = i + 1;
    }
    assert(base_fonts().take(12) =~= base_fonts());
    let mut j: usize = 0;
    while j < supp.len()
        invariant
            j <= supp.len(),
            picks_fit(supp@, 5),
            strs_view(supp_pool@) == supplement_fonts(),
            font_names(out@) == base_fonts() + supp@.take(j as int).map_values(
                |i: usize| supplement_fonts()[i as int],
            ),
        decreases supp.len() - j,
    {
        let k = supp[j];
        assert(k < 5);
        push_font(&mut out, supp_pool[k]);
        assert(supp@.take(j + 1).map_values(|i: usize| supplement_fonts()[i as int]) =~= supp@.take(
            j as int,
        ).map_values(|i: usize| supplement_fonts()[i as int]).push(supp_pool@[k as int]@));
        j = j + 1;
    }
    assert(supp@.take(supp.len() as int) =~= supp@);
    let ghost mid = font_names(out@);
    let mut j: usize = 0;
    while j < apps.len()
        invariant
            j <= apps.len(),
            picks_fit(apps@, 5),
            strs_view(app_pool@) == application_fonts(),
            font_names(out@) == mid + apps@.take(j as int).map_values(
                |i: usize| application_fonts()[i as int],
            ),
        decreases apps.len() - j,
    {
        let k = apps[j];
        assert(k < 5);
        push_font(&mut out, app_pool[k]);
        assert(apps@.take(j + 1).map_values(|i: usize| application_fonts()[i as int]) =~= apps@.take(
            j as int,
        ).map_values(|i: usize| application_fonts()[i as int]).push(app_pool@[k as int]@));
        j = j + 1;
    }
    assert(apps@.take(apps.len() as int) =~= apps@);
    out
}

proof fn lemma_permutes_names(a: Seq<FontName>, b: Seq<FontName>)
    requires
        permutes(a, b),
    ensures
        permutes(font_names(a), font_names(b)),
{
    let p = choose|p: Seq<int>|
        crate::rng::is_index_perm(p, b.len()) && forall|i: int| 0 <= i < a.len() ==> #[trigger] a[i] == b[p[i]];
    assert forall|i: int| 0 <= i < font_names(a).len() implies #[trigger] font_names(a)[i] == font_names(
        b,
    )[p[i]] by {
        assert(a[i] == b[p[i]]);
    }
}

fn draw_picks(rng: &mut StdRng, lo: u32, hi: u32) -> (picks: Vec<usize>)
    requires
        lo < hi,
    ensures
        lo <= picks@.len() < hi,
        picks_fit(picks@, 5),
{
    let n = gen_range_u32(rng, lo, hi);
    let mut picks: Vec<usize> = Vec::new();
    let mut j: u32 = 0;
    while j < n
        invariant
            j <= n,
            picks@.len() == j,
            picks_fit(picks@, 5),
        decreases n - j,
    {
        let k = gen_range_u32(rng, 0, 5);
        picks.push(k as usize);
        j = j + 1;
    }
    picks
}

/// A generated font set; the region does not affect it.
pub fn generate_font_set(region: &Region, rng: &mut StdRng) -> (fonts: Vec<FontName>)
    ensures
        generated_font_set(font_names(fonts@)),
{
    let supp = draw_picks(rng, 1, 3);
    let apps = draw_picks(rng, 3, 6);
    let mut fonts = fonts_from(&supp, &apps);
    let ghost unshuffled = fonts@;
    shuffle(&mut fonts, rng);
    proof {
        lemma_permutes_names(fonts@, unshuffled);
    }
    fonts
}

// ───────────────────────────── locale ─────────────────────────────

/// The region's language in UTF-8; the time or the number format may vary
/// (English times, or German numbers), never both; the zone is London.
pub open spec fn plausible_locale(region: Region, c: LocaleCombo) -> bool {
    let lang = region.primary_lang@ + ".UTF-8"@;
    &&& c.lang@ == lang
    &&& c.tz@ == "Europe/London"@
    &&& ((c.lc_time@ == lang && c.lc_numeric@ == lang) || (c.lc_time@ == "en_US.UTF-8"@
        && c.lc_numeric@ == lang) || (c.lc_time@ == lang && c.lc_numeric@ == "de_DE.UTF-8"@))
}

/// The locale combination of the region: without `variation`, every field
/// is the region's language; with `Some(true)`, times are English; with
/// `Some(false)`, numbers are German.
pub fn locale_combo_from(region: &Region, variation: Option<bool>) -> (c: LocaleCombo)
    ensures
        ({
            let lang = region.primary_lang@ + ".UTF-8"@;
            &&& c.lang@ == lang
            &&& c.tz@ == "Europe/London"@
            &&& c.lc_time@ == (if variation == Some(true) { "en_US.UTF-8"@ } else { lang })
            &&& c.lc_numeric@ == (if variation == Some(false) { "de_DE.UTF-8"@ } else { lang })
        }),
{
    let lang = concat2(region.primary_lang.as_str(), ".UTF-8");
    let lc_time = match variation {
        Some(true) => String::from_str("en_US.UTF-8"),
        _ => concat2(region.primary_lang.as_str(), ".UTF-8"),
    };
    let lc_numeric = match variation {
        Some(false) => String::from_str("de_DE.UTF-8"),
        _ => concat2(region.primary_lang.as_str(), ".UTF-8"),
    };
    LocaleCombo { lang, lc_time, lc_numeric, tz: String::from_str("Europe/London") }
}

/// A generated locale combination: one time in five with a variation, which
/// is English times or German numbers with even chances.
pub fn generate_locale_combo(region: &Region, rng: &mut StdRng) -> (c: LocaleCombo)
    ensures
        plausible_locale(*region, c),
{
    let variation = if gen_ratio(rng, 1, 5) {
        Some(gen_ratio(rng, 1, 2))
    } else {
        None
    };
    locale_combo_from(region, variation)
}

// ───────────────────────────── git persona ─────────────────────────────

pub open spec fn persona_names() -> Seq<Seq<char>> {
    seq!["Priya"@, "James"@, "Alex"@, "Sakura"@, "Chen"@, "Muhammad"@, "Wei"@]
}

pub open spec fn email_domains() -> Seq<Seq<char>> {
    seq!["gmail.com"@, "yahoo.co.jp"@, "naver.com"@, "163.com"@, "gmx.de"@]
}

/// `First Last` with `first.last@domain`, the names lowercased.
pub open spec fn plausible_persona(p: GitPersona) -> bool {
    exists|first: Seq<char>, last: Seq<char>, domain: Seq<char>|
        persona_names().contains(first) && persona_names().contains(last)
            && email_domains().contains(domain) && p.user_name@ == first + " "@ + last
            && p.user_email@ == lowercase(first) + "."@ + lowercase(last) + "@"@ + domain
}

/// The persona of `first last`, whose lowercased names are `first_lower`
/// and `last_lower`, with a mailbox at `domain`.
pub fn persona_of(first: &str, last: &str, first_lower: &str, last_lower: &str, domain: &str) -> (p: GitPersona)
    ensures
        p.user_name@ == first@ + " "@ + last@,
        p.user_email@ == first_lower@ + "."@ + last_lower@ + "@"@ + domain@,
{
    let user_name = crate::text::concat3(first, " ", last);
    let mut email = String::from_str(first_lower);
    email.append(".");
    email.append(last_lower);
    email.append("@");
    email.append(domain);
    GitPersona { user_name, user_email: email }
}

/// A generated git identity; the region does not affect it.
pub fn generate_git_persona(region: &Region, rng: &mut StdRng) -> (p: GitPersona)
    ensures
        plausible_persona(p),
{
    let names = ["Priya", "James", "Alex", "Sakura", "Chen", "Muhammad", "Wei"];
    let domains = ["gmail.com", "yahoo.co.jp", "naver.com", "163.com", "gmx.de"];
    let first = choose_one(&names, rng);
    let last = choose_one(&names, rng);
    let domain = choose_one(&domains, rng);
    assert(strs_view(names@) =~= persona_names());
    assert(strs_view(domains@) =~= email_domains());
    let first_lower = to_lowercase(first);
    let last_lower = to_lowercase(last);
    let p = persona_of(first, last, first_lower.as_str(), last_lower.as_str(), domain);
    proof {
        let i = choose|i: int| 0 <= i < names@.len() && names@[i] == first;
        assert(persona_names()[i] == first@);
        let j = choose|j: int| 0 <= j < names@.len() && names@[j] == last;
        assert(persona_names()[j] == last@);
        let k = choose|k: int| 0 <= k < domains@.len() && domains@[k] == domain;
        assert(email_domains()[k] == domain@);
        assert(plausible_persona(p));
    }
    p
}

} // verus!
