//! Consistency rules: checks that the gathered signals tell one coherent
//! story, and the score that sums up how many of them do not.
use crate::protocol::{SignalKind, SignalMap, SignalValue};
use crate::rng::{is_index_perm, permutes};
use crate::text::{
    chars_eq_ignore_ascii_case, chars_of, eq_ignore_ascii_case, join, join_exec, lemma_views_push,
    split_char, split_char_exec, str_eq, views,
};
use vstd::prelude::*;

verus! {

/// The verdict of one rule.
#[derive(Debug)]
pub struct RuleResult {
    pub rule_name: String,
    pub description: String,
    pub passed: bool,
    pub score_impact: i32,
    pub details: String,
}

/// What a rule's result says: its name and description, whether it passed,
/// what failing costs, and the details.
pub ghost struct Verdict {
    pub rule_name: Seq<char>,
    pub description: Seq<char>,
    pub passed: bool,
    pub score_impact: i32,
    pub details: Seq<char>,
}

impl RuleResult {
    /// The verdict this result carries.
    pub open spec fn verdict(&self) -> Verdict {
        Verdict {
            rule_name: self.rule_name@,
            description: self.description@,
            passed: self.passed,
            score_impact: self.score_impact,
            details: self.details@,
        }
    }
}

/// A check over the signals of one machine.
pub trait ConsistencyRule {
    /// The verdict of this rule on the signals.  The rules of this library
    /// define it.  A rule that does not keeps the default: one fixed verdict,
    /// left unnamed, the same for every input, to which its `evaluate` is
    /// then held.
    open spec fn verdict_on(&self, signals: Map<SignalKind, SignalValue>) -> Verdict {
        arbitrary()
    }

    fn name(&self) -> &str;

    fn description(&self) -> &str;

    fn evaluate(&self, signals: &SignalMap) -> (r: RuleResult)
        ensures
            r.verdict() == self.verdict_on(signals@),
    ;
}

// ───────────────────────────── the score ─────────────────────────────

/// Sum of the impacts of the failed results.
pub open spec fn penalty(rs: Seq<RuleResult>) -> int
    decreases rs.len(),
{
    if rs.len() == 0 {
        0
    } else {
        penalty(rs.drop_last()) + if rs.last().passed {
            0
        } else {
            rs.last().score_impact as int
        }
    }
}

/// The consistency score: 100 less the penalty, never below zero.
pub open spec fn score(rs: Seq<RuleResult>) -> int {
    let raw = 100 - penalty(rs);
    if raw < 0 {
        0
    } else {
        raw
    }
}

/// Every running total of the score stays within `i32`.
pub open spec fn score_fits(rs: Seq<RuleResult>) -> bool {
    forall|k: int|
        0 <= k <= rs.len() ==> i32::MIN <= 100 - penalty(#[trigger] rs.take(k)) <= i32::MAX
}

/// A registered rule.
struct RuleSlot<R: ?Sized> {
    rule: Box<R>,
}

fn push_slot(v: &mut Vec<RuleSlot<dyn ConsistencyRule>>, slot: RuleSlot<dyn ConsistencyRule>)
    ensures
        final(v)@ == old(v)@.push(slot),
{
    v.push(slot);
}

/// Engine that runs every registered rule over one set of signals.
pub struct ConsistencyEngine {
    rules: Vec<RuleSlot<dyn ConsistencyRule>>,
}

impl ConsistencyEngine {
    /// Number of registered rules.
    pub closed spec fn num_rules(&self) -> nat {
        self.rules@.len()
    }

    /// The verdict of the `i`-th registered rule (counting from 0, in
    /// registration order) on the signals.
    pub closed spec fn verdict_of(&self, i: int, signals: Map<SignalKind, SignalValue>) -> Verdict {
        self.rules@[i].rule.verdict_on(signals)
    }

    pub fn new() -> (e: ConsistencyEngine)
        ensures
            e.num_rules() == 0,
    {
        ConsistencyEngine { rules: Vec::new() }
    }

    /// Appends a rule; `evaluate` runs the rules in registration order.
    pub fn register_rule(&mut self, rule: Box<dyn ConsistencyRule>)
        ensures
            final(self).num_rules() == old(self).num_rules() + 1,
            forall|i: int, m: Map<SignalKind, SignalValue>|
                0 <= i < old(self).num_rules() ==> #[trigger] final(self).verdict_of(i, m)
                    == old(self).verdict_of(i, m),
            forall|m: Map<SignalKind, SignalValue>|
                #[trigger] final(self).verdict_of(old(self).num_rules() as int, m) == rule.verdict_on(m),
    {
        let ghost before = self.rules@;
        let slot = RuleSlot { rule };
        push_slot(&mut self.rules, slot);
        assert(self.rules@.len() == before.len() + 1);
        assert(self.rules@[before.len() as int].rule == rule);
        assert(forall|i: int| 0 <= i < before.len() ==> self.rules@[i] == before[i]);
    }

    /// One result per registered rule, in registration order: the `i`-th is
    /// the verdict of the `i`-th rule.
    pub fn evaluate(&self, signals: &SignalMap) -> (out: Vec<RuleResult>)
        ensures
            out.len() == self.num_rules(),
            forall|i: int| 0 <= i < out.len() ==> (#[trigger] out@[i]).verdict() == self.verdict_of(i, signals@),
    {
        let mut out: Vec<RuleResult> = Vec::new();
        let mut i: usize = 0;
        while i < self.rules.len()
            invariant
                i <= self.rules.len(),
                out.len() == i,
                forall|j: int| 0 <= j < i ==> (#[trigger] out@[j]).verdict() == self.verdict_of(j, signals@),
            decreases self.rules.len() - i,
        {
            out.push(self.rules[i].rule.evaluate(signals));
            i = i + 1;
        }
        out
    }

    /// 100, less the impact of every failed result, floored at 0.
    pub fn calculate_score(results: &[RuleResult]) -> (s: i32)
        requires
            score_fits(results@),
        ensures
            s == score(results@),
    {
        let mut total: i32 = 100;
        let mut i: usize = 0;
        while i < results.len()
            invariant
                i <= results.len(),
                score_fits(results@),
                total == 100 - penalty(results@.take(i as int)),
            decreases results.len() - i,
        {
            proof {
                let t = results@.take(i + 1);
                assert(t.drop_last() =~= results@.take(i as int));
                assert(t.last() == results@[i as int]);
                assert(i32::MIN <= 100 - penalty(results@.take(i + 1)) <= i32::MAX);
            }
            if !results[i].passed {
                total = total - results[i].score_impact;
            }
            i = i + 1;
        }
        assert(results@.take(results@.len() as int) =~= results@);
        if total < 0 {
            0
        } else {
            total
        }
    }
}

/// The score never drops below zero, and never rises above 100 while no
/// impact is negative.
pub proof fn lemma_score_bounds(rs: Seq<RuleResult>)
    ensures
        score(rs) >= 0,
        (forall|i: int| 0 <= i < rs.len() ==> (#[trigger] rs[i]).score_impact >= 0) ==> score(rs)
            <= 100,
{
    if forall|i: int| 0 <= i < rs.len() ==> (#[trigger] rs[i]).score_impact >= 0 {
        lemma_penalty_nonneg(rs);
    }
}

proof fn lemma_penalty_nonneg(rs: Seq<RuleResult>)
    requires
        forall|i: int| 0 <= i < rs.len() ==> (#[trigger] rs[i]).score_impact >= 0,
    ensures
        penalty(rs) >= 0,
    decreases rs.len(),
{
    if rs.len() > 0 {
        assert forall|i: int| 0 <= i < rs.drop_last().len() implies (
        #[trigger] rs.drop_last()[i]).score_impact >= 0 by {
            assert(rs.drop_last()[i] == rs[i]);
        }
        lemma_penalty_nonneg(rs.drop_last());
        assert(rs.last() == rs[rs.len() - 1]);
    }
}

/// When every rule passes, the score is 100.
pub proof fn lemma_all_pass_scores_full(rs: Seq<RuleResult>)
    requires
        forall|i: int| 0 <= i < rs.len() ==> (#[trigger] rs[i]).passed,
    ensures
        score(rs) == 100,
    decreases rs.len(),
{
    if rs.len() > 0 {
        assert forall|i: int| 0 <= i < rs.drop_last().len() implies (
        #[trigger] rs.drop_last()[i]).passed by {
            assert(rs.drop_last()[i] == rs[i]);
        }
        lemma_all_pass_scores_full(rs.drop_last());
        assert(rs.last() == rs[rs.len() - 1]);
    }
}

/// One more result lowers the score by its impact when it fails (floored at
/// zero) and leaves it as it was when it passes.
pub proof fn lemma_score_push(rs: Seq<RuleResult>, r: RuleResult)
    ensures
        r.passed ==> score(rs.push(r)) == score(rs),
        !r.passed ==> 100 - penalty(rs.push(r)) == 100 - penalty(rs) - r.score_impact,
        !r.passed && r.score_impact > 0 && score(rs) > 0 ==> score(rs.push(r)) < score(rs),
{
    assert(rs.push(r).drop_last() =~= rs);
}

/// The score does not depend on the order in which the rules ran: results
/// that are the same ones in another order score the same.
pub proof fn lemma_score_order_independent(a: Seq<RuleResult>, b: Seq<RuleResult>)
    requires
        permutes(a, b),
    ensures
        score(a) == score(b),
{
    lemma_penalty_permutes(a, b);
}

proof fn lemma_penalty_permutes(a: Seq<RuleResult>, b: Seq<RuleResult>)
    requires
        permutes(a, b),
    ensures
        penalty(a) == penalty(b),
    decreases a.len(),
{
    if a.len() > 0 {
        let p = choose|p: Seq<int>|
            is_index_perm(p, b.len()) && forall|i: int| 0 <= i < a.len() ==> #[trigger] a[i] == b[p[i]];
        let n = a.len() as int;
        let j = p[n - 1];
        let b2 = b.remove(j);
        let p2 = Seq::new((n - 1) as nat, |i: int| if p[i] < j { p[i] } else { p[i] - 1 });
        assert forall|i: int| 0 <= i < n - 1 implies p[i] != j by {
            assert(p[i] != p[n - 1]);
        }
        assert forall|i: int, k: int| 0 <= i < k < n - 1 implies #[trigger] p2[i] != #[trigger] p2[k] by {
            assert(p[i] != p[k]);
            assert(p[i] != j && p[k] != j);
        }
        assert forall|i: int| 0 <= i < n - 1 implies 0 <= #[trigger] p2[i] < n - 1 by {
            assert(p[i] != j);
        }
        assert(is_index_perm(p2, b2.len()));
        assert forall|i: int| 0 <= i < n - 1 implies #[trigger] a.drop_last()[i] == b2[p2[i]] by {
            assert(a[i] == b[p[i]]);
            assert(p[i] != j);
        }
        assert(permutes(a.drop_last(), b2));
        lemma_penalty_permutes(a.drop_last(), b2);
        assert(a.last() == b[j]);
        let left = b.take(j);
        let right = b.skip(j + 1);
        assert(b2 =~= left + right);
        assert(b =~= left + seq![b[j]] + right);
        lemma_penalty_concat(left, right);
        lemma_penalty_concat(left + seq![b[j]], right);
        lemma_penalty_concat(left, seq![b[j]]);
        let one = seq![b[j]];
        assert(one.drop_last() =~= Seq::<RuleResult>::empty());
        assert(one.last() == b[j]);
        let fx: int = if b[j].passed { 0 } else { b[j].score_impact as int };
        assert(penalty(one.drop_last()) == 0);
        assert(penalty(one) == fx);
        assert(penalty(b2) == penalty(left) + penalty(right));
        assert(penalty(b) == penalty(left) + fx + penalty(right));
        assert(penalty(a) == penalty(a.drop_last()) + fx);
    }
}

proof fn lemma_penalty_concat(a: Seq<RuleResult>, b: Seq<RuleResult>)
    ensures
        penalty(a + b) == penalty(a) + penalty(b),
    decreases b.len(),
{
    if b.len() > 0 {
        assert((a + b).drop_last() =~= a + b.drop_last());
        assert((a + b).last() == b.last());
        lemma_penalty_concat(a, b.drop_last());
    } else {
        assert(a + b =~= a);
    }
}

// ───────────────────────────── BasicNetworkRule ─────────────────────────────

/// `format!("{:?}", v)` for a list of strings.
pub uninterp spec fn debug_list(items: Seq<Seq<char>>) -> Seq<char>;

/// `<Vec<String> as Debug>::fmt`: the result is named `debug_list`, the
/// bracketed, comma-separated, quoted and escaped rendering of the strings.
#[verifier::external_body]
fn debug_format_list(items: &Vec<String>) -> (r: String)
    ensures
        r@ == debug_list(views(items@)),
{
    format!("{:?}", items)
}

/// The IPv4 address recorded in the signals, if any.
pub open spec fn ipv4_signal(m: Map<SignalKind, SignalValue>) -> Option<Seq<char>> {
    if m.dom().contains(SignalKind::Ipv4) && m[SignalKind::Ipv4] is Ipv4 {
        Some(m[SignalKind::Ipv4]->Ipv4_0@)
    } else {
        None
    }
}

/// The WebRTC public addresses recorded in the signals, if any.
pub open spec fn webrtc_public_signal(m: Map<SignalKind, SignalValue>) -> Option<
    Seq<Seq<char>>,
> {
    if m.dom().contains(SignalKind::WebRtc) && m[SignalKind::WebRtc] is WebRtc {
        Some(views(m[SignalKind::WebRtc]->public_ips@))
    } else {
        None
    }
}

/// WebRTC leaks public addresses, none of which is the system's IPv4 address.
pub open spec fn webrtc_conflict(m: Map<SignalKind, SignalValue>) -> bool {
    match (ipv4_signal(m), webrtc_public_signal(m)) {
        (Some(ip), Some(pubs)) => pubs.len() > 0 && !pubs.contains(ip),
        _ => false,
    }
}

pub open spec fn mismatch_text(listed: Seq<char>, ip: Seq<char>) -> Seq<char> {
    "WebRTC public IP(s) "@ + listed + " do not match system IPv4 "@ + ip
}

pub open spec fn network_rule_details(m: Map<SignalKind, SignalValue>) -> Seq<char> {
    match (ipv4_signal(m), webrtc_public_signal(m)) {
        (Some(ip), Some(pubs)) => if pubs.len() > 0 && !pubs.contains(ip) {
            mismatch_text(debug_list(pubs), ip)
        } else if pubs.len() > 0 {
            "WebRTC public IP matches system IPv4"@
        } else {
            "No conflict detected"@
        },
        _ => "No conflict detected"@,
    }
}

/// The text of a mismatch, given the rendering of the WebRTC address list.
pub fn mismatch_details(listed: &str, ip: &str) -> (r: String)
    ensures
        r@ == mismatch_text(listed@, ip@),
{
    let mut r = String::from_str("WebRTC public IP(s) ");
    r.append(listed);
    r.append(" do not match system IPv4 ");
    r.append(ip);
    r
}

/// Whether `s` is one of `v`.
pub fn contains_string(v: &Vec<String>, s: &String) -> (r: bool)
    ensures
        r == views(v@).contains(s@),
{
    let mut i: usize = 0;
    while i < v.len()
        invariant
            i <= v.len(),
            forall|j: int| 0 <= j < i ==> v@[j]@ != s@,
        decreases v.len() - i,
    {
        if v[i] == *s {
            assert(views(v@)[i as int] == s@);
            return true;
        }
        i = i + 1;
    }
    assert(!views(v@).contains(s@)) by {
        if views(v@).contains(s@) {
            let j = choose|j: int| 0 <= j < views(v@).len() && views(v@)[j] == s@;
            assert(v@[j]@ == s@);
        }
    }
    false
}

/// Cross-checks the WebRTC public addresses against the system IPv4 address.
pub struct BasicNetworkRule;

impl ConsistencyRule for BasicNetworkRule {
    open spec fn verdict_on(&self, signals: Map<SignalKind, SignalValue>) -> Verdict {
        Verdict {
            rule_name: "Network.WebRtcMatch"@,
            description: "Checks if WebRTC public IP matches system IPv4/IPv6"@,
            passed: !webrtc_conflict(signals),
            score_impact: 20,
            details: network_rule_details(signals),
        }
    }

    fn name(&self) -> (r: &str)
        ensures
            r@ == "Network.WebRtcMatch"@,
    {
        "Network.WebRtcMatch"
    }

    fn description(&self) -> (r: &str)
        ensures
            r@ == "Checks if WebRTC public IP matches system IPv4/IPv6"@,
    {
        "Checks if WebRTC public IP matches system IPv4/IPv6"
    }

    fn evaluate(&self, signals: &SignalMap) -> (r: RuleResult)
        ensures
            r.rule_name@ == "Network.WebRtcMatch"@,
            r.description@ == "Checks if WebRTC public IP matches system IPv4/IPv6"@,
            r.passed == !webrtc_conflict(signals@),
            r.score_impact == 20,
            r.details@ == network_rule_details(signals@),
    {
        let mut passed = true;
        let mut details = String::from_str("No conflict detected");
        let ipv4 = signals.get(&SignalKind::Ipv4);
        let webrtc = signals.get(&SignalKind::WebRtc);
        match ipv4 {
            Some(SignalValue::Ipv4(ip)) => {
                match webrtc {
                    Some(SignalValue::WebRtc { public_ips, .. }) => {
                        let found = contains_string(public_ips, ip);
                        if public_ips.len() > 0 && !found {
                            passed = false;
                            let listed = debug_format_list(public_ips);
                            details = mismatch_details(listed.as_str(), ip.as_str());
                        } else if public_ips.len() > 0 {
                            details = String::from_str("WebRTC public IP matches system IPv4");
                        }
                    },
                    _ => {},
                }
            },
            _ => {},
        }
        RuleResult {
            rule_name: String::from_str("Network.WebRtcMatch"),
            description: String::from_str("Checks if WebRTC public IP matches system IPv4/IPv6"),
            passed,
            score_impact: 20,
            details,
        }
    }
}

// ─────────────────────────── ToolHomogeneityRiskRule ───────────────────────────

/// The first `n` pieces (all of them when there are fewer).
pub open spec fn take_up_to<T>(s: Seq<T>, n: nat) -> Seq<T> {
    if s.len() <= n {
        s
    } else {
        s.take(n as int)
    }
}

/// The OUI of a MAC address: its first three colon-separated fields.
pub open spec fn mac_oui(mac: Seq<char>) -> Seq<char> {
    join(take_up_to(split_char(mac, ':'), 3), ":"@)
}

/// OUIs of virtual NICs (QEMU/KVM, VirtualBox, VMware).
pub open spec fn is_virtio_oui(oui: Seq<char>) -> bool {
    eq_ignore_ascii_case(oui, "52:54:00"@) || eq_ignore_ascii_case(oui, "08:00:27"@)
        || eq_ignore_ascii_case(oui, "00:05:69"@)
}

/// A generic hostname, a machine id younger than 30 days and a virtual NIC.
pub open spec fn fresh_vm_profile(m: Map<SignalKind, SignalValue>) -> bool {
    &&& m.dom().contains(SignalKind::HostnamePattern)
    &&& m[SignalKind::HostnamePattern] is HostnamePattern
    &&& m.dom().contains(SignalKind::MachineIdAge)
    &&& m[SignalKind::MachineIdAge] is MachineIdAgeDays
    &&& m.dom().contains(SignalKind::MacAddress)
    &&& m[SignalKind::MacAddress] is MacAddress
    &&& m[SignalKind::HostnamePattern]->HostnamePattern_0@ == "PatternC"@
    &&& m[SignalKind::MachineIdAge]->MachineIdAgeDays_0 < 30
    &&& is_virtio_oui(mac_oui(m[SignalKind::MacAddress]->MacAddress_0@))
}

/// Fewer than 12 fonts.
pub open spec fn small_font_set(m: Map<SignalKind, SignalValue>) -> bool {
    m.dom().contains(SignalKind::FontSet) && m[SignalKind::FontSet] is FontSet
        && m[SignalKind::FontSet]->FontSet_0 < 12
}

/// Exactly 1920x1080.
pub open spec fn common_resolution(m: Map<SignalKind, SignalValue>) -> bool {
    m.dom().contains(SignalKind::ScreenResolution) && m[SignalKind::ScreenResolution] is ScreenResolution
        && m[SignalKind::ScreenResolution]->ScreenResolution_0 == 1920
        && m[SignalKind::ScreenResolution]->ScreenResolution_1 == 1080
}

pub open spec fn warning_if(c: bool, w: Seq<char>) -> Seq<Seq<char>> {
    if c {
        seq![w]
    } else {
        seq![]
    }
}

/// The warnings, in the order the checks run.
pub open spec fn homogeneity_warnings(m: Map<SignalKind, SignalValue>) -> Seq<Seq<char>> {
    warning_if(fresh_vm_profile(m), "Suspicious VM-like fresh generic profile detected."@)
        + warning_if(small_font_set(m), "Font set is suspiciously small (<12 fonts)."@)
        + warning_if(
        common_resolution(m),
        "Screen resolution 1920x1080 is common, but may be suspicious for a laptop."@,
    )
}

pub open spec fn homogeneity_details(m: Map<SignalKind, SignalValue>) -> Seq<char> {
    if homogeneity_warnings(m).len() == 0 {
        "Statistically plausible generated values."@
    } else {
        join(homogeneity_warnings(m), " "@)
    }
}

/// The OUI of `mac` (first three colon-separated fields, joined by colons).
pub fn mac_oui_exec(mac: &str) -> (r: String)
    ensures
        r@ == mac_oui(mac@),
{
    let parts = split_char_exec(mac, ':');
    let mut first: Vec<String> = Vec::new();
    let mut i: usize = 0;
    while i < parts.len() && i < 3
        invariant
            i <= parts.len(),
            i <= 3,
            views(first@) == views(parts@).take(i as int),
        decreases parts.len() - i,
    {
        proof {
            lemma_views_push(first@, parts@[i as int]);
            assert(views(parts@).take(i + 1) =~= views(parts@).take(i as int).push(
                parts@[i as int]@,
            ));
        }
        first.push(parts[i].clone());
        i = i + 1;
    }
    proof {
        if parts.len() <= 3 {
            assert(views(parts@).take(i as int) =~= views(parts@));
        }
    }
    join_exec(&first, ":")
}

pub fn is_virtio_oui_exec(oui: &str) -> (r: bool)
    ensures
        r == is_virtio_oui(oui@),
{
    let o = chars_of(oui);
    let a = chars_of("52:54:00");
    let b = chars_of("08:00:27");
    let c = chars_of("00:05:69");
    chars_eq_ignore_ascii_case(&o, &a) || chars_eq_ignore_ascii_case(&o, &b)
        || chars_eq_ignore_ascii_case(&o, &c)
}

/// Flags generated values that many users of the same tool would share.
/// Informational: it never lowers the score.
pub struct ToolHomogeneityRiskRule;

impl ToolHomogeneityRiskRule {
    fn fresh_vm_check(signals: &SignalMap) -> (r: bool)
        ensures
            r == fresh_vm_profile(signals@),
    {
        let pat = signals.get(&SignalKind::HostnamePattern);
        let age = signals.get(&SignalKind::MachineIdAge);
        let mac = signals.get(&SignalKind::MacAddress);
        match (pat, age, mac) {
            (
                Some(SignalValue::HostnamePattern(p)),
                Some(SignalValue::MachineIdAgeDays(days)),
                Some(SignalValue::MacAddress(m)),
            ) => {
                if str_eq(p.as_str(), "PatternC") && *days < 30 {
                    let oui = mac_oui_exec(m.as_str());
                    is_virtio_oui_exec(oui.as_str())
                } else {
                    false
                }
            },
            _ => false,
        }
    }
}

impl ConsistencyRule for ToolHomogeneityRiskRule {
    open spec fn verdict_on(&self, signals: Map<SignalKind, SignalValue>) -> Verdict {
        Verdict {
            rule_name: "R17"@,
            description: "tool-homogeneity-risk [informational]"@,
            passed: homogeneity_warnings(signals).len() == 0,
            score_impact: 0,
            details: homogeneity_details(signals),
        }
    }

    fn name(&self) -> (r: &str)
        ensures
            r@ == "R17"@,
    {
        "R17"
    }

    fn description(&self) -> (r: &str)
        ensures
            r@ == "tool-homogeneity-risk [informational]"@,
    {
        "tool-homogeneity-risk [informational]"
    }

    fn evaluate(&self, signals: &SignalMap) -> (r: RuleResult)
        ensures
            r.rule_name@ == "R17"@,
            r.description@ == "tool-homogeneity-risk [informational]"@,
            r.passed == (homogeneity_warnings(signals@).len() == 0),
            r.score_impact == 0,
            r.details@ == homogeneity_details(signals@),
    {
        let mut warnings: Vec<String> = Vec::new();
        let w1 = Self::fresh_vm_check(signals);
        if w1 {
            warnings.push(String::from_str("Suspicious VM-like fresh generic profile detected."));
        }
        let ghost after1 = views(warnings@);
        assert(after1 =~= warning_if(
            fresh_vm_profile(signals@),
            "Suspicious VM-like fresh generic profile detected."@,
        ));
        let w2 = match signals.get(&SignalKind::FontSet) {
            Some(SignalValue::FontSet(count)) => *count < 12,
            _ => false,
        };
        if w2 {
            warnings.push(String::from_str("Font set is suspiciously small (<12 fonts)."));
        }
        let ghost after2 = views(warnings@);
        assert(after2 =~= after1 + warning_if(
            small_font_set(signals@),
            "Font set is suspiciously small (<12 fonts)."@,
        ));
        let w3 = match signals.get(&SignalKind::ScreenResolution) {
            Some(SignalValue::ScreenResolution(w, h)) => *w == 1920 && *h == 1080,
            _ => false,
        };
        if w3 {
            warnings.push(
                String::from_str(
                    "Screen resolution 1920x1080 is common, but may be suspicious for a laptop.",
                ),
            );
        }
        assert(views(warnings@) =~= homogeneity_warnings(signals@));
        let passed = warnings.len() == 0;
        let details = if passed {
            String::from_str("Statistically plausible generated values.")
        } else {
            join_exec(&warnings, " ")
        };
        RuleResult {
            rule_name: String::from_str("R17"),
            description: String::from_str("tool-homogeneity-risk [informational]"),
            passed,
            score_impact: 0,
            details,
        }
    }
}

/// A reading of the locale never changes the outcome of a rule: the rules
/// of this library look at the network and the hardware values only, so a
/// profile's deliberate locale variations cost it nothing.
pub proof fn lemma_locale_not_judged(m: Map<SignalKind, SignalValue>, v: SignalValue)
    ensures
        webrtc_conflict(m.insert(SignalKind::Locale, v)) == webrtc_conflict(m),
        network_rule_details(m.insert(SignalKind::Locale, v)) == network_rule_details(m),
        homogeneity_warnings(m.insert(SignalKind::Locale, v)) == homogeneity_warnings(m),
        homogeneity_details(m.insert(SignalKind::Locale, v)) == homogeneity_details(m),
{
    let n = m.insert(SignalKind::Locale, v);
    assert(ipv4_signal(n) == ipv4_signal(m));
    assert(webrtc_public_signal(n) == webrtc_public_signal(m));
    assert(fresh_vm_profile(n) == fresh_vm_profile(m));
    assert(small_font_set(n) == small_font_set(m));
    assert(common_resolution(n) == common_resolution(m));
}

/// A fresh generic profile on a virtual NIC is flagged: for a pattern-C
/// hostname, a machine id younger than 30 days and a MAC whose first three
/// fields are, up to ASCII case, those of QEMU/KVM (`52:54:00`), VirtualBox
/// (`08:00:27`) or VMware (`00:05:69`), the homogeneity rule fails and its
/// first warning is the VM one.
pub proof fn lemma_virtual_nic_flagged(m: Map<SignalKind, SignalValue>)
    requires
        m.dom().contains(SignalKind::HostnamePattern),
        m[SignalKind::HostnamePattern] matches SignalValue::HostnamePattern(pat) && pat@ == "PatternC"@,
        m.dom().contains(SignalKind::MachineIdAge),
        m[SignalKind::MachineIdAge] matches SignalValue::MachineIdAgeDays(days) && days < 30,
        m.dom().contains(SignalKind::MacAddress),
        m[SignalKind::MacAddress] matches SignalValue::MacAddress(mac) && (eq_ignore_ascii_case(
            mac_oui(mac@),
            "52:54:00"@,
        ) || eq_ignore_ascii_case(mac_oui(mac@), "08:00:27"@) || eq_ignore_ascii_case(
            mac_oui(mac@),
            "00:05:69"@,
        )),
    ensures
        !ToolHomogeneityRiskRule.verdict_on(m).passed,
        homogeneity_warnings(m)[0] == "Suspicious VM-like fresh generic profile detected."@,
{
    assert(fresh_vm_profile(m));
    assert(homogeneity_warnings(m).len() > 0);
}

} // verus!
