use mirage::consistency::{
    BasicNetworkRule, ConsistencyEngine, ConsistencyRule,
    RuleResult, ToolHomogeneityRiskRule,
};
use mirage::protocol::{SignalKind, SignalMap, SignalValue};

fn signals_with_matching_ips() -> SignalMap {
    let mut m = SignalMap::new();
    m.insert(SignalKind::Ipv4, SignalValue::Ipv4("1.2.3.4".to_string()));
    m.insert(
        SignalKind::WebRtc,
        SignalValue::WebRtc {
            public_ips: vec!["1.2.3.4".to_string()],
            local_ips: vec!["192.168.1.1".to_string()],
        },
    );
    m
}

fn signals_with_mismatched_ips() -> SignalMap {
    let mut m = SignalMap::new();
    m.insert(SignalKind::Ipv4, SignalValue::Ipv4("1.2.3.4".to_string()));
    m.insert(
        SignalKind::WebRtc,
        SignalValue::WebRtc {
            public_ips: vec!["9.9.9.9".to_string()],
            local_ips: vec!["192.168.1.1".to_string()],
        },
    );
    m
}

#[test]
fn matching_ips_passes_rule() {
    let rule = BasicNetworkRule;
    let signals = signals_with_matching_ips();
    let result = rule.evaluate(&signals);
    assert!(result.passed, "matching IPs should pass: {}", result.details);
}

#[test]
fn mismatched_ips_fails_rule() {
    let rule = BasicNetworkRule;
    let signals = signals_with_mismatched_ips();
    let result = rule.evaluate(&signals);
    assert!(!result.passed, "mismatched IPs should fail: {}", result.details);
}

#[test]
fn score_is_100_when_all_rules_pass() {
    let mut engine = ConsistencyEngine::new();
    engine.register_rule(Box::new(BasicNetworkRule));

    let signals = signals_with_matching_ips();
    let results = engine.evaluate(&signals);
    let score = ConsistencyEngine::calculate_score(&results);
    assert_eq!(score, 100, "all rules passing should give score 100");
}

#[test]
fn score_is_reduced_when_rule_fails() {
    let mut engine = ConsistencyEngine::new();
    engine.register_rule(Box::new(BasicNetworkRule));

    let signals = signals_with_mismatched_ips();
    let results = engine.evaluate(&signals);
    let score = ConsistencyEngine::calculate_score(&results);
    assert!(score < 100, "a failing rule should reduce the score");
    assert_eq!(score, 80, "BasicNetworkRule has score_impact=20, so score should be 80");
}

struct AlwaysFailRule {
    impact: i32,
}

impl ConsistencyRule for AlwaysFailRule {
    fn name(&self) -> &str {
        "AlwaysFail"
    }
    fn description(&self) -> &str {
        "Always fails for testing"
    }
    fn evaluate(&self, _: &SignalMap) -> RuleResult {
        RuleResult {
            rule_name: self.name().to_string(),
            description: self.description().to_string(),
            passed: false,
            score_impact: self.impact,
            details: "always fails".to_string(),
        }
    }
}

#[test]
fn score_never_goes_below_zero() {
    let results: Vec<_> = (0..10)
        .map(|_| {
            let r = AlwaysFailRule { impact: 50 };
            r.evaluate(&SignalMap::new())
        })
        .collect();

    let score = ConsistencyEngine::calculate_score(&results);
    assert_eq!(score, 0, "score must be floored at 0");
}

#[test]
fn empty_signals_does_not_panic() {
    let rule = BasicNetworkRule;
    let result = rule.evaluate(&SignalMap::new());
    assert!(result.passed);
}

#[test]
fn mismatch_details_list_the_webrtc_addresses() {
    let result = BasicNetworkRule.evaluate(&signals_with_mismatched_ips());
    assert_eq!(result.rule_name, "Network.WebRtcMatch");
    assert_eq!(result.score_impact, 20);
    assert_eq!(result.details, "WebRTC public IP(s) [\"9.9.9.9\"] do not match system IPv4 1.2.3.4");
}

#[test]
fn matching_details_say_so() {
    let result = BasicNetworkRule.evaluate(&signals_with_matching_ips());
    assert_eq!(result.details, "WebRTC public IP matches system IPv4");
    let empty = BasicNetworkRule.evaluate(&SignalMap::new());
    assert_eq!(empty.details, "No conflict detected");
}

#[test]
fn empty_webrtc_list_is_no_conflict() {
    let mut m = SignalMap::new();
    m.insert(SignalKind::Ipv4, SignalValue::Ipv4("1.2.3.4".to_string()));
    m.insert(SignalKind::WebRtc, SignalValue::WebRtc { public_ips: vec![], local_ips: vec![] });
    let result = BasicNetworkRule.evaluate(&m);
    assert!(result.passed);
    assert_eq!(result.details, "No conflict detected");
}

#[test]
fn locale_reading_changes_no_verdict() {
    let base = signals_with_mismatched_ips();
    let mut with_locale = signals_with_mismatched_ips();
    with_locale.insert(SignalKind::Locale, SignalValue::Locale("ja_JP.UTF-8".to_string()));
    let a = BasicNetworkRule.evaluate(&base);
    let b = BasicNetworkRule.evaluate(&with_locale);
    assert_eq!(a.passed, b.passed);
    assert_eq!(a.details, b.details);
    let c = ToolHomogeneityRiskRule.evaluate(&base);
    let d = ToolHomogeneityRiskRule.evaluate(&with_locale);
    assert_eq!(c.passed, d.passed);
    assert_eq!(c.details, d.details);
}

#[test]
fn homogeneity_rule_flags_each_risk_in_order() {
    let mut m = SignalMap::new();
    m.insert(SignalKind::HostnamePattern, SignalValue::HostnamePattern("PatternC".to_string()));
    m.insert(SignalKind::MachineIdAge, SignalValue::MachineIdAgeDays(3));
    m.insert(SignalKind::MacAddress, SignalValue::MacAddress("52:54:00:12:34:56".to_string()));
    m.insert(SignalKind::FontSet, SignalValue::FontSet(8));
    m.insert(SignalKind::ScreenResolution, SignalValue::ScreenResolution(1920, 1080));
    let r = ToolHomogeneityRiskRule.evaluate(&m);
    assert!(!r.passed);
    assert_eq!(r.rule_name, "R17");
    assert_eq!(r.score_impact, 0);
    assert_eq!(
        r.details,
        "Suspicious VM-like fresh generic profile detected. Font set is suspiciously small (<12 fonts). Screen resolution 1920x1080 is common, but may be suspicious for a laptop."
    );
}

#[test]
fn homogeneity_rule_passes_plausible_values() {
    let mut m = SignalMap::new();
    m.insert(SignalKind::HostnamePattern, SignalValue::HostnamePattern("PatternC".to_string()));
    m.insert(SignalKind::MachineIdAge, SignalValue::MachineIdAgeDays(400));
    m.insert(SignalKind::MacAddress, SignalValue::MacAddress("52:54:00:12:34:56".to_string()));
    m.insert(SignalKind::FontSet, SignalValue::FontSet(20));
    m.insert(SignalKind::ScreenResolution, SignalValue::ScreenResolution(2560, 1600));
    let r = ToolHomogeneityRiskRule.evaluate(&m);
    assert!(r.passed);
    assert_eq!(r.details, "Statistically plausible generated values.");
}

#[test]
fn virtual_nic_oui_is_matched_without_case() {
    let mut m = SignalMap::new();
    m.insert(SignalKind::HostnamePattern, SignalValue::HostnamePattern("PatternC".to_string()));
    m.insert(SignalKind::MachineIdAge, SignalValue::MachineIdAgeDays(29));
    m.insert(SignalKind::MacAddress, SignalValue::MacAddress("08:00:27:AA:BB:CC".to_string()));
    let r = ToolHomogeneityRiskRule.evaluate(&m);
    assert_eq!(r.details, "Suspicious VM-like fresh generic profile detected.");
    m.insert(SignalKind::MacAddress, SignalValue::MacAddress("00:11:24:AA:BB:CC".to_string()));
    let r = ToolHomogeneityRiskRule.evaluate(&m);
    assert!(r.passed);
}

#[test]
fn score_counts_only_failed_results() {
    let results = vec![
        RuleResult { rule_name: "a".into(), description: String::new(), passed: false, score_impact: 30, details: String::new() },
        RuleResult { rule_name: "b".into(), description: String::new(), passed: true, score_impact: 50, details: String::new() },
        RuleResult { rule_name: "c".into(), description: String::new(), passed: false, score_impact: 5, details: String::new() },
    ];
    assert_eq!(ConsistencyEngine::calculate_score(&results), 65);
    assert_eq!(ConsistencyEngine::calculate_score(&[]), 100);
}

#[test]
fn engine_runs_rules_in_registration_order() {
    let mut engine = ConsistencyEngine::new();
    engine.register_rule(Box::new(BasicNetworkRule));
    engine.register_rule(Box::new(ToolHomogeneityRiskRule));
    let results = engine.evaluate(&signals_with_mismatched_ips());
    assert_eq!(results.len(), 2);
    assert_eq!(results[0].rule_name, "Network.WebRtcMatch");
    assert_eq!(results[1].rule_name, "R17");
    assert_eq!(ConsistencyEngine::calculate_score(&results), 80);
}

#[test]
fn score_ignores_the_order_of_results() {
    let make = |passed: bool, impact: i32| RuleResult {
        rule_name: String::new(),
        description: String::new(),
        passed,
        score_impact: impact,
        details: String::new(),
    };
    let a = vec![make(false, 30), make(true, 50), make(false, 5)];
    let b = vec![make(false, 5), make(false, 30), make(true, 50)];
    assert_eq!(ConsistencyEngine::calculate_score(&a), ConsistencyEngine::calculate_score(&b));
}
