use mirage::audit::collect_signals;
use mirage::protocol::{SignalKind, SignalValue};

#[test]
fn audit_with_no_providers_returns_empty_map() {
    let results = collect_signals(Vec::new());
    assert!(results.is_empty());
}

#[test]
fn failed_readings_are_left_out_and_later_readings_win() {
    let readings = vec![
        (SignalKind::Hostname, Some(SignalValue::Hostname("first".to_string()))),
        (SignalKind::Timezone, None),
        (SignalKind::Hostname, Some(SignalValue::Hostname("second".to_string()))),
        (SignalKind::Locale, Some(SignalValue::Locale("en_GB.UTF-8".to_string()))),
    ];
    let m = collect_signals(readings);
    assert_eq!(m.len(), 2);
    assert!(!m.contains_key(&SignalKind::Timezone));
    match m.get(&SignalKind::Hostname) {
        Some(SignalValue::Hostname(h)) => assert_eq!(h, "second"),
        other => panic!("expected a hostname, got {:?}", other),
    }
}

#[test]
fn entries_list_each_recorded_signal_once() {
    let readings = vec![
        (SignalKind::Ipv4, Some(SignalValue::Ipv4("1.2.3.4".to_string()))),
        (SignalKind::Ipv4, Some(SignalValue::Ipv4("5.6.7.8".to_string()))),
        (SignalKind::Dns, Some(SignalValue::Dns(vec!["9.9.9.9".to_string()]))),
    ];
    let m = collect_signals(readings);
    let entries = m.entries();
    assert_eq!(entries.len(), 2);
    assert!(entries.iter().any(|(k, v)| *k == SignalKind::Ipv4 && matches!(v, SignalValue::Ipv4(ip) if ip == "5.6.7.8")));
    assert!(entries.iter().any(|(k, _)| *k == SignalKind::Dns));
}
