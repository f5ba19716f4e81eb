use httpstat_rs::{parse_slo_term, violated_checks, MetricKey, SloTerm};

fn terms(parts: &[&str]) -> Result<Vec<SloTerm>, String> {
    let mut out = Vec::new();
    for part in parts {
        if let Some(term) = parse_slo_term(part)? {
            out.push(term);
        }
    }
    Ok(out)
}

#[test]
fn parses_slo_checks() {
    let checks = terms(&["total=500", "connect=120"]).unwrap();
    assert_eq!(checks.len(), 2);
    assert_eq!(checks[0].metric, MetricKey::Total);
    assert_eq!(checks[1].metric, MetricKey::Connect);
    assert_eq!(checks[0].threshold_text().parse::<f64>().unwrap(), 500.0);
    assert_eq!(checks[1].threshold_text().parse::<f64>().unwrap(), 120.0);
}

#[test]
fn reports_slo_violations() {
    // dns, connect, tls, server, transfer, total
    let timings = [10.0f64, 20.0, 30.0, 40.0, 50.0, 150.0];
    let actual = |m: MetricKey| match m {
        MetricKey::Dns => timings[0],
        MetricKey::Connect => timings[1],
        MetricKey::Tls => timings[2],
        MetricKey::Server => timings[3],
        MetricKey::Transfer => timings[4],
        MetricKey::Total => timings[5],
    };
    let checks = [(MetricKey::Connect, 10.0f64), (MetricKey::Total, 200.0f64)];
    let flagged: Vec<(MetricKey, bool)> =
        checks.iter().map(|(m, t)| (*m, actual(*m) > *t)).collect();
    let violations = violated_checks(&flagged);
    assert_eq!(violations.len(), 1);
    assert_eq!(checks[violations[0]].0.as_str(), "connect");
}

#[test]
fn blank_terms_are_skipped() {
    assert!(parse_slo_term("").unwrap().is_none());
    assert!(parse_slo_term("  \t ").unwrap().is_none());
}

#[test]
fn term_without_equals_is_rejected() {
    let err = parse_slo_term("total").err().unwrap();
    assert_eq!(err, "invalid SLO 'total', expected metric=value");
}

#[test]
fn unknown_metric_is_rejected_with_its_name_as_written() {
    let err = parse_slo_term(" Latency =5").err().unwrap();
    assert_eq!(err, "unsupported SLO metric ' Latency '");
}

#[test]
fn metric_names_are_trimmed_and_case_insensitive() {
    let term = parse_slo_term("  TOTAL = 500 ").unwrap().unwrap();
    assert_eq!(term.metric, MetricKey::Total);
    assert_eq!(term.value, " 500 ");
    assert_eq!(term.threshold_text(), "500");
}

#[test]
fn value_is_everything_after_the_first_equals() {
    let term = parse_slo_term("dns=1=2").unwrap().unwrap();
    assert_eq!(term.metric, MetricKey::Dns);
    assert_eq!(term.value, "1=2");
}

#[test]
fn threshold_error_names_the_value_as_written() {
    let term = parse_slo_term("tls= abc").unwrap().unwrap();
    assert!(term.threshold_text().parse::<f64>().is_err());
    assert_eq!(term.threshold_error(), "invalid SLO threshold ' abc'");
}

#[test]
fn every_metric_name_reads_back() {
    let all = [
        MetricKey::Dns,
        MetricKey::Connect,
        MetricKey::Tls,
        MetricKey::Server,
        MetricKey::Transfer,
        MetricKey::Total,
    ];
    for m in all {
        let term = parse_slo_term(&format!("{}=42", m.as_str())).unwrap().unwrap();
        assert_eq!(term.metric, m);
        assert_eq!(term.value, "42");
    }
}

#[test]
fn names_and_labels() {
    assert_eq!(MetricKey::Dns.as_str(), "dns");
    assert_eq!(MetricKey::Connect.as_str(), "connect");
    assert_eq!(MetricKey::Tls.as_str(), "tls");
    assert_eq!(MetricKey::Server.as_str(), "server");
    assert_eq!(MetricKey::Transfer.as_str(), "transfer");
    assert_eq!(MetricKey::Total.as_str(), "total");
    assert_eq!(MetricKey::Dns.label(), "DNS Lookup");
    assert_eq!(MetricKey::Connect.label(), "TCP Connect");
    assert_eq!(MetricKey::Tls.label(), "TLS Handshake");
    assert_eq!(MetricKey::Server.label(), "Server Work");
    assert_eq!(MetricKey::Transfer.label(), "Content Transfer");
    assert_eq!(MetricKey::Total.label(), "Total");
}

#[test]
fn later_check_on_a_metric_replaces_earlier_one() {
    let flagged = vec![
        (MetricKey::Total, true),
        (MetricKey::Dns, false),
        (MetricKey::Total, false),
    ];
    assert!(violated_checks(&flagged).is_empty());
    let flagged = vec![
        (MetricKey::Total, false),
        (MetricKey::Dns, true),
        (MetricKey::Total, true),
    ];
    assert_eq!(violated_checks(&flagged), vec![1, 2]);
}

#[test]
fn violations_come_in_reporting_order() {
    let flagged = vec![
        (MetricKey::Total, true),
        (MetricKey::Transfer, true),
        (MetricKey::Server, true),
        (MetricKey::Tls, true),
        (MetricKey::Connect, true),
        (MetricKey::Dns, true),
    ];
    assert_eq!(violated_checks(&flagged), vec![5, 4, 3, 2, 1, 0]);
    assert!(violated_checks(&Vec::new()).is_empty());
}
