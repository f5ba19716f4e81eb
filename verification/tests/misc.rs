use httpstat_rs::{
    append_tls_warning, assemble_diagnostics, color_disabled, exit_status, parse_http_version,
    request_summary, response_summary, Cli, ColorMode, DominantPhase, Exchange, HeaderLog,
    MetricKey, OutputFormat, Palette, EXIT_SLO_VIOLATION, JSON_SCHEMA_VERSION,
};

fn cli(url: &str) -> Cli {
    Cli {
        url: url.to_string(),
        format: OutputFormat::Human,
        color: ColorMode::Auto,
        save: None,
        slo: Vec::new(),
        method: "GET".to_string(),
        headers: Vec::new(),
        data: None,
        proxy: None,
        timeout_ms: 30_000,
        insecure: false,
        no_color: false,
    }
}

#[test]
fn emits_proxy_diagnostic() {
    // dns, connect, tls, server, transfer; total 260 ms.
    let times = [20.0f64, 50.0, 100.0, 70.0, 20.0];
    let total = 260.0f64;
    let metric = httpstat_rs::dominant_metric(&table(times));
    assert_eq!(metric, MetricKey::Tls);
    let share = times[2] / total;
    let dominant = if share >= 0.45 {
        Some(DominantPhase { metric, percent: format!("{:.0}", share * 100.0) })
    } else {
        None
    };
    let origin_latency = times[3] >= 300.0 && times[3] / total >= 0.35;
    let diagnostics = assemble_diagnostics(dominant, true, origin_latency);
    assert!(diagnostics.iter().any(|item| item.code == "proxy_enabled"));
    assert!(!assemble_diagnostics(None, false, false)
        .iter()
        .any(|item| item.code == "proxy_enabled"));
}

#[test]
fn diagnostics_come_in_order() {
    let diagnostics = assemble_diagnostics(
        Some(DominantPhase { metric: MetricKey::Tls, percent: "52".to_string() }),
        true,
        true,
    );
    let codes: Vec<&str> = diagnostics.iter().map(|d| d.code).collect();
    assert_eq!(codes, vec!["dominant_phase", "proxy_enabled", "origin_latency"]);
    assert_eq!(diagnostics[0].level, "info");
    assert_eq!(
        diagnostics[0].message,
        "TLS Handshake dominates the request path at 52% of total time."
    );
    assert_eq!(diagnostics[2].level, "warn");
    assert_eq!(
        diagnostics[2].message,
        "Server processing is a large share of total latency; inspect application or upstream service time."
    );
}

#[test]
fn tls_warning_is_appended_only_when_insecure() {
    let mut diagnostics = assemble_diagnostics(None, true, false);
    append_tls_warning(&mut diagnostics, false);
    assert_eq!(diagnostics.len(), 1);
    append_tls_warning(&mut diagnostics, true);
    assert_eq!(diagnostics.len(), 2);
    assert_eq!(diagnostics[1].code, "tls_verification_disabled");
    assert_eq!(diagnostics[1].level, "warn");
    assert_eq!(
        diagnostics[1].message,
        "TLS verification is disabled, so handshake timing is not a trust signal."
    );
}

#[test]
fn palette_styles_or_passes_through() {
    let on = Palette::new(false);
    assert_eq!(on.bold("x"), "\x1b[1mx\x1b[0m");
    assert_eq!(on.dim("x"), "\x1b[2mx\x1b[0m");
    assert_eq!(on.red("x"), "\x1b[31mx\x1b[0m");
    assert_eq!(on.green("x"), "\x1b[32mx\x1b[0m");
    assert_eq!(on.yellow("x"), "\x1b[33mx\x1b[0m");
    assert_eq!(on.blue("x"), "\x1b[34mx\x1b[0m");
    let off = Palette::new(true);
    for styled in [off.bold("x"), off.dim("x"), off.red("x"), off.green("x"), off.yellow("x"), off.blue("x")] {
        assert_eq!(styled, "x");
    }
}

#[test]
fn colour_decision() {
    let mut c = cli("http://example.com");
    c.color = ColorMode::Always;
    assert!(!color_disabled(&c, true, false));
    c.color = ColorMode::Never;
    assert!(color_disabled(&c, false, true));
    c.color = ColorMode::Auto;
    assert!(!color_disabled(&c, false, true));
    assert!(color_disabled(&c, true, true));
    assert!(color_disabled(&c, false, false));
    c.no_color = true;
    assert!(color_disabled(&c, false, true));
    c.color = ColorMode::Always;
    assert!(color_disabled(&c, false, true));
    c.color = ColorMode::Never;
    assert!(color_disabled(&c, false, true));
}

#[test]
fn exit_status_reports_violations() {
    assert_eq!(exit_status(0), 0);
    assert_eq!(exit_status(1), EXIT_SLO_VIOLATION);
    assert_eq!(exit_status(3), 4);
    assert_eq!(JSON_SCHEMA_VERSION, "v1");
}

#[test]
fn http_version_is_the_first_word() {
    assert_eq!(parse_http_version(Some("HTTP/2 200")), "HTTP/2");
    assert_eq!(parse_http_version(Some("  HTTP/1.1\t200 OK")), "HTTP/1.1");
    assert_eq!(parse_http_version(Some("   ")), "HTTP/?");
    assert_eq!(parse_http_version(Some("")), "HTTP/?");
    assert_eq!(parse_http_version(None), "HTTP/?");
}

#[test]
fn header_log_keeps_the_last_response_head() {
    let mut log = HeaderLog::new();
    assert_eq!(log.status_line_or_default(), "HTTP/? 0");
    assert_eq!(log.http_version(), "HTTP/?");
    log.record(b"stray: before any status\r\n");
    assert!(log.status_line.is_none());
    assert!(log.headers.is_empty());
    log.record(b"HTTP/1.1 301 Moved Permanently\r\n");
    log.record(b"Location: https://example.com/\r\n");
    log.record(b"\r\n");
    assert_eq!(log.headers, vec!["Location: https://example.com/".to_string()]);
    log.record(b"HTTP/2 200\r\n");
    log.record(b"content-type: text/html\r\n");
    log.record(b"  \r\n");
    assert_eq!(log.status_line.as_deref(), Some("HTTP/2 200"));
    assert_eq!(log.headers, vec!["content-type: text/html".to_string()]);
    assert_eq!(log.status_line_or_default(), "HTTP/2 200");
    assert_eq!(log.http_version(), "HTTP/2");
}

#[test]
fn header_log_decodes_bytes_lossily() {
    let mut log = HeaderLog::new();
    log.record(b"HTTP/1.1 200 OK\r\n");
    log.record(b"x-name: caf\xc3\xa9\r\n");
    log.record(b"x-bad: \xff\r\n");
    assert_eq!(log.headers[0], "x-name: café");
    assert_eq!(log.headers[1], "x-bad: \u{fffd}");
}

#[test]
fn summaries_copy_what_they_report() {
    let mut c = cli("https://example.com");
    c.method = "POST".to_string();
    c.proxy = Some("http://127.0.0.1:8080".to_string());
    let r = request_summary(&c);
    assert_eq!(r.method, "POST");
    assert_eq!(r.url, "https://example.com");
    assert_eq!(r.proxy, Some("http://127.0.0.1:8080"));
    let ex = Exchange {
        status_code: 200,
        status_line: "HTTP/1.1 200 OK".to_string(),
        http_version: "HTTP/1.1".to_string(),
        response_headers: Vec::new(),
        remote_ip: Some("203.0.113.10".to_string()),
        remote_port: 443,
        local_ip: None,
        local_port: 50000,
        downloaded_bytes: 528,
        uploaded_bytes: 0,
        diagnostics: Vec::new(),
    };
    let s = response_summary(&ex);
    assert_eq!(s.status_code, 200);
    assert_eq!(s.http_version, "HTTP/1.1");
    assert_eq!(s.remote_ip.as_deref(), Some("203.0.113.10"));
    assert_eq!(s.local_ip, None);
    assert_eq!(s.downloaded_bytes, 528);
    assert_eq!(s.uploaded_bytes, 0);
}

fn table(times: [f64; 5]) -> [[bool; 5]; 5] {
    let mut beats = [[false; 5]; 5];
    for i in 0..5 {
        for j in 0..5 {
            beats[i][j] = times[i].partial_cmp(&times[j]) == Some(std::cmp::Ordering::Greater);
        }
    }
    beats
}

#[test]
fn dominant_phase_is_the_largest() {
    assert_eq!(httpstat_rs::dominant_metric(&table([20.0, 50.0, 100.0, 70.0, 20.0])), MetricKey::Tls);
    assert_eq!(httpstat_rs::dominant_metric(&table([1.0, 0.0, 0.0, 0.0, 0.0])), MetricKey::Dns);
    assert_eq!(httpstat_rs::dominant_metric(&table([1.0, 2.0, 3.0, 4.0, 5.0])), MetricKey::Transfer);
}

#[test]
fn dominant_phase_ties_go_to_the_later_phase() {
    assert_eq!(httpstat_rs::dominant_metric(&table([10.0, 50.0, 50.0, 20.0, 5.0])), MetricKey::Tls);
    assert_eq!(httpstat_rs::dominant_metric(&table([0.0; 5])), MetricKey::Transfer);
}

#[test]
fn dominant_phase_follows_max_by_with_incomparable_times() {
    let times = [f64::NAN, 3.0, 1.0, 2.0, 0.5];
    let expected = [
        (MetricKey::Dns, times[0]),
        (MetricKey::Connect, times[1]),
        (MetricKey::Tls, times[2]),
        (MetricKey::Server, times[3]),
        (MetricKey::Transfer, times[4]),
    ]
    .into_iter()
    .max_by(|a, b| a.1.partial_cmp(&b.1).unwrap_or(std::cmp::Ordering::Equal))
    .unwrap()
    .0;
    assert_eq!(httpstat_rs::dominant_metric(&table(times)), expected);
}
