use httpstat_rs::{
    render_human, write_httpstat_timeline, Cli, ColorMode, Diagnostic, Exchange, OutputFormat,
    Palette, PhaseMillis, ViolationRow,
};

fn cli(url: &str) -> Cli {
    Cli {
        url: url.to_string(),
        format: OutputFormat::Human,
        color: ColorMode::Auto,
        save: None,
        slo: Vec::new(),
        method: "GET".to_string(),
        headers: Vec::new(),
        data: None,
        proxy: None,
        timeout_ms: 30_000,
        insecure: false,
        no_color: false,
    }
}

fn millis() -> PhaseMillis {
    PhaseMillis {
        dns: 4,
        tcp: 22,
        tls: 49,
        server: 75,
        transfer: 1,
        connect: 26,
        pretransfer: 75,
        starttransfer: 150,
        total: 151,
    }
}

fn line(out: &mut String, text: String) {
    out.push_str(&text);
    out.push('\n');
}

fn bold(on: bool, s: &str) -> String {
    if on { format!("\x1b[1m{s}\x1b[0m") } else { s.to_string() }
}

// The layout, written out with the formatting machinery of std.
fn expected_timeline(tls_column: bool, t: &PhaseMillis, on: bool) -> String {
    let mut out = String::new();
    let (dns, tcp, tls, server, transfer) = (t.dns, t.tcp, t.tls, t.server, t.transfer);
    let (connect, pretransfer, starttransfer, total) = (t.connect, t.pretransfer, t.starttransfer, t.total);
    if tls_column {
        line(&mut out, format!("  DNS Lookup   TCP Connection   TLS Handshake   Server Processing   Content Transfer"));
        line(&mut out, format!("{}", bold(on, &format!("[{:>10}  |{:>14}  |{:>13}  |{:>19}  |{:>15}  ]",
            format!("{dns}ms"), format!("{tcp}ms"), format!("{tls}ms"), format!("{server}ms"), format!("{transfer}ms")))));
        line(&mut out, format!("            |                |               |                   |                  |"));
        line(&mut out, format!("   {:<21}|               |                   |                  |", format!("namelookup:{dns}ms")));
        line(&mut out, format!("                       {:<14}|                   |                  |", format!("connect:{connect}ms")));
        line(&mut out, format!("                                   {:<18}|                  |", format!("pretransfer:{pretransfer}ms")));
        line(&mut out, format!("                                                     {:<19}|", format!("starttransfer:{starttransfer}ms")));
        line(&mut out, format!("                                                                                total:{total}ms"));
    } else {
        line(&mut out, format!("  DNS Lookup   TCP Connection   Server Processing   Content Transfer"));
        line(&mut out, format!("{}", bold(on, &format!("[{:>10}  |{:>14}  |{:>19}  |{:>15}  ]",
            format!("{dns}ms"), format!("{tcp}ms"), format!("{server}ms"), format!("{transfer}ms")))));
        line(&mut out, format!("            |                |                   |                  |"));
        line(&mut out, format!("   {:<21}|                   |                  |", format!("namelookup:{dns}ms")));
        line(&mut out, format!("                       {:<14}|                  |", format!("connect:{connect}ms")));
        line(&mut out, format!("                                       {:<18}|", format!("starttransfer:{starttransfer}ms")));
        line(&mut out, format!("                                                          total:{total}ms"));
    }
    out
}

#[test]
fn tls_timeline_layout() {
    let t = millis();
    for on in [false, true] {
        let mut out = "prefix\n".to_string();
        write_httpstat_timeline(&mut out, &cli("https://example.com"), &t, &Palette::new(!on));
        assert_eq!(out, format!("prefix\n{}", expected_timeline(true, &t, on)));
    }
}

#[test]
fn plain_timeline_layout() {
    let t = millis();
    let mut out = String::new();
    write_httpstat_timeline(&mut out, &cli("http://example.com"), &t, &Palette::new(true));
    assert_eq!(out, expected_timeline(false, &t, false));
    assert!(out.contains("  DNS Lookup   TCP Connection   Server Processing   Content Transfer\n"));
    assert!(out.contains("[       4ms  |          22ms  |               75ms  |            1ms  ]\n"));
}

#[test]
fn wide_numbers_overflow_their_columns() {
    let t = PhaseMillis {
        dns: 12345678901,
        tcp: 0,
        tls: 0,
        server: 0,
        transfer: 0,
        connect: 12345678901234567890,
        pretransfer: 0,
        starttransfer: 0,
        total: u64::MAX,
    };
    let mut out = String::new();
    write_httpstat_timeline(&mut out, &cli("https://x"), &t, &Palette::new(true));
    assert_eq!(out, expected_timeline(true, &t, false));
}

fn exchange(status_code: u32, diagnostics: Vec<Diagnostic>) -> Exchange {
    Exchange {
        status_code,
        status_line: format!("HTTP/1.1 {status_code} X"),
        http_version: "HTTP/1.1".to_string(),
        response_headers: vec!["content-type: text/html".to_string(), "server: test".to_string()],
        remote_ip: Some("203.0.113.10".to_string()),
        remote_port: 443,
        local_ip: None,
        local_port: 50000,
        downloaded_bytes: 528,
        uploaded_bytes: 0,
        diagnostics,
    }
}

#[test]
fn human_report_without_colour() {
    let t = millis();
    let diagnostics = vec![
        Diagnostic { level: "info", code: "proxy_enabled", message: "Proxy note.".to_string() },
        Diagnostic { level: "warn", code: "origin_latency", message: "Slow origin.".to_string() },
    ];
    let rows = vec![ViolationRow {
        metric: "connect".to_string(),
        actual: "20.00".to_string(),
        threshold: "10.00".to_string(),
    }];
    let text = render_human(&cli("https://example.com"), &exchange(200, diagnostics), &t, &rows, true);
    let expected = format!(
        "Connected to 203.0.113.10:443\n\nHTTP/1.1 200 X\ncontent-type: text/html\nserver: test\n\n{}\nDiagnostics\n[info] Proxy note.\n[warn] Slow origin.\n\nSLO violations\nconnect actual=20.00ms threshold=10.00ms",
        expected_timeline(true, &t, false)
    );
    assert_eq!(text, expected);
    assert!(!text.contains('\x1b'));
}

#[test]
fn human_report_with_colour_and_nothing_to_add() {
    let t = millis();
    let mut ex = exchange(404, Vec::new());
    ex.remote_ip = None;
    ex.response_headers.clear();
    let text = render_human(&cli("http://example.com"), &ex, &t, &Vec::new(), false);
    let expected = format!(
        "\x1b[2mConnected to unknown:443\x1b[0m\n\n\x1b[31mHTTP/1.1 404 X\x1b[0m\n\n{}",
        expected_timeline(false, &t, true)
    );
    assert_eq!(text, expected.trim_end());
}

#[test]
fn other_levels_are_dimmed() {
    let t = millis();
    let ex = exchange(
        200,
        vec![Diagnostic { level: "note", code: "x", message: "m".to_string() }],
    );
    let text = render_human(&cli("http://example.com"), &ex, &t, &Vec::new(), false);
    assert!(text.contains("\x1b[32mHTTP/1.1 200 X\x1b[0m"));
    assert!(text.ends_with("\x1b[1mDiagnostics\x1b[0m\n[\x1b[2mnote\x1b[0m] m"));
}
