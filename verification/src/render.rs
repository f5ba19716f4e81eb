//! The human-readable report: the timeline of phases and the full text.

use vstd::prelude::*;

use crate::cli::{color_is_disabled, Cli};
use crate::diagnostics::views_of;
use crate::model::{Diagnostic, Exchange};
use crate::palette::Palette;
use crate::text::{
    back_off_white_space, chars_of, decimal, pad_left, pad_right, push_char, push_decimal, spaces,
    spells, string_of, trim_end,
};

verus! {

/// Phase times in whole milliseconds, as the timeline prints them: the five
/// phases, and the points at which connecting, the TLS handshake and the
/// first byte were done, and the total.
#[derive(Clone, Copy, Debug)]
pub struct PhaseMillis {
    pub dns: u64,
    pub tcp: u64,
    pub tls: u64,
    pub server: u64,
    pub transfer: u64,
    pub connect: u64,
    pub pretransfer: u64,
    pub starttransfer: u64,
    pub total: u64,
}

/// A time as printed: its decimal digits and `ms`.
pub open spec fn ms_text(v: u64) -> Seq<char> {
    decimal(v as nat) + "ms"@
}

fn push_ms(out: &mut String, v: u64)
    ensures
        final(out)@ == old(out)@ + ms_text(v),
{
    push_decimal(out, v);
    out.append("ms");
    assert(out@ =~= old(out)@ + ms_text(v));
}

fn push_spaces(out: &mut String, n: usize)
    ensures
        final(out)@ == old(out)@ + spaces(n as int),
{
    let mut i: usize = 0;
    while i < n
        invariant
            i <= n,
            out@ == old(out)@ + spaces(i as int),
        decreases n - i,
    {
        push_char(out, ' ');
        assert(spaces(i + 1) =~= spaces(i as int).push(' '));
        i = i + 1;
    }
}

fn push_padded(out: &mut String, text: &String, width: usize, right_aligned: bool)
    ensures
        final(out)@ == old(out)@ + (if right_aligned {
            pad_left(text@, width as int)
        } else {
            pad_right(text@, width as int)
        }),
{
    let len = text.as_str().unicode_len();
    let fill = if width > len { width - len } else { 0 };
    assert(spaces(fill as int) == spaces(width - text@.len()));
    if right_aligned {
        push_spaces(out, fill);
        out.append(text.as_str());
    } else {
        out.append(text.as_str());
        push_spaces(out, fill);
    }
    assert(out@ =~= old(out)@ + (if right_aligned {
        pad_left(text@, width as int)
    } else {
        pad_right(text@, width as int)
    }));
}

fn push_ms_right_aligned(out: &mut String, v: u64, width: usize)
    ensures
        final(out)@ == old(out)@ + pad_left(ms_text(v), width as int),
{
    let mut text = String::new();
    push_ms(&mut text, v);
    assert(text@ =~= ms_text(v));
    push_padded(out, &text, width, true);
}

fn push_labeled_ms_left_aligned(out: &mut String, label: &str, v: u64, width: usize)
    ensures
        final(out)@ == old(out)@ + pad_right(label@ + ms_text(v), width as int),
{
    let mut text = String::new();
    text.append(label);
    push_ms(&mut text, v);
    assert(text@ =~= label@ + ms_text(v));
    push_padded(out, &text, width, false);
}

fn push_line(out: &mut String, line: &String)
    ensures
        final(out)@ == old(out)@ + line@ + "\n"@,
{
    out.append(line.as_str());
    out.append("\n");
}

/// Lines of the timeline with a TLS column: the headings; the phase times in
/// bold, each right-aligned in its column; the column marks; the cumulative
/// points (name lookup, connect, pre-transfer, start of transfer), each
/// left-aligned before its mark; the total. Opaque, so that proofs about the
/// whole report do not unfold every line.
#[verifier::opaque]
pub open spec fn tls_line_1(t: PhaseMillis, p: Palette) -> Seq<char> {
    "  DNS Lookup   TCP Connection   TLS Handshake   Server Processing   Content Transfer"@
}

#[verifier::opaque]
pub open spec fn tls_line_2(t: PhaseMillis, p: Palette) -> Seq<char> {
    p.styled("1"@, "["@ + pad_left(ms_text(t.dns), 10) + "  |"@ + pad_left(ms_text(t.tcp), 14) + "  |"@ + pad_left(ms_text(t.tls), 13) + "  |"@ + pad_left(ms_text(t.server), 19) + "  |"@ + pad_left(ms_text(t.transfer), 15) + "  ]"@)
}

#[verifier::opaque]
pub open spec fn tls_line_3(t: PhaseMillis, p: Palette) -> Seq<char> {
    "            |                |               |                   |                  |"@
}

#[verifier::opaque]
pub open spec fn tls_line_4(t: PhaseMillis, p: Palette) -> Seq<char> {
    "   "@ + pad_right("namelookup:"@ + ms_text(t.dns), 21) + "|               |                   |                  |"@
}

#[verifier::opaque]
pub open spec fn tls_line_5(t: PhaseMillis, p: Palette) -> Seq<char> {
    "                       "@ + pad_right("connect:"@ + ms_text(t.connect), 14) + "|                   |                  |"@
}

#[verifier::opaque]
pub open spec fn tls_line_6(t: PhaseMillis, p: Palette) -> Seq<char> {
    "                                   "@ + pad_right("pretransfer:"@ + ms_text(t.pretransfer), 18) + "|                  |"@
}

#[verifier::opaque]
pub open spec fn tls_line_7(t: PhaseMillis, p: Palette) -> Seq<char> {
    "                                                     "@ + pad_right("starttransfer:"@ + ms_text(t.starttransfer), 19) + "|"@
}

#[verifier::opaque]
pub open spec fn tls_line_8(t: PhaseMillis, p: Palette) -> Seq<char> {
    "                                                                                total:"@ + ms_text(t.total)
}

/// The timeline with a TLS column.
pub open spec fn tls_timeline(t: PhaseMillis, p: Palette) -> Seq<char> {
    tls_line_1(t, p) + "\n"@
        + tls_line_2(t, p) + "\n"@
        + tls_line_3(t, p) + "\n"@
        + tls_line_4(t, p) + "\n"@
        + tls_line_5(t, p) + "\n"@
        + tls_line_6(t, p) + "\n"@
        + tls_line_7(t, p) + "\n"@
        + tls_line_8(t, p) + "\n"@
}

fn tls_line_1_text(_t: &PhaseMillis, _p: &Palette) -> (r: String)
    ensures
        r@ == tls_line_1(*_t, *_p),
{
    proof {
        reveal(tls_line_1);
    }
    let mut s = "  DNS Lookup   TCP Connection   TLS Handshake   Server Processing   Content Transfer".to_owned();
    s
}

fn tls_line_2_text(t: &PhaseMillis, p: &Palette) -> (r: String)
    ensures
        r@ == tls_line_2(*t, *p),
{
    proof {
        reveal(tls_line_2);
    }
    let mut inner = "[".to_owned();
    push_ms_right_aligned(&mut inner, t.dns, 10);
    inner.append("  |");
    push_ms_right_aligned(&mut inner, t.tcp, 14);
    inner.append("  |");
    push_ms_right_aligned(&mut inner, t.tls, 13);
    inner.append("  |");
    push_ms_right_aligned(&mut inner, t.server, 19);
    inner.append("  |");
    push_ms_right_aligned(&mut inner, t.transfer, 15);
    inner.append("  ]");
    p.bold(inner.as_str())
}

fn tls_line_3_text(_t: &PhaseMillis, _p: &Palette) -> (r: String)
    ensures
        r@ == tls_line_3(*_t, *_p),
{
    proof {
        reveal(tls_line_3);
    }
    let mut s = "            |                |               |                   |                  |".to_owned();
    s
}

fn tls_line_4_text(t: &PhaseMillis, _p: &Palette) -> (r: String)
    ensures
        r@ == tls_line_4(*t, *_p),
{
    proof {
        reveal(tls_line_4);
    }
    let mut s = "   ".to_owned();
    push_labeled_ms_left_aligned(&mut s, "namelookup:", t.dns, 21);
    s.append("|               |                   |                  |");
    s
}

fn tls_line_5_text(t: &PhaseMillis, _p: &Palette) -> (r: String)
    ensures
        r@ == tls_line_5(*t, *_p),
{
    proof {
        reveal(tls_line_5);
    }
    let mut s = "                       ".to_owned();
    push_labeled_ms_left_aligned(&mut s, "connect:", t.connect, 14);
    s.append("|                   |                  |");
    s
}

fn tls_line_6_text(t: &PhaseMillis, _p: &Palette) -> (r: String)
    ensures
        r@ == tls_line_6(*t, *_p),
{
    proof {
        reveal(tls_line_6);
    }
    let mut s = "                                   ".to_owned();
    push_labeled_ms_left_aligned(&mut s, "pretransfer:", t.pretransfer, 18);
    s.append("|                  |");
    s
}

fn tls_line_7_text(t: &PhaseMillis, _p: &Palette) -> (r: String)
    ensures
        r@ == tls_line_7(*t, *_p),
{
    proof {
        reveal(tls_line_7);
    }
    let mut s = "                                                     ".to_owned();
    push_labeled_ms_left_aligned(&mut s, "starttransfer:", t.starttransfer, 19);
    s.append("|");
    s
}

fn tls_line_8_text(t: &PhaseMillis, _p: &Palette) -> (r: String)
    ensures
        r@ == tls_line_8(*t, *_p),
{
    proof {
        reveal(tls_line_8);
    }
    let mut s = "                                                                                total:".to_owned();
    push_ms(&mut s, t.total);
    s
}

fn write_tls_timeline(out: &mut String, t: &PhaseMillis, p: &Palette)
    ensures
        final(out)@ == old(out)@ + tls_timeline(*t, *p),
{
    let ghost start = out@;
    push_line(out, &tls_line_1_text(t, p));
    push_line(out, &tls_line_2_text(t, p));
    push_line(out, &tls_line_3_text(t, p));
    push_line(out, &tls_line_4_text(t, p));
    push_line(out, &tls_line_5_text(t, p));
    push_line(out, &tls_line_6_text(t, p));
    push_line(out, &tls_line_7_text(t, p));
    push_line(out, &tls_line_8_text(t, p));
    assert(out@ =~= start + tls_timeline(*t, *p));
}

/// Lines of the timeline without a TLS column, laid out like the lines with one.
#[verifier::opaque]
pub open spec fn plain_line_1(t: PhaseMillis, p: Palette) -> Seq<char> {
    "  DNS Lookup   TCP Connection   Server Processing   Content Transfer"@
}

#[verifier::opaque]
pub open spec fn plain_line_2(t: PhaseMillis, p: Palette) -> Seq<char> {
    p.styled("1"@, "["@ + pad_left(ms_text(t.dns), 10) + "  |"@ + pad_left(ms_text(t.tcp), 14) + "  |"@ + pad_left(ms_text(t.server), 19) + "  |"@ + pad_left(ms_text(t.transfer), 15) + "  ]"@)
}

#[verifier::opaque]
pub open spec fn plain_line_3(t: PhaseMillis, p: Palette) -> Seq<char> {
    "            |                |                   |                  |"@
}

#[verifier::opaque]
pub open spec fn plain_line_4(t: PhaseMillis, p: Palette) -> Seq<char> {
    "   "@ + pad_right("namelookup:"@ + ms_text(t.dns), 21) + "|                   |                  |"@
}

#[verifier::opaque]
pub open spec fn plain_line_5(t: PhaseMillis, p: Palette) -> Seq<char> {
    "                       "@ + pad_right("connect:"@ + ms_text(t.connect), 14) + "|                  |"@
}

#[verifier::opaque]
pub open spec fn plain_line_6(t: PhaseMillis, p: Palette) -> Seq<char> {
    "                                       "@ + pad_right("starttransfer:"@ + ms_text(t.starttransfer), 18) + "|"@
}

#[verifier::opaque]
pub open spec fn plain_line_7(t: PhaseMillis, p: Palette) -> Seq<char> {
    "                                                          total:"@ + ms_text(t.total)
}

/// The timeline without a TLS column.
pub open spec fn plain_timeline(t: PhaseMillis, p: Palette) -> Seq<char> {
    plain_line_1(t, p) + "\n"@
        + plain_line_2(t, p) + "\n"@
        + plain_line_3(t, p) + "\n"@
        + plain_line_4(t, p) + "\n"@
        + plain_line_5(t, p) + "\n"@
        + plain_line_6(t, p) + "\n"@
        + plain_line_7(t, p) + "\n"@
}

fn plain_line_1_text(_t: &PhaseMillis, _p: &Palette) -> (r: String)
    ensures
        r@ == plain_line_1(*_t, *_p),
{
    proof {
        reveal(plain_line_1);
    }
    let mut s = "  DNS Lookup   TCP Connection   Server Processing   Content Transfer".to_owned();
    s
}

fn plain_line_2_text(t: &PhaseMillis, p: &Palette) -> (r: String)
    ensures
        r@ == plain_line_2(*t, *p),
{
    proof {
        reveal(plain_line_2);
    }
    let mut inner = "[".to_owned();
    push_ms_right_aligned(&mut inner, t.dns, 10);
    inner.append("  |");
    push_ms_right_aligned(&mut inner, t.tcp, 14);
    inner.append("  |");
    push_ms_right_aligned(&mut inner, t.server, 19);
    inner.append("  |");
    push_ms_right_aligned(&mut inner, t.transfer, 15);
    inner.append("  ]");
    p.bold(inner.as_str())
}

fn plain_line_3_text(_t: &PhaseMillis, _p: &Palette) -> (r: String)
    ensures
        r@ == plain_line_3(*_t, *_p),
{
    proof {
        reveal(plain_line_3);
    }
    let mut s = "            |                |                   |                  |".to_owned();
    s
}

fn plain_line_4_text(t: &PhaseMillis, _p: &Palette) -> (r: String)
    ensures
        r@ == plain_line_4(*t, *_p),
{
    proof {
        reveal(plain_line_4);
    }
    let mut s = "   ".to_owned();
    push_labeled_ms_left_aligned(&mut s, "namelookup:", t.dns, 21);
    s.append("|                   |                  |");
    s
}

fn plain_line_5_text(t: &PhaseMillis, _p: &Palette) -> (r: String)
    ensures
        r@ == plain_line_5(*t, *_p),
{
    proof {
        reveal(plain_line_5);
    }
    let mut s = "                       ".to_owned();
    push_labeled_ms_left_aligned(&mut s, "connect:", t.connect, 14);
    s.append("|                  |");
    s
}

fn plain_line_6_text(t: &PhaseMillis, _p: &Palette) -> (r: String)
    ensures
        r@ == plain_line_6(*t, *_p),
{
    proof {
        reveal(plain_line_6);
    }
    let mut s = "                                       ".to_owned();
    push_labeled_ms_left_aligned(&mut s, "starttransfer:", t.starttransfer, 18);
    s.append("|");
    s
}

fn plain_line_7_text(t: &PhaseMillis, _p: &Palette) -> (r: String)
    ensures
        r@ == plain_line_7(*t, *_p),
{
    proof {
        reveal(plain_line_7);
    }
    let mut s = "                                                          total:".to_owned();
    push_ms(&mut s, t.total);
    s
}

fn write_plain_timeline(out: &mut String, t: &PhaseMillis, p: &Palette)
    ensures
        final(out)@ == old(out)@ + plain_timeline(*t, *p),
{
    let ghost start = out@;
    push_line(out, &plain_line_1_text(t, p));
    push_line(out, &plain_line_2_text(t, p));
    push_line(out, &plain_line_3_text(t, p));
    push_line(out, &plain_line_4_text(t, p));
    push_line(out, &plain_line_5_text(t, p));
    push_line(out, &plain_line_6_text(t, p));
    push_line(out, &plain_line_7_text(t, p));
    assert(out@ =~= start + plain_timeline(*t, *p));
}


/// Whether the target is fetched over TLS: its URL starts with `https://`.
pub open spec fn uses_tls(url: Seq<char>) -> bool {
    url.len() >= 8 && url.take(8) == "https://"@
}

fn starts_with_https(url: &str) -> (r: bool)
    ensures
        r == uses_tls(url@),
{
    let cs = chars_of(url);
    if cs.len() < 8 {
        return false;
    }
    let head: Vec<char> = vec![cs[0], cs[1], cs[2], cs[3], cs[4], cs[5], cs[6], cs[7]];
    assert(head@ == cs@.take(8));
    spells(&head, "https://")
}

/// The timeline for a target: with a TLS column for `https://` URLs.
pub open spec fn timeline_text(url: Seq<char>, t: PhaseMillis, p: Palette) -> Seq<char> {
    if uses_tls(url) {
        tls_timeline(t, p)
    } else {
        plain_timeline(t, p)
    }
}

/// Appends the timeline of phases, each phase in its column.
pub fn write_httpstat_timeline(out: &mut String, cli: &Cli, timeline: &PhaseMillis, palette: &Palette)
    ensures
        final(out)@ == old(out)@ + timeline_text(cli.url@, *timeline, *palette),
{
    if starts_with_https(cli.url.as_str()) {
        write_tls_timeline(out, timeline, palette);
    } else {
        write_plain_timeline(out, timeline, palette);
    }
}


/// One violated SLO as the report prints it: the metric's name and the
/// measured and allowed times, already written with two decimals.
pub struct ViolationRow {
    pub metric: String,
    pub actual: String,
    pub threshold: String,
}

impl View for ViolationRow {
    type V = (Seq<char>, Seq<char>, Seq<char>);

    open spec fn view(&self) -> (Seq<char>, Seq<char>, Seq<char>) {
        (self.metric@, self.actual@, self.threshold@)
    }
}

/// Each line followed by a line break.
pub open spec fn text_lines(lines: Seq<Seq<char>>) -> Seq<char>
    decreases lines.len(),
{
    if lines.len() == 0 {
        Seq::empty()
    } else {
        text_lines(lines.drop_last()) + lines.last() + "\n"@
    }
}

/// The level of a diagnostic as shown: `warn` in yellow, `info` in blue,
/// anything else dimmed.
pub open spec fn level_badge(level: Seq<char>, p: Palette) -> Seq<char> {
    if level == "warn"@ {
        p.styled("33"@, "warn"@)
    } else if level == "info"@ {
        p.styled("34"@, "info"@)
    } else {
        p.styled("2"@, level)
    }
}

/// `[level] message` for each diagnostic.
pub open spec fn diagnostic_lines(ds: Seq<(Seq<char>, Seq<char>, Seq<char>)>, p: Palette) -> Seq<char>
    decreases ds.len(),
{
    if ds.len() == 0 {
        Seq::empty()
    } else {
        diagnostic_lines(ds.drop_last(), p) + "["@ + level_badge(ds.last().0, p) + "] "@ + ds.last().2
            + "\n"@
    }
}

/// `metric actual=Nms threshold=Nms` for each violation.
pub open spec fn violation_lines(vs: Seq<(Seq<char>, Seq<char>, Seq<char>)>) -> Seq<char>
    decreases vs.len(),
{
    if vs.len() == 0 {
        Seq::empty()
    } else {
        violation_lines(vs.drop_last()) + vs.last().0 + " actual="@ + vs.last().1
            + "ms threshold="@ + vs.last().2 + "ms"@ + "\n"@
    }
}

/// `Connected to <ip>:<port>`, dimmed; `unknown` when the address is not known.
pub open spec fn connected_line(exchange: Exchange, p: Palette) -> Seq<char> {
    p.styled(
        "2"@,
        "Connected to "@ + (match exchange.remote_ip {
            Some(ip) => ip@,
            None => "unknown"@,
        }) + ":"@ + decimal(exchange.remote_port as nat),
    )
}

/// The status line in red for a client or server error, in green otherwise.
pub open spec fn status_text(exchange: Exchange, p: Palette) -> Seq<char> {
    if exchange.status_code >= 400 {
        p.styled("31"@, exchange.status_line@)
    } else {
        p.styled("32"@, exchange.status_line@)
    }
}

/// The diagnostics section: a bold heading and one line per diagnostic, or nothing.
pub open spec fn diagnostics_block(ds: Seq<(Seq<char>, Seq<char>, Seq<char>)>, p: Palette) -> Seq<char> {
    if ds.len() == 0 {
        Seq::empty()
    } else {
        "\n"@ + p.styled("1"@, "Diagnostics"@) + "\n"@ + diagnostic_lines(ds, p)
    }
}

/// The SLO section: a red heading and one line per violation, or nothing.
pub open spec fn violations_block(vs: Seq<(Seq<char>, Seq<char>, Seq<char>)>, p: Palette) -> Seq<char> {
    if vs.len() == 0 {
        Seq::empty()
    } else {
        "\n"@ + p.styled("31"@, "SLO violations"@) + "\n"@ + violation_lines(vs)
    }
}

/// The response header lines as text.
pub open spec fn header_views(exchange: Exchange) -> Seq<Seq<char>> {
    exchange.response_headers@.map_values(|h: String| h@)
}

/// The violation rows as text.
pub open spec fn row_views(rows: Seq<ViolationRow>) -> Seq<(Seq<char>, Seq<char>, Seq<char>)> {
    rows.map_values(|r: ViolationRow| r@)
}

/// The report before trailing white space is cut: where the connection
/// went, the response head, the timeline, then diagnostics and SLO
/// violations when there are any.
pub open spec fn human_body(
    url: Seq<char>,
    exchange: Exchange,
    t: PhaseMillis,
    rows: Seq<ViolationRow>,
    p: Palette,
) -> Seq<char> {
    connected_line(exchange, p) + "\n"@ + "\n"@ + status_text(exchange, p) + "\n"@ + text_lines(
        header_views(exchange),
    ) + "\n"@ + timeline_text(url, t, p) + diagnostics_block(views_of(exchange.diagnostics@), p)
        + violations_block(row_views(rows), p)
}

fn connected_line_text(exchange: &Exchange, p: &Palette) -> (r: String)
    ensures
        r@ == connected_line(*exchange, *p),
{
    let mut s = "Connected to ".to_owned();
    match &exchange.remote_ip {
        Some(ip) => s.append(ip.as_str()),
        None => s.append("unknown"),
    }
    s.append(":");
    push_decimal(&mut s, exchange.remote_port as u64);
    p.dim(s.as_str())
}

fn header_lines_text(headers: &Vec<String>) -> (r: String)
    ensures
        r@ == text_lines(headers@.map_values(|h: String| h@)),
{
    let ghost hs = headers@.map_values(|h: String| h@);
    let mut s = String::new();
    let mut i: usize = 0;
    while i < headers.len()
        invariant
            i <= headers@.len(),
            hs == headers@.map_values(|h: String| h@),
            s@ == text_lines(hs.take(i as int)),
        decreases headers@.len() - i,
    {
        s.append(headers[i].as_str());
        s.append("\n");
        assert(hs.take(i + 1).drop_last() == hs.take(i as int));
        i = i + 1;
    }
    assert(hs.take(headers@.len() as int) == hs);
    s
}

fn level_badge_text(level: &str, p: &Palette) -> (r: String)
    ensures
        r@ == level_badge(level@, *p),
{
    let cs = chars_of(level);
    if spells(&cs, "warn") {
        p.yellow("warn")
    } else if spells(&cs, "info") {
        p.blue("info")
    } else {
        p.dim(level)
    }
}

fn diagnostics_block_text(ds: &Vec<Diagnostic>, p: &Palette) -> (r: String)
    ensures
        r@ == diagnostics_block(views_of(ds@), *p),
{
    if ds.len() == 0 {
        return String::new();
    }
    let ghost vs = views_of(ds@);
    let mut lines = String::new();
    let mut i: usize = 0;
    while i < ds.len()
        invariant
            i <= ds@.len(),
            vs == views_of(ds@),
            lines@ == diagnostic_lines(vs.take(i as int), *p),
        decreases ds@.len() - i,
    {
        lines.append("[");
        lines.append(level_badge_text(ds[i].level, p).as_str());
        lines.append("] ");
        lines.append(ds[i].message.as_str());
        lines.append("\n");
        assert(vs.take(i + 1).drop_last() == vs.take(i as int));
        i = i + 1;
    }
    assert(vs.take(ds@.len() as int) == vs);
    let mut s = "\n".to_owned();
    s.append(p.bold("Diagnostics").as_str());
    s.append("\n");
    s.append(lines.as_str());
    s
}

fn violations_block_text(rows: &Vec<ViolationRow>, p: &Palette) -> (r: String)
    ensures
        r@ == violations_block(row_views(rows@), *p),
{
    if rows.len() == 0 {
        return String::new();
    }
    let ghost vs = row_views(rows@);
    let mut lines = String::new();
    let mut i: usize = 0;
    while i < rows.len()
        invariant
            i <= rows@.len(),
            vs == row_views(rows@),
            lines@ == violation_lines(vs.take(i as int)),
        decreases rows@.len() - i,
    {
        lines.append(rows[i].metric.as_str());
        lines.append(" actual=");
        lines.append(rows[i].actual.as_str());
        lines.append("ms threshold=");
        lines.append(rows[i].threshold.as_str());
        lines.append("ms");
        lines.append("\n");
        assert(vs.take(i + 1).drop_last() == vs.take(i as int));
        i = i + 1;
    }
    assert(vs.take(rows@.len() as int) == vs);
    let mut s = "\n".to_owned();
    s.append(p.red("SLO violations").as_str());
    s.append("\n");
    s.append(lines.as_str());
    s
}

/// The human-readable report, without trailing white space.
pub fn render_human(
    cli: &Cli,
    exchange: &Exchange,
    timeline: &PhaseMillis,
    violations: &Vec<ViolationRow>,
    disable_color: bool,
) -> (r: String)
    ensures
        r@ == trim_end(human_body(cli.url@, *exchange, *timeline, violations@, Palette::new_spec(disable_color))),
{
    let palette = Palette::new(disable_color);
    let status = if exchange.status_code >= 400 {
        palette.red(exchange.status_line.as_str())
    } else {
        palette.green(exchange.status_line.as_str())
    };
    let mut out = String::new();
    out.append(connected_line_text(exchange, &palette).as_str());
    out.append("\n");
    out.append("\n");
    out.append(status.as_str());
    out.append("\n");
    out.append(header_lines_text(&exchange.response_headers).as_str());
    out.append("\n");
    let ghost before_timeline = out@;
    write_httpstat_timeline(&mut out, cli, timeline, &palette);
    out.append(diagnostics_block_text(&exchange.diagnostics, &palette).as_str());
    out.append(violations_block_text(violations, &palette).as_str());
    assert(out@ =~= human_body(cli.url@, *exchange, *timeline, violations@, palette));
    let cs = chars_of(out.as_str());
    let n = cs.len();
    assert(cs@.subrange(0, n as int) == cs@);
    let end = back_off_white_space(&cs, 0, n);
    string_of(&cs, 0, end)
}


/// No character of `s` is ESC, the first character of every ANSI sequence.
pub open spec fn has_no_escape(s: Seq<char>) -> bool {
    forall|i: int| 0 <= i < s.len() ==> s[i] != '\x1b'
}

pub broadcast proof fn lemma_no_escape_concat(a: Seq<char>, b: Seq<char>)
    requires
        has_no_escape(a),
        has_no_escape(b),
    ensures
        #[trigger] has_no_escape(a + b),
{
    assert forall|i: int| 0 <= i < (a + b).len() implies (a + b)[i] != '\x1b' by {
        if i >= a.len() {
            assert((a + b)[i] == b[i - a.len()]);
        }
    }
}

proof fn lemma_decimal_no_escape(n: nat)
    ensures
        has_no_escape(decimal(n)),
    decreases n,
{
    if n >= 10 {
        lemma_decimal_no_escape(n / 10);
        assert forall|i: int| 0 <= i < decimal(n).len() implies decimal(n)[i] != '\x1b' by {
            if i < decimal(n / 10).len() {
                assert(decimal(n)[i] == decimal(n / 10)[i]);
            }
        }
    }
}

proof fn lemma_ms_text_no_escape(v: u64)
    ensures
        has_no_escape(ms_text(v)),
        forall|w: int| #[trigger] has_no_escape(pad_left(ms_text(v), w)),
        forall|label: Seq<char>, w: int|
            has_no_escape(label) ==> #[trigger] has_no_escape(pad_right(label + ms_text(v), w)),
{
    broadcast use lemma_no_escape_concat;

    reveal_strlit("ms");
    lemma_decimal_no_escape(v as nat);
    assert(has_no_escape("ms"@));
    assert forall|w: int| #[trigger] has_no_escape(spaces(w)) by {}
}

proof fn lemma_timeline_literals()
    ensures
        has_no_escape("  DNS Lookup   TCP Connection   TLS Handshake   Server Processing   Content Transfer"@),
        has_no_escape("["@),
        has_no_escape("  |"@),
        has_no_escape("  ]"@),
        has_no_escape("            |                |               |                   |                  |"@),
        has_no_escape("   "@),
        has_no_escape("namelookup:"@),
        has_no_escape("|               |                   |                  |"@),
        has_no_escape("                       "@),
        has_no_escape("connect:"@),
        has_no_escape("|                   |                  |"@),
        has_no_escape("                                   "@),
        has_no_escape("pretransfer:"@),
        has_no_escape("|                  |"@),
        has_no_escape("                                                     "@),
        has_no_escape("starttransfer:"@),
        has_no_escape("|"@),
        has_no_escape("                                                                                total:"@),
        has_no_escape("  DNS Lookup   TCP Connection   Server Processing   Content Transfer"@),
        has_no_escape("            |                |                   |                  |"@),
        has_no_escape("                                       "@),
        has_no_escape("                                                          total:"@),
        has_no_escape("\n"@),
{
    reveal_strlit("  DNS Lookup   TCP Connection   TLS Handshake   Server Processing   Content Transfer");
    reveal_strlit("[");
    reveal_strlit("  |");
    reveal_strlit("  ]");
    reveal_strlit("            |                |               |                   |                  |");
    reveal_strlit("   ");
    reveal_strlit("namelookup:");
    reveal_strlit("|               |                   |                  |");
    reveal_strlit("                       ");
    reveal_strlit("connect:");
    reveal_strlit("|                   |                  |");
    reveal_strlit("                                   ");
    reveal_strlit("pretransfer:");
    reveal_strlit("|                  |");
    reveal_strlit("                                                     ");
    reveal_strlit("starttransfer:");
    reveal_strlit("|");
    reveal_strlit("                                                                                total:");
    reveal_strlit("  DNS Lookup   TCP Connection   Server Processing   Content Transfer");
    reveal_strlit("            |                |                   |                  |");
    reveal_strlit("                                       ");
    reveal_strlit("                                                          total:");
    reveal_strlit("\n");
}

proof fn lemma_tls_timeline_no_escape(t: PhaseMillis, p: Palette)
    requires
        !p.is_enabled(),
    ensures
        has_no_escape(tls_timeline(t, p)),
{
    broadcast use lemma_no_escape_concat;

    reveal(tls_line_1);
    reveal(tls_line_2);
    reveal(tls_line_3);
    reveal(tls_line_4);
    reveal(tls_line_5);
    reveal(tls_line_6);
    reveal(tls_line_7);
    reveal(tls_line_8);
    lemma_timeline_literals();
    lemma_ms_text_no_escape(t.dns);
    lemma_ms_text_no_escape(t.tcp);
    lemma_ms_text_no_escape(t.tls);
    lemma_ms_text_no_escape(t.server);
    lemma_ms_text_no_escape(t.transfer);
    lemma_ms_text_no_escape(t.connect);
    lemma_ms_text_no_escape(t.pretransfer);
    lemma_ms_text_no_escape(t.starttransfer);
    lemma_ms_text_no_escape(t.total);
    assert(has_no_escape(tls_line_1(t, p)));
    assert(has_no_escape(tls_line_2(t, p)));
    assert(has_no_escape(tls_line_3(t, p)));
    assert(has_no_escape(tls_line_4(t, p)));
    assert(has_no_escape(tls_line_5(t, p)));
    assert(has_no_escape(tls_line_6(t, p)));
    assert(has_no_escape(tls_line_7(t, p)));
    assert(has_no_escape(tls_line_8(t, p)));
}


proof fn lemma_plain_timeline_no_escape(t: PhaseMillis, p: Palette)
    requires
        !p.is_enabled(),
    ensures
        has_no_escape(plain_timeline(t, p)),
{
    broadcast use lemma_no_escape_concat;

    reveal(plain_line_1);
    reveal(plain_line_2);
    reveal(plain_line_3);
    reveal(plain_line_4);
    reveal(plain_line_5);
    reveal(plain_line_6);
    reveal(plain_line_7);
    lemma_timeline_literals();
    lemma_ms_text_no_escape(t.dns);
    lemma_ms_text_no_escape(t.tcp);
    lemma_ms_text_no_escape(t.server);
    lemma_ms_text_no_escape(t.transfer);
    lemma_ms_text_no_escape(t.connect);
    lemma_ms_text_no_escape(t.starttransfer);
    lemma_ms_text_no_escape(t.total);
    assert(has_no_escape(plain_line_1(t, p)));
    assert(has_no_escape(plain_line_2(t, p)));
    assert(has_no_escape(plain_line_3(t, p)));
    assert(has_no_escape(plain_line_4(t, p)));
    assert(has_no_escape(plain_line_5(t, p)));
    assert(has_no_escape(plain_line_6(t, p)));
    assert(has_no_escape(plain_line_7(t, p)));
}


proof fn lemma_text_lines_no_escape(lines: Seq<Seq<char>>)
    requires
        forall|i: int| 0 <= i < lines.len() ==> has_no_escape(#[trigger] lines[i]),
    ensures
        has_no_escape(text_lines(lines)),
    decreases lines.len(),
{
    broadcast use lemma_no_escape_concat;

    reveal_strlit("\n");
    assert(has_no_escape("\n"@));
    if lines.len() > 0 {
        let rest = lines.drop_last();
        assert forall|i: int| 0 <= i < rest.len() implies has_no_escape(#[trigger] rest[i]) by {
            assert(rest[i] == lines[i]);
        }
        lemma_text_lines_no_escape(rest);
        assert(has_no_escape(lines[lines.len() - 1]));
    }
}

proof fn lemma_diagnostic_lines_no_escape(ds: Seq<(Seq<char>, Seq<char>, Seq<char>)>, p: Palette)
    requires
        !p.is_enabled(),
        forall|i: int|
            0 <= i < ds.len() ==> has_no_escape((#[trigger] ds[i]).0) && has_no_escape(ds[i].2),
    ensures
        has_no_escape(diagnostic_lines(ds, p)),
    decreases ds.len(),
{
    broadcast use lemma_no_escape_concat;

    reveal_strlit("\n");
    reveal_strlit("[");
    reveal_strlit("] ");
    reveal_strlit("warn");
    reveal_strlit("info");
    assert(has_no_escape("\n"@));
    assert(has_no_escape("["@));
    assert(has_no_escape("] "@));
    assert(has_no_escape("warn"@));
    assert(has_no_escape("info"@));
    if ds.len() > 0 {
        let rest = ds.drop_last();
        assert forall|i: int| 0 <= i < rest.len() implies has_no_escape((#[trigger] rest[i]).0)
            && has_no_escape(rest[i].2) by {
            assert(rest[i] == ds[i]);
        }
        lemma_diagnostic_lines_no_escape(rest, p);
        let last = ds[ds.len() - 1];
        assert(has_no_escape(last.0) && has_no_escape(last.2));
        assert(has_no_escape(level_badge(last.0, p)));
    }
}

proof fn lemma_violation_lines_no_escape(vs: Seq<(Seq<char>, Seq<char>, Seq<char>)>)
    requires
        forall|i: int|
            0 <= i < vs.len() ==> has_no_escape((#[trigger] vs[i]).0) && has_no_escape(vs[i].1)
                && has_no_escape(vs[i].2),
    ensures
        has_no_escape(violation_lines(vs)),
    decreases vs.len(),
{
    broadcast use lemma_no_escape_concat;

    reveal_strlit("\n");
    reveal_strlit(" actual=");
    reveal_strlit("ms threshold=");
    reveal_strlit("ms");
    assert(has_no_escape("\n"@));
    assert(has_no_escape(" actual="@));
    assert(has_no_escape("ms threshold="@));
    assert(has_no_escape("ms"@));
    if vs.len() > 0 {
        let rest = vs.drop_last();
        assert forall|i: int| 0 <= i < rest.len() implies has_no_escape((#[trigger] rest[i]).0)
            && has_no_escape(rest[i].1) && has_no_escape(rest[i].2) by {
            assert(rest[i] == vs[i]);
        }
        lemma_violation_lines_no_escape(rest);
        let last = vs[vs.len() - 1];
        assert(has_no_escape(last.0) && has_no_escape(last.1) && has_no_escape(last.2));
    }
}

proof fn lemma_trim_end_no_escape(s: Seq<char>)
    requires
        has_no_escape(s),
    ensures
        has_no_escape(trim_end(s)),
    decreases s.len(),
{
    if s.len() > 0 && crate::text::is_white_space(s.last()) {
        assert forall|i: int| 0 <= i < s.drop_last().len() implies s.drop_last()[i] != '\x1b' by {
            assert(s.drop_last()[i] == s[i]);
        }
        lemma_trim_end_no_escape(s.drop_last());
    }
}

/// With colour disabled the human report holds no ESC character, so no ANSI
/// sequence, as long as the texts it repeats (status line, headers, address,
/// diagnostics, violation rows) hold none.
pub proof fn law_no_colour_no_escapes(
    url: Seq<char>,
    exchange: Exchange,
    t: PhaseMillis,
    rows: Seq<ViolationRow>,
)
    requires
        has_no_escape(exchange.status_line@),
        forall|i: int|
            0 <= i < header_views(exchange).len() ==> has_no_escape(
                #[trigger] header_views(exchange)[i],
            ),
        match exchange.remote_ip {
            Some(ip) => has_no_escape(ip@),
            None => true,
        },
        forall|i: int|
            0 <= i < views_of(exchange.diagnostics@).len() ==> has_no_escape(
                (#[trigger] views_of(exchange.diagnostics@)[i]).0,
            ) && has_no_escape(views_of(exchange.diagnostics@)[i].2),
        forall|i: int|
            0 <= i < row_views(rows).len() ==> has_no_escape((#[trigger] row_views(rows)[i]).0)
                && has_no_escape(row_views(rows)[i].1) && has_no_escape(row_views(rows)[i].2),
    ensures
        has_no_escape(trim_end(human_body(url, exchange, t, rows, Palette::new_spec(true)))),
{
    broadcast use lemma_no_escape_concat;

    let p = Palette::new_spec(true);
    Palette::lemma_new_spec(true);
    reveal_strlit("\n");
    reveal_strlit("Connected to ");
    reveal_strlit("unknown");
    reveal_strlit(":");
    reveal_strlit("Diagnostics");
    reveal_strlit("SLO violations");
    assert(has_no_escape("\n"@));
    assert(has_no_escape("Connected to "@));
    assert(has_no_escape("unknown"@));
    assert(has_no_escape(":"@));
    assert(has_no_escape("Diagnostics"@));
    assert(has_no_escape("SLO violations"@));
    lemma_decimal_no_escape(exchange.remote_port as nat);
    assert(has_no_escape(connected_line(exchange, p)));
    assert(has_no_escape(status_text(exchange, p)));
    lemma_text_lines_no_escape(header_views(exchange));
    if uses_tls(url) {
        lemma_tls_timeline_no_escape(t, p);
    } else {
        lemma_plain_timeline_no_escape(t, p);
    }
    assert(has_no_escape(timeline_text(url, t, p)));
    lemma_diagnostic_lines_no_escape(views_of(exchange.diagnostics@), p);
    assert(has_no_escape(diagnostics_block(views_of(exchange.diagnostics@), p)));
    lemma_violation_lines_no_escape(row_views(rows));
    assert(has_no_escape(violations_block(row_views(rows), p)));
    lemma_trim_end_no_escape(human_body(url, exchange, t, rows, p));
}


/// The human report never ends in white space: it is empty or its last
/// character is printable text.
pub proof fn law_report_ends_clean(
    url: Seq<char>,
    exchange: Exchange,
    t: PhaseMillis,
    rows: Seq<ViolationRow>,
    disable_color: bool,
)
    ensures
        ({
            let r = trim_end(human_body(url, exchange, t, rows, Palette::new_spec(disable_color)));
            r.len() == 0 || !crate::text::is_white_space(r.last())
        }),
{
    crate::text::lemma_trim_end_ends_clean(
        human_body(url, exchange, t, rows, Palette::new_spec(disable_color)),
    );
}


/// `--no-color` means no ANSI colours in every colour mode: with the flag
/// set, the report made with the colour decision of `color_disabled` holds
/// no ESC character, as long as the texts it repeats hold none.
pub proof fn law_no_color_flag_no_escapes(
    cli: Cli,
    no_color_env: bool,
    stdout_is_terminal: bool,
    exchange: Exchange,
    t: PhaseMillis,
    rows: Seq<ViolationRow>,
)
    requires
        cli.no_color,
        has_no_escape(exchange.status_line@),
        forall|i: int|
            0 <= i < header_views(exchange).len() ==> has_no_escape(
                #[trigger] header_views(exchange)[i],
            ),
        match exchange.remote_ip {
            Some(ip) => has_no_escape(ip@),
            None => true,
        },
        forall|i: int|
            0 <= i < views_of(exchange.diagnostics@).len() ==> has_no_escape(
                (#[trigger] views_of(exchange.diagnostics@)[i]).0,
            ) && has_no_escape(views_of(exchange.diagnostics@)[i].2),
        forall|i: int|
            0 <= i < row_views(rows).len() ==> has_no_escape((#[trigger] row_views(rows)[i]).0)
                && has_no_escape(row_views(rows)[i].1) && has_no_escape(row_views(rows)[i].2),
    ensures
        has_no_escape(
            trim_end(
                human_body(
                    cli.url@,
                    exchange,
                    t,
                    rows,
                    Palette::new_spec(
                        color_is_disabled(cli.color, cli.no_color, no_color_env, stdout_is_terminal),
                    ),
                ),
            ),
        ),
{
    assert(color_is_disabled(cli.color, cli.no_color, no_color_env, stdout_is_terminal));
    law_no_colour_no_escapes(cli.url@, exchange, t, rows);
}


/// The printed line of one violation row: the metric, the measured and the
/// allowed time, each time followed by `ms`, and a line break.
pub open spec fn violation_row_line(v: (Seq<char>, Seq<char>, Seq<char>)) -> Seq<char> {
    v.0 + " actual="@ + v.1 + "ms threshold="@ + v.2 + "ms"@ + "\n"@
}

proof fn lemma_violation_lines_each_row(vs: Seq<(Seq<char>, Seq<char>, Seq<char>)>)
    ensures
        violation_lines(vs) == vs.map_values(|v: (Seq<char>, Seq<char>, Seq<char>)| violation_row_line(v)).flatten_alt(),
    decreases vs.len(),
{
    let lines = vs.map_values(|v: (Seq<char>, Seq<char>, Seq<char>)| violation_row_line(v));
    if vs.len() > 0 {
        lemma_violation_lines_each_row(vs.drop_last());
        assert(lines.drop_last() == vs.drop_last().map_values(|v: (Seq<char>, Seq<char>, Seq<char>)| violation_row_line(v)));
        assert(violation_lines(vs) =~= lines.drop_last().flatten_alt() + lines.last());
    } else {
        assert(lines.len() == 0);
    }
}

/// The SLO section of the human report prints every violation row, one line
/// each, in order: nothing when there are no rows, and otherwise a line
/// break, the red heading, a line break, then for row 0, 1, ... in turn
/// `metric actual=Nms threshold=Nms` and a line break. The report ends with
/// that section.
pub proof fn law_violation_section_lists_every_row(
    url: Seq<char>,
    exchange: Exchange,
    t: PhaseMillis,
    rows: Seq<ViolationRow>,
    p: Palette,
)
    ensures
        rows.len() == 0 ==> violations_block(row_views(rows), p) == Seq::<char>::empty(),
        rows.len() > 0 ==> violations_block(row_views(rows), p) == "\n"@ + p.styled(
            "31"@,
            "SLO violations"@,
        ) + "\n"@ + row_views(rows).map_values(
            |v: (Seq<char>, Seq<char>, Seq<char>)| violation_row_line(v),
        ).flatten(),
        exists|head: Seq<char>|
            human_body(url, exchange, t, rows, p) == head + violations_block(row_views(rows), p),
{
    let vs = row_views(rows);
    lemma_violation_lines_each_row(vs);
    vs.map_values(|v: (Seq<char>, Seq<char>, Seq<char>)| violation_row_line(v)).lemma_flatten_and_flatten_alt_are_equivalent();
    let head = connected_line(exchange, p) + "\n"@ + "\n"@ + status_text(exchange, p) + "\n"@
        + text_lines(header_views(exchange)) + "\n"@ + timeline_text(url, t, p) + diagnostics_block(
        views_of(exchange.diagnostics@),
        p,
    );
    assert(human_body(url, exchange, t, rows, p) == head + violations_block(vs, p));
}


/// The printed line of one diagnostic: its level badge in brackets, the
/// message, and a line break.
pub open spec fn diagnostic_row_line(d: (Seq<char>, Seq<char>, Seq<char>), p: Palette) -> Seq<char> {
    "["@ + level_badge(d.0, p) + "] "@ + d.2 + "\n"@
}

/// A header as printed: the header line and a line break.
pub open spec fn header_row_line(h: Seq<char>) -> Seq<char> {
    h + "\n"@
}

proof fn lemma_text_lines_each_row(hs: Seq<Seq<char>>)
    ensures
        text_lines(hs) == hs.map_values(|h: Seq<char>| header_row_line(h)).flatten_alt(),
    decreases hs.len(),
{
    let lines = hs.map_values(|h: Seq<char>| header_row_line(h));
    if hs.len() > 0 {
        lemma_text_lines_each_row(hs.drop_last());
        assert(lines.drop_last() == hs.drop_last().map_values(|h: Seq<char>| header_row_line(h)));
        assert(text_lines(hs) =~= lines.drop_last().flatten_alt() + lines.last());
    } else {
        assert(lines.len() == 0);
    }
}

proof fn lemma_diagnostic_lines_each_row(ds: Seq<(Seq<char>, Seq<char>, Seq<char>)>, p: Palette)
    ensures
        diagnostic_lines(ds, p) == ds.map_values(|d: (Seq<char>, Seq<char>, Seq<char>)| diagnostic_row_line(d, p)).flatten_alt(),
    decreases ds.len(),
{
    let lines = ds.map_values(|d: (Seq<char>, Seq<char>, Seq<char>)| diagnostic_row_line(d, p));
    if ds.len() > 0 {
        lemma_diagnostic_lines_each_row(ds.drop_last(), p);
        assert(lines.drop_last() == ds.drop_last().map_values(|d: (Seq<char>, Seq<char>, Seq<char>)| diagnostic_row_line(d, p)));
        assert(diagnostic_lines(ds, p) =~= lines.drop_last().flatten_alt() + lines.last());
    } else {
        assert(lines.len() == 0);
    }
}

/// The human report prints every response header and every diagnostic, one
/// line each and in order: the headers follow the status line, each with a
/// line break; the diagnostics section is empty without diagnostics and is
/// otherwise a line break, the bold heading, a line break and one
/// `[level] message` line per diagnostic.
pub proof fn law_report_lists_every_header_and_diagnostic(
    url: Seq<char>,
    exchange: Exchange,
    t: PhaseMillis,
    rows: Seq<ViolationRow>,
    p: Palette,
)
    ensures
        human_body(url, exchange, t, rows, p) == connected_line(exchange, p) + "\n"@ + "\n"@
            + status_text(exchange, p) + "\n"@ + header_views(exchange).map_values(
            |h: Seq<char>| header_row_line(h),
        ).flatten() + "\n"@ + timeline_text(url, t, p) + diagnostics_block(
            views_of(exchange.diagnostics@),
            p,
        ) + violations_block(row_views(rows), p),
        exchange.diagnostics@.len() == 0 ==> diagnostics_block(views_of(exchange.diagnostics@), p)
            == Seq::<char>::empty(),
        exchange.diagnostics@.len() > 0 ==> diagnostics_block(views_of(exchange.diagnostics@), p)
            == "\n"@ + p.styled("1"@, "Diagnostics"@) + "\n"@ + views_of(exchange.diagnostics@).map_values(
            |d: (Seq<char>, Seq<char>, Seq<char>)| diagnostic_row_line(d, p),
        ).flatten(),
{
    let hs = header_views(exchange);
    lemma_text_lines_each_row(hs);
    hs.map_values(|h: Seq<char>| header_row_line(h)).lemma_flatten_and_flatten_alt_are_equivalent();
    let ds = views_of(exchange.diagnostics@);
    lemma_diagnostic_lines_each_row(ds, p);
    ds.map_values(|d: (Seq<char>, Seq<char>, Seq<char>)| diagnostic_row_line(d, p)).lemma_flatten_and_flatten_alt_are_equivalent();
}


/// A diagnostic's level is shown as itself: unchanged without colour, and
/// with colour wrapped in yellow for `warn`, blue for `info`, dim otherwise.
pub proof fn law_level_badge_shows_level(level: Seq<char>, p: Palette)
    ensures
        !p.is_enabled() ==> level_badge(level, p) == level,
        p.is_enabled() ==> level_badge(level, p) == "\x1b["@ + (if level == "warn"@ {
            "33"@
        } else if level == "info"@ {
            "34"@
        } else {
            "2"@
        }) + "m"@ + level + "\x1b[0m"@,
{
}


/// `text` stands in `line` from position `pos` on.
pub open spec fn shows_at(line: Seq<char>, pos: int, text: Seq<char>) -> bool {
    0 <= pos && pos + text.len() <= line.len() && line.subrange(pos, pos + text.len()) == text
}

/// `text` stands right-aligned in the column of `width` characters that ends
/// at `end`: spaces first, then `text`.
pub open spec fn right_aligned_at(line: Seq<char>, end: int, width: int, text: Seq<char>) -> bool {
    shows_at(line, end - width, spaces(width - text.len())) && shows_at(line, end - text.len(), text)
}

/// The pieces, one after another.
pub open spec fn concat_all(parts: Seq<Seq<char>>) -> Seq<char>
    decreases parts.len(),
{
    if parts.len() == 0 {
        Seq::empty()
    } else {
        concat_all(parts.drop_last()) + parts.last()
    }
}

/// The total length of the first `k` pieces.
pub open spec fn sum_lens(parts: Seq<Seq<char>>, k: int) -> int
    decreases k,
{
    if k <= 0 {
        0
    } else {
        sum_lens(parts, k - 1) + parts[k - 1].len()
    }
}

proof fn lemma_concat_all(parts: Seq<Seq<char>>)
    ensures
        concat_all(parts).len() == sum_lens(parts, parts.len() as int),
    decreases parts.len(),
{
    if parts.len() > 0 {
        lemma_concat_all(parts.drop_last());
        lemma_sum_lens_prefix(parts, parts.len() - 1);
    }
}

proof fn lemma_sum_lens_prefix(parts: Seq<Seq<char>>, k: int)
    requires
        0 <= k < parts.len(),
    ensures
        sum_lens(parts.drop_last(), k) == sum_lens(parts, k),
    decreases k,
{
    if k > 0 {
        lemma_sum_lens_prefix(parts, k - 1);
    }
}

proof fn lemma_sum_lens_grow(parts: Seq<Seq<char>>, k: int)
    requires
        0 <= k <= parts.len(),
    ensures
        sum_lens(parts, k) <= sum_lens(parts, parts.len() as int),
    decreases parts.len() - k,
{
    if k < parts.len() {
        lemma_sum_lens_grow(parts, k + 1);
    }
}

/// Piece `k` stands in the concatenation right after the pieces before it.
proof fn lemma_part_at(parts: Seq<Seq<char>>, k: int)
    requires
        0 <= k < parts.len(),
    ensures
        shows_at(concat_all(parts), sum_lens(parts, k), parts[k]),
    decreases parts.len(),
{
    lemma_concat_all(parts);
    lemma_concat_all(parts.drop_last());
    if k == parts.len() - 1 {
        lemma_sum_lens_prefix(parts, k);
        assert(concat_all(parts).subrange(sum_lens(parts, k), sum_lens(parts, k) + parts[k].len())
            =~= parts[k]);
    } else {
        lemma_part_at(parts.drop_last(), k);
        lemma_sum_lens_prefix(parts, k);
        lemma_sum_lens_prefix(parts, k + 1);
        lemma_sum_lens_grow(parts.drop_last(), k + 1);
        assert(parts.drop_last()[k] == parts[k]);
        let whole = concat_all(parts);
        let front = concat_all(parts.drop_last());
        let a = sum_lens(parts, k);
        assert(whole.subrange(a, a + parts[k].len()) =~= front.subrange(a, a + parts[k].len()));
    }
}

proof fn lemma_pad_left_fits(text: Seq<char>, w: int)
    requires
        text.len() <= w,
    ensures
        pad_left(text, w).len() == w,
        pad_left(text, w) == spaces(w - text.len()) + text,
{
}

proof fn lemma_right_aligned_in(line: Seq<char>, start: int, w: int, text: Seq<char>)
    requires
        text.len() <= w,
        shows_at(line, start, pad_left(text, w)),
    ensures
        right_aligned_at(line, start + w, w, text),
{
    let padded = pad_left(text, w);
    let gap = spaces(w - text.len());
    assert(line.subrange(start, start + gap.len()) =~= padded.subrange(0, gap.len() as int));
    assert(padded.subrange(0, gap.len() as int) =~= gap);
    assert(line.subrange(start + w - text.len(), start + w) =~= padded.subrange(gap.len() as int, w));
    assert(padded.subrange(gap.len() as int, w) =~= text);
}

/// In the TLS timeline without colour, each phase time stands in its own
/// column of the bar line, right-aligned: the line is `[`, then each
/// column followed by `  |` (the last by `  ]`); every column is filled
/// with spaces and ends with the phase's time and `ms`, at fixed positions,
/// as long as every time fits its column.
pub proof fn law_tls_bar_columns(t: PhaseMillis)
    requires
        ms_text(t.dns).len() <= 10,
        ms_text(t.tcp).len() <= 14,
        ms_text(t.tls).len() <= 13,
        ms_text(t.server).len() <= 19,
        ms_text(t.transfer).len() <= 15,
    ensures
        ({
            let bar = tls_line_2(t, Palette::new_spec(true));
            &&& bar.len() == 87
            &&& shows_at(bar, 0, "["@)
            &&& right_aligned_at(bar, 11, 10, ms_text(t.dns))
            &&& shows_at(bar, 11, "  |"@)
            &&& right_aligned_at(bar, 28, 14, ms_text(t.tcp))
            &&& shows_at(bar, 28, "  |"@)
            &&& right_aligned_at(bar, 44, 13, ms_text(t.tls))
            &&& shows_at(bar, 44, "  |"@)
            &&& right_aligned_at(bar, 66, 19, ms_text(t.server))
            &&& shows_at(bar, 66, "  |"@)
            &&& right_aligned_at(bar, 84, 15, ms_text(t.transfer))
            &&& shows_at(bar, 84, "  ]"@)
        }),
{
    let p = Palette::new_spec(true);
    Palette::lemma_new_spec(true);
    reveal(tls_line_2);
    reveal_strlit("[");
    reveal_strlit("  |");
    reveal_strlit("  ]");
    let bar = tls_line_2(t, p);
    let parts: Seq<Seq<char>> = seq!["["@, pad_left(ms_text(t.dns), 10), "  |"@, pad_left(ms_text(t.tcp), 14), "  |"@, pad_left(ms_text(t.tls), 13), "  |"@, pad_left(ms_text(t.server), 19), "  |"@, pad_left(ms_text(t.transfer), 15), "  ]"@];
    lemma_pad_left_fits(ms_text(t.dns), 10);
    lemma_pad_left_fits(ms_text(t.tcp), 14);
    lemma_pad_left_fits(ms_text(t.tls), 13);
    lemma_pad_left_fits(ms_text(t.server), 19);
    lemma_pad_left_fits(ms_text(t.transfer), 15);
    lemma_concat_all(parts);
    reveal_with_fuel(concat_all, 12);
    reveal_with_fuel(sum_lens, 12);
    assert(bar =~= concat_all(parts));
    lemma_part_at(parts, 0);
    assert(sum_lens(parts, 0) == 0);
    lemma_part_at(parts, 1);
    assert(sum_lens(parts, 1) == 1);
    lemma_part_at(parts, 2);
    assert(sum_lens(parts, 2) == 11);
    lemma_part_at(parts, 3);
    assert(sum_lens(parts, 3) == 14);
    lemma_part_at(parts, 4);
    assert(sum_lens(parts, 4) == 28);
    lemma_part_at(parts, 5);
    assert(sum_lens(parts, 5) == 31);
    lemma_part_at(parts, 6);
    assert(sum_lens(parts, 6) == 44);
    lemma_part_at(parts, 7);
    assert(sum_lens(parts, 7) == 47);
    lemma_part_at(parts, 8);
    assert(sum_lens(parts, 8) == 66);
    lemma_part_at(parts, 9);
    assert(sum_lens(parts, 9) == 69);
    lemma_part_at(parts, 10);
    assert(sum_lens(parts, 10) == 84);
    lemma_right_aligned_in(bar, 1, 10, ms_text(t.dns));
    lemma_right_aligned_in(bar, 14, 14, ms_text(t.tcp));
    lemma_right_aligned_in(bar, 31, 13, ms_text(t.tls));
    lemma_right_aligned_in(bar, 47, 19, ms_text(t.server));
    lemma_right_aligned_in(bar, 69, 15, ms_text(t.transfer));
}

/// In the plain timeline without colour, each phase time stands in its own
/// column of the bar line, right-aligned: the line is `[`, then each
/// column followed by `  |` (the last by `  ]`); every column is filled
/// with spaces and ends with the phase's time and `ms`, at fixed positions,
/// as long as every time fits its column.
pub proof fn law_plain_bar_columns(t: PhaseMillis)
    requires
        ms_text(t.dns).len() <= 10,
        ms_text(t.tcp).len() <= 14,
        ms_text(t.server).len() <= 19,
        ms_text(t.transfer).len() <= 15,
    ensures
        ({
            let bar = plain_line_2(t, Palette::new_spec(true));
            &&& bar.len() == 71
            &&& shows_at(bar, 0, "["@)
            &&& right_aligned_at(bar, 11, 10, ms_text(t.dns))
            &&& shows_at(bar, 11, "  |"@)
            &&& right_aligned_at(bar, 28, 14, ms_text(t.tcp))
            &&& shows_at(bar, 28, "  |"@)
            &&& right_aligned_at(bar, 50, 19, ms_text(t.server))
            &&& shows_at(bar, 50, "  |"@)
            &&& right_aligned_at(bar, 68, 15, ms_text(t.transfer))
            &&& shows_at(bar, 68, "  ]"@)
        }),
{
    let p = Palette::new_spec(true);
    Palette::lemma_new_spec(true);
    reveal(plain_line_2);
    reveal_strlit("[");
    reveal_strlit("  |");
    reveal_strlit("  ]");
    let bar = plain_line_2(t, p);
    let parts: Seq<Seq<char>> = seq!["["@, pad_left(ms_text(t.dns), 10), "  |"@, pad_left(ms_text(t.tcp), 14), "  |"@, pad_left(ms_text(t.server), 19), "  |"@, pad_left(ms_text(t.transfer), 15), "  ]"@];
    lemma_pad_left_fits(ms_text(t.dns), 10);
    lemma_pad_left_fits(ms_text(t.tcp), 14);
    lemma_pad_left_fits(ms_text(t.server), 19);
    lemma_pad_left_fits(ms_text(t.transfer), 15);
    lemma_concat_all(parts);
    reveal_with_fuel(concat_all, 12);
    reveal_with_fuel(sum_lens, 12);
    assert(bar =~= concat_all(parts));
    lemma_part_at(parts, 0);
    assert(sum_lens(parts, 0) == 0);
    lemma_part_at(parts, 1);
    assert(sum_lens(parts, 1) == 1);
    lemma_part_at(parts, 2);
    assert(sum_lens(parts, 2) == 11);
    lemma_part_at(parts, 3);
    assert(sum_lens(parts, 3) == 14);
    lemma_part_at(parts, 4);
    assert(sum_lens(parts, 4) == 28);
    lemma_part_at(parts, 5);
    assert(sum_lens(parts, 5) == 31);
    lemma_part_at(parts, 6);
    assert(sum_lens(parts, 6) == 50);
    lemma_part_at(parts, 7);
    assert(sum_lens(parts, 7) == 53);
    lemma_part_at(parts, 8);
    assert(sum_lens(parts, 8) == 68);
    lemma_right_aligned_in(bar, 1, 10, ms_text(t.dns));
    lemma_right_aligned_in(bar, 14, 14, ms_text(t.tcp));
    lemma_right_aligned_in(bar, 31, 19, ms_text(t.server));
    lemma_right_aligned_in(bar, 53, 15, ms_text(t.transfer));
}


/// `text` stands left-aligned in the column of `width` characters that
/// starts at `start`: `text` first, then spaces.
pub open spec fn left_aligned_at(line: Seq<char>, start: int, width: int, text: Seq<char>) -> bool {
    shows_at(line, start, text) && shows_at(line, start + text.len(), spaces(width - text.len()))
}

proof fn lemma_pad_right_fits(text: Seq<char>, w: int)
    requires
        text.len() <= w,
    ensures
        pad_right(text, w).len() == w,
{
}

proof fn lemma_left_aligned_in(line: Seq<char>, start: int, w: int, text: Seq<char>)
    requires
        text.len() <= w,
        shows_at(line, start, pad_right(text, w)),
    ensures
        left_aligned_at(line, start, w, text),
{
    let padded = pad_right(text, w);
    let gap = spaces(w - text.len());
    assert(line.subrange(start, start + text.len()) =~= padded.subrange(0, text.len() as int));
    assert(padded.subrange(0, text.len() as int) =~= text);
    assert(line.subrange(start + text.len(), start + w) =~= padded.subrange(text.len() as int, w));
    assert(padded.subrange(text.len() as int, w) =~= gap);
}

/// In the TLS timeline, each cumulative point (name lookup, connect,
/// pre-transfer, start of transfer) stands left-aligned in its column, padded
/// with spaces up to the column's mark, and the total follows its label; at
/// fixed positions, as long as every point fits its column.
pub proof fn law_tls_cumulative_columns(t: PhaseMillis)
    requires
        ("namelookup:"@ + ms_text(t.dns)).len() <= 21,
        ("connect:"@ + ms_text(t.connect)).len() <= 14,
        ("pretransfer:"@ + ms_text(t.pretransfer)).len() <= 18,
        ("starttransfer:"@ + ms_text(t.starttransfer)).len() <= 19,
    ensures
        shows_at(tls_line_4(t, Palette::new_spec(true)), 0, "   "@),
        left_aligned_at(tls_line_4(t, Palette::new_spec(true)), 3, 21, "namelookup:"@ + ms_text(t.dns)),
        shows_at(tls_line_4(t, Palette::new_spec(true)), 24, "|               |                   |                  |"@),
        tls_line_4(t, Palette::new_spec(true)).len() == 80,
        shows_at(tls_line_5(t, Palette::new_spec(true)), 0, "                       "@),
        left_aligned_at(tls_line_5(t, Palette::new_spec(true)), 23, 14, "connect:"@ + ms_text(t.connect)),
        shows_at(tls_line_5(t, Palette::new_spec(true)), 37, "|                   |                  |"@),
        tls_line_5(t, Palette::new_spec(true)).len() == 77,
        shows_at(tls_line_6(t, Palette::new_spec(true)), 0, "                                   "@),
        left_aligned_at(tls_line_6(t, Palette::new_spec(true)), 35, 18, "pretransfer:"@ + ms_text(t.pretransfer)),
        shows_at(tls_line_6(t, Palette::new_spec(true)), 53, "|                  |"@),
        tls_line_6(t, Palette::new_spec(true)).len() == 73,
        shows_at(tls_line_7(t, Palette::new_spec(true)), 0, "                                                     "@),
        left_aligned_at(tls_line_7(t, Palette::new_spec(true)), 53, 19, "starttransfer:"@ + ms_text(t.starttransfer)),
        shows_at(tls_line_7(t, Palette::new_spec(true)), 72, "|"@),
        tls_line_7(t, Palette::new_spec(true)).len() == 73,
        shows_at(tls_line_8(t, Palette::new_spec(true)), 0, "                                                                                total:"@),
        shows_at(tls_line_8(t, Palette::new_spec(true)), 86, ms_text(t.total)),
        tls_line_8(t, Palette::new_spec(true)).len() == 86 + ms_text(t.total).len(),
{
    let p = Palette::new_spec(true);
    reveal_with_fuel(concat_all, 5);
    reveal_with_fuel(sum_lens, 5);
    reveal_strlit("   ");
    reveal_strlit("                       ");
    reveal_strlit("                                   ");
    reveal_strlit("                                                     ");
    reveal_strlit("                                                                                total:");
    reveal_strlit("|");
    reveal_strlit("|                   |                  |");
    reveal_strlit("|                  |");
    reveal_strlit("|               |                   |                  |");
    let l4 = tls_line_4(t, p);
    reveal(tls_line_4);
    let parts4: Seq<Seq<char>> = seq!["   "@, pad_right("namelookup:"@ + ms_text(t.dns), 21), "|               |                   |                  |"@];
    assert(l4 =~= concat_all(parts4));
    lemma_part_at(parts4, 0);
    assert(sum_lens(parts4, 0) == 0);
    lemma_part_at(parts4, 1);
    assert(sum_lens(parts4, 1) == 3);
    lemma_pad_right_fits("namelookup:"@ + ms_text(t.dns), 21);
    lemma_left_aligned_in(l4, 3, 21, "namelookup:"@ + ms_text(t.dns));
    lemma_part_at(parts4, 2);
    assert(sum_lens(parts4, 2) == 24);
    let l5 = tls_line_5(t, p);
    reveal(tls_line_5);
    let parts5: Seq<Seq<char>> = seq!["                       "@, pad_right("connect:"@ + ms_text(t.connect), 14), "|                   |                  |"@];
    assert(l5 =~= concat_all(parts5));
    lemma_part_at(parts5, 0);
    assert(sum_lens(parts5, 0) == 0);
    lemma_part_at(parts5, 1);
    assert(sum_lens(parts5, 1) == 23);
    lemma_pad_right_fits("connect:"@ + ms_text(t.connect), 14);
    lemma_left_aligned_in(l5, 23, 14, "connect:"@ + ms_text(t.connect));
    lemma_part_at(parts5, 2);
    assert(sum_lens(parts5, 2) == 37);
    let l6 = tls_line_6(t, p);
    reveal(tls_line_6);
    let parts6: Seq<Seq<char>> = seq!["                                   "@, pad_right("pretransfer:"@ + ms_text(t.pretransfer), 18), "|                  |"@];
    assert(l6 =~= concat_all(parts6));
    lemma_part_at(parts6, 0);
    assert(sum_lens(parts6, 0) == 0);
    lemma_part_at(parts6, 1);
    assert(sum_lens(parts6, 1) == 35);
    lemma_pad_right_fits("pretransfer:"@ + ms_text(t.pretransfer), 18);
    lemma_left_aligned_in(l6, 35, 18, "pretransfer:"@ + ms_text(t.pretransfer));
    lemma_part_at(parts6, 2);
    assert(sum_lens(parts6, 2) == 53);
    let l7 = tls_line_7(t, p);
    reveal(tls_line_7);
    let parts7: Seq<Seq<char>> = seq!["                                                     "@, pad_right("starttransfer:"@ + ms_text(t.starttransfer), 19), "|"@];
    assert(l7 =~= concat_all(parts7));
    lemma_part_at(parts7, 0);
    assert(sum_lens(parts7, 0) == 0);
    lemma_part_at(parts7, 1);
    assert(sum_lens(parts7, 1) == 53);
    lemma_pad_right_fits("starttransfer:"@ + ms_text(t.starttransfer), 19);
    lemma_left_aligned_in(l7, 53, 19, "starttransfer:"@ + ms_text(t.starttransfer));
    lemma_part_at(parts7, 2);
    assert(sum_lens(parts7, 2) == 72);
    let l8 = tls_line_8(t, p);
    reveal(tls_line_8);
    let parts8: Seq<Seq<char>> = seq!["                                                                                total:"@, ms_text(t.total)];
    assert(l8 =~= concat_all(parts8));
    lemma_part_at(parts8, 0);
    assert(sum_lens(parts8, 0) == 0);
    lemma_part_at(parts8, 1);
    assert(sum_lens(parts8, 1) == 86);
}

/// In the timeline without TLS, each cumulative point (name lookup, connect,
/// start of transfer) stands left-aligned in its column, padded with spaces
/// up to the column's mark, and the total follows its label; at fixed
/// positions, as long as every point fits its column.
pub proof fn law_plain_cumulative_columns(t: PhaseMillis)
    requires
        ("namelookup:"@ + ms_text(t.dns)).len() <= 21,
        ("connect:"@ + ms_text(t.connect)).len() <= 14,
        ("starttransfer:"@ + ms_text(t.starttransfer)).len() <= 18,
    ensures
        shows_at(plain_line_4(t, Palette::new_spec(true)), 0, "   "@),
        left_aligned_at(plain_line_4(t, Palette::new_spec(true)), 3, 21, "namelookup:"@ + ms_text(t.dns)),
        shows_at(plain_line_4(t, Palette::new_spec(true)), 24, "|                   |                  |"@),
        plain_line_4(t, Palette::new_spec(true)).len() == 64,
        shows_at(plain_line_5(t, Palette::new_spec(true)), 0, "                       "@),
        left_aligned_at(plain_line_5(t, Palette::new_spec(true)), 23, 14, "connect:"@ + ms_text(t.connect)),
        shows_at(plain_line_5(t, Palette::new_spec(true)), 37, "|                  |"@),
        plain_line_5(t, Palette::new_spec(true)).len() == 57,
        shows_at(plain_line_6(t, Palette::new_spec(true)), 0, "                                       "@),
        left_aligned_at(plain_line_6(t, Palette::new_spec(true)), 39, 18, "starttransfer:"@ + ms_text(t.starttransfer)),
        shows_at(plain_line_6(t, Palette::new_spec(true)), 57, "|"@),
        plain_line_6(t, Palette::new_spec(true)).len() == 58,
        shows_at(plain_line_7(t, Palette::new_spec(true)), 0, "                                                          total:"@),
        shows_at(plain_line_7(t, Palette::new_spec(true)), 64, ms_text(t.total)),
        plain_line_7(t, Palette::new_spec(true)).len() == 64 + ms_text(t.total).len(),
{
    let p = Palette::new_spec(true);
    reveal_with_fuel(concat_all, 5);
    reveal_with_fuel(sum_lens, 5);
    reveal_strlit("   ");
    reveal_strlit("                       ");
    reveal_strlit("                                       ");
    reveal_strlit("                                                          total:");
    reveal_strlit("|");
    reveal_strlit("|                   |                  |");
    reveal_strlit("|                  |");
    let l4 = plain_line_4(t, p);
    reveal(plain_line_4);
    let parts4: Seq<Seq<char>> = seq!["   "@, pad_right("namelookup:"@ + ms_text(t.dns), 21), "|                   |                  |"@];
    assert(l4 =~= concat_all(parts4));
    lemma_part_at(parts4, 0);
    assert(sum_lens(parts4, 0) == 0);
    lemma_part_at(parts4, 1);
    assert(sum_lens(parts4, 1) == 3);
    lemma_pad_right_fits("namelookup:"@ + ms_text(t.dns), 21);
    lemma_left_aligned_in(l4, 3, 21, "namelookup:"@ + ms_text(t.dns));
    lemma_part_at(parts4, 2);
    assert(sum_lens(parts4, 2) == 24);
    let l5 = plain_line_5(t, p);
    reveal(plain_line_5);
    let parts5: Seq<Seq<char>> = seq!["                       "@, pad_right("connect:"@ + ms_text(t.connect), 14), "|                  |"@];
    assert(l5 =~= concat_all(parts5));
    lemma_part_at(parts5, 0);
    assert(sum_lens(parts5, 0) == 0);
    lemma_part_at(parts5, 1);
    assert(sum_lens(parts5, 1) == 23);
    lemma_pad_right_fits("connect:"@ + ms_text(t.connect), 14);
    lemma_left_aligned_in(l5, 23, 14, "connect:"@ + ms_text(t.connect));
    lemma_part_at(parts5, 2);
    assert(sum_lens(parts5, 2) == 37);
    let l6 = plain_line_6(t, p);
    reveal(plain_line_6);
    let parts6: Seq<Seq<char>> = seq!["                                       "@, pad_right("starttransfer:"@ + ms_text(t.starttransfer), 18), "|"@];
    assert(l6 =~= concat_all(parts6));
    lemma_part_at(parts6, 0);
    assert(sum_lens(parts6, 0) == 0);
    lemma_part_at(parts6, 1);
    assert(sum_lens(parts6, 1) == 39);
    lemma_pad_right_fits("starttransfer:"@ + ms_text(t.starttransfer), 18);
    lemma_left_aligned_in(l6, 39, 18, "starttransfer:"@ + ms_text(t.starttransfer));
    lemma_part_at(parts6, 2);
    assert(sum_lens(parts6, 2) == 57);
    let l7 = plain_line_7(t, p);
    reveal(plain_line_7);
    let parts7: Seq<Seq<char>> = seq!["                                                          total:"@, ms_text(t.total)];
    assert(l7 =~= concat_all(parts7));
    lemma_part_at(parts7, 0);
    assert(sum_lens(parts7, 0) == 0);
    lemma_part_at(parts7, 1);
    assert(sum_lens(parts7, 1) == 64);
}


/// The status line is shown whole, in red from status 400 on (client and
/// server errors) and in green below; the connection line names the remote
/// address and port, or `unknown` when the address is not known, dimmed.
pub proof fn law_status_and_connection_lines(exchange: Exchange, p: Palette)
    ensures
        !p.is_enabled() ==> status_text(exchange, p) == exchange.status_line@,
        p.is_enabled() && exchange.status_code >= 400 ==> status_text(exchange, p) == "\x1b["@ + "31"@
            + "m"@ + exchange.status_line@ + "\x1b[0m"@,
        p.is_enabled() && exchange.status_code < 400 ==> status_text(exchange, p) == "\x1b["@ + "32"@
            + "m"@ + exchange.status_line@ + "\x1b[0m"@,
        !p.is_enabled() ==> connected_line(exchange, p) == "Connected to "@ + (match exchange.remote_ip {
            Some(ip) => ip@,
            None => "unknown"@,
        }) + ":"@ + decimal(exchange.remote_port as nat),
{
}

}
