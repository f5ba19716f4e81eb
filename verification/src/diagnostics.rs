//! Diagnostics: hints attached to a measurement, from findings on its timings.

use vstd::prelude::*;

use crate::model::Diagnostic;
use crate::slo::{label_of, metric_at, metric_by_rank, MetricKey};

verus! {

/// The phase that takes the largest share of the total time, when that
/// share is large enough to report, with the share in percent as printed.
pub struct DominantPhase {
    pub metric: MetricKey,
    pub percent: String,
}

/// A dominant phase as metric and printed percentage.
pub open spec fn dominant_view(d: Option<DominantPhase>) -> Option<(MetricKey, Seq<char>)> {
    match d {
        Some(p) => Some((p.metric, p.percent@)),
        None => None,
    }
}

pub open spec fn dominant_note(m: MetricKey, percent: Seq<char>) -> (Seq<char>, Seq<char>, Seq<char>) {
    (
        "info"@,
        "dominant_phase"@,
        label_of(m) + " dominates the request path at "@ + percent + "% of total time."@,
    )
}

pub open spec fn proxy_note() -> (Seq<char>, Seq<char>, Seq<char>) {
    (
        "info"@,
        "proxy_enabled"@,
        "Proxy is enabled, so connect and TLS timings include the proxy hop before the origin path."@,
    )
}

pub open spec fn origin_note() -> (Seq<char>, Seq<char>, Seq<char>) {
    (
        "warn"@,
        "origin_latency"@,
        "Server processing is a large share of total latency; inspect application or upstream service time."@,
    )
}

pub open spec fn tls_note() -> (Seq<char>, Seq<char>, Seq<char>) {
    (
        "warn"@,
        "tls_verification_disabled"@,
        "TLS verification is disabled, so handshake timing is not a trust signal."@,
    )
}

/// The diagnostics for the findings, in order: the dominant phase, the
/// proxy hop, the origin latency.
pub open spec fn diagnostics_for(
    dominant: Option<(MetricKey, Seq<char>)>,
    proxy_enabled: bool,
    origin_latency: bool,
) -> Seq<(Seq<char>, Seq<char>, Seq<char>)> {
    let first = match dominant {
        Some((m, p)) => seq![dominant_note(m, p)],
        None => Seq::empty(),
    };
    let second = if proxy_enabled { seq![proxy_note()] } else { Seq::empty() };
    let third = if origin_latency { seq![origin_note()] } else { Seq::empty() };
    first + second + third
}

/// Diagnostics as (level, code, message) texts.
pub open spec fn views_of(ds: Seq<Diagnostic>) -> Seq<(Seq<char>, Seq<char>, Seq<char>)> {
    ds.map_values(|d: Diagnostic| d@)
}

/// Builds the diagnostics of a measurement from what its timings showed.
pub fn assemble_diagnostics(
    dominant: Option<DominantPhase>,
    proxy_enabled: bool,
    origin_latency: bool,
) -> (r: Vec<Diagnostic>)
    ensures
        views_of(r@) == diagnostics_for(dominant_view(dominant), proxy_enabled, origin_latency),
        proxy_enabled <==> exists|i: int| 0 <= i < r@.len() && (#[trigger] r@[i]).code@ == "proxy_enabled"@,
        origin_latency <==> exists|i: int| 0 <= i < r@.len() && (#[trigger] r@[i]).code@ == "origin_latency"@,
        dominant is Some <==> exists|i: int| 0 <= i < r@.len() && (#[trigger] r@[i]).code@ == "dominant_phase"@,
{
    let ghost dv = dominant_view(dominant);
    let mut r: Vec<Diagnostic> = Vec::new();
    match dominant {
        Some(p) => {
            let mut message = String::new();
            message.append(p.metric.label());
            message.append(" dominates the request path at ");
            message.append(p.percent.as_str());
            message.append("% of total time.");
            r.push(Diagnostic { level: "info", code: "dominant_phase", message });
        },
        None => {},
    }
    if proxy_enabled {
        r.push(Diagnostic {
            level: "info",
            code: "proxy_enabled",
            message: "Proxy is enabled, so connect and TLS timings include the proxy hop before the origin path.".to_owned(),
        });
    }
    if origin_latency {
        r.push(Diagnostic {
            level: "warn",
            code: "origin_latency",
            message: "Server processing is a large share of total latency; inspect application or upstream service time.".to_owned(),
        });
    }
    assert(views_of(r@) == diagnostics_for(dv, proxy_enabled, origin_latency));
    proof {
        law_each_finding_gives_its_diagnostic(dv, proxy_enabled, origin_latency);
        let ds = views_of(r@);
        assert forall|i: int| 0 <= i < r@.len() implies (#[trigger] r@[i]).code@ == ds[i].1 by {}
        if proxy_enabled {
            let i = choose|i: int| 0 <= i < ds.len() && (#[trigger] ds[i]).1 == "proxy_enabled"@;
            assert(r@[i].code@ == "proxy_enabled"@);
        }
        if origin_latency {
            let i = choose|i: int| 0 <= i < ds.len() && (#[trigger] ds[i]).1 == "origin_latency"@;
            assert(r@[i].code@ == "origin_latency"@);
        }
        if dominant is Some {
            let i = choose|i: int| 0 <= i < ds.len() && (#[trigger] ds[i]).1 == "dominant_phase"@;
            assert(r@[i].code@ == "dominant_phase"@);
        }
    }
    r
}

/// Adds the warning that TLS verification is off, when it is.
pub fn append_tls_warning(diagnostics: &mut Vec<Diagnostic>, insecure: bool)
    ensures
        views_of(final(diagnostics)@) == views_of(old(diagnostics)@) + (if insecure { seq![tls_note()] } else { Seq::empty() }),
{
    if insecure {
        diagnostics.push(Diagnostic {
            level: "warn",
            code: "tls_verification_disabled",
            message: "TLS verification is disabled, so handshake timing is not a trust signal.".to_owned(),
        });
    }
    assert(views_of(diagnostics@) == views_of(old(diagnostics)@) + (if insecure { seq![tls_note()] } else { Seq::empty() }));
}


/// The phase leading after the first `n` phases (dns, connect, tls, server,
/// transfer) are compared in turn: a later phase takes the lead unless the
/// leader compares greater than it. `beats[i][j]` says that phase `i`'s time
/// compares greater than phase `j`'s.
pub open spec fn leader_through(beats: Seq<Seq<bool>>, n: nat) -> nat
    decreases n,
{
    if n <= 1 {
        0
    } else {
        let prev = leader_through(beats, (n - 1) as nat);
        if beats[prev as int][n - 1] {
            prev
        } else {
            (n - 1) as nat
        }
    }
}

/// The rows of a comparison table as sequences.
pub open spec fn table_view(beats: [[bool; 5]; 5]) -> Seq<Seq<bool>> {
    beats@.map_values(|row: [bool; 5]| row@)
}

/// Picks the phase that takes the largest share, from how the five phase
/// times compare: the first phase leads, and each later one takes the lead
/// unless the leader compares greater than it, so among equal times the
/// later phase is picked.
pub fn dominant_metric(beats: &[[bool; 5]; 5]) -> (r: MetricKey)
    ensures
        r == metric_at(leader_through(table_view(*beats), 5)),
{
    let ghost table = table_view(*beats);
    let mut leader: usize = 0;
    let mut n: usize = 1;
    while n < 5
        invariant
            1 <= n <= 5,
            table == table_view(*beats),
            leader == leader_through(table, n as nat),
            leader < n,
        decreases 5 - n,
    {
        assert(table[leader as int][n as int] == beats[leader as int][n as int]);
        if !beats[leader][n] {
            leader = n;
        }
        n = n + 1;
    }
    metric_by_rank(leader)
}

proof fn lemma_leader_is_last_largest(beats: Seq<Seq<bool>>, v: Seq<int>, n: nat)
    requires
        1 <= n <= v.len(),
        beats.len() == v.len(),
        forall|i: int| 0 <= i < v.len() ==> (#[trigger] beats[i]).len() == v.len(),
        forall|i: int, j: int|
            0 <= i < v.len() && 0 <= j < v.len() ==> (#[trigger] beats[i][j] <==> v[i] > v[j]),
    ensures
        leader_through(beats, n) < n,
        forall|j: int| 0 <= j < n ==> #[trigger] v[j] <= v[leader_through(beats, n) as int],
        forall|j: int| leader_through(beats, n) < j < n ==> #[trigger] v[j] < v[leader_through(beats, n) as int],
    decreases n,
{
    if n > 1 {
        lemma_leader_is_last_largest(beats, v, (n - 1) as nat);
        let prev = leader_through(beats, (n - 1) as nat);
        assert(beats[prev as int][n - 1] <==> v[prev as int] > v[n - 1]);
    }
}

/// When the comparisons come from real numbers (no incomparable values),
/// the dominant phase has the largest time, and every later phase has a
/// strictly smaller one: of equal largest times the last is picked.
pub proof fn law_dominant_is_last_largest(beats: [[bool; 5]; 5], times: Seq<int>)
    requires
        times.len() == 5,
        forall|i: int, j: int|
            0 <= i < 5 && 0 <= j < 5 ==> (#[trigger] table_view(beats)[i][j] <==> times[i] > times[j]),
    ensures
        ({
            let d = leader_through(table_view(beats), 5) as int;
            &&& 0 <= d < 5
            &&& forall|j: int| 0 <= j < 5 ==> #[trigger] times[j] <= times[d]
            &&& forall|j: int| d < j < 5 ==> #[trigger] times[j] < times[d]
        }),
{
    let table = table_view(beats);
    assert forall|i: int| 0 <= i < times.len() implies (#[trigger] table[i]).len() == times.len() by {
        assert(table[i] == beats@[i]@);
    }
    lemma_leader_is_last_largest(table, times, 5);
}


/// Each finding gives its own diagnostic, whatever the other findings are:
/// the dominant-phase note is there exactly when a phase dominates (and then
/// comes first, naming the phase and its share), the proxy note exactly
/// when a proxy is used, the origin-latency warning exactly when the origin
/// was slow; there is one diagnostic per finding and nothing else.
pub proof fn law_each_finding_gives_its_diagnostic(
    dominant: Option<(MetricKey, Seq<char>)>,
    proxy_enabled: bool,
    origin_latency: bool,
)
    ensures
        ({
            let ds = diagnostics_for(dominant, proxy_enabled, origin_latency);
            &&& ds.len() == (if dominant is Some { 1int } else { 0 }) + (if proxy_enabled {
                1int
            } else {
                0
            }) + (if origin_latency { 1int } else { 0 })
            &&& (dominant is Some <==> exists|i: int| 0 <= i < ds.len() && (#[trigger] ds[i]).1 == "dominant_phase"@)
            &&& (proxy_enabled <==> exists|i: int| 0 <= i < ds.len() && (#[trigger] ds[i]).1 == "proxy_enabled"@)
            &&& (origin_latency <==> exists|i: int| 0 <= i < ds.len() && (#[trigger] ds[i]).1 == "origin_latency"@)
            &&& (origin_latency ==> exists|i: int| 0 <= i < ds.len() && #[trigger] ds[i] == (
                "warn"@,
                "origin_latency"@,
                "Server processing is a large share of total latency; inspect application or upstream service time."@,
            ))
            &&& (proxy_enabled ==> exists|i: int| 0 <= i < ds.len() && #[trigger] ds[i] == (
                "info"@,
                "proxy_enabled"@,
                "Proxy is enabled, so connect and TLS timings include the proxy hop before the origin path."@,
            ))
            &&& (forall|m: MetricKey, pct: Seq<char>| dominant == Some((m, pct)) ==> ds[0] == (
                "info"@,
                "dominant_phase"@,
                label_of(m) + " dominates the request path at "@ + pct + "% of total time."@,
            ))
        }),
{
    reveal_strlit("dominant_phase");
    reveal_strlit("proxy_enabled");
    reveal_strlit("origin_latency");
    let ds = diagnostics_for(dominant, proxy_enabled, origin_latency);
    let d = if dominant is Some { 1int } else { 0 };
    let q = if proxy_enabled { 1int } else { 0 };
    if dominant is Some {
        assert(ds[0].1 == "dominant_phase"@);
    }
    if proxy_enabled {
        assert(ds[d] == proxy_note());
    }
    if origin_latency {
        assert(ds[d + q] == origin_note());
    }
    assert("dominant_phase"@[0] != "origin_latency"@[0]);
    assert("dominant_phase"@.len() != "proxy_enabled"@.len());
    assert("origin_latency"@.len() != "proxy_enabled"@.len());
    assert forall|i: int| 0 <= i < ds.len() implies {
        &&& ((#[trigger] ds[i]).1 == "dominant_phase"@ ==> dominant is Some)
        &&& (ds[i].1 == "proxy_enabled"@ ==> proxy_enabled)
        &&& (ds[i].1 == "origin_latency"@ ==> origin_latency)
    } by {
        if i < d {
            assert(ds[i].1 == "dominant_phase"@);
        } else if i < d + q {
            assert(ds[i] == proxy_note());
        } else {
            assert(ds[i] == origin_note());
        }
    }
}

}
