//! SLO terms: the timing metrics, the `metric=value` syntax, and which
//! checks end up violated once duplicates are resolved.

use std::collections::BTreeMap;

use vstd::std_specs::btree::increasing_seq;

use vstd::prelude::*;

use crate::text::{
    ascii_lower, ascii_lower_char, chars_of, lemma_first_index_of_found, lemma_trim_all_white_space, lemma_trim_keeps_text, is_white_space, lemma_ascii_lower_fixed, lemma_first_index_of,
    lemma_trim_fixed, lemma_trim_not_empty, find_char, first_index_of, lower_range, push_range, spells, string_of,
    trim, trim_bounds,
};

verus! {

/// A timing phase that an SLO can bound, in reporting order.
#[derive(Debug, Clone, Copy, PartialEq, Eq, PartialOrd, Ord, Structural)]
pub enum MetricKey {
    Dns,
    Connect,
    Tls,
    Server,
    Transfer,
    Total,
}

/// Position of a metric in reporting order (the order of the variants).
pub open spec fn rank(k: MetricKey) -> nat {
    match k {
        MetricKey::Dns => 0,
        MetricKey::Connect => 1,
        MetricKey::Tls => 2,
        MetricKey::Server => 3,
        MetricKey::Transfer => 4,
        MetricKey::Total => 5,
    }
}

/// The metric at position `r` of reporting order.
pub open spec fn metric_at(r: nat) -> MetricKey {
    if r == 0 {
        MetricKey::Dns
    } else if r == 1 {
        MetricKey::Connect
    } else if r == 2 {
        MetricKey::Tls
    } else if r == 3 {
        MetricKey::Server
    } else if r == 4 {
        MetricKey::Transfer
    } else {
        MetricKey::Total
    }
}

/// The name of a metric in SLO terms and in reports.
pub open spec fn name_of(k: MetricKey) -> Seq<char> {
    match k {
        MetricKey::Dns => "dns"@,
        MetricKey::Connect => "connect"@,
        MetricKey::Tls => "tls"@,
        MetricKey::Server => "server"@,
        MetricKey::Transfer => "transfer"@,
        MetricKey::Total => "total"@,
    }
}

/// The human-readable label of a metric.
pub open spec fn label_of(k: MetricKey) -> Seq<char> {
    match k {
        MetricKey::Dns => "DNS Lookup"@,
        MetricKey::Connect => "TCP Connect"@,
        MetricKey::Tls => "TLS Handshake"@,
        MetricKey::Server => "Server Work"@,
        MetricKey::Transfer => "Content Transfer"@,
        MetricKey::Total => "Total"@,
    }
}

/// The metric whose name is `s`, if any.
pub open spec fn metric_named(s: Seq<char>) -> Option<MetricKey> {
    if s == "dns"@ {
        Some(MetricKey::Dns)
    } else if s == "connect"@ {
        Some(MetricKey::Connect)
    } else if s == "tls"@ {
        Some(MetricKey::Tls)
    } else if s == "server"@ {
        Some(MetricKey::Server)
    } else if s == "transfer"@ {
        Some(MetricKey::Transfer)
    } else if s == "total"@ {
        Some(MetricKey::Total)
    } else {
        None
    }
}

impl MetricKey {
    pub fn as_str(self) -> (r: &'static str)
        ensures
            r@ == name_of(self),
    {
        match self {
            MetricKey::Dns => "dns",
            MetricKey::Connect => "connect",
            MetricKey::Tls => "tls",
            MetricKey::Server => "server",
            MetricKey::Transfer => "transfer",
            MetricKey::Total => "total",
        }
    }

    pub fn label(self) -> (r: &'static str)
        ensures
            r@ == label_of(self),
    {
        match self {
            MetricKey::Dns => "DNS Lookup",
            MetricKey::Connect => "TCP Connect",
            MetricKey::Tls => "TLS Handshake",
            MetricKey::Server => "Server Work",
            MetricKey::Transfer => "Content Transfer",
            MetricKey::Total => "Total",
        }
    }
}


/// Finds the metric whose name `cs` spells.
pub fn metric_from_name(cs: &Vec<char>) -> (r: Option<MetricKey>)
    ensures
        r == metric_named(cs@),
{
    if spells(cs, "dns") {
        Some(MetricKey::Dns)
    } else if spells(cs, "connect") {
        Some(MetricKey::Connect)
    } else if spells(cs, "tls") {
        Some(MetricKey::Tls)
    } else if spells(cs, "server") {
        Some(MetricKey::Server)
    } else if spells(cs, "transfer") {
        Some(MetricKey::Transfer)
    } else if spells(cs, "total") {
        Some(MetricKey::Total)
    } else {
        None
    }
}

/// One `metric=value` term of an SLO option, its metric resolved and its
/// value kept as written (the threshold is the value without surrounding
/// white space).
pub struct SloTerm {
    pub metric: MetricKey,
    pub value: String,
}

impl View for SloTerm {
    type V = (MetricKey, Seq<char>);

    open spec fn view(&self) -> (MetricKey, Seq<char>) {
        (self.metric, self.value@)
    }
}

/// What a term reads as: nothing for a blank term, a metric and its value,
/// or the message that rejects it.
pub open spec fn slo_term_outcome(part: Seq<char>) -> Result<Option<(MetricKey, Seq<char>)>, Seq<char>> {
    if trim(part).len() == 0 {
        Ok(None)
    } else {
        match first_index_of(part, '=') {
            None => Err("invalid SLO '"@ + part + "', expected metric=value"@),
            Some(i) => {
                let name = part.take(i);
                let value = part.skip(i + 1);
                match metric_named(ascii_lower(trim(name))) {
                    None => Err("unsupported SLO metric '"@ + name + "'"@),
                    Some(m) => Ok(Some((m, value))),
                }
            },
        }
    }
}

/// A term reading as text.
pub open spec fn term_result_view(r: Result<Option<SloTerm>, String>) -> Result<Option<(MetricKey, Seq<char>)>, Seq<char>> {
    match r {
        Ok(None) => Ok(None),
        Ok(Some(t)) => Ok(Some(t@)),
        Err(e) => Err(e@),
    }
}

/// Reads one comma-separated part of the SLO option.
pub fn parse_slo_term(part: &str) -> (r: Result<Option<SloTerm>, String>)
    ensures
        term_result_view(r) == slo_term_outcome(part@),
{
    let cs = chars_of(part);
    let n = cs.len();
    assert(cs@.subrange(0, n as int) == cs@);
    let (a, b) = trim_bounds(&cs, 0, n);
    if a == b {
        return Ok(None);
    }
    match find_char(&cs, '=') {
        None => {
            let mut e = String::new();
            e.append("invalid SLO '");
            e.append(part);
            e.append("', expected metric=value");
            Err(e)
        },
        Some(i) => {
            let (na, nb) = trim_bounds(&cs, 0, i);
            let lowered = lower_range(&cs, na, nb);
            assert(cs@.subrange(0, i as int) == cs@.take(i as int));
            match metric_from_name(&lowered) {
                None => {
                    let mut e = String::new();
                    e.append("unsupported SLO metric '");
                    push_range(&mut e, &cs, 0, i);
                    e.append("'");
                    Err(e)
                },
                Some(metric) => {
                    let value = string_of(&cs, i + 1, n);
                    assert(cs@.subrange(i + 1, n as int) == cs@.skip(i + 1));
                    Ok(Some(SloTerm { metric, value }))
                },
            }
        },
    }
}

impl SloTerm {
    /// The threshold text: the value without surrounding white space.
    pub fn threshold_text(&self) -> (r: String)
        ensures
            r@ == trim(self.value@),
    {
        let cs = chars_of(self.value.as_str());
        let n = cs.len();
        assert(cs@.subrange(0, n as int) == cs@);
        let (a, b) = trim_bounds(&cs, 0, n);
        string_of(&cs, a, b)
    }

    /// The message for a threshold that is not a number.
    pub fn threshold_error(&self) -> (r: String)
        ensures
            r@ == "invalid SLO threshold '"@ + self.value@ + "'"@,
    {
        let mut e = String::new();
        e.append("invalid SLO threshold '");
        e.append(self.value.as_str());
        e.append("'");
        e
    }
}


/// The metric at position `r` of reporting order.
pub fn metric_by_rank(r: usize) -> (k: MetricKey)
    requires
        r < 6,
    ensures
        k == metric_at(r as nat),
        rank(k) == r,
{
    if r == 0 {
        MetricKey::Dns
    } else if r == 1 {
        MetricKey::Connect
    } else if r == 2 {
        MetricKey::Tls
    } else if r == 3 {
        MetricKey::Server
    } else if r == 4 {
        MetricKey::Transfer
    } else {
        MetricKey::Total
    }
}

/// Index of the last check on metric `k`: a later check on the same metric
/// replaces an earlier one.
pub open spec fn last_check_for(checks: Seq<(MetricKey, bool)>, k: MetricKey) -> Option<int>
    decreases checks.len(),
{
    if checks.len() == 0 {
        None
    } else if checks.last().0 == k {
        Some(checks.len() - 1)
    } else {
        last_check_for(checks.drop_last(), k)
    }
}

/// The violated checks among the first `n` metrics of reporting order:
/// for each metric, its last check, when that check was exceeded.
pub open spec fn violations_through(checks: Seq<(MetricKey, bool)>, n: nat) -> Seq<int>
    decreases n,
{
    if n == 0 {
        Seq::empty()
    } else {
        let prev = violations_through(checks, (n - 1) as nat);
        match last_check_for(checks, metric_at((n - 1) as nat)) {
            Some(j) => if checks[j].1 {
                prev.push(j)
            } else {
                prev
            },
            None => prev,
        }
    }
}

/// The violated checks, in reporting order of their metrics.
pub open spec fn violations_of(checks: Seq<(MetricKey, bool)>) -> Seq<int> {
    violations_through(checks, 6)
}

/// Whether check `j` is the last one on its metric.
pub open spec fn is_last_on_metric(checks: Seq<(MetricKey, bool)>, j: int) -> bool {
    forall|t: int| j < t < checks.len() ==> checks[t].0 != checks[j].0
}

proof fn lemma_last_check_for(checks: Seq<(MetricKey, bool)>, k: MetricKey)
    ensures
        match last_check_for(checks, k) {
            Some(j) => 0 <= j < checks.len() && checks[j].0 == k && is_last_on_metric(checks, j),
            None => forall|t: int| 0 <= t < checks.len() ==> checks[t].0 != k,
        },
    decreases checks.len(),
{
    if checks.len() > 0 && checks.last().0 != k {
        lemma_last_check_for(checks.drop_last(), k);
        match last_check_for(checks.drop_last(), k) {
            Some(j) => {
                assert forall|t: int| j < t < checks.len() implies checks[t].0 != checks[j].0 by {
                    if t < checks.len() - 1 {
                        assert(checks.drop_last()[t] == checks[t]);
                    }
                }
            },
            None => {
                assert forall|t: int| 0 <= t < checks.len() implies checks[t].0 != k by {
                    if t < checks.len() - 1 {
                        assert(checks.drop_last()[t] == checks[t]);
                    }
                }
            },
        }
    }
}

/// Keys that a `BTreeMap` yields in increasing order are strictly increasing numbers.
proof fn lemma_keys_increase(keys: Seq<u64>)
    requires
        increasing_seq(keys),
    ensures
        forall|i: int, j: int| 0 <= i < j < keys.len() ==> keys[i] < keys[j],
{
    broadcast use vstd::std_specs::btree::group_btree_axioms, vstd::laws_cmp::group_laws_cmp;

    assert forall|i: int, j: int| 0 <= i < j < keys.len() implies keys[i] < keys[j] by {
        assert(vstd::std_specs::cmp::OrdSpec::cmp_spec(&keys[i], &keys[j]) is Less);
    }
}

/// `u64` keys follow the order that `BTreeMap` relies on.
proof fn lemma_table_keys_ordered()
    ensures
        vstd::laws_cmp::obeys_cmp::<u64>(),
{
    broadcast use vstd::laws_cmp::group_laws_cmp;

}

/// The rank of a metric, as a table key.
fn rank_key(k: MetricKey) -> (r: u64)
    ensures
        r == rank(k),
{
    match k {
        MetricKey::Dns => 0,
        MetricKey::Connect => 1,
        MetricKey::Tls => 2,
        MetricKey::Server => 3,
        MetricKey::Transfer => 4,
        MetricKey::Total => 5,
    }
}

/// The table keyed by rank holds, for the metric of rank `r`, the index of
/// its last check among `checks` and whether that check was exceeded, or no
/// entry when there is no check on it.
pub open spec fn table_holds_last(table: Map<u64, (usize, bool)>, checks: Seq<(MetricKey, bool)>, r: nat) -> bool {
    match last_check_for(checks, metric_at(r)) {
        Some(j) => table.contains_key(r as u64) && table[r as u64] == (j as usize, checks[j].1),
        None => !table.contains_key(r as u64),
    }
}

/// The entries of `table` for ranks below `n`, in rank order: the index of
/// each check that was exceeded.
pub open spec fn table_picks(table: Map<u64, (usize, bool)>, n: nat) -> Seq<int>
    decreases n,
{
    if n == 0 {
        Seq::empty()
    } else {
        let prev = table_picks(table, (n - 1) as nat);
        let key = (n - 1) as u64;
        if table.contains_key(key) && table[key].1 {
            prev.push(table[key].0 as int)
        } else {
            prev
        }
    }
}

proof fn lemma_table_picks_skip(table: Map<u64, (usize, bool)>, b: nat, n: nat)
    requires
        b <= n,
        n < 0x1_0000_0000_0000_0000,
        forall|k: u64| table.contains_key(k) && b <= k < n ==> false,
    ensures
        table_picks(table, n) == table_picks(table, b),
    decreases n,
{
    if n > b {
        assert(!table.contains_key((n - 1) as u64));
        lemma_table_picks_skip(table, b, (n - 1) as nat);
    }
}

proof fn lemma_table_picks_violations(table: Map<u64, (usize, bool)>, checks: Seq<(MetricKey, bool)>, n: nat)
    requires
        n <= 6,
        checks.len() <= usize::MAX,
        forall|r: nat| r < 6 ==> #[trigger] table_holds_last(table, checks, r),
    ensures
        table_picks(table, n) == violations_through(checks, n),
    decreases n,
{
    if n > 0 {
        let m = (n - 1) as nat;
        lemma_table_picks_violations(table, checks, m);
        assert(table_holds_last(table, checks, m));
        assert((n - 1) as u64 == m as u64);
        lemma_last_check_for(checks, metric_at(m));
    }
}

/// Which checks are violated, given for each check its metric and whether
/// the measured time exceeded its threshold. The checks go into a
/// `BTreeMap` keyed by metric rank, so a later check on a metric replaces
/// earlier ones; the map is then walked in key order. The result
/// lists at most one check per metric, in reporting order.
pub fn violated_checks(checks: &Vec<(MetricKey, bool)>) -> (r: Vec<usize>)
    ensures
        r@.map_values(|j: usize| j as int) == violations_of(checks@),
{
    broadcast use vstd::std_specs::btree::group_btree_axioms;

    proof {
        lemma_table_keys_ordered();
    }
    // Keyed by the metric's rank: the last check on it and whether it was exceeded.
    let mut by_metric: BTreeMap<u64, (usize, bool)> = BTreeMap::new();
    let mut i: usize = 0;
    while i < checks.len()
        invariant
            i <= checks@.len(),
            forall|k: u64| #[trigger] by_metric@.contains_key(k) ==> k < 6,
            forall|r: nat| r < 6 ==> #[trigger] table_holds_last(by_metric@, checks@.take(i as int), r),
        decreases checks@.len() - i,
    {
        let (metric, exceeded) = checks[i];
        let ghost before = by_metric@;
        by_metric.insert(rank_key(metric), (i, exceeded));
        proof {
            let seen = checks@.take(i + 1);
            assert(seen.drop_last() == checks@.take(i as int));
            assert(seen.last() == (metric, exceeded));
            assert(by_metric@ == before.insert(rank(metric) as u64, (i, exceeded)));
            lemma_rank_metric_at(metric);
            assert forall|r: nat| r < 6 implies #[trigger] table_holds_last(by_metric@, seen, r) by {
                assert(table_holds_last(before, checks@.take(i as int), r));
                if r == rank(metric) {
                    assert(last_check_for(seen, metric_at(r)) == Some(i as int));
                } else {
                    assert(rank(metric_at(r)) == r);
                    assert(last_check_for(seen, metric_at(r)) == last_check_for(checks@.take(i as int), metric_at(r)));
                    lemma_last_check_for(checks@.take(i as int), metric_at(r));
                    match last_check_for(checks@.take(i as int), metric_at(r)) {
                        Some(j) => {
                            assert(seen[j] == checks@.take(i as int)[j]);
                        },
                        None => {},
                    }
                }
            }
        }
        i = i + 1;
    }
    assert(checks@.take(checks@.len() as int) == checks@);
    let ghost table = by_metric@;
    let ghost mut bound: nat = 0;
    let mut r: Vec<usize> = Vec::new();
    for item in it: by_metric.iter()
        invariant
            table == by_metric@,
            forall|k: u64| #[trigger] table.contains_key(k) ==> k < 6,
            increasing_seq(it.seq().map_values(|kv: (&u64, &(usize, bool))| *kv.0)),
            forall|i: int|
                0 <= i < it.seq().len() ==> table.contains_key(*(#[trigger] it.seq()[i]).0)
                    && table[*it.seq()[i].0] == *it.seq()[i].1,
            forall|k: u64|
                #[trigger] table.contains_key(k) ==> exists|i: int|
                    0 <= i < it.seq().len() && *(#[trigger] it.seq()[i]).0 == k,
            bound <= 6,
            forall|i: int| 0 <= i < it.index() ==> *(#[trigger] it.seq()[i]).0 < bound,
            forall|i: int| it.index() <= i < it.seq().len() ==> *(#[trigger] it.seq()[i]).0 >= bound,
            forall|k: u64| #[trigger] table.contains_key(k) && k >= bound ==> exists|i: int|
                it.index() <= i < it.seq().len() && *(#[trigger] it.seq()[i]).0 == k,
            r@.map_values(|j: usize| j as int) == table_picks(table, bound),
    {
        let (key, entry) = item;
        let ghost idx = it.index();
        let ghost old_bound = bound;
        proof {
            let keys = it.seq().map_values(|kv: (&u64, &(usize, bool))| *kv.0);
            lemma_keys_increase(keys);
            assert(item == it.seq()[idx]);
            assert forall|i: int, j: int| 0 <= i < j < it.seq().len() implies *it.seq()[i].0 < *it.seq()[j].0 by {
                assert(keys[i] == *it.seq()[i].0 && keys[j] == *it.seq()[j].0);
            }
            assert(*key >= old_bound);
            assert forall|k: u64| table.contains_key(k) && old_bound <= k < *key implies false by {
                let i = choose|i: int| idx <= i < it.seq().len() && *it.seq()[i].0 == k;
            }
            lemma_table_picks_skip(table, old_bound, *key as nat);
            bound = (*key + 1) as nat;
        }
        if entry.1 {
            r.push(entry.0);
        }
        proof {
            assert(r@.map_values(|j: usize| j as int) == table_picks(table, bound));
        }
    }
    proof {
        assert forall|k: u64| table.contains_key(k) implies k < bound by {}
        lemma_table_picks_skip(table, bound, 6);
        lemma_table_picks_violations(table, checks@, 6);
    }
    r
}


proof fn lemma_rank_metric_at(k: MetricKey)
    ensures
        rank(k) < 6,
        metric_at(rank(k)) == k,
{
}

proof fn lemma_violations_through(checks: Seq<(MetricKey, bool)>, n: nat)
    requires
        n <= 6,
    ensures
        forall|i: int, j: int|
            0 <= i < j < violations_through(checks, n).len() ==> rank(
                checks[violations_through(checks, n)[i]].0,
            ) < rank(checks[violations_through(checks, n)[j]].0),
        forall|i: int|
            0 <= i < violations_through(checks, n).len() ==> {
                let j = #[trigger] violations_through(checks, n)[i];
                &&& 0 <= j < checks.len()
                &&& checks[j].1
                &&& is_last_on_metric(checks, j)
                &&& rank(checks[j].0) < n
            },
        forall|j: int|
            0 <= j < checks.len() && checks[j].1 && is_last_on_metric(checks, j) && rank(
                checks[j].0,
            ) < n ==> violations_through(checks, n).contains(j),
    decreases n,
{
    if n > 0 {
        let m = (n - 1) as nat;
        lemma_violations_through(checks, m);
        let prev = violations_through(checks, m);
        let key = metric_at(m);
        assert(rank(key) == m);
        lemma_last_check_for(checks, key);
        let v = violations_through(checks, n);
        assert forall|j: int|
            0 <= j < checks.len() && checks[j].1 && is_last_on_metric(checks, j) && rank(
                checks[j].0,
            ) < n implies v.contains(j) by {
            if rank(checks[j].0) < m {
                let i = choose|i: int| 0 <= i < prev.len() && prev[i] == j;
                assert(v[i] == j);
            } else {
                lemma_rank_metric_at(checks[j].0);
                assert(checks[j].0 == key);
                match last_check_for(checks, key) {
                    Some(l) => {
                        if l < j {
                            assert(checks[j].0 != checks[l].0);
                        } else if j < l {
                            assert(checks[l].0 != checks[j].0);
                        }
                        assert(v[v.len() - 1] == j);
                    },
                    None => {
                        assert(checks[j].0 != key);
                    },
                }
            }
        }
    }
}

/// The violated checks list each metric at most once, in reporting order;
/// each listed check was exceeded and is the last check on its metric; and
/// every exceeded check that is the last on its metric is listed.
pub proof fn law_violations_resolved(checks: Seq<(MetricKey, bool)>)
    ensures
        forall|i: int, j: int|
            0 <= i < j < violations_of(checks).len() ==> rank(checks[violations_of(checks)[i]].0)
                < rank(checks[violations_of(checks)[j]].0),
        forall|i: int|
            0 <= i < violations_of(checks).len() ==> {
                let j = #[trigger] violations_of(checks)[i];
                &&& 0 <= j < checks.len()
                &&& checks[j].1
                &&& is_last_on_metric(checks, j)
            },
        forall|j: int|
            0 <= j < checks.len() && checks[j].1 && is_last_on_metric(checks, j)
                ==> #[trigger] violations_of(checks).contains(j),
{
    lemma_violations_through(checks, 6);
    assert forall|j: int|
        0 <= j < checks.len() && checks[j].1 && is_last_on_metric(checks, j)
            implies #[trigger] violations_of(checks).contains(j) by {
        lemma_rank_metric_at(checks[j].0);
    }
}


proof fn lemma_names(k: MetricKey)
    ensures
        name_of(k).len() > 0,
        !is_white_space(name_of(k)[0]),
        !is_white_space(name_of(k).last()),
        forall|i: int| 0 <= i < name_of(k).len() ==> 'a' <= #[trigger] name_of(k)[i] && name_of(k)[i] <= 'z',
        metric_named(name_of(k)) == Some(k),
{
    reveal_strlit("dns");
    reveal_strlit("connect");
    reveal_strlit("tls");
    reveal_strlit("server");
    reveal_strlit("transfer");
    reveal_strlit("total");
    assert("dns"@[0] != "tls"@[0]);
    assert("connect"@.len() == 7 && "server"@.len() == 6 && "transfer"@.len() == 8);
    assert("dns"@.len() == 3 && "tls"@.len() == 3 && "total"@.len() == 5);
}

/// A term made of a metric's own name, `=` and any value reads back as that
/// metric with that value: `as_str` and the term syntax agree.
pub proof fn law_metric_term_roundtrip(k: MetricKey, value: Seq<char>)
    ensures
        slo_term_outcome(name_of(k) + "="@ + value) == Ok::<Option<(MetricKey, Seq<char>)>, Seq<char>>(Some((k, value))),
{
    reveal_strlit("=");
    lemma_names(k);
    let name = name_of(k);
    let part = name + "="@ + value;
    assert(part[0] == name[0]);
    lemma_trim_not_empty(part);
    assert forall|j: int| 0 <= j < name.len() implies part[j] != '=' by {
        assert(part[j] == name[j]);
    }
    assert(part[name.len() as int] == '=');
    lemma_first_index_of(part, '=', name.len() as int);
    assert(part.take(name.len() as int) == name);
    assert(part.skip(name.len() as int + 1) == value);
    lemma_trim_fixed(name);
    lemma_ascii_lower_fixed(name);
}


/// Metric names are read without regard to ASCII case: a term made of any
/// upper/lower-case spelling of a metric's name, `=` and any value reads as
/// that metric with that value.
pub proof fn law_metric_names_ignore_case(k: MetricKey, name: Seq<char>, value: Seq<char>)
    requires
        ascii_lower(name) == name_of(k),
    ensures
        slo_term_outcome(name + "="@ + value) == Ok::<Option<(MetricKey, Seq<char>)>, Seq<char>>(Some((k, value))),
{
    reveal_strlit("=");
    lemma_names(k);
    let lowered = name_of(k);
    assert(name.len() == lowered.len());
    assert forall|i: int| 0 <= i < name.len() implies ('a' <= #[trigger] name[i] && name[i] <= 'z')
        || ('A' <= name[i] && name[i] <= 'Z') by {
        assert(ascii_lower(name)[i] == ascii_lower_char(name[i]));
        assert('a' <= lowered[i] && lowered[i] <= 'z');
    }
    let part = name + "="@ + value;
    assert(part[0] == name[0]);
    lemma_trim_not_empty(part);
    assert forall|j: int| 0 <= j < name.len() implies part[j] != '=' by {
        assert(part[j] == name[j]);
    }
    assert(part[name.len() as int] == '=');
    lemma_first_index_of(part, '=', name.len() as int);
    assert(part.take(name.len() as int) == name);
    assert(part.skip(name.len() as int + 1) == value);
    assert(name.last() == name[name.len() - 1]);
    lemma_trim_fixed(name);
}


/// How a term reads, over all terms: a term of white space only is skipped;
/// a term with other text but no `=` is rejected as malformed; a term that
/// reads as a metric and a value has its value exactly the text after its
/// first `=`, and its metric is the one named, case aside and trimmed, by
/// the text before that `=`; a name that is no metric's is rejected with the
/// name as written.
pub proof fn law_how_a_term_reads(part: Seq<char>)
    ensures
        (forall|i: int| 0 <= i < part.len() ==> is_white_space(#[trigger] part[i]))
            ==> slo_term_outcome(part) == Ok::<Option<(MetricKey, Seq<char>)>, Seq<char>>(None),
        (exists|i: int| 0 <= i < part.len() && !is_white_space(#[trigger] part[i])) && (forall|i: int|
            0 <= i < part.len() ==> #[trigger] part[i] != '=') ==> slo_term_outcome(part)
            == Err::<Option<(MetricKey, Seq<char>)>, Seq<char>>(
            "invalid SLO '"@ + part + "', expected metric=value"@,
        ),
        forall|k: MetricKey, v: Seq<char>|
            slo_term_outcome(part) == Ok::<Option<(MetricKey, Seq<char>)>, Seq<char>>(Some((k, v)))
                ==> exists|i: int|
                0 <= i < part.len() && part[i] == '=' && (forall|j: int| 0 <= j < i ==> part[j] != '=')
                    && v == part.skip(i + 1) && #[trigger] metric_named(ascii_lower(trim(part.take(i))))
                    == Some(k),
        forall|i: int|
            0 <= i < part.len() && part[i] == '=' && (forall|j: int| 0 <= j < i ==> part[j] != '=')
                && #[trigger] metric_named(ascii_lower(trim(part.take(i)))) is None && trim(part).len() > 0
                ==> slo_term_outcome(part) == Err::<Option<(MetricKey, Seq<char>)>, Seq<char>>(
                "unsupported SLO metric '"@ + part.take(i) + "'"@,
            ),
{
    lemma_first_index_of_found(part, '=');
    if forall|i: int| 0 <= i < part.len() ==> is_white_space(#[trigger] part[i]) {
        lemma_trim_all_white_space(part);
    }
    assert forall|i: int|
        0 <= i < part.len() && part[i] == '=' && (forall|j: int| 0 <= j < i ==> part[j] != '=')
            implies first_index_of(part, '=') == Some(i) by {
        lemma_first_index_of(part, '=', i);
    }
    if (exists|i: int| 0 <= i < part.len() && !is_white_space(#[trigger] part[i])) {
        let i = choose|i: int| 0 <= i < part.len() && !is_white_space(#[trigger] part[i]);
        lemma_trim_keeps_text(part, i);
    }
}

}
