//! The response head as the transfer reports it, line by line: the status
//! line of the final response and the header lines that follow it.

use vstd::prelude::*;
use vstd::utf8::{decode_utf8, valid_utf8};

use crate::model::str_option_view;
use crate::text::{chars_of, is_white_space, skip_white_space, spells, string_of, trim, trim_bounds, trim_start};

verus! {

/// What `String::from_utf8_lossy` makes of `bytes`.
pub uninterp spec fn lossy_utf8(bytes: Seq<u8>) -> Seq<char>;

/// Calls `String::from_utf8_lossy`, which decodes UTF-8 and puts U+FFFD in
/// place of invalid sequences. Trusted to return `lossy_utf8(bytes)`, and for
/// valid UTF-8 exactly the decoded characters; what it returns for invalid
/// input is left to the name.
#[verifier::external_body]
fn decode_lossy(bytes: &[u8]) -> (r: String)
    ensures
        r@ == lossy_utf8(bytes@),
        valid_utf8(bytes@) ==> r@ == decode_utf8(bytes@),
{
    String::from_utf8_lossy(bytes).into_owned()
}

/// Number of leading characters of `s` that are not white space.
pub open spec fn word_len(s: Seq<char>) -> nat
    decreases s.len(),
{
    if s.len() > 0 && !is_white_space(s[0]) {
        1 + word_len(s.drop_first())
    } else {
        0
    }
}

/// The HTTP version of a status line: its first white-space separated word,
/// or `HTTP/?` when there is no status line or it has no word.
pub open spec fn http_version_of(status_line: Option<Seq<char>>) -> Seq<char> {
    match status_line {
        None => "HTTP/?"@,
        Some(line) => {
            let rest = trim_start(line);
            if rest.len() == 0 {
                "HTTP/?"@
            } else {
                rest.take(word_len(rest) as int)
            }
        },
    }
}

pub fn parse_http_version(status_line: Option<&str>) -> (r: String)
    ensures
        r@ == http_version_of(str_option_view(status_line)),
{
    match status_line {
        None => "HTTP/?".to_owned(),
        Some(line) => {
            let cs = chars_of(line);
            let n = cs.len();
            assert(cs@.subrange(0, n as int) == cs@);
            let a = skip_white_space(&cs, 0, n);
            if a == n {
                return "HTTP/?".to_owned();
            }
            let mut b = a;
            while b < n && !crate::text::white_space(cs[b])
                invariant
                    a <= b <= n == cs@.len(),
                    word_len(cs@.subrange(a as int, n as int)) == (b - a) + word_len(cs@.subrange(b as int, n as int)),
                decreases n - b,
            {
                assert(cs@.subrange(b as int, n as int).drop_first() == cs@.subrange(b + 1, n as int));
                b = b + 1;
            }
            assert(cs@.subrange(a as int, n as int).take((b - a) as int) == cs@.subrange(a as int, b as int));
            string_of(&cs, a, b)
        },
    }
}

/// Whether a (trimmed) header line starts a response.
pub open spec fn is_status_line(line: Seq<char>) -> bool {
    line.len() >= 5 && line.take(5) == "HTTP/"@
}

/// The state after one more header line: a status line starts the head
/// afresh; another non-empty line is a header of the current head; empty
/// lines, and lines before any status line, are dropped. Lines are trimmed.
pub open spec fn after_line(
    state: (Option<Seq<char>>, Seq<Seq<char>>),
    line: Seq<char>,
) -> (Option<Seq<char>>, Seq<Seq<char>>) {
    let t = trim(line);
    if is_status_line(t) {
        (Some(t), Seq::empty())
    } else if t.len() > 0 && state.0 is Some {
        (state.0, state.1.push(t))
    } else {
        state
    }
}

/// The state after the lines `lines`, in order.
pub open spec fn after_lines(
    state: (Option<Seq<char>>, Seq<Seq<char>>),
    lines: Seq<Seq<char>>,
) -> (Option<Seq<char>>, Seq<Seq<char>>)
    decreases lines.len(),
{
    if lines.len() == 0 {
        state
    } else {
        after_lines(after_line(state, lines[0]), lines.drop_first())
    }
}

/// The status line and header lines of the response head seen last.
pub struct HeaderLog {
    pub status_line: Option<String>,
    pub headers: Vec<String>,
}

impl View for HeaderLog {
    type V = (Option<Seq<char>>, Seq<Seq<char>>);

    open spec fn view(&self) -> (Option<Seq<char>>, Seq<Seq<char>>) {
        (
            match self.status_line {
                Some(s) => Some(s@),
                None => None,
            },
            self.headers@.map_values(|h: String| h@),
        )
    }
}

/// Whether `cs[from..to]` starts with `HTTP/`.
fn starts_status(cs: &Vec<char>, from: usize, to: usize) -> (r: bool)
    requires
        from <= to <= cs@.len(),
    ensures
        r == is_status_line(cs@.subrange(from as int, to as int)),
{
    if to - from < 5 {
        return false;
    }
    let head: Vec<char> = vec![cs[from], cs[from + 1], cs[from + 2], cs[from + 3], cs[from + 4]];
    assert(head@ == cs@.subrange(from as int, to as int).take(5));
    spells(&head, "HTTP/")
}

impl HeaderLog {
    pub fn new() -> (r: Self)
        ensures
            r@ == (None::<Seq<char>>, Seq::<Seq<char>>::empty()),
    {
        let r = HeaderLog { status_line: None, headers: Vec::new() };
        assert(r@.1 == Seq::<Seq<char>>::empty());
        r
    }

    /// Takes in one header line as text.
    pub fn record_line(&mut self, line: &str)
        ensures
            final(self)@ == after_line(old(self)@, line@),
    {
        let cs = chars_of(line);
        let n = cs.len();
        assert(cs@.subrange(0, n as int) == cs@);
        let (a, b) = trim_bounds(&cs, 0, n);
        if starts_status(&cs, a, b) {
            self.status_line = Some(string_of(&cs, a, b));
            self.headers = Vec::new();
            assert(self@.1 == Seq::<Seq<char>>::empty());
        } else if a < b && self.status_line.is_some() {
            let ghost before = self.headers@;
            let t = string_of(&cs, a, b);
            self.headers.push(t);
            assert(self.headers@.map_values(|h: String| h@) == before.map_values(|h: String| h@).push(cs@.subrange(a as int, b as int)));
        }
    }

    /// Takes in one header line as the transfer delivers it, as bytes.
    pub fn record(&mut self, raw: &[u8])
        ensures
            final(self)@ == after_line(old(self)@, lossy_utf8(raw@)),
    {
        let line = decode_lossy(raw);
        self.record_line(line.as_str());
    }

    /// The status line, or `HTTP/? 0` when no response head was seen.
    pub fn status_line_or_default(&self) -> (r: String)
        ensures
            r@ == (match self@.0 {
                Some(s) => s,
                None => "HTTP/? 0"@,
            }),
    {
        match &self.status_line {
            Some(s) => s.clone(),
            None => "HTTP/? 0".to_owned(),
        }
    }

    /// The HTTP version named by the status line.
    pub fn http_version(&self) -> (r: String)
        ensures
            r@ == http_version_of(self@.0),
    {
        match &self.status_line {
            Some(s) => parse_http_version(Some(s.as_str())),
            None => parse_http_version(None),
        }
    }
}


proof fn lemma_after_lines_split(
    state: (Option<Seq<char>>, Seq<Seq<char>>),
    a: Seq<Seq<char>>,
    b: Seq<Seq<char>>,
)
    ensures
        after_lines(state, a + b) == after_lines(after_lines(state, a), b),
    decreases a.len(),
{
    if a.len() > 0 {
        assert((a + b).drop_first() == a.drop_first() + b);
        assert((a + b)[0] == a[0]);
        lemma_after_lines_split(after_line(state, a[0]), a.drop_first(), b);
    } else {
        assert(a + b == b);
    }
}

/// Only the last response head counts: whatever lines came before the last
/// status line (earlier responses of a redirect chain, stray lines), the log
/// ends as if that status line had been the first line seen.
pub proof fn law_last_head_wins(
    state: (Option<Seq<char>>, Seq<Seq<char>>),
    before: Seq<Seq<char>>,
    status: Seq<char>,
    after: Seq<Seq<char>>,
)
    requires
        is_status_line(trim(status)),
    ensures
        after_lines(state, before.push(status) + after) == after_lines(
            (Some(trim(status)), Seq::empty()),
            after,
        ),
{
    lemma_after_lines_split(state, before.push(status), after);
    lemma_after_lines_split(state, before, seq![status]);
    assert(before + seq![status] == before.push(status));
    let mid = after_lines(state, before);
    assert(seq![status].drop_first() == Seq::<Seq<char>>::empty());
    assert(after_lines(mid, seq![status]) == after_lines(after_line(mid, status), Seq::<Seq<char>>::empty()));
}


/// Once a response head has started, every later line that is neither empty
/// (after trimming) nor a status line is kept as a header, trimmed, in
/// order, with no bound on their number: the header list grows by exactly
/// those lines and the status line stays.
pub proof fn law_every_header_line_is_kept(
    status: Seq<char>,
    headers: Seq<Seq<char>>,
    lines: Seq<Seq<char>>,
)
    requires
        forall|i: int|
            0 <= i < lines.len() ==> trim(#[trigger] lines[i]).len() > 0 && !is_status_line(
                trim(lines[i]),
            ),
    ensures
        after_lines((Some(status), headers), lines) == (
            Some(status),
            headers + lines.map_values(|l: Seq<char>| trim(l)),
        ),
        after_lines((Some(status), headers), lines).1.len() == headers.len() + lines.len(),
    decreases lines.len(),
{
    if lines.len() == 0 {
        assert(headers + lines.map_values(|l: Seq<char>| trim(l)) =~= headers);
    } else {
        let rest = lines.drop_first();
        assert forall|i: int| 0 <= i < rest.len() implies trim(#[trigger] rest[i]).len() > 0
            && !is_status_line(trim(rest[i])) by {
            assert(rest[i] == lines[i + 1]);
        }
        assert(trim(lines[0]).len() > 0 && !is_status_line(trim(lines[0])));
        let next = headers.push(trim(lines[0]));
        assert(after_line((Some(status), headers), lines[0]) == (Some(status), next));
        law_every_header_line_is_kept(status, next, rest);
        assert(next + rest.map_values(|l: Seq<char>| trim(l)) =~= headers + lines.map_values(
            |l: Seq<char>| trim(l),
        ));
    }
}


/// Before any status line nothing is kept: lines that are not status lines
/// leave a log without a response head unchanged, and so do blank lines in
/// any state.
pub proof fn law_lines_outside_a_head_are_dropped(
    state: (Option<Seq<char>>, Seq<Seq<char>>),
    lines: Seq<Seq<char>>,
)
    requires
        forall|i: int|
            0 <= i < lines.len() ==> !is_status_line(trim(#[trigger] lines[i])) && (state.0 is None
                || trim(lines[i]).len() == 0),
    ensures
        after_lines(state, lines) == state,
    decreases lines.len(),
{
    if lines.len() > 0 {
        let rest = lines.drop_first();
        assert forall|i: int| 0 <= i < rest.len() implies !is_status_line(trim(#[trigger] rest[i]))
            && (state.0 is None || trim(rest[i]).len() == 0) by {
            assert(rest[i] == lines[i + 1]);
        }
        assert(!is_status_line(trim(lines[0])) && (state.0 is None || trim(lines[0]).len() == 0));
        assert(after_line(state, lines[0]) == state);
        law_lines_outside_a_head_are_dropped(state, rest);
    }
}


proof fn lemma_word_len(r: Seq<char>)
    ensures
        word_len(r) <= r.len(),
        forall|j: int| 0 <= j < word_len(r) ==> !is_white_space(#[trigger] r[j]),
        word_len(r) < r.len() ==> is_white_space(r[word_len(r) as int]),
    decreases r.len(),
{
    if r.len() > 0 && !is_white_space(r[0]) {
        lemma_word_len(r.drop_first());
        assert forall|j: int| 0 <= j < word_len(r) implies !is_white_space(#[trigger] r[j]) by {
            if j > 0 {
                assert(r[j] == r.drop_first()[j - 1]);
            }
        }
        if word_len(r) < r.len() {
            assert(r[word_len(r) as int] == r.drop_first()[word_len(r) - 1]);
        }
    }
}

/// The HTTP version is the status line's first word: `HTTP/?` when the
/// line is only white space; otherwise a non-empty run of characters other
/// than white space that follows the leading white space of the line and
/// ends at the line's end or at white space.
pub proof fn law_http_version_is_first_word(line: Seq<char>)
    ensures
        http_version_of(None) == "HTTP/?"@,
        (forall|i: int| 0 <= i < line.len() ==> is_white_space(#[trigger] line[i]))
            ==> http_version_of(Some(line)) == "HTTP/?"@,
        (exists|i: int| 0 <= i < line.len() && !is_white_space(#[trigger] line[i])) ==> ({
            let v = http_version_of(Some(line));
            &&& v.len() > 0
            &&& forall|j: int| 0 <= j < v.len() ==> !is_white_space(#[trigger] v[j])
            &&& exists|a: int|
                0 <= a && a + v.len() <= line.len() && (forall|j: int| 0 <= j < a ==> is_white_space(
                    #[trigger] line[j],
                )) && #[trigger] line.subrange(a, a + v.len()) == v && (a + v.len() == line.len()
                    || is_white_space(line[a + v.len()]))
        }),
{
    let a = crate::text::lemma_trim_start_skips(line);
    let rest = trim_start(line);
    lemma_word_len(rest);
    if exists|i: int| 0 <= i < line.len() && !is_white_space(#[trigger] line[i]) {
        let i = choose|i: int| 0 <= i < line.len() && !is_white_space(#[trigger] line[i]);
        assert(a <= i);
        assert(rest.len() > 0);
        assert(!is_white_space(rest[0]));
        let v = http_version_of(Some(line));
        let w = word_len(rest) as int;
        assert(v == rest.take(w));
        assert(line.subrange(a, a + w) == v);
        if a + w < line.len() {
            assert(line[a + w] == rest[w]);
        }
    } else {
        if a < line.len() {
            assert(!is_white_space(line[a]));
        }
    }
}

}
