//! Metrics that another process computes.
//!
//! The process announces itself with one line. Each request is a header line and
//! the two images; each answer is one line with a score or an error.

use crate::text::{
    chars_of, contains, copy, decimal, find, found, is_digit, is_white, law_found_is_first,
    law_trimmed_start, lemma_views_push, occurs, occurs_at, show, show_usize, substring, trim,
    trim_start, trimmed, trimmed_start, views,
};
use vstd::prelude::*;

verus! {

// ── The command line ───────────────────────────────────────────────────

/// White space of the ASCII set.
pub open spec fn ascii_white(c: char) -> bool {
    c == ' ' || c == '\t' || c == '\n' || c == '\x0C' || c == '\r'
}

/// A command line half read: its finished words, the word being read, and whether
/// a quote is open.
pub struct CommandState {
    pub done: Seq<Seq<char>>,
    pub word: Seq<char>,
    pub open_quote: bool,
}

/// The finished words, with the word being read unless it is empty.
pub open spec fn flushed(done: Seq<Seq<char>>, word: Seq<char>) -> Seq<Seq<char>> {
    if word.len() > 0 {
        done.push(word)
    } else {
        done
    }
}

/// The state after one more character. A quote opens or closes; white space outside
/// quotes ends a word.
pub open spec fn command_step(st: CommandState, c: char) -> CommandState {
    if c == '"' {
        CommandState { open_quote: !st.open_quote, ..st }
    } else if ascii_white(c) && !st.open_quote {
        CommandState {
            done: flushed(st.done, st.word),
            word: Seq::<char>::empty(),
            open_quote: false,
        }
    } else {
        CommandState { word: st.word.push(c), ..st }
    }
}

/// The state after a text.
pub open spec fn command_state(s: Seq<char>) -> CommandState
    decreases s.len(),
{
    if s.len() == 0 {
        CommandState {
            done: Seq::<Seq<char>>::empty(),
            word: Seq::<char>::empty(),
            open_quote: false,
        }
    } else {
        command_step(command_state(s.drop_last()), s.last())
    }
}

/// The words of a command line.
pub open spec fn command_words(s: Seq<char>) -> Seq<Seq<char>> {
    flushed(command_state(s).done, command_state(s).word)
}

/// The words of a command line. They end at white space of the ASCII set, which
/// stands for itself between double quotes.
pub fn split_command(s: &str) -> (r: Vec<String>)
    ensures
        views(r@) == command_words(s@),
{
    let a = chars_of(s);
    let mut out: Vec<String> = Vec::new();
    let mut cur: String = String::new();
    let mut in_quote: bool = false;
    let mut i: usize = 0;
    assert(views(out@) =~= Seq::<Seq<char>>::empty());
    assert(cur@ =~= Seq::<char>::empty());
    assert(s@.take(0) =~= Seq::<char>::empty());
    while i < a.len()
        invariant
            i <= a.len(),
            a@ == s@,
            views(out@) == command_state(s@.take(i as int)).done,
            cur@ == command_state(s@.take(i as int)).word,
            in_quote == command_state(s@.take(i as int)).open_quote,
        decreases a.len() - i,
    {
        assert(s@.take(i + 1).drop_last() =~= s@.take(i as int));
        let c = a[i];
        if c == '"' {
            in_quote = !in_quote;
        } else if (c == ' ' || c == '\t' || c == '\n' || c == '\x0C' || c == '\r') && !in_quote {
            if !cur.as_str().is_empty() {
                proof {
                    lemma_views_push(out@, cur);
                }
                out.push(cur);
                cur = String::new();
            }
            assert(cur@ =~= Seq::<char>::empty());
        } else {
            cur.push(c);
        }
        i += 1;
    }
    assert(s@.take(i as int) =~= s@);
    if !cur.as_str().is_empty() {
        proof {
            lemma_views_push(out@, cur);
        }
        out.push(cur);
    }
    out
}

proof fn lemma_words_nonempty(s: Seq<char>)
    ensures
        forall|i: int|
            0 <= i < command_state(s).done.len() ==> (#[trigger] command_state(s).done[i]).len()
                > 0,
    decreases s.len(),
{
    if s.len() > 0 {
        let before = command_state(s.drop_last());
        lemma_words_nonempty(s.drop_last());
        assert forall|i: int| 0 <= i < command_state(s).done.len() implies (
        #[trigger] command_state(s).done[i]).len() > 0 by {
            if i < before.done.len() {
                assert(command_state(s).done[i] == before.done[i]);
            }
        }
    }
}

/// No word of a command line is empty.
pub proof fn law_command_words_nonempty(s: Seq<char>, i: int)
    requires
        0 <= i < command_words(s).len(),
    ensures
        command_words(s)[i].len() > 0,
{
    lemma_words_nonempty(s);
}

proof fn lemma_quoted_run(s: Seq<char>, w: Seq<char>)
    requires
        command_state(s).open_quote,
        !w.contains('"'),
    ensures
        command_state(s + w).done == command_state(s).done,
        command_state(s + w).word == command_state(s).word + w,
        command_state(s + w).open_quote,
    decreases w.len(),
{
    if w.len() == 0 {
        assert(s + w =~= s);
        assert(command_state(s).word + w =~= command_state(s).word);
    } else {
        let v = w.drop_last();
        assert((s + w).drop_last() =~= s + v);
        assert((s + w).last() == w.last());
        assert(w.contains(w.last()));
        assert(!v.contains('"')) by {
            if v.contains('"') {
                let k = choose|k: int| 0 <= k < v.len() && v[k] == '"';
                assert(w[k] == '"');
            }
        }
        lemma_quoted_run(s, v);
        assert((command_state(s).word + v).push(w.last()) =~= command_state(s).word + w);
    }
}

/// What stands between double quotes is one word, kept as it is, white space and
/// all.
pub proof fn law_quoted_argument_verbatim(s: Seq<char>, w: Seq<char>)
    requires
        !command_state(s).open_quote,
        w.len() > 0,
        !w.contains('"'),
    ensures
        command_words(s + seq![' ', '"'] + w + seq!['"']) == command_words(s).push(w),
{
    let a = s + seq![' '];
    assert(a.drop_last() =~= s);
    assert(command_state(a) == command_step(command_state(s), ' '));
    let b = s + seq![' ', '"'];
    assert(b.drop_last() =~= a);
    assert(b.last() == '"');
    assert(command_state(b) == command_step(command_state(a), '"'));
    lemma_quoted_run(b, w);
    assert(Seq::<char>::empty() + w =~= w);
    let all = s + seq![' ', '"'] + w + seq!['"'];
    assert(all.drop_last() =~= b + w);
    assert(command_state(all) == command_step(command_state(b + w), '"'));
}

/// The message for a command that is not set.
pub open spec fn unset_text(var: Seq<char>) -> Seq<char> {
    var
        + " env var not set — must point to the metric server launch command (e.g. `/opt/venvs/<metric>/bin/python /opt/python/metric_server.py <metric>`)"@
}

/// The command that starts a server, from the variable that holds it.
pub fn server_command(var: &str, value: Option<&str>) -> (r: Result<Vec<String>, String>)
    ensures
        match value {
            None => r matches Err(e) && e@ == unset_text(var@),
            Some(v) => match r {
                Ok(w) => views(w@) == command_words(v@) && w@.len() > 0,
                Err(e) => command_words(v@).len() == 0 && e@ == "empty external metric command"@,
            },
        },
{
    match value {
        None => {
            let mut e: String = copy(var);
            e.append(
                " env var not set — must point to the metric server launch command (e.g. `/opt/venvs/<metric>/bin/python /opt/python/metric_server.py <metric>`)",
            );
            Err(e)
        },
        Some(v) => {
            let w = split_command(v);
            assert(views(w@).len() == w@.len());
            if w.len() == 0 {
                Err(copy("empty external metric command"))
            } else {
                Ok(w)
            }
        },
    }
}

/// Has the server announced itself? `None` is the end of its output.
pub fn check_ready(line: Option<&str>) -> (r: Result<(), String>)
    ensures
        match line {
            None => r matches Err(e) && e@
                == "external metric server closed stdout before announcing ready"@,
            Some(l) => match r {
                Ok(_) => occurs(l@, "\"ready\""@),
                Err(e) => !occurs(l@, "\"ready\""@) && e@
                    == "external metric server did not announce ready (got: "@ + trimmed(l@)
                    + ")"@,
            },
        },
{
    match line {
        None => Err(copy("external metric server closed stdout before announcing ready")),
        Some(l) => {
            if contains(l, "\"ready\"") {
                return Ok(());
            }
            let mut e: String = copy("external metric server did not announce ready (got: ");
            let t = trim(l);
            e.append(t.as_str());
            e.append(")");
            Err(e)
        },
    }
}

// ── A request ──────────────────────────────────────────────────────────

/// The size of an image and how many bytes it has.
#[derive(Debug, Clone, Copy, PartialEq, Eq, Structural)]
pub struct ImageSize {
    pub width: u32,
    pub height: u32,
    pub bytes: usize,
}

/// The header line of a request.
pub open spec fn request_header(width: u32, height: u32) -> Seq<char> {
    "{\"w\":"@ + decimal(width as nat) + ",\"h\":"@ + decimal(height as nat) + "}\n"@
}

/// What is wrong with the images of a request.
pub open spec fn request_fault(a: ImageSize, b: ImageSize) -> Option<Seq<char>> {
    let want = a.width * a.height * 3;
    if a.width != b.width || a.height != b.height {
        Some("external metric: dimension mismatch"@)
    } else if want > usize::MAX {
        Some("external metric: width*height*3 overflow"@)
    } else if a.bytes != want || b.bytes != want {
        Some(
            "external metric: expected "@ + decimal(want as nat) + " bytes per side, got ref="@
                + decimal(a.bytes as nat) + " dist="@ + decimal(b.bytes as nat),
        )
    } else {
        None
    }
}

/// The header of a request for two images.
pub fn score_request(a: ImageSize, b: ImageSize) -> (r: Result<String, String>)
    ensures
        match r {
            Ok(h) => request_fault(a, b) is None && h@ == request_header(a.width, a.height),
            Err(e) => request_fault(a, b) == Some(e@),
        },
{
    if a.width != b.width || a.height != b.height {
        return Err(copy("external metric: dimension mismatch"));
    }
    assert(0 <= a.width * a.height <= 0xffff_ffff * 0xffff_ffff) by (nonlinear_arith)
        requires
            a.width <= 0xffff_ffff,
            a.height <= 0xffff_ffff,
    ;
    let want: u128 = (a.width as u128) * (a.height as u128) * 3;
    if want > usize::MAX as u128 {
        return Err(copy("external metric: width*height*3 overflow"));
    }
    let n: usize = want as usize;
    if a.bytes != n || b.bytes != n {
        let mut e: String = copy("external metric: expected ");
        let w = show_usize(n);
        e.append(w.as_str());
        e.append(" bytes per side, got ref=");
        let x = show_usize(a.bytes);
        e.append(x.as_str());
        e.append(" dist=");
        let y = show_usize(b.bytes);
        e.append(y.as_str());
        return Err(e);
    }
    let mut h: String = copy("{\"w\":");
    let w = show(a.width as u64);
    h.append(w.as_str());
    h.append(",\"h\":");
    let k = show(a.height as u64);
    h.append(k.as_str());
    h.append("}\n");
    Ok(h)
}

// ── An answer ──────────────────────────────────────────────────────────

/// The text before the first `c`; the whole of `s` where there is none.
pub open spec fn up_to(s: Seq<char>, c: char) -> Seq<char> {
    match found(s, seq![c]) {
        Some(i) => s.take(i),
        None => s,
    }
}

/// The error that a line reports: the text between the quotes after the first colon
/// behind `"error"`.
pub open spec fn error_in(line: Seq<char>) -> Option<Seq<char>> {
    match found(line, "\"error\""@) {
        None => None,
        Some(i) => {
            let after = line.skip(i);
            match found(after, ":"@) {
                None => None,
                Some(c) => match found(after.skip(c), "\""@) {
                    None => None,
                    Some(q) => Some(up_to(after.skip(c + q + 1), '"')),
                },
            }
        },
    }
}

/// A character of a number.
pub open spec fn number_char(c: char) -> bool {
    is_digit(c) || c == '.' || c == '-' || c == '+' || c == 'e' || c == 'E'
}

/// The longest beginning of `s` that holds only characters of a number.
pub open spec fn number_head(s: Seq<char>) -> Seq<char>
    decreases s.len(),
{
    if s.len() > 0 && number_char(s[0]) {
        seq![s[0]] + number_head(s.drop_first())
    } else {
        Seq::<char>::empty()
    }
}

/// The digits at the beginning of `s`.
pub open spec fn digits_ahead(s: Seq<char>) -> nat
    decreases s.len(),
{
    if s.len() > 0 && is_digit(s[0]) {
        1 + digits_ahead(s.drop_first())
    } else {
        0
    }
}

/// `s` without a sign at its beginning.
pub open spec fn unsigned_part(s: Seq<char>) -> Seq<char> {
    if s.len() > 0 && (s[0] == '+' || s[0] == '-') {
        s.drop_first()
    } else {
        s
    }
}

/// Is `s` empty or an exponent?
pub open spec fn exponent_or_end(s: Seq<char>) -> bool {
    if s.len() == 0 {
        true
    } else if s[0] == 'e' || s[0] == 'E' {
        let d = unsigned_part(s.drop_first());
        d.len() > 0 && digits_ahead(d) == d.len()
    } else {
        false
    }
}

/// Is `s` a decimal number: digits with at most one point among or beside them,
/// with a sign and an exponent where there are any?
pub open spec fn real_literal(s: Seq<char>) -> bool {
    let t = unsigned_part(s);
    let whole = digits_ahead(t);
    let rest = t.skip(whole as int);
    if rest.len() > 0 && rest[0] == '.' {
        let frac = digits_ahead(rest.drop_first());
        whole + frac > 0 && exponent_or_end(rest.skip(1 + frac as int))
    } else {
        whole > 0 && exponent_or_end(rest)
    }
}

/// What the number reader of std says of a text that is no number.
pub open spec fn literal_fault(s: Seq<char>) -> Seq<char> {
    if s.len() == 0 {
        "cannot parse float from empty string"@
    } else {
        "invalid float literal"@
    }
}

/// What follows `"score"` in a line.
pub open spec fn after_score(line: Seq<char>) -> Option<Seq<char>> {
    match found(line, "\"score\""@) {
        None => None,
        Some(i) => Some(trimmed_start(line.skip(i + "\"score\""@.len()))),
    }
}

/// The number that a line gives as its score, or what is wrong with the line.
pub open spec fn score_in(line: Seq<char>) -> Result<Seq<char>, Seq<char>> {
    match error_in(line) {
        Some(e) => Err("external metric error: "@ + e),
        None => match after_score(line) {
            None => Err("external metric: unparseable response: "@ + trimmed(line)),
            Some(rest) => if rest.len() == 0 || rest[0] != ':' {
                Err("external metric: missing ':' after score"@)
            } else {
                let n = number_head(trimmed_start(rest.drop_first()));
                if real_literal(n) {
                    Ok(n)
                } else {
                    Err(
                        "external metric: bad score literal `"@ + n + "`: "@ + literal_fault(n),
                    )
                }
            },
        },
    }
}

/// The text from `lo` on.
fn tail(s: &str, lo: usize) -> (r: String)
    requires
        lo <= s@.len(),
    ensures
        r@ == s@.skip(lo as int),
{
    let a = chars_of(s);
    let r = substring(a.as_slice(), lo, a.len());
    assert(r@ =~= s@.skip(lo as int));
    r
}

/// The error that a line reports.
fn read_error(line: &str) -> (r: Option<String>)
    ensures
        match r {
            Some(e) => error_in(line@) == Some(e@),
            None => error_in(line@) is None,
        },
{
    proof {
        reveal_strlit("\"");
        reveal_strlit(":");
        assert("\""@ =~= seq!['"']);
    }
    let i: usize = match find(line, "\"error\"") {
        Some(i) => i,
        None => {
            return None;
        },
    };
    let after = tail(line, i);
    let c: usize = match find(after.as_str(), ":") {
        Some(c) => c,
        None => {
            return None;
        },
    };
    let from_colon = tail(after.as_str(), c);
    let q: usize = match find(from_colon.as_str(), "\"") {
        Some(q) => q,
        None => {
            return None;
        },
    };
    let rest = tail(from_colon.as_str(), q + 1);
    assert(rest@ =~= after@.skip(c + q + 1));
    match find(rest.as_str(), "\"") {
        Some(end) => {
            let a = chars_of(rest.as_str());
            let e = substring(a.as_slice(), 0, end);
            assert(e@ =~= rest@.take(end as int));
            Some(e)
        },
        None => Some(rest),
    }
}

/// A character of a number.
fn in_number(c: char) -> (r: bool)
    ensures
        r == number_char(c),
{
    ('0' <= c && c <= '9') || c == '.' || c == '-' || c == '+' || c == 'e' || c == 'E'
}

/// The longest beginning of `s` that holds only characters of a number.
fn take_number(s: &str) -> (r: String)
    ensures
        r@ == number_head(s@),
{
    let a = chars_of(s);
    let mut i: usize = 0;
    assert(s@.take(0) + number_head(s@.skip(0)) =~= number_head(s@)) by {
        assert(s@.skip(0) =~= s@);
    }
    while i < a.len() && in_number(a[i])
        invariant
            i <= a.len(),
            a@ == s@,
            number_head(s@) == s@.take(i as int) + number_head(s@.skip(i as int)),
        decreases a.len() - i,
    {
        assert(s@.skip(i as int).drop_first() =~= s@.skip(i + 1));
        assert(s@.take(i as int) + (seq![s@[i as int]] + number_head(s@.skip(i + 1))) =~= s@.take(
            i + 1,
        ) + number_head(s@.skip(i + 1)));
        i += 1;
    }
    let r = substring(a.as_slice(), 0, i);
    assert(number_head(s@.skip(i as int)) =~= Seq::<char>::empty());
    assert(r@ =~= number_head(s@));
    r
}

/// The digits of `a` from `lo` on.
fn count_digits(a: &Vec<char>, lo: usize) -> (r: usize)
    requires
        lo <= a@.len(),
    ensures
        r == digits_ahead(a@.skip(lo as int)),
        lo + r <= a@.len(),
{
    let mut i: usize = lo;
    while i < a.len() && '0' <= a[i] && a[i] <= '9'
        invariant
            lo <= i <= a@.len(),
            digits_ahead(a@.skip(lo as int)) == (i - lo) + digits_ahead(a@.skip(i as int)),
        decreases a.len() - i,
    {
        assert(a@.skip(i as int).drop_first() =~= a@.skip(i + 1));
        i += 1;
    }
    i - lo
}

/// Is `a` from `lo` on empty or an exponent?
fn ends_in_exponent(a: &Vec<char>, lo: usize) -> (r: bool)
    requires
        lo <= a@.len(),
    ensures
        r == exponent_or_end(a@.skip(lo as int)),
{
    if lo == a.len() {
        return true;
    }
    if a[lo] != 'e' && a[lo] != 'E' {
        return false;
    }
    let ghost rest = a@.skip(lo as int).drop_first();
    assert(rest =~= a@.skip(lo + 1));
    let mut k: usize = lo + 1;
    if k < a.len() && (a[k] == '+' || a[k] == '-') {
        k += 1;
        assert(rest.drop_first() =~= a@.skip(k as int));
    }
    assert(unsigned_part(rest) == a@.skip(k as int));
    let n: usize = count_digits(a, k);
    n > 0 && k + n == a.len()
}

/// Is `s` a decimal number?
pub fn is_real_literal(s: &str) -> (r: bool)
    ensures
        r == real_literal(s@),
{
    let a = chars_of(s);
    let mut k: usize = 0;
    assert(s@.skip(0) =~= s@);
    if a.len() > 0 && (a[0] == '+' || a[0] == '-') {
        k = 1;
        assert(s@.drop_first() =~= s@.skip(1));
    }
    let ghost t = unsigned_part(s@);
    assert(t == a@.skip(k as int));
    let whole: usize = count_digits(&a, k);
    let at: usize = k + whole;
    assert(t.skip(whole as int) =~= a@.skip(at as int));
    if at < a.len() && a[at] == '.' {
        let ghost rest = a@.skip(at as int);
        assert(rest.drop_first() =~= a@.skip(at + 1));
        let frac: usize = count_digits(&a, at + 1);
        assert(rest.skip(1 + frac as int) =~= a@.skip(at + 1 + frac));
        if whole == 0 && frac == 0 {
            return false;
        }
        ends_in_exponent(&a, at + 1 + frac)
    } else {
        whole > 0 && ends_in_exponent(&a, at)
    }
}

/// The number that a line gives as its score. The first error that the line reports
/// comes before any score.
pub fn parse_score(line: &str) -> (r: Result<String, String>)
    ensures
        match r {
            Ok(n) => score_in(line@) == Ok::<Seq<char>, Seq<char>>(n@),
            Err(e) => score_in(line@) == Err::<Seq<char>, Seq<char>>(e@),
        },
{
    match read_error(line) {
        Some(e) => {
            let mut m: String = copy("external metric error: ");
            m.append(e.as_str());
            return Err(m);
        },
        None => {},
    }
    let i: usize = match find(line, "\"score\"") {
        Some(i) => i,
        None => {
            let mut m: String = copy("external metric: unparseable response: ");
            let t = trim(line);
            m.append(t.as_str());
            return Err(m);
        },
    };
    proof {
        reveal_strlit("\"score\"");
    }
    let behind = tail(line, i + 7);
    let rest = trim_start(behind.as_str());
    let a = chars_of(rest.as_str());
    if a.len() == 0 || a[0] != ':' {
        return Err(copy("external metric: missing ':' after score"));
    }
    let value = tail(rest.as_str(), 1);
    assert(value@ =~= rest@.drop_first());
    let v = trim_start(value.as_str());
    let n = take_number(v.as_str());
    if is_real_literal(n.as_str()) {
        return Ok(n);
    }
    let mut m: String = copy("external metric: bad score literal `");
    m.append(n.as_str());
    m.append("`: ");
    if n.as_str().is_empty() {
        m.append("cannot parse float from empty string");
    } else {
        m.append("invalid float literal");
    }
    Err(m)
}

/// The score in an answer; `None` is the end of the server's output.
pub fn read_answer(line: Option<&str>) -> (r: Result<String, String>)
    ensures
        match line {
            None => r matches Err(e) && e@ == "external metric server closed stdout mid-request"@,
            Some(l) => match r {
                Ok(n) => score_in(l@) == Ok::<Seq<char>, Seq<char>>(n@),
                Err(e) => score_in(l@) == Err::<Seq<char>, Seq<char>>(e@),
            },
        },
{
    match line {
        None => Err(copy("external metric server closed stdout mid-request")),
        Some(l) => parse_score(l),
    }
}

/// Every score is a decimal number.
pub proof fn law_scores_are_numbers(line: Seq<char>)
    requires
        score_in(line) is Ok,
    ensures
        real_literal(score_in(line)->Ok_0),
{
}

/// A line that reports an error gives no score, even where it holds one.
pub proof fn law_error_beats_score(line: Seq<char>)
    requires
        error_in(line) is Some,
    ensures
        score_in(line) is Err,
{
}

proof fn lemma_found_at(s: Seq<char>, p: Seq<char>, i: int)
    requires
        occurs_at(s, p, i),
        forall|j: int| 0 <= j < i ==> !occurs_at(s, p, j),
    ensures
        found(s, p) == Some(i),
{
    law_found_is_first(s, p);
    match found(s, p) {
        Some(k) => {
            if k < i {
                assert(!occurs_at(s, p, k));
            } else if i < k {
                assert(!occurs_at(s, p, i));
            }
        },
        None => {
            assert(occurs(s, p));
        },
    }
}

proof fn lemma_number_head(n: Seq<char>, tail: Seq<char>)
    requires
        forall|i: int| 0 <= i < n.len() ==> number_char(#[trigger] n[i]),
        tail.len() > 0 ==> !number_char(tail[0]),
    ensures
        number_head(n + tail) == n,
    decreases n.len(),
{
    let s = n + tail;
    if n.len() == 0 {
        assert(s =~= tail);
        assert(n =~= Seq::<char>::empty());
    } else {
        assert(s[0] == n[0]);
        assert(s.drop_first() =~= n.drop_first() + tail);
        assert forall|i: int| 0 <= i < n.drop_first().len() implies number_char(
            #[trigger] n.drop_first()[i],
        ) by {
            assert(n.drop_first()[i] == n[i + 1]);
        }
        lemma_number_head(n.drop_first(), tail);
        assert(seq![n[0]] + n.drop_first() =~= n);
    }
}

/// The number behind the score's name is the score, whatever white space stands around
/// the colon.
pub proof fn law_answer_gives_its_score(
    line: Seq<char>,
    lead: Seq<char>,
    gap: Seq<char>,
    space: Seq<char>,
    n: Seq<char>,
    tail: Seq<char>,
)
    requires
        line == lead + "\"score\""@ + (gap + (":"@ + (space + (n + tail)))),
        found(line, "\"score\""@) == Some(lead.len() as int),
        error_in(line) is None,
        forall|i: int| 0 <= i < gap.len() ==> is_white(#[trigger] gap[i]),
        forall|i: int| 0 <= i < space.len() ==> is_white(#[trigger] space[i]),
        real_literal(n),
        n.len() > 0,
        forall|i: int| 0 <= i < n.len() ==> number_char(#[trigger] n[i]),
        tail.len() > 0 ==> !number_char(tail[0]),
    ensures
        score_in(line) == Ok::<Seq<char>, Seq<char>>(n),
{
    reveal_strlit(":");
    let key = "\"score\""@;
    let value = n + tail;
    let rest = ":"@ + (space + value);
    assert(line.skip((lead.len() + key.len()) as int) =~= gap + rest);
    assert(rest[0] == ':');
    law_trimmed_start(gap, rest);
    assert(rest.drop_first() =~= space + value);
    assert(value[0] == n[0] && number_char(n[0]));
    law_trimmed_start(space, value);
    lemma_number_head(n, tail);
}

/// The message behind the error's name is the error.
pub proof fn law_answer_gives_its_error(
    line: Seq<char>,
    lead: Seq<char>,
    message: Seq<char>,
    tail: Seq<char>,
)
    requires
        line == lead + ("\"error\":\""@ + (message + ("\""@ + tail))),
        found(line, "\"error\""@) == Some(lead.len() as int),
        !message.contains('"'),
    ensures
        error_in(line) == Some(message),
{
    reveal_strlit("\"error\":\"");
    reveal_strlit(":");
    reveal_strlit("\"");
    let mark = "\"error\":\""@;
    let value = message + ("\""@ + tail);
    let after = line.skip(lead.len() as int);
    assert(after =~= mark + value);
    assert(mark.len() == 9);
    assert(mark[0] == '"' && mark[1] == 'e' && mark[2] == 'r' && mark[3] == 'r' && mark[4] == 'o'
        && mark[5] == 'r' && mark[6] == '"' && mark[7] == ':' && mark[8] == '"');
    assert(after.subrange(7, 8) =~= ":"@);
    assert forall|j: int| 0 <= j < 7 implies !occurs_at(after, ":"@, j) by {
        assert(after.subrange(j, j + 1)[0] == mark[j]);
        assert(j == 0 || j == 1 || j == 2 || j == 3 || j == 4 || j == 5 || j == 6);
    }
    lemma_found_at(after, ":"@, 7);
    let b = after.skip(7);
    assert(b.subrange(1, 2) =~= "\""@);
    assert forall|j: int| 0 <= j < 1 implies !occurs_at(b, "\""@, j) by {
        assert(b.subrange(j, j + 1)[0] == ':');
    }
    lemma_found_at(b, "\""@, 1);
    assert(after.skip(9) =~= value);
    let q = seq!['"'];
    let m = message.len() as int;
    assert(value.subrange(m, m + 1) =~= q);
    assert forall|j: int| 0 <= j < m implies !occurs_at(value, q, j) by {
        assert(value.subrange(j, j + 1)[0] == message[j]);
        assert(message[j] != '"') by {
            if message[j] == '"' {
                assert(message.contains('"'));
            }
        }
    }
    lemma_found_at(value, q, m);
    assert(value.take(m) =~= message);
}

proof fn lemma_digits(s: Seq<char>, tail: Seq<char>)
    requires
        forall|i: int| 0 <= i < s.len() ==> is_digit(#[trigger] s[i]),
        tail.len() > 0 ==> !is_digit(tail[0]),
    ensures
        digits_ahead(s + tail) == s.len(),
    decreases s.len(),
{
    let t = s + tail;
    if s.len() == 0 {
        assert(t =~= tail);
    } else {
        assert(t[0] == s[0]);
        assert(t.drop_first() =~= s.drop_first() + tail);
        assert forall|i: int| 0 <= i < s.drop_first().len() implies is_digit(
            #[trigger] s.drop_first()[i],
        ) by {
            assert(s.drop_first()[i] == s[i + 1]);
        }
        lemma_digits(s.drop_first(), tail);
    }
}

/// Digits are a number, with a point and digits behind them too, and with a sign before
/// them; without a digit there is no number.
pub proof fn law_decimals_are_literals(whole: Seq<char>, part: Seq<char>, c: char)
    requires
        forall|i: int| 0 <= i < whole.len() ==> is_digit(#[trigger] whole[i]),
        forall|i: int| 0 <= i < part.len() ==> is_digit(#[trigger] part[i]),
        c == '+' || c == '-',
    ensures
        real_literal(whole) <==> whole.len() > 0,
        real_literal(whole + seq!['.'] + part) <==> whole.len() + part.len() > 0,
        real_literal(seq![c] + whole) <==> whole.len() > 0,
{
    let none = Seq::<char>::empty();
    lemma_digits(whole, none);
    assert(whole + none =~= whole);
    if whole.len() > 0 {
        assert(is_digit(whole[0]));
    }
    assert(whole.skip(whole.len() as int) =~= none);
    assert(unsigned_part(whole) == whole);
    let signed = seq![c] + whole;
    assert(signed.drop_first() =~= whole);
    let both = whole + seq!['.'] + part;
    let rest = seq!['.'] + part;
    assert(both =~= whole + rest);
    lemma_digits(whole, rest);
    assert(unsigned_part(both) == both) by {
        if whole.len() > 0 {
            assert(both[0] == whole[0]);
        } else {
            assert(both[0] == '.');
        }
    }
    assert(both.skip(whole.len() as int) =~= rest);
    assert(rest.drop_first() =~= part);
    lemma_digits(part, none);
    assert(part + none =~= part);
    assert(rest.skip((1 + part.len()) as int) =~= none);
}

/// A word without white space and quotes is one argument, kept as it is.
pub proof fn law_plain_argument_verbatim(s: Seq<char>, w: Seq<char>)
    requires
        !command_state(s).open_quote,
        w.len() > 0,
        forall|i: int| 0 <= i < w.len() ==> !ascii_white(#[trigger] w[i]) && w[i] != '"',
    ensures
        command_words(s + seq![' '] + w) == command_words(s).push(w),
{
    let a = s + seq![' '];
    assert(a.drop_last() =~= s);
    assert(command_state(a) == command_step(command_state(s), ' '));
    lemma_plain_run(a, w);
    assert(Seq::<char>::empty() + w =~= w);
}

proof fn lemma_plain_run(s: Seq<char>, w: Seq<char>)
    requires
        !command_state(s).open_quote,
        forall|i: int| 0 <= i < w.len() ==> !ascii_white(#[trigger] w[i]) && w[i] != '"',
    ensures
        command_state(s + w).done == command_state(s).done,
        command_state(s + w).word == command_state(s).word + w,
        !command_state(s + w).open_quote,
    decreases w.len(),
{
    if w.len() == 0 {
        assert(s + w =~= s);
        assert(command_state(s).word + w =~= command_state(s).word);
    } else {
        let v = w.drop_last();
        assert((s + w).drop_last() =~= s + v);
        assert((s + w).last() == w[w.len() - 1]);
        assert forall|i: int| 0 <= i < v.len() implies !ascii_white(#[trigger] v[i]) && v[i] != '"' by {
            assert(v[i] == w[i]);
        }
        lemma_plain_run(s, v);
        assert((command_state(s).word + v).push(w.last()) =~= command_state(s).word + w);
    }
}

/// A request is refused exactly when the images differ in size or a side does not hold
/// three bytes for each pixel.
pub proof fn law_request_refused(a: ImageSize, b: ImageSize)
    ensures
        request_fault(a, b) is None <==> {
            &&& a.width == b.width
            &&& a.height == b.height
            &&& a.bytes == a.width * a.height * 3
            &&& b.bytes == b.width * b.height * 3
        },
{
}

/// The header of a request tells the width and the height, each under its own name.
pub proof fn law_request_header_tells_size(width: u32, height: u32)
    ensures
        occurs(request_header(width, height), "\"w\":"@ + decimal(width as nat) + ","@),
        occurs(request_header(width, height), "\"h\":"@ + decimal(height as nat) + "}"@),
{
    reveal_strlit("{\"w\":");
    reveal_strlit("\"w\":");
    reveal_strlit(",\"h\":");
    reveal_strlit("\"h\":");
    reveal_strlit(",");
    reveal_strlit("}");
    reveal_strlit("}\n");
    let h = request_header(width, height);
    let w = "\"w\":"@ + decimal(width as nat) + ","@;
    let v = "\"h\":"@ + decimal(height as nat) + "}"@;
    let at = 1 + w.len() as int;
    assert(h.subrange(1, (1 + w.len()) as int) =~= w);
    assert(occurs_at(h, w, 1));
    assert(h.subrange(at, at + v.len()) =~= v);
    assert(occurs_at(h, v, at));
}

} // verus!
