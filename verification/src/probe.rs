//! Classifying targets and turning raw probe responses into outcomes.
//!
//! The network work itself (sending an HTTP request, running the ping
//! command) happens outside this crate; everything decided about what came
//! back — status-code classification, the HEAD-then-GET fallback, parsing
//! the round-trip latency out of ping output — is verified here over plain
//! values.

use vstd::prelude::*;

use crate::label::{append_dec, dec_of};

verus! {

/// How a target is probed: a bare host or IP by reachability probe, an
/// HTTP(S) URL by web request.
#[derive(Clone, Copy, PartialEq, Eq, Structural, Debug)]
pub enum TargetKind {
    Host,
    Endpoint,
}

/// Whether `p` is a prefix of `s`.
pub open spec fn spec_has_prefix(s: Seq<char>, p: Seq<char>) -> bool {
    p.len() <= s.len() && s.subrange(0, p.len() as int) == p
}

fn has_prefix(s: &str, p: &str) -> (r: bool)
    ensures
        r == spec_has_prefix(s@, p@),
{
    let sl = s.unicode_len();
    let pl = p.unicode_len();
    if pl > sl {
        return false;
    }
    let mut i: usize = 0;
    while i < pl
        invariant
            i <= pl,
            sl == s@.len(),
            pl == p@.len(),
            pl <= sl,
            forall|j: int| 0 <= j < i ==> s@[j] == p@[j],
        decreases pl - i,
    {
        if s.get_char(i) != p.get_char(i) {
            proof {
                if spec_has_prefix(s@, p@) {
                    assert(s@.subrange(0, p@.len() as int)[i as int] == p@[i as int]);
                }
            }
            return false;
        }
        i += 1;
    }
    proof {
        assert(s@.subrange(0, p@.len() as int) =~= p@);
    }
    true
}

/// Whether the target names an HTTP endpoint rather than a bare host.
pub open spec fn is_http_target(t: Seq<char>) -> bool {
    spec_has_prefix(t, "http://"@) || spec_has_prefix(t, "https://"@)
}

/// Classifies a normalized target once, at load time: a URL-scheme prefix
/// makes it an HTTP endpoint, anything else a bare host.
pub fn classify_target(t: &str) -> (r: TargetKind)
    ensures
        r is Endpoint <==> is_http_target(t@),
{
    if has_prefix(t, "http://") || has_prefix(t, "https://") {
        TargetKind::Endpoint
    } else {
        TargetKind::Host
    }
}

/// The observable result of one HTTP request, as handed back by the
/// transport: a status code, a timeout, or some other transport failure.
#[derive(Clone, Copy, PartialEq, Eq, Structural, Debug)]
pub enum HttpAttempt {
    Status(u16),
    TimedOut,
    TransportFailed,
}

/// Whether a status code counts as reachable: success or redirection.
pub open spec fn http_ok(code: u16) -> bool {
    200 <= code < 400
}

/// The label shown for a status code.
pub open spec fn http_label_of(code: u16) -> Seq<char> {
    "HTTP "@ + dec_of(code as int)
}

/// Classifies an HTTP status code: 2xx and 3xx count as reachable; the
/// label always shows the code.
pub fn summarize_http_status(code: u16) -> (r: (bool, String))
    ensures
        r.0 == http_ok(code),
        r.1@ == http_label_of(code),
{
    let mut s = String::from_str("HTTP ");
    append_dec(&mut s, code as u64);
    (code >= 200 && code < 400, s)
}

/// The decision after the HEAD attempt: `None` means fall back to a GET
/// (405 Method Not Allowed, or a transport failure that was not a timeout);
/// anything else is already the final outcome.
pub fn head_outcome(a: &HttpAttempt) -> (r: Option<(bool, String)>)
    ensures
        match *a {
            HttpAttempt::Status(code) => {
                if code == 405 {
                    r is None
                } else {
                    r is Some && r.unwrap().0 == http_ok(code) && r.unwrap().1@ == http_label_of(
                        code,
                    )
                }
            },
            HttpAttempt::TimedOut => r is Some && !r.unwrap().0 && r.unwrap().1@
                == "HTTP timeout"@,
            HttpAttempt::TransportFailed => r is None,
        },
{
    match a {
        HttpAttempt::Status(code) => {
            if *code == 405 {
                None
            } else {
                Some(summarize_http_status(*code))
            }
        },
        HttpAttempt::TimedOut => Some((false, String::from_str("HTTP timeout"))),
        HttpAttempt::TransportFailed => None,
    }
}

/// The final outcome of the GET fallback: a code is classified as usual, a
/// timeout and any other failure are unreachable with a fixed label.
pub fn get_outcome(a: &HttpAttempt) -> (r: (bool, String))
    ensures
        match *a {
            HttpAttempt::Status(code) => r.0 == http_ok(code) && r.1@ == http_label_of(code),
            HttpAttempt::TimedOut => !r.0 && r.1@ == "HTTP timeout"@,
            HttpAttempt::TransportFailed => !r.0 && r.1@ == "HTTP error"@,
        },
{
    match a {
        HttpAttempt::Status(code) => summarize_http_status(*code),
        HttpAttempt::TimedOut => (false, String::from_str("HTTP timeout")),
        HttpAttempt::TransportFailed => (false, String::from_str("HTTP error")),
    }
}

/// The observable result of one ping attempt: the command ran and exited
/// (cleanly or not) with some output, or could not be run at all.
#[derive(Debug)]
pub enum PingAttempt {
    Ran { exit_ok: bool, stdout: String },
    NotRun,
}

/// Whether the needle `n` occurs in `h` starting at position `i`.
pub open spec fn occurs_at(h: Seq<char>, n: Seq<char>, i: int) -> bool {
    0 <= i && i + n.len() <= h.len() && h.subrange(i, i + n.len() as int) == n
}

/// The first position at or after `i` where `n` occurs in `h`.
pub open spec fn find_from(h: Seq<char>, n: Seq<char>, i: int) -> Option<int>
    decreases h.len() - i + 1,
{
    if i < 0 || i + n.len() > h.len() {
        Option::None
    } else if occurs_at(h, n, i) {
        Option::Some(i)
    } else {
        find_from(h, n, i + 1)
    }
}

/// ASCII whitespace, as trimmed around the latency figure.
pub open spec fn spec_is_space(c: char) -> bool {
    c == ' ' || c == '\t' || c == '\n' || c == '\r'
}

/// `s` without leading ASCII whitespace.
pub open spec fn trim_front_of(s: Seq<char>) -> Seq<char>
    decreases s.len(),
{
    if s.len() > 0 && spec_is_space(s[0]) {
        trim_front_of(s.drop_first())
    } else {
        s
    }
}

/// `s` without trailing ASCII whitespace.
pub open spec fn trim_back_of(s: Seq<char>) -> Seq<char>
    decreases s.len(),
{
    if s.len() > 0 && spec_is_space(s.last()) {
        trim_back_of(s.drop_last())
    } else {
        s
    }
}

/// `s` without leading and trailing ASCII whitespace.
pub open spec fn trim_ascii_of(s: Seq<char>) -> Seq<char> {
    trim_back_of(trim_front_of(s))
}

/// The latency figure in ping output: the text between the first "time="
/// and the next " ms", trimmed — absent when either marker is missing.
pub open spec fn latency_of(out: Seq<char>) -> Option<Seq<char>> {
    match find_from(out, "time="@, 0) {
        Option::None => Option::None,
        Option::Some(p) => {
            let rest = out.subrange(p + "time="@.len(), out.len() as int);
            match find_from(rest, " ms"@, 0) {
                Option::None => Option::None,
                Option::Some(q) => Option::Some(trim_ascii_of(rest.subrange(0, q))),
            }
        },
    }
}

/// The label for a successful ping: the parsed latency plus " ms", or "OK"
/// when no latency can be extracted from the output.
pub open spec fn ping_success_label_of(out: Seq<char>) -> Seq<char> {
    match latency_of(out) {
        Option::Some(l) => l + " ms"@,
        Option::None => "OK"@,
    }
}

fn is_space_char(c: char) -> (r: bool)
    ensures
        r == spec_is_space(c),
{
    c == ' ' || c == '\t' || c == '\n' || c == '\r'
}

fn matches_at(h: &str, n: &str, i: usize, hl: usize, nl: usize) -> (r: bool)
    requires
        hl == h@.len(),
        nl == n@.len(),
        i + nl <= hl,
    ensures
        r == occurs_at(h@, n@, i as int),
{
    let mut j: usize = 0;
    while j < nl
        invariant
            j <= nl,
            hl == h@.len(),
            nl == n@.len(),
            i + nl <= hl,
            forall|jj: int| 0 <= jj < j ==> h@[i + jj] == n@[jj],
        decreases nl - j,
    {
        if h.get_char(i + j) != n.get_char(j) {
            proof {
                if occurs_at(h@, n@, i as int) {
                    assert(h@.subrange(i as int, i + n@.len() as int)[j as int] == n@[j as int]);
                }
            }
            return false;
        }
        j += 1;
    }
    proof {
        assert(h@.subrange(i as int, i + n@.len() as int) =~= n@);
    }
    true
}

fn find_sub(h: &str, n: &str) -> (r: Option<usize>)
    ensures
        match r {
            Option::Some(i) => find_from(h@, n@, 0) == Option::Some(i as int),
            Option::None => find_from(h@, n@, 0) is None,
        },
{
    let hl = h.unicode_len();
    let nl = n.unicode_len();
    if nl > hl {
        return None;
    }
    if nl == 0 {
        proof {
            assert(h@.subrange(0, 0) =~= n@);
        }
        return Some(0);
    }
    let mut i: usize = 0;
    while i <= hl - nl
        invariant
            1 <= nl <= hl,
            hl == h@.len(),
            nl == n@.len(),
            i <= hl - nl + 1,
            find_from(h@, n@, 0) == find_from(h@, n@, i as int),
        decreases hl - nl - i + 1,
    {
        if matches_at(h, n, i, hl, nl) {
            proof {
                assert(find_from(h@, n@, i as int) == Option::Some(i as int));
            }
            return Some(i);
        }
        proof {
            assert(find_from(h@, n@, i as int) == find_from(h@, n@, i as int + 1));
        }
        i += 1;
    }
    proof {
        assert(find_from(h@, n@, i as int) is None);
    }
    None
}

fn trim_front(s: &str) -> (r: &str)
    ensures
        r@ == trim_front_of(s@),
    decreases s@.len(),
{
    let l = s.unicode_len();
    if l > 0 {
        let c = s.get_char(0);
        if is_space_char(c) {
            let rest = s.substring_char(1, l);
            proof {
                assert(rest@ =~= s@.drop_first());
            }
            return trim_front(rest);
        }
    }
    s
}

fn trim_back(s: &str) -> (r: &str)
    ensures
        r@ == trim_back_of(s@),
    decreases s@.len(),
{
    let l = s.unicode_len();
    if l > 0 {
        let c = s.get_char(l - 1);
        if is_space_char(c) {
            let rest = s.substring_char(0, l - 1);
            proof {
                assert(rest@ =~= s@.drop_last());
            }
            return trim_back(rest);
        }
    }
    s
}

fn trim_ascii(s: &str) -> (r: &str)
    ensures
        r@ == trim_ascii_of(s@),
{
    trim_back(trim_front(s))
}

/// Builds the label for a ping that reported success, parsing the latency
/// out of the command's output.
pub fn ping_success_label(out: &str) -> (r: String)
    ensures
        r@ == ping_success_label_of(out@),
{
    proof {
        reveal_strlit("time=");
        reveal_strlit(" ms");
    }
    match find_sub(out, "time=") {
        Option::None => String::from_str("OK"),
        Option::Some(p) => {
            let ol = out.unicode_len();
            proof {
                assert(occurs_at(out@, "time="@, p as int)) by {
                    assert(find_from(out@, "time="@, 0) == Option::Some(p as int));
                    lemma_find_from_occurs(out@, "time="@, 0, p as int);
                }
            }
            let rest = out.substring_char(p + 5, ol);
            proof {
                assert(rest@ == out@.subrange(p + "time="@.len(), out@.len() as int));
            }
            match find_sub(rest, " ms") {
                Option::None => String::from_str("OK"),
                Option::Some(q) => {
                    proof {
                        assert(occurs_at(rest@, " ms"@, q as int)) by {
                            assert(find_from(rest@, " ms"@, 0) == Option::Some(q as int));
                            lemma_find_from_occurs(rest@, " ms"@, 0, q as int);
                        }
                    }
                    let piece = rest.substring_char(0, q);
                    let trimmed = trim_ascii(piece);
                    let mut s = String::from_str(trimmed);
                    s.append(" ms");
                    s
                },
            }
        },
    }
}

proof fn lemma_find_from_occurs(h: Seq<char>, n: Seq<char>, i: int, p: int)
    requires
        find_from(h, n, i) == Option::Some(p),
    ensures
        occurs_at(h, n, p),
        i <= p,
    decreases h.len() - i + 1,
{
    if !(i < 0 || i + n.len() > h.len()) && !occurs_at(h, n, i) {
        lemma_find_from_occurs(h, n, i + 1, p);
    }
}

/// How many reachability attempts one probe makes at most.
pub const PING_ATTEMPT_LIMIT: u8 = 3;

/// The pause between failed reachability attempts.
pub const PING_RETRY_DELAY_MS: u64 = 500;

/// Classifies one ping attempt. `Ok` carries the success label (the parsed
/// latency or "OK") and ends probing for this target; `Err` carries this
/// attempt's failure label: "OFFLINE" when ping reported the host down,
/// "error" when the ping command could not be run at all.
pub fn classify_ping_attempt(a: &PingAttempt) -> (r: Result<String, String>)
    ensures
        match *a {
            PingAttempt::Ran { exit_ok, stdout } => {
                if exit_ok {
                    r is Ok && r->Ok_0@ == ping_success_label_of(stdout@)
                } else {
                    r is Err && r->Err_0@ == "OFFLINE"@
                }
            },
            PingAttempt::NotRun => r is Err && r->Err_0@ == "error"@,
        },
{
    match a {
        PingAttempt::Ran { exit_ok, stdout } => {
            if *exit_ok {
                Ok(ping_success_label(stdout.as_str()))
            } else {
                Err(String::from_str("OFFLINE"))
            }
        },
        PingAttempt::NotRun => Err(String::from_str("error")),
    }
}

/// What the ping driver does next: stop with a final outcome, or try again
/// after the fixed delay.
pub enum PingStep {
    Done(bool, String),
    RetryAfterMs(u64, String),
}

/// What a failed attempt leads to: another try while attempts remain, else
/// giving up with this attempt's failure label.
pub open spec fn fail_step_spec(attempt: u8, label: Seq<char>, r: PingStep) -> bool {
    if attempt + 1 < PING_ATTEMPT_LIMIT {
        r is RetryAfterMs && r->RetryAfterMs_0 == PING_RETRY_DELAY_MS && r->RetryAfterMs_1@
            == label
    } else {
        r is Done && r->Done_0 == false && r->Done_1@ == label
    }
}

/// The retry policy for one target's reachability probe: the first
/// successful attempt short-circuits with its label; a failed attempt is
/// retried after the fixed delay until the attempt limit, and the last
/// attempt's failure label becomes the outcome.
pub fn ping_step(attempt: u8, result: &PingAttempt) -> (r: PingStep)
    ensures
        match *result {
            PingAttempt::Ran { exit_ok, stdout } => {
                if exit_ok {
                    r is Done && r->Done_0 == true && r->Done_1@ == ping_success_label_of(stdout@)
                } else {
                    fail_step_spec(attempt, "OFFLINE"@, r)
                }
            },
            PingAttempt::NotRun => fail_step_spec(attempt, "error"@, r),
        },
{
    match classify_ping_attempt(result) {
        Result::Ok(label) => PingStep::Done(true, label),
        Result::Err(label) => {
            if attempt < PING_ATTEMPT_LIMIT - 1 {
                PingStep::RetryAfterMs(PING_RETRY_DELAY_MS, label)
            } else {
                PingStep::Done(false, label)
            }
        },
    }
}

} // verus!
