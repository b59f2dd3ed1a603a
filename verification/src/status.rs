//! Failure attribution of the data sources: the status the front end turns
//! into guidance (`ok` | `no_login` | `no_relay` | `network` | `none`).
use vstd::prelude::*;
use crate::text::{chars_of, lower_all, lower_chars, occurs, occurs_at, occurs_at_index, occurs_in};

verus! {

/// The status for the outcome of the fallback chain. Configuration checks
/// come before the network heuristic:
/// success; key without base URL; no credentials at all; relay-only with a
/// network failure; no OAuth login; network failure with login; otherwise none.
pub open spec fn status_of(
    ok: bool,
    has_login: bool,
    has_base: bool,
    has_key: bool,
    network_error: bool,
) -> Seq<char> {
    if ok {
        "ok"@
    } else if has_key && !has_base {
        "no_relay"@
    } else if !has_login && !has_key {
        "no_login"@
    } else if !has_login && network_error {
        "network"@
    } else if !has_login {
        "no_login"@
    } else if network_error {
        "network"@
    } else {
        "none"@
    }
}

/// Failure attribution (pure): collapses the result of the fallback chain
/// into a status the front end can guide from.
///
/// Inputs are capability flags only, never secret values: `ok` (usage was
/// fetched), `has_login` (auth.json holds an OAuth access token), `has_base`
/// (a base URL is configured), `has_key` (a bearer or API key is available),
/// `network_error` (some recorded failure looks like a network failure).
pub fn classify_status(
    ok: bool,
    has_login: bool,
    has_base: bool,
    has_key: bool,
    network_error: bool,
) -> (r: &'static str)
    ensures
        r@ == status_of(ok, has_login, has_base, has_key, network_error),
{
    if ok {
        return "ok";
    }
    // a key without a relay address: only the base URL is missing
    if has_key && !has_base {
        return "no_relay";
    }
    // no credentials at all: not logged in, even if the failure looks like a network one
    if !has_login && !has_key {
        return "no_login";
    }
    // relay-only (key, no OAuth) with a network failure: retry later
    if !has_login && network_error {
        return "network";
    }
    // no OAuth and not a network failure: log in to Codex
    if !has_login {
        return "no_login";
    }
    // credentials in place, network failure
    if network_error {
        return "network";
    }
    "none"
}

/// The substrings that mark a failure message as a network failure
/// (timeouts, refused/reset/closed connections, DNS).
pub open spec fn network_needles() -> Seq<Seq<char>> {
    seq![
        "timed out"@,
        "timeout"@,
        "connection refused"@,
        "connection reset"@,
        "connection closed"@,
        "error sending request"@,
        "dns"@,
        "temporary failure"@,
        "network"@,
    ]
}

pub open spec fn is_ascii_digit(c: char) -> bool {
    '0' <= c <= '9'
}

/// `m` holds an HTTP 5xx status at index `i`: `http 5` followed by two digits.
pub open spec fn http_5xx_at(m: Seq<char>, i: int) -> bool {
    &&& occurs_at(m, "http 5"@, i)
    &&& i + 8 <= m.len()
    &&& is_ascii_digit(m[i + 6])
    &&& is_ascii_digit(m[i + 7])
}

/// The message, ASCII lower-cased, contains one of the network needles or
/// an HTTP 5xx status.
pub open spec fn is_network_message(msg: Seq<char>) -> bool {
    ||| exists|k: int| 0 <= k < network_needles().len() && occurs_in(lower_all(msg), #[trigger] network_needles()[k])
    ||| exists|i: int| http_5xx_at(lower_all(msg), i)
}

fn network_needle(k: usize) -> (r: &'static str)
    requires
        k < 9,
    ensures
        r@ == network_needles()[k as int],
{
    match k {
        0 => "timed out",
        1 => "timeout",
        2 => "connection refused",
        3 => "connection reset",
        4 => "connection closed",
        5 => "error sending request",
        6 => "dns",
        7 => "temporary failure",
        _ => "network",
    }
}

/// Whether a failure message looks like a network failure (timeout,
/// connection failure, HTTP 5xx): a conservative, case-insensitive substring
/// match against a fixed list.
pub fn looks_like_network_error(msg: &str) -> (r: bool)
    ensures
        r == is_network_message(msg@),
{
    let chars = chars_of(msg);
    let m = lower_chars(chars.as_slice());
    let mut k: usize = 0;
    while k < 9
        invariant
            k <= 9,
            m@ == lower_all(msg@),
            network_needles().len() == 9,
            forall|j: int| 0 <= j < k ==> !occurs_in(m@, #[trigger] network_needles()[j]),
        decreases 9 - k,
    {
        let needle = chars_of(network_needle(k));
        if occurs(m.as_slice(), needle.as_slice()) {
            return true;
        }
        k += 1;
    }
    has_http_5xx(m.as_slice())
}

fn has_http_5xx(m: &[char]) -> (r: bool)
    ensures
        r == exists|i: int| http_5xx_at(m@, i),
{
    let prefix = chars_of("http 5");
    proof {
        reveal_strlit("http 5");
    }
    let mut i: usize = 0;
    while i <= m.len() && m.len() - i >= 8
        invariant
            i <= m.len(),
            prefix@ == "http 5"@,
            "http 5"@.len() == 6,
            forall|j: int| 0 <= j < i ==> !http_5xx_at(m@, j),
        decreases m.len() - i,
    {
        if occurs_at_index(m, prefix.as_slice(), i) && '0' <= m[i + 6] && m[i + 6] <= '9'
            && '0' <= m[i + 7] && m[i + 7] <= '9' {
            assert(http_5xx_at(m@, i as int));
            return true;
        }
        i += 1;
    }
    assert forall|j: int| !http_5xx_at(m@, j) by {
        if j >= i {
            assert(!(j + 8 <= m@.len()));
        }
    }
    false
}

// ---------------------------------------------------------------------------
// Laws of the attribution

proof fn lemma_status_names_distinct()
    ensures
        "ok"@ != "no_relay"@,
        "ok"@ != "no_login"@,
        "ok"@ != "network"@,
        "ok"@ != "none"@,
        "no_relay"@ != "no_login"@,
        "no_relay"@ != "network"@,
        "no_relay"@ != "none"@,
        "no_login"@ != "network"@,
        "no_login"@ != "none"@,
        "network"@ != "none"@,
{
    reveal_strlit("ok");
    reveal_strlit("no_relay");
    reveal_strlit("no_login");
    reveal_strlit("network");
    reveal_strlit("none");
    assert("ok"@.len() == 2);
    assert("none"@.len() == 4);
    assert("network"@.len() == 7);
    assert("no_relay"@.len() == 8);
    assert("no_login"@.len() == 8);
    assert("no_relay"@[3] != "no_login"@[3]);
}

/// A successful fetch is always `ok`, whatever else holds.
pub proof fn lemma_ok_wins(has_login: bool, has_base: bool, has_key: bool, network_error: bool)
    ensures
        status_of(true, has_login, has_base, has_key, network_error) == "ok"@,
{
}

/// A key without a base URL is `no_relay` even when the failure looks like
/// a network one.
pub proof fn lemma_key_without_base_is_no_relay(has_login: bool, network_error: bool)
    ensures
        status_of(false, has_login, false, true, network_error) == "no_relay"@,
{
}

/// No credentials at all (no OAuth token, no key) is `no_login`, even when
/// the failure looks like a network one.
pub proof fn lemma_no_credentials_is_no_login(has_base: bool, network_error: bool)
    ensures
        status_of(false, false, has_base, false, network_error) == "no_login"@,
{
}

/// `network` is reported only for a network failure with usable
/// credentials: an OAuth login, or a key together with a base URL.
pub proof fn lemma_network_needs_credentials(
    ok: bool,
    has_login: bool,
    has_base: bool,
    has_key: bool,
    network_error: bool,
)
    requires
        status_of(ok, has_login, has_base, has_key, network_error) == "network"@,
    ensures
        !ok,
        network_error,
        has_login || (has_key && has_base),
        !(has_key && !has_base),
{
    lemma_status_names_distinct();
}

/// `none` (configured, but everything failed) is reported only with an
/// OAuth login and without a network-like failure.
pub proof fn lemma_none_needs_login(
    ok: bool,
    has_login: bool,
    has_base: bool,
    has_key: bool,
    network_error: bool,
)
    requires
        status_of(ok, has_login, has_base, has_key, network_error) == "none"@,
    ensures
        !ok,
        has_login,
        !network_error,
        !(has_key && !has_base),
{
    lemma_status_names_distinct();
}

/// The status is always one of the five names.
pub proof fn lemma_status_is_known(
    ok: bool,
    has_login: bool,
    has_base: bool,
    has_key: bool,
    network_error: bool,
)
    ensures
        ({
            let s = status_of(ok, has_login, has_base, has_key, network_error);
            s == "ok"@ || s == "no_relay"@ || s == "no_login"@ || s == "network"@ || s == "none"@
        }),
{
}

/// The network heuristic ignores ASCII case: a message and its lower-cased
/// form are classified alike.
pub proof fn lemma_network_ignores_case(msg: Seq<char>)
    ensures
        is_network_message(msg) == is_network_message(lower_all(msg)),
{
    assert(lower_all(lower_all(msg)) =~= lower_all(msg));
}

/// A failed fetch with an OAuth login (and not a key lacking its base URL)
/// is `network` after a network-like failure and `none` otherwise: a
/// logged-in user is never told to log in.
pub proof fn lemma_login_is_network_or_none(has_base: bool, has_key: bool, network_error: bool)
    requires
        !(has_key && !has_base),
    ensures
        network_error ==> status_of(false, true, has_base, has_key, network_error) == "network"@,
        !network_error ==> status_of(false, true, has_base, has_key, network_error) == "none"@,
        status_of(false, true, has_base, has_key, network_error) != "no_login"@,
{
    lemma_status_names_distinct();
}

/// Each listed failure phrase marks a message as a network failure, in any
/// ASCII case: timeouts, refused/reset/closed connections, failed requests,
/// DNS and temporary failures, network errors.
pub proof fn lemma_network_phrases(msg: Seq<char>)
    ensures
        occurs_in(lower_all(msg), "timed out"@) ==> is_network_message(msg),
        occurs_in(lower_all(msg), "timeout"@) ==> is_network_message(msg),
        occurs_in(lower_all(msg), "connection refused"@) ==> is_network_message(msg),
        occurs_in(lower_all(msg), "connection reset"@) ==> is_network_message(msg),
        occurs_in(lower_all(msg), "connection closed"@) ==> is_network_message(msg),
        occurs_in(lower_all(msg), "error sending request"@) ==> is_network_message(msg),
        occurs_in(lower_all(msg), "dns"@) ==> is_network_message(msg),
        occurs_in(lower_all(msg), "temporary failure"@) ==> is_network_message(msg),
        occurs_in(lower_all(msg), "network"@) ==> is_network_message(msg),
{
    let n = network_needles();
    assert(n[0] == "timed out"@);
    assert(n[1] == "timeout"@);
    assert(n[2] == "connection refused"@);
    assert(n[3] == "connection reset"@);
    assert(n[4] == "connection closed"@);
    assert(n[5] == "error sending request"@);
    assert(n[6] == "dns"@);
    assert(n[7] == "temporary failure"@);
    assert(n[8] == "network"@);
}

/// An HTTP 5xx status (`http 5` and two digits, in any ASCII case) marks a
/// message as a network failure.
pub proof fn lemma_http_5xx_is_network(msg: Seq<char>, i: int)
    requires
        occurs_at(lower_all(msg), "http 5"@, i),
        i + 8 <= msg.len(),
        '0' <= lower_all(msg)[i + 6] <= '9',
        '0' <= lower_all(msg)[i + 7] <= '9',
    ensures
        is_network_message(msg),
{
    assert(http_5xx_at(lower_all(msg), i));
}

} // verus!
