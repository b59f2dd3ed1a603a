//! Decisions of the data-source fallback chain (direct REST, local
//! app-server, relay): what to try, what to record, and how to conclude.
use vstd::prelude::*;
use crate::account::Auth;
use crate::parse::{json_text_doc, serde_json_from_str};
use crate::doc::{Doc, get_spec, lookup, opt_ref, opt_view, str_in, str_spec};
use crate::status::{is_network_message, looks_like_network_error};
use crate::text::{chars_of, str_eq};

verus! {

/// What the status attribution knows of the local configuration (no secret values).
#[derive(Clone, Copy, Debug, PartialEq, Eq)]
pub struct Credentials {
    /// auth.json holds an OAuth access token.
    pub has_login: bool,
    /// config.toml names a base URL.
    pub has_base: bool,
    /// A key is available (config.toml bearer or auth.json API key).
    pub has_key: bool,
}

pub open spec fn auth_has_token(auth: Option<&Auth>) -> bool {
    match auth {
        Some(a) => a.access_token is Some,
        None => false,
    }
}

pub open spec fn auth_key(auth: Option<&Auth>) -> Option<Seq<char>> {
    match auth {
        Some(a) => opt_view(a.api_key),
        None => None,
    }
}

pub open spec fn config_base(config: Option<&(Option<String>, Option<String>)>) -> Option<Seq<char>> {
    match config {
        Some(c) => opt_view(c.0),
        None => None,
    }
}

pub open spec fn config_bearer(config: Option<&(Option<String>, Option<String>)>) -> Option<Seq<char>> {
    match config {
        Some(c) => opt_view(c.1),
        None => None,
    }
}

/// The relay key: the config bearer, else the auth.json API key.
pub open spec fn relay_key(auth: Option<&Auth>, config: Option<&(Option<String>, Option<String>)>) -> Option<Seq<char>> {
    match config_bearer(config) {
        Some(k) => Some(k),
        None => auth_key(auth),
    }
}

/// The capability flags of the local configuration.
pub fn credentials(auth: Option<&Auth>, config: Option<&(Option<String>, Option<String>)>) -> (r: Credentials)
    ensures
        r.has_login == auth_has_token(auth),
        r.has_base == config_base(config) is Some,
        r.has_key == relay_key(auth, config) is Some,
{
    let has_login = match auth {
        Some(a) => a.access_token.is_some(),
        None => false,
    };
    let (has_base, has_bearer) = match config {
        Some(c) => (c.0.is_some(), c.1.is_some()),
        None => (false, false),
    };
    let has_api_key = match auth {
        Some(a) => a.api_key.is_some(),
        None => false,
    };
    Credentials { has_login, has_base, has_key: has_bearer || has_api_key }
}

/// The relay to try: `(base_url, key)` when both are configured, else the
/// failure to record.
pub fn relay_target(auth: Option<&Auth>, config: Option<&(Option<String>, Option<String>)>) -> (r: Result<(String, String), String>)
    ensures
        r is Ok == (config_base(config) is Some && relay_key(auth, config) is Some),
        r matches Ok(t) ==> Some(t.0@) == config_base(config) && Some(t.1@) == relay_key(auth, config),
        r matches Err(m) ==> m@ == "relay: 无 base_url 或密钥"@,
{
    let base = match config {
        Some(c) => match &c.0 {
            Some(b) => Some(b.clone()),
            None => None,
        },
        None => None,
    };
    let mut key = match config {
        Some(c) => match &c.1 {
            Some(k) => Some(k.clone()),
            None => None,
        },
        None => None,
    };
    if key.is_none() {
        key = match auth {
            Some(a) => match &a.api_key {
                Some(k) => Some(k.clone()),
                None => None,
            },
            None => None,
        };
    }
    match (base, key) {
        (Some(b), Some(k)) => Ok((b, k)),
        _ => Err(String::from_str("relay: 无 base_url 或密钥")),
    }
}

/// Some recorded failure looks like a network failure.
pub open spec fn any_network(attempted: Seq<String>) -> bool {
    exists|i: int| 0 <= i < attempted.len() && is_network_message(#[trigger] attempted[i]@)
}

/// Whether any recorded failure message looks like a network failure.
pub fn any_network_error(attempted: &Vec<String>) -> (r: bool)
    ensures
        r == any_network(attempted@),
{
    let mut i: usize = 0;
    while i < attempted.len()
        invariant
            i <= attempted.len(),
            forall|j: int| 0 <= j < i ==> !is_network_message(#[trigger] attempted@[j]@),
        decreases attempted.len() - i,
    {
        if looks_like_network_error(attempted[i].as_str()) {
            return true;
        }
        i += 1;
    }
    false
}

/// The parts joined by `sep`.
pub open spec fn joined(parts: Seq<Seq<char>>, sep: Seq<char>) -> Seq<char>
    decreases parts.len(),
{
    if parts.len() == 0 {
        Seq::empty()
    } else if parts.len() == 1 {
        parts[0]
    } else {
        joined(parts.drop_last(), sep) + sep + parts.last()
    }
}

pub open spec fn views(v: Seq<String>) -> Seq<Seq<char>> {
    v.map_values(|s: String| s@)
}

/// The failure messages joined by the full-width `；`, as the error of a
/// fetch that found no source.
pub fn join_errors(attempted: &Vec<String>) -> (r: String)
    ensures
        r@ == joined(views(attempted@), "；"@),
{
    let mut out = String::new();
    let mut i: usize = 0;
    while i < attempted.len()
        invariant
            i <= attempted.len(),
            out@ == joined(views(attempted@.take(i as int)), "；"@),
        decreases attempted.len() - i,
    {
        assert(views(attempted@.take(i as int + 1)).drop_last() == views(attempted@.take(i as int)));
        assert(views(attempted@.take(i as int + 1)).last() == attempted@[i as int]@);
        if i > 0 {
            out.append("；");
        } else {
            assert(views(attempted@.take(0)) == Seq::<Seq<char>>::empty());
        }
        out.append(attempted[i].as_str());
        i += 1;
    }
    assert(attempted@.take(attempted.len() as int) == attempted@);
    out
}

/// The direct REST attempt: the OAuth access token to use, or the failure
/// to record (no readable auth.json, or no access token).
pub fn rest_plan(auth: Option<&Auth>) -> (r: Result<String, String>)
    ensures
        auth is None ==> (r matches Err(m) && m@ == "rest: auth.json 不可读"@),
        auth matches Some(a) ==> match a.access_token {
            Some(t) => (r matches Ok(u) && u@ == t@),
            None => (r matches Err(m) && m@ == "rest: 无 access_token（非 OAuth 登录态）"@),
        },
{
    match auth {
        None => Err(String::from_str("rest: auth.json 不可读")),
        Some(a) => match &a.access_token {
            Some(t) => Ok(t.clone()),
            None => Err(String::from_str("rest: 无 access_token（非 OAuth 登录态）")),
        },
    }
}

/// `s` without its trailing `/` characters.
pub open spec fn trim_trailing_slashes(s: Seq<char>) -> Seq<char>
    decreases s.len(),
{
    if s.len() > 0 && s.last() == '/' {
        trim_trailing_slashes(s.drop_last())
    } else {
        s
    }
}

/// The usage paths a relay is probed at, in order.
pub open spec fn relay_paths() -> Seq<Seq<char>> {
    seq!["/backend-api/wham/usage"@, "/wham/usage"@]
}

/// The URLs to probe on a relay: its base URL without trailing `/`, followed by each usage path.
pub fn relay_urls(base_url: &str) -> (r: Vec<String>)
    ensures
        r@.len() == 2,
        r@[0]@ == trim_trailing_slashes(base_url@) + relay_paths()[0],
        r@[1]@ == trim_trailing_slashes(base_url@) + relay_paths()[1],
{
    let cs = chars_of(base_url);
    let mut end = cs.len();
    assert(cs@.take(cs.len() as int) == cs@);
    while end > 0 && cs[end - 1] == '/'
        invariant
            end <= cs.len(),
            cs@ == base_url@,
            trim_trailing_slashes(cs@) == trim_trailing_slashes(cs@.take(end as int)),
        decreases end,
    {
        assert(cs@.take(end as int).drop_last() == cs@.take(end - 1));
        end -= 1;
    }
    assert(cs@.take(cs.len() as int) == cs@);
    assert(trim_trailing_slashes(cs@.take(end as int)) == cs@.take(end as int));
    assert(cs@.take(end as int) == base_url@.subrange(0, end as int));
    let base = base_url.substring_char(0, end);
    let mut first = String::from_str(base);
    first.append("/backend-api/wham/usage");
    let mut second = String::from_str(base);
    second.append("/wham/usage");
    let mut v: Vec<String> = Vec::new();
    v.push(first);
    v.push(second);
    v
}

/// The failure recorded when every relay URL failed: the last error, prefixed by `relay: `.
pub fn relay_error(last_err: &str) -> (r: String)
    ensures
        r@ == "relay: "@ + last_err@,
{
    let mut s = String::from_str("relay: ");
    s.append(last_err);
    s
}

/// Identity of the result: what the source reported, each missing part
/// taken from the ID token.
pub fn fill_identity(
    plan: Option<String>,
    email: Option<String>,
    from_token: (Option<String>, Option<String>),
) -> (r: (Option<String>, Option<String>))
    ensures
        opt_view(r.0) == (if plan is Some { opt_view(plan) } else { opt_view(from_token.0) }),
        opt_view(r.1) == (if email is Some { opt_view(email) } else { opt_view(from_token.1) }),
{
    let (tp, te) = from_token;
    let p = match plan {
        Some(p) => Some(p),
        None => tp,
    };
    let e = match email {
        Some(e) => Some(e),
        None => te,
    };
    (p, e)
}

/// The unsigned integer of a scalar written in decimal digits only (the
/// text of a non-negative JSON integer).
pub open spec fn digits_value(s: Seq<char>) -> int
    decreases s.len(),
{
    if s.len() == 0 {
        0
    } else {
        digits_value(s.drop_last()) * 10 + (s.last() as int - '0' as int)
    }
}

pub open spec fn all_digits(s: Seq<char>) -> bool {
    forall|i: int| 0 <= i < s.len() ==> '0' <= #[trigger] s[i] && s[i] <= '9'
}

/// The value as an unsigned 64-bit integer, when it is one.
pub open spec fn u64_spec(d: Option<Doc>) -> Option<u64> {
    match d {
        Some(Doc::Scalar(t)) => digits_u64_spec(t@),
        _ => None,
    }
}

/// The value of a text of decimal digits, when it fits in 64 bits.
pub open spec fn digits_u64_spec(s: Seq<char>) -> Option<u64> {
    if s.len() > 0 && all_digits(s) && digits_value(s) <= u64::MAX {
        Some(digits_value(s) as u64)
    } else {
        None
    }
}

fn digits_u64(t: &str) -> (r: Option<u64>)
    ensures
        r == digits_u64_spec(t@),
{
    let cs = chars_of(t);
    if cs.len() == 0 {
        return None;
    }
    let mut v: u64 = 0;
    let mut i: usize = 0;
    while i < cs.len()
        invariant
            cs@ == t@,
            i <= cs.len(),
            all_digits(cs@.take(i as int)),
            v == digits_value(cs@.take(i as int)),
        decreases cs.len() - i,
    {
        let c = cs[i];
        assert(cs@.take(i as int + 1).drop_last() == cs@.take(i as int));
        if c < '0' || c > '9' {
            assert(!all_digits(t@)) by {
                assert(t@[i as int] == c);
            }
            return None;
        }
        let dgt = (c as u32 - '0' as u32) as u64;
        assert(digits_value(cs@.take(i as int + 1)) == v * 10 + dgt);
        if v > (u64::MAX - dgt) / 10 {
            assert(v * 10 + dgt > u64::MAX) by (nonlinear_arith)
                requires
                    v > (u64::MAX - dgt) / 10,
                    dgt <= 9,
            ;
            proof {
                if all_digits(cs@) {
                    lemma_digits_monotone(cs@, i as int + 1);
                    assert(cs@.take(cs.len() as int) == cs@);
                }
            }
            return None;
        }
        v = v * 10 + dgt;
        assert(all_digits(cs@.take(i as int + 1))) by {
            assert forall|j: int| 0 <= j < i + 1 implies '0' <= #[trigger] cs@.take(i as int + 1)[j] && cs@.take(i as int + 1)[j] <= '9' by {
                if j < i {
                    assert(cs@.take(i as int + 1)[j] == cs@.take(i as int)[j]);
                }
            }
        }
        i += 1;
    }
    assert(cs@.take(cs.len() as int) == cs@);
    Some(v)
}

fn u64_of(d: Option<&Doc>) -> (r: Option<u64>)
    ensures
        r == u64_spec(opt_ref(d)),
{
    match d {
        Some(Doc::Scalar(t)) => digits_u64(t.as_str()),
        _ => None,
    }
}

proof fn lemma_digits_monotone(s: Seq<char>, k: int)
    requires
        0 <= k <= s.len(),
        all_digits(s),
    ensures
        digits_value(s.take(k)) <= digits_value(s),
        digits_value(s.take(k)) >= 0,
    decreases s.len() - k,
{
    lemma_digits_nonneg(s);
    lemma_digits_nonneg(s.take(k));
    if k < s.len() {
        assert(all_digits(s.drop_last())) by {
            assert forall|i: int| 0 <= i < s.drop_last().len() implies '0' <= #[trigger] s.drop_last()[i] && s.drop_last()[i] <= '9' by {
                assert(s.drop_last()[i] == s[i]);
            }
        }
        lemma_digits_monotone(s.drop_last(), k);
        assert(s.drop_last().take(k) == s.take(k));
        assert('0' <= s[s.len() - 1]);
    } else {
        assert(s.take(k) == s);
    }
}

proof fn lemma_digits_nonneg(s: Seq<char>)
    requires
        all_digits(s),
    ensures
        digits_value(s) >= 0,
    decreases s.len(),
{
    if s.len() > 0 {
        assert(all_digits(s.drop_last())) by {
            assert forall|i: int| 0 <= i < s.drop_last().len() implies '0' <= #[trigger] s.drop_last()[i] && s.drop_last()[i] <= '9' by {
                assert(s.drop_last()[i] == s[i]);
            }
        }
        lemma_digits_nonneg(s.drop_last());
        assert('0' <= s[s.len() - 1]);
    }
}

/// Moves member `key` out of an object.
#[verifier::loop_isolation(false)]
fn take_member(d: Doc, key: &str) -> (r: Option<Doc>)
    ensures
        r == get_spec(d, key@),
{
    match d {
        Doc::Object(mut entries) => {
            let ghost orig = entries@;
            let mut i: usize = 0;
            assert(orig.skip(0) == orig);
            while i < entries.len()
                invariant
                    entries@ == orig,
                    i <= entries.len(),
                    lookup(orig, key@) == lookup(orig.skip(i as int), key@),
                decreases entries.len() - i,
            {
                assert(orig.skip(i as int)[0] == orig[i as int]);
                assert(orig.skip(i as int).drop_first() == orig.skip(i as int + 1));
                if str_eq(entries[i].0.as_str(), key) {
                    let (_, v) = entries.remove(i);
                    return Some(v);
                }
                i += 1;
            }
            None
        },
        _ => None,
    }
}

/// Replies of the local app-server collected so far: the account (request
/// 2) and the rate limits (request 3).
pub struct RpcReplies {
    pub account: Option<Doc>,
    pub rate: Option<Doc>,
}

impl RpcReplies {
    pub fn new() -> (r: RpcReplies)
        ensures
            r.account is None,
            r.rate is None,
    {
        RpcReplies { account: None, rate: None }
    }

    /// Takes one parsed reply line: the `result` of reply 2 becomes the
    /// account, that of reply 3 the rate limits; other lines change
    /// nothing. Returns whether the rate limits are in (reading can stop).
    pub fn absorb(&mut self, msg: Doc) -> (done: bool)
        ensures
            u64_spec(get_spec(msg, "id"@)) == Some(2u64) ==> final(self).account == get_spec(msg, "result"@)
                && final(self).rate == old(self).rate,
            u64_spec(get_spec(msg, "id"@)) == Some(3u64) ==> final(self).rate == get_spec(msg, "result"@)
                && final(self).account == old(self).account,
            u64_spec(get_spec(msg, "id"@)) != Some(2u64) && u64_spec(get_spec(msg, "id"@)) != Some(3u64)
                ==> *final(self) == *old(self),
            done == final(self).rate is Some,
    {
        let id = u64_of(msg.get("id"));
        if id == Some(2u64) {
            self.account = take_member(msg, "result");
        } else if id == Some(3u64) {
            self.rate = take_member(msg, "result");
        }
        self.rate.is_some()
    }

    /// Takes one reply line of text: a line that is not JSON changes
    /// nothing; a JSON line is taken as by `absorb`. Returns whether the rate
    /// limits are in.
    pub fn absorb_line(&mut self, line: &str) -> (done: bool)
        ensures
            json_text_doc(line@) is None ==> *final(self) == *old(self),
            json_text_doc(line@) matches Some(msg) ==> {
                &&& u64_spec(get_spec(msg, "id"@)) == Some(2u64) ==> final(self).account == get_spec(msg, "result"@)
                    && final(self).rate == old(self).rate
                &&& u64_spec(get_spec(msg, "id"@)) == Some(3u64) ==> final(self).rate == get_spec(msg, "result"@)
                    && final(self).account == old(self).account
                &&& u64_spec(get_spec(msg, "id"@)) != Some(2u64) && u64_spec(get_spec(msg, "id"@)) != Some(3u64)
                    ==> *final(self) == *old(self)
            },
            done == final(self).rate is Some,
    {
        match serde_json_from_str(line) {
            Some(msg) => self.absorb(msg),
            None => self.rate.is_some(),
        }
    }
}

/// Plan and e-mail reported by the app-server account.
pub fn account_identity(account: Option<&Doc>) -> (r: (Option<String>, Option<String>))
    ensures
        opt_view(r.0) == str_spec(match opt_ref(account) { Some(a) => get_spec(a, "plan"@), None => None }),
        opt_view(r.1) == str_spec(match opt_ref(account) { Some(a) => get_spec(a, "email"@), None => None }),
{
    match account {
        Some(a) => (str_in(a.get("plan")), str_in(a.get("email"))),
        None => (None, None),
    }
}

/// Position in the fallback chain: the source to try next.
#[derive(Clone, Copy, Debug, PartialEq, Eq)]
pub enum Stage {
    Rest,
    AppServer,
    Relay,
    Done,
}

/// What the caller does next.
#[derive(Debug)]
pub enum Step {
    /// Fetch `wham/usage` directly with this OAuth access token.
    Rest(String),
    /// Ask the local `codex app-server`.
    AppServer,
    /// Probe the relay at this base URL with this key.
    Relay(String, String),
    /// The chain is over (a source succeeded, or all were tried).
    Finished,
}

/// The fallback chain of one fetch: direct REST, then the app-server, then
/// the relay, each tried only while no earlier one succeeded; every source
/// that fails, or cannot be tried, leaves one message.
pub struct FetchChain {
    pub stage: Stage,
    /// Failure messages, in the order of the sources.
    pub attempted: Vec<String>,
    /// A source succeeded.
    pub succeeded: bool,
}

/// The stage after the source of `stage` failed.
pub open spec fn stage_after(stage: Stage) -> Stage {
    match stage {
        Stage::Rest => Stage::AppServer,
        Stage::AppServer => Stage::Relay,
        _ => Stage::Done,
    }
}

impl FetchChain {
    pub fn new() -> (r: FetchChain)
        ensures
            r.stage == Stage::Rest,
            r.attempted@.len() == 0,
            !r.succeeded,
    {
        FetchChain { stage: Stage::Rest, attempted: Vec::new(), succeeded: false }
    }

    /// The next source to try. A source that cannot be tried (no access
    /// token; no relay base URL or key) is recorded as failed and skipped.
    pub fn next_step(&mut self, auth: Option<&Auth>, config: Option<&(Option<String>, Option<String>)>) -> (r: Step)
        ensures
            final(self).succeeded == old(self).succeeded,
            old(self).stage == Stage::Rest ==> match rest_plan_spec(auth) {
                Ok(t) => (r matches Step::Rest(u) && u@ == t) && final(self).stage == Stage::Rest
                    && final(self).attempted@ == old(self).attempted@,
                Err(m) => r is AppServer && final(self).stage == Stage::AppServer
                    && views(final(self).attempted@) == views(old(self).attempted@).push(m),
            },
            old(self).stage == Stage::AppServer ==> r is AppServer && *final(self) == *old(self),
            old(self).stage == Stage::Relay ==> if config_base(config) is Some && relay_key(auth, config) is Some {
                (r matches Step::Relay(b, k) && Some(b@) == config_base(config) && Some(k@) == relay_key(auth, config))
                    && *final(self) == *old(self)
            } else {
                r is Finished && final(self).stage == Stage::Done
                    && views(final(self).attempted@) == views(old(self).attempted@).push("relay: 无 base_url 或密钥"@)
            },
            old(self).stage == Stage::Done ==> r is Finished && *final(self) == *old(self),
    {
        match self.stage {
            Stage::Rest => match rest_plan(auth) {
                Ok(t) => Step::Rest(t),
                Err(m) => {
                    let ghost before = self.attempted@;
                    self.attempted.push(m);
                    assert(views(self.attempted@) == views(before).push(m@));
                    self.stage = Stage::AppServer;
                    Step::AppServer
                },
            },
            Stage::AppServer => Step::AppServer,
            Stage::Relay => match relay_target(auth, config) {
                Ok((b, k)) => Step::Relay(b, k),
                Err(m) => {
                    let ghost before = self.attempted@;
                    self.attempted.push(m);
                    assert(views(self.attempted@) == views(before).push(m@));
                    self.stage = Stage::Done;
                    Step::Finished
                },
            },
            Stage::Done => Step::Finished,
        }
    }

    /// The outcome of the source just tried: `None` for success, which ends
    /// the chain; otherwise the failure is recorded and the next source is due.
    pub fn report(&mut self, failure: Option<String>)
        ensures
            failure is None ==> final(self).stage == Stage::Done && final(self).succeeded
                && final(self).attempted@ == old(self).attempted@,
            failure matches Some(e) ==> final(self).stage == stage_after(old(self).stage)
                && final(self).succeeded == old(self).succeeded
                && views(final(self).attempted@) == views(old(self).attempted@).push(e@),
    {
        match failure {
            None => {
                self.stage = Stage::Done;
                self.succeeded = true;
            },
            Some(e) => {
                let ghost before = self.attempted@;
                self.attempted.push(e);
                assert(views(self.attempted@) == views(before).push(e@));
                self.stage = match self.stage {
                    Stage::Rest => Stage::AppServer,
                    Stage::AppServer => Stage::Relay,
                    _ => Stage::Done,
                };
            },
        }
    }
}

/// The REST attempt of `rest_plan`, over views.
pub open spec fn rest_plan_spec(auth: Option<&Auth>) -> Result<Seq<char>, Seq<char>> {
    match auth {
        None => Err("rest: auth.json 不可读"@),
        Some(a) => match a.access_token {
            Some(t) => Ok(t@),
            None => Err("rest: 无 access_token（非 OAuth 登录态）"@),
        },
    }
}

/// The fallback order: direct REST, then the local app-server, then the
/// relay, then done; a finished chain stays finished.
pub proof fn lemma_fallback_order()
    ensures
        stage_after(Stage::Rest) == Stage::AppServer,
        stage_after(Stage::AppServer) == Stage::Relay,
        stage_after(Stage::Relay) == Stage::Done,
        stage_after(Stage::Done) == Stage::Done,
{
}

} // verus!
