//! Local account facts: auth.json credentials, the active provider of
//! config.toml, and the identity (plan, e-mail) carried by the ID token.
use vstd::prelude::*;
use vstd::string::StringSliceAdditionalSpecFns;
use crate::base64url::{b64url_decode, b64url_spec};
use crate::parse::{json_bytes_doc, json_text_doc, serde_json_from_slice, serde_json_from_str, toml_from_str, toml_text_doc};
use crate::doc::{Doc, get_in, get_opt, get_spec, lookup, opt_ref, opt_view, str_in, str_spec};
use crate::text::{chars_of, str_eq};

verus! {

/// The three shapes of auth.json: an OAuth login (`tokens.access_token`), a
/// plain API key, or nothing.
#[derive(Clone, Debug)]
pub struct Auth {
    pub access_token: Option<String>,
    pub api_key: Option<String>,
    pub id_token: Option<String>,
}

/// An API key counts only when it is neither empty nor the text `null`.
pub open spec fn usable_key(s: Option<Seq<char>>) -> Option<Seq<char>> {
    match s {
        Some(k) => if k.len() > 0 && k != "null"@ {
            Some(k)
        } else {
            None
        },
        None => None,
    }
}

pub open spec fn auth_access_token(v: Doc) -> Option<Seq<char>> {
    str_spec(get_opt(get_spec(v, "tokens"@), "access_token"@))
}

pub open spec fn auth_api_key(v: Doc) -> Option<Seq<char>> {
    usable_key(str_spec(get_spec(v, "OPENAI_API_KEY"@)))
}

pub open spec fn auth_id_token(v: Doc) -> Option<Seq<char>> {
    str_spec(get_opt(get_spec(v, "tokens"@), "id_token"@))
}

/// Credentials of a parsed auth.json.
pub fn auth_from_doc(v: &Doc) -> (r: Auth)
    ensures
        opt_view(r.access_token) == auth_access_token(*v),
        opt_view(r.api_key) == auth_api_key(*v),
        opt_view(r.id_token) == auth_id_token(*v),
{
    let tokens = v.get("tokens");
    let access_token = str_in(get_in(tokens, "access_token"));
    let id_token = str_in(get_in(tokens, "id_token"));
    let key = str_in(v.get("OPENAI_API_KEY"));
    let api_key = match key {
        Some(k) => {
            if k.as_str().is_empty() || str_eq(k.as_str(), "null") {
                None
            } else {
                Some(k)
            }
        },
        None => None,
    };
    Auth { access_token, api_key, id_token }
}

/// Credentials of auth.json's text; `None` when it is not valid JSON.
pub fn auth_from_json(text: &str) -> (r: Option<Auth>)
    ensures
        r is Some == json_text_doc(text@) is Some,
        r matches Some(a) ==> {
            let d = json_text_doc(text@)->0;
            &&& opt_view(a.access_token) == auth_access_token(d)
            &&& opt_view(a.api_key) == auth_api_key(d)
            &&& opt_view(a.id_token) == auth_id_token(d)
        },
{
    match serde_json_from_str(text) {
        Some(d) => Some(auth_from_doc(&d)),
        None => None,
    }
}

/// The first entry whose value has a member `key`.
pub open spec fn first_having(entries: Seq<(String, Doc)>, key: Seq<char>) -> Option<Doc>
    decreases entries.len(),
{
    if entries.len() == 0 {
        None
    } else if get_spec(entries[0].1, key) is Some {
        Some(entries[0].1)
    } else {
        first_having(entries.drop_first(), key)
    }
}

/// The provider table to read: the one named by `model_provider`, else the
/// first provider that has a `base_url`.
pub open spec fn provider_pick(v: Doc) -> Option<Doc> {
    let providers = get_spec(v, "model_providers"@);
    let by_name = match (str_spec(get_spec(v, "model_provider"@)), providers) {
        (Some(n), Some(Doc::Object(t))) => lookup(t@, n),
        _ => None,
    };
    if by_name is Some {
        by_name
    } else {
        match providers {
            Some(Doc::Object(t)) => first_having(t@, "base_url"@),
            _ => None,
        }
    }
}

/// `(base_url, bearer)` of config.toml: the top-level values, each missing
/// one taken from the picked provider.
pub open spec fn config_spec(v: Doc) -> (Option<Seq<char>>, Option<Seq<char>>) {
    let base = str_spec(get_spec(v, "base_url"@));
    let bearer = str_spec(get_spec(v, "experimental_bearer_token"@));
    if base is Some && bearer is Some {
        (base, bearer)
    } else {
        match provider_pick(v) {
            None => (base, bearer),
            Some(p) => (
                if base is Some {
                    base
                } else {
                    str_spec(get_spec(p, "base_url"@))
                },
                if bearer is Some {
                    bearer
                } else {
                    str_spec(get_spec(p, "experimental_bearer_token"@))
                },
            ),
        }
    }
}

fn first_provider_with<'a>(entries: &'a Vec<(String, Doc)>, key: &str) -> (r: Option<&'a Doc>)
    ensures
        opt_ref(r) == first_having(entries@, key@),
{
    let mut i: usize = 0;
    assert(entries@.skip(0) == entries@);
    while i < entries.len()
        invariant
            i <= entries.len(),
            first_having(entries@, key@) == first_having(entries@.skip(i as int), key@),
        decreases entries.len() - i,
    {
        assert(entries@.skip(i as int)[0] == entries@[i as int]);
        assert(entries@.skip(i as int).drop_first() == entries@.skip(i as int + 1));
        if entries[i].1.get(key).is_some() {
            return Some(&entries[i].1);
        }
        i += 1;
    }
    None
}

/// The active provider of a parsed config.toml: `(base_url, bearer)`.
/// Secret values are only passed on, never shown.
pub fn config_from_doc(v: &Doc) -> (r: (Option<String>, Option<String>))
    ensures
        opt_view(r.0) == config_spec(*v).0,
        opt_view(r.1) == config_spec(*v).1,
{
    let mut base = str_in(v.get("base_url"));
    let mut bearer = str_in(v.get("experimental_bearer_token"));
    if base.is_none() || bearer.is_none() {
        let providers = v.get("model_providers");
        let active = str_in(v.get("model_provider"));
        let mut pick: Option<&Doc> = None;
        if let Some(Doc::Object(t)) = providers {
            if let Some(n) = &active {
                let mut found: Option<&Doc> = None;
                let mut i: usize = 0;
                assert(t@.skip(0) == t@);
                while i < t.len()
                    invariant_except_break
                        found is None,
                    invariant
                        i <= t.len(),
                        lookup(t@, n@) == lookup(t@.skip(i as int), n@),
                    ensures
                        opt_ref(found) == lookup(t@, n@),
                    decreases t.len() - i,
                {
                    assert(t@.skip(i as int)[0] == t@[i as int]);
                    assert(t@.skip(i as int).drop_first() == t@.skip(i as int + 1));
                    if str_eq(t[i].0.as_str(), n.as_str()) {
                        found = Some(&t[i].1);
                        break;
                    }
                    i += 1;
                }
                pick = found;
            }
            if pick.is_none() {
                pick = first_provider_with(t, "base_url");
            }
        }
        assert(opt_ref(pick) == provider_pick(*v));
        if let Some(p) = pick {
            if base.is_none() {
                base = str_in(p.get("base_url"));
            }
            if bearer.is_none() {
                bearer = str_in(p.get("experimental_bearer_token"));
            }
        }
    }
    (base, bearer)
}

/// Relay base URL and bearer of config.toml's text; `None` when it is not
/// valid TOML.
pub fn config_from_toml(text: &str) -> (r: Option<(Option<String>, Option<String>)>)
    ensures
        r is Some == toml_text_doc(text@) is Some,
        r matches Some(c) ==> (opt_view(c.0), opt_view(c.1)) == config_spec(toml_text_doc(text@)->0),
{
    match toml_from_str(text) {
        Some(d) => {
            let c = config_from_doc(&d);
            Some(c)
        },
        None => None,
    }
}

/// Plan and e-mail of the ID token claims: the plan from the OpenAI auth
/// claim, else top level; the e-mail from top level, else the auth claim.
pub open spec fn identity_spec(p: Doc) -> (Option<Seq<char>>, Option<Seq<char>>) {
    let auth = get_spec(p, "https://api.openai.com/auth"@);
    let plan = match str_spec(get_opt(auth, "chatgpt_plan_type"@)) {
        Some(s) => Some(s),
        None => str_spec(get_spec(p, "chatgpt_plan_type"@)),
    };
    let email = match str_spec(get_spec(p, "email"@)) {
        Some(s) => Some(s),
        None => str_spec(get_opt(auth, "email"@)),
    };
    (plan, email)
}

/// Plan and e-mail from the decoded ID token claims (`None` claims give neither).
pub fn identity_from_claims(p: Option<&Doc>) -> (r: (Option<String>, Option<String>))
    ensures
        p is None ==> r.0 is None && r.1 is None,
        p matches Some(d) ==> opt_view(r.0) == identity_spec(*d).0 && opt_view(r.1) == identity_spec(*d).1,
{
    match p {
        None => (None, None),
        Some(p) => {
            let auth = p.get("https://api.openai.com/auth");
            let mut plan = str_in(get_in(auth, "chatgpt_plan_type"));
            if plan.is_none() {
                plan = str_in(p.get("chatgpt_plan_type"));
            }
            let mut email = str_in(p.get("email"));
            if email.is_none() {
                email = str_in(get_in(auth, "email"));
            }
            (plan, email)
        },
    }
}

/// Index of the first `.` in `s`, or its length when there is none.
pub open spec fn first_dot(s: Seq<char>) -> int
    decreases s.len(),
{
    if s.len() == 0 || s[0] == '.' {
        0
    } else {
        1 + first_dot(s.drop_first())
    }
}

/// The second `.`-separated segment of a JWT (its payload); `None` without a `.`.
pub open spec fn jwt_payload_segment(t: Seq<char>) -> Option<Seq<char>> {
    let d = first_dot(t);
    if d >= t.len() {
        None
    } else {
        let rest = t.skip(d + 1);
        Some(rest.take(first_dot(rest)))
    }
}

proof fn lemma_first_dot(s: Seq<char>, k: int)
    requires
        0 <= k <= s.len(),
        forall|j: int| 0 <= j < k ==> s[j] != '.',
        k == s.len() || s[k] == '.',
    ensures
        first_dot(s) == k,
    decreases k,
{
    if k > 0 {
        lemma_first_dot(s.drop_first(), k - 1);
    }
}

fn find_dot(s: &Vec<char>, from: usize) -> (k: usize)
    requires
        from <= s.len(),
    ensures
        from <= k <= s.len(),
        first_dot(s@.skip(from as int)) == k - from,
{
    let mut k = from;
    while k < s.len() && s[k] != '.'
        invariant
            from <= k <= s.len(),
            forall|j: int| from <= j < k ==> s@[j] != '.',
        decreases s.len() - k,
    {
        k += 1;
    }
    proof {
        lemma_first_dot(s@.skip(from as int), k - from);
    }
    k
}

/// The decoded payload bytes of a JWT (its second `.`-separated segment,
/// base64url); `None` without a `.` or when the segment does not decode.
pub fn id_token_payload(id_token: &str) -> (r: Option<Vec<u8>>)
    ensures
        jwt_payload_segment(id_token@) is None ==> r is None,
        jwt_payload_segment(id_token@) matches Some(seg) ==> (r is Some == b64url_spec(
            vstd::utf8::encode_utf8(seg),
        ) is Some && (r matches Some(o) ==> b64url_spec(vstd::utf8::encode_utf8(seg)) == Some(
            o@,
        ))),
{
    let cs = chars_of(id_token);
    let d1 = find_dot(&cs, 0);
    assert(cs@.skip(0) == cs@);
    if d1 >= cs.len() {
        return None;
    }
    let d2 = find_dot(&cs, d1 + 1);
    assert(cs@.skip(d1 + 1).take(d2 - (d1 + 1)) == cs@.subrange(d1 + 1, d2 as int));
    let seg = id_token.substring_char(d1 + 1, d2);
    b64url_decode(seg)
}

/// The claims of an ID token: its payload segment, base64url-decoded and
/// parsed as JSON.
pub open spec fn id_token_claims(t: Seq<char>) -> Option<Doc> {
    match jwt_payload_segment(t) {
        Some(seg) => match b64url_spec(vstd::utf8::encode_utf8(seg)) {
            Some(b) => json_bytes_doc(b),
            None => None,
        },
        None => None,
    }
}

/// Plan and e-mail of an ID token; neither when the token has no payload
/// segment, it does not decode or it is not JSON.
pub fn identity_from_id_token(id_token: &str) -> (r: (Option<String>, Option<String>))
    ensures
        id_token_claims(id_token@) is None ==> r.0 is None && r.1 is None,
        id_token_claims(id_token@) matches Some(d) ==> opt_view(r.0) == identity_spec(d).0
            && opt_view(r.1) == identity_spec(d).1,
{
    match id_token_payload(id_token) {
        Some(b) => {
            let claims = serde_json_from_slice(b.as_slice());
            identity_from_claims(claims.as_ref())
        },
        None => (None, None),
    }
}

proof fn lemma_first_having_at(entries: Seq<(String, Doc)>, key: Seq<char>, k: int)
    requires
        0 <= k < entries.len(),
        get_spec(entries[k].1, key) is Some,
        forall|j: int| 0 <= j < k ==> get_spec(#[trigger] entries[j].1, key) is None,
    ensures
        first_having(entries, key) == Some(entries[k].1),
    decreases k,
{
    if k > 0 {
        let t = entries.drop_first();
        assert(get_spec(entries[0].1, key) is None);
        assert forall|j: int| 0 <= j < k - 1 implies get_spec(#[trigger] t[j].1, key) is None by {
            assert(t[j] == entries[j + 1]);
        }
        assert(t[k - 1] == entries[k]);
        lemma_first_having_at(t, key, k - 1);
    }
}

/// Provider fallback of config.toml: without a top-level `base_url`, and
/// when `model_provider` is missing or names no provider, the base URL is
/// that of the first provider table that has one; so is the bearer when
/// there is no top-level bearer.
pub proof fn lemma_config_first_provider(v: Doc, t: Vec<(String, Doc)>, k: int)
    requires
        get_spec(v, "model_providers"@) == Some(Doc::Object(t)),
        str_spec(get_spec(v, "base_url"@)) is None,
        match str_spec(get_spec(v, "model_provider"@)) {
            None => true,
            Some(n) => lookup(t@, n) is None,
        },
        0 <= k < t@.len(),
        get_spec(t@[k].1, "base_url"@) is Some,
        forall|j: int| 0 <= j < k ==> get_spec(#[trigger] t@[j].1, "base_url"@) is None,
    ensures
        config_spec(v).0 == str_spec(get_spec(t@[k].1, "base_url"@)),
        str_spec(get_spec(v, "experimental_bearer_token"@)) is None ==> config_spec(v).1 == str_spec(
            get_spec(t@[k].1, "experimental_bearer_token"@),
        ),
{
    lemma_first_having_at(t@, "base_url"@, k);
    assert(provider_pick(v) == Some(t@[k].1));
}

} // verus!
