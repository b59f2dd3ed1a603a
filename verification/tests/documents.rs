use gpt_hp_bar::account::{auth_from_doc, config_from_doc, id_token_payload, identity_from_claims};
use gpt_hp_bar::base64url::b64url_decode;
use gpt_hp_bar::doc::Doc;
use gpt_hp_bar::fetch::{account_identity, RpcReplies};
use gpt_hp_bar::usage::{wham_credits, wham_windows, Credits};

fn s(v: &str) -> Doc {
    Doc::Str(v.to_string())
}

fn obj(entries: Vec<(&str, Doc)>) -> Doc {
    Doc::Object(entries.into_iter().map(|(k, v)| (k.to_string(), v)).collect())
}

fn text(d: Option<&Doc>) -> Option<String> {
    match d {
        Some(Doc::Str(t)) => Some(t.clone()),
        Some(Doc::Scalar(t)) => Some(t.clone()),
        _ => None,
    }
}

#[test]
fn b64url_decodes_groups_and_partial_groups() {
    assert_eq!(b64url_decode("eyJhIjoxfQ"), Some(b"{\"a\":1}".to_vec()));
    assert_eq!(b64url_decode("TWFu"), Some(b"Man".to_vec()));
    assert_eq!(b64url_decode("TWE"), Some(b"Ma".to_vec()));
    assert_eq!(b64url_decode("TQ"), Some(b"M".to_vec()));
    assert_eq!(b64url_decode("T"), Some(vec![]));
    assert_eq!(b64url_decode(""), Some(vec![]));
    // url-safe alphabet: '-' is 62, '_' is 63
    assert_eq!(b64url_decode("-_-_"), Some(vec![0xfb, 0xff, 0xbf]));
}

#[test]
fn b64url_stops_at_padding_and_rejects_foreign_bytes() {
    assert_eq!(b64url_decode("TQ=="), Some(b"M".to_vec()));
    assert_eq!(b64url_decode("TQ==!!!"), Some(b"M".to_vec()));
    assert_eq!(b64url_decode("TQ+/"), None);
    assert_eq!(b64url_decode("T Q"), None);
    assert_eq!(b64url_decode("é"), None);
}

#[test]
fn id_token_payload_takes_the_second_segment() {
    assert_eq!(id_token_payload("hdr.eyJhIjoxfQ.sig"), Some(b"{\"a\":1}".to_vec()));
    assert_eq!(id_token_payload("hdr.eyJhIjoxfQ"), Some(b"{\"a\":1}".to_vec()));
    assert_eq!(id_token_payload("no-dots"), None);
    assert_eq!(id_token_payload("hdr..sig"), Some(vec![]));
    assert_eq!(id_token_payload("hdr.!!.sig"), None);
}

#[test]
fn identity_prefers_auth_claim_plan_and_top_level_email() {
    let claims = obj(vec![
        ("email", s("top@example.com")),
        ("chatgpt_plan_type", s("free")),
        (
            "https://api.openai.com/auth",
            obj(vec![("chatgpt_plan_type", s("plus")), ("email", s("inner@example.com"))]),
        ),
    ]);
    let (plan, email) = identity_from_claims(Some(&claims));
    assert_eq!(plan.as_deref(), Some("plus"));
    assert_eq!(email.as_deref(), Some("top@example.com"));

    let claims = obj(vec![
        ("chatgpt_plan_type", s("free")),
        ("https://api.openai.com/auth", obj(vec![("email", s("inner@example.com"))])),
    ]);
    let (plan, email) = identity_from_claims(Some(&claims));
    assert_eq!(plan.as_deref(), Some("free"));
    assert_eq!(email.as_deref(), Some("inner@example.com"));

    assert_eq!(identity_from_claims(None), (None, None));
    let (plan, email) = identity_from_claims(Some(&Doc::Null));
    assert_eq!((plan, email), (None, None));
}

#[test]
fn auth_reads_oauth_tokens_and_usable_api_key() {
    let v = obj(vec![
        ("tokens", obj(vec![("access_token", s("AT")), ("id_token", s("IT"))])),
        ("OPENAI_API_KEY", Doc::Null),
    ]);
    let a = auth_from_doc(&v);
    assert_eq!(a.access_token.as_deref(), Some("AT"));
    assert_eq!(a.id_token.as_deref(), Some("IT"));
    assert_eq!(a.api_key, None);

    let v = obj(vec![("OPENAI_API_KEY", s("sk-1"))]);
    let a = auth_from_doc(&v);
    assert_eq!(a.api_key.as_deref(), Some("sk-1"));
    assert_eq!(a.access_token, None);

    for bad in ["", "null"] {
        let v = obj(vec![("OPENAI_API_KEY", s(bad))]);
        assert_eq!(auth_from_doc(&v).api_key, None);
    }
}

#[test]
fn config_fills_missing_values_from_the_active_provider() {
    let v = obj(vec![
        ("model_provider", s("b")),
        (
            "model_providers",
            obj(vec![
                ("a", obj(vec![("base_url", s("https://a")), ("experimental_bearer_token", s("ka"))])),
                ("b", obj(vec![("base_url", s("https://b")), ("experimental_bearer_token", s("kb"))])),
            ]),
        ),
    ]);
    let (base, bearer) = config_from_doc(&v);
    assert_eq!(base.as_deref(), Some("https://b"));
    assert_eq!(bearer.as_deref(), Some("kb"));

    // top-level values win; only the missing bearer comes from the provider
    let v = obj(vec![
        ("base_url", s("https://top")),
        ("model_provider", s("a")),
        ("model_providers", obj(vec![("a", obj(vec![("base_url", s("https://a")), ("experimental_bearer_token", s("ka"))]))])),
    ]);
    let (base, bearer) = config_from_doc(&v);
    assert_eq!(base.as_deref(), Some("https://top"));
    assert_eq!(bearer.as_deref(), Some("ka"));
}

#[test]
fn config_without_named_provider_takes_first_with_base_url() {
    let v = obj(vec![
        ("model_provider", s("missing")),
        (
            "model_providers",
            obj(vec![
                ("a", obj(vec![("experimental_bearer_token", s("ka"))])),
                ("b", obj(vec![("base_url", s("https://b"))])),
            ]),
        ),
    ]);
    let (base, bearer) = config_from_doc(&v);
    assert_eq!(base.as_deref(), Some("https://b"));
    assert_eq!(bearer, None);
    assert_eq!(config_from_doc(&Doc::Null), (None, None));
}

#[test]
fn wham_windows_accept_both_spellings() {
    let v = obj(vec![(
        "rate_limits",
        obj(vec![("primary_window", s("P")), ("secondary", s("S"))]),
    )]);
    let (p, q) = wham_windows(&v);
    assert_eq!(text(p).as_deref(), Some("P"));
    assert_eq!(text(q).as_deref(), Some("S"));

    let v = obj(vec![("rate_limit", obj(vec![("primary", s("P2"))]))]);
    let (p, q) = wham_windows(&v);
    assert_eq!(text(p).as_deref(), Some("P2"));
    assert!(q.is_none());

    let (p, q) = wham_windows(&Doc::Null);
    assert!(p.is_none() && q.is_none());
}

#[test]
fn wham_credits_prefer_credits_then_balance() {
    let v = obj(vec![("credits", s("C")), ("credits_balance", s("B"))]);
    assert!(matches!(wham_credits(&v), Some(Credits::Given(Doc::Str(t))) if t == "C"));
    let v = obj(vec![("credits_balance", Doc::Scalar("12.5".to_string()))]);
    assert!(matches!(wham_credits(&v), Some(Credits::Balance(Doc::Scalar(t))) if t == "12.5"));
    assert!(wham_credits(&obj(vec![])).is_none());
}

#[test]
fn rpc_replies_keep_account_and_rate_results() {
    let mut r = RpcReplies::new();
    let init = obj(vec![("id", Doc::Scalar("1".to_string())), ("result", s("init"))]);
    assert!(!r.absorb(init));
    assert!(r.account.is_none() && r.rate.is_none());
    let acc = obj(vec![
        ("id", Doc::Scalar("2".to_string())),
        ("result", obj(vec![("plan", s("pro")), ("email", s("e@x"))])),
    ]);
    assert!(!r.absorb(acc));
    let (plan, email) = account_identity(r.account.as_ref());
    assert_eq!(plan.as_deref(), Some("pro"));
    assert_eq!(email.as_deref(), Some("e@x"));
    // a float id is not request 3
    assert!(!r.absorb(obj(vec![("id", Doc::Scalar("3.0".to_string())), ("result", s("x"))])));
    assert!(r.absorb(obj(vec![("id", Doc::Scalar("3".to_string())), ("result", s("rl"))])));
    assert_eq!(text(r.rate.as_ref()).as_deref(), Some("rl"));
    assert_eq!(account_identity(None), (None, None));
}

fn encode_b64url(b: &[u8], pad: bool) -> String {
    const A: &[u8] = b"ABCDEFGHIJKLMNOPQRSTUVWXYZabcdefghijklmnopqrstuvwxyz0123456789-_";
    let mut out = String::new();
    for chunk in b.chunks(3) {
        let x0 = chunk[0] as u32;
        let x1 = *chunk.get(1).unwrap_or(&0) as u32;
        let x2 = *chunk.get(2).unwrap_or(&0) as u32;
        let n = (x0 << 16) | (x1 << 8) | x2;
        let vals = [(n >> 18) & 63, (n >> 12) & 63, (n >> 6) & 63, n & 63];
        for v in &vals[..chunk.len() + 1] {
            out.push(A[*v as usize] as char);
        }
        if pad {
            for _ in chunk.len()..3 {
                out.push('=');
            }
        }
    }
    out
}

#[test]
fn b64url_decodes_its_encoding_back() {
    for len in 0..40usize {
        let b: Vec<u8> = (0..len).map(|i| (i * 37 + len * 11) as u8).collect();
        assert_eq!(b64url_decode(&encode_b64url(&b, false)), Some(b.clone()));
        assert_eq!(b64url_decode(&encode_b64url(&b, true)), Some(b.clone()));
    }
    let all: Vec<u8> = (0..=255u8).collect();
    assert_eq!(b64url_decode(&encode_b64url(&all, true)), Some(all));
}
