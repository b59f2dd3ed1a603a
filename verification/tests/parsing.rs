use gpt_hp_bar::account::{auth_from_json, config_from_toml, identity_from_id_token};
use gpt_hp_bar::doc::Doc;
use gpt_hp_bar::fetch::RpcReplies;
use gpt_hp_bar::parse::parse_json;

#[test]
fn json_text_becomes_a_document() {
    let d = parse_json(r#"{"a": [1, "x", true, null], "b": {"c": 2.5}}"#).unwrap();
    match d.get("a") {
        Some(Doc::Array(items)) => {
            assert!(matches!(&items[0], Doc::Scalar(t) if t == "1"));
            assert!(matches!(&items[1], Doc::Str(t) if t == "x"));
            assert!(matches!(&items[2], Doc::Bool(true)));
            assert!(matches!(&items[3], Doc::Null));
        }
        other => panic!("unexpected {:?}", other),
    }
    assert!(matches!(d.get("b").and_then(|b| b.get("c")), Some(Doc::Scalar(t)) if t == "2.5"));
    assert!(parse_json("{not json").is_none());
    assert!(parse_json("").is_none());
}

#[test]
fn auth_json_text_gives_credentials() {
    let a = auth_from_json(r#"{"OPENAI_API_KEY": null, "tokens": {"access_token": "tok", "id_token": "idt"}}"#).unwrap();
    assert_eq!(a.access_token.as_deref(), Some("tok"));
    assert_eq!(a.id_token.as_deref(), Some("idt"));
    assert_eq!(a.api_key, None);
    let a = auth_from_json(r#"{"OPENAI_API_KEY": "sk-1"}"#).unwrap();
    assert_eq!(a.api_key.as_deref(), Some("sk-1"));
    assert_eq!(a.access_token, None);
    assert!(auth_from_json("tokens = 1").is_none());
}

#[test]
fn config_toml_text_gives_the_active_provider() {
    let text = "model_provider = \"r\"\n\n[model_providers.o]\nbase_url = \"https://o\"\n\n[model_providers.r]\nbase_url = \"https://r/v1\"\nexperimental_bearer_token = \"k\"\n";
    let (base, bearer) = config_from_toml(text).unwrap();
    assert_eq!(base.as_deref(), Some("https://r/v1"));
    assert_eq!(bearer.as_deref(), Some("k"));
    let (base, bearer) = config_from_toml("base_url = \"https://top\"\n").unwrap();
    assert_eq!(base.as_deref(), Some("https://top"));
    assert_eq!(bearer, None);
    assert!(config_from_toml("base_url = ").is_none());
}

#[test]
fn id_token_gives_plan_and_email() {
    let token = "h.eyJlbWFpbCI6ImFAYi5jIiwiaHR0cHM6Ly9hcGkub3BlbmFpLmNvbS9hdXRoIjp7ImNoYXRncHRfcGxhbl90eXBlIjoicGx1cyJ9fQ.sig";
    assert_eq!(identity_from_id_token(token), (Some("plus".to_string()), Some("a@b.c".to_string())));
    // decodes, but is not JSON
    assert_eq!(identity_from_id_token("h.bm90IGpzb24.sig"), (None, None));
    // no payload segment / not base64url
    assert_eq!(identity_from_id_token("nodots"), (None, None));
    assert_eq!(identity_from_id_token("h.!!.s"), (None, None));
}

#[test]
fn reply_lines_are_parsed_and_absorbed() {
    let mut r = RpcReplies::new();
    assert!(!r.absorb_line("not json"));
    assert!(r.account.is_none() && r.rate.is_none());
    assert!(!r.absorb_line(r#"{"id": 1, "result": {}}"#));
    assert!(r.account.is_none() && r.rate.is_none());
    assert!(!r.absorb_line(r#"{"id": 2, "result": {"plan": "pro"}}"#));
    assert!(matches!(r.account.as_ref().and_then(|a| a.get("plan")), Some(Doc::Str(p)) if p == "pro"));
    assert!(r.absorb_line(r#"{"jsonrpc": "2.0", "id": 3, "result": {"rate_limits": {}}}"#));
    assert!(r.rate.is_some());
}
