use gpt_hp_bar::account::Auth;
use gpt_hp_bar::fetch::{FetchChain, Stage, Step};
use gpt_hp_bar::fetch::{
    any_network_error, credentials, fill_identity, join_errors, relay_error, relay_target,
    relay_urls, rest_plan,
};

fn auth(token: Option<&str>, key: Option<&str>) -> Auth {
    Auth {
        access_token: token.map(String::from),
        api_key: key.map(String::from),
        id_token: None,
    }
}

#[test]
fn credentials_come_from_auth_and_config() {
    let a = auth(Some("t"), None);
    let c = (Some("https://r".to_string()), None);
    let cr = credentials(Some(&a), Some(&c));
    assert!(cr.has_login && cr.has_base && !cr.has_key);
    let a = auth(None, Some("k"));
    let cr = credentials(Some(&a), None);
    assert!(!cr.has_login && !cr.has_base && cr.has_key);
    let cr = credentials(None, None);
    assert!(!cr.has_login && !cr.has_base && !cr.has_key);
}

#[test]
fn relay_target_prefers_config_bearer() {
    let a = auth(None, Some("api"));
    let c = (Some("https://r".to_string()), Some("bearer".to_string()));
    assert_eq!(relay_target(Some(&a), Some(&c)), Ok(("https://r".to_string(), "bearer".to_string())));
    let c = (Some("https://r".to_string()), None);
    assert_eq!(relay_target(Some(&a), Some(&c)), Ok(("https://r".to_string(), "api".to_string())));
    assert_eq!(relay_target(Some(&a), None), Err("relay: 无 base_url 或密钥".to_string()));
}

#[test]
fn rest_plan_needs_an_access_token() {
    assert_eq!(rest_plan(Some(&auth(Some("t"), None))), Ok("t".to_string()));
    assert_eq!(
        rest_plan(Some(&auth(None, Some("k")))),
        Err("rest: 无 access_token（非 OAuth 登录态）".to_string())
    );
    assert_eq!(rest_plan(None), Err("rest: auth.json 不可读".to_string()));
}

#[test]
fn relay_urls_trim_trailing_slashes() {
    assert_eq!(
        relay_urls("https://relay.example//"),
        vec![
            "https://relay.example/backend-api/wham/usage".to_string(),
            "https://relay.example/wham/usage".to_string()
        ]
    );
    assert_eq!(relay_urls("http://h")[1], "http://h/wham/usage");
    assert_eq!(relay_error("boom"), "relay: boom");
}

#[test]
fn attempted_failures_are_joined_and_classified() {
    let attempted = vec![
        "rest: auth.json 不可读".to_string(),
        "https://x -> HTTP 503".to_string(),
    ];
    assert_eq!(join_errors(&attempted), "rest: auth.json 不可读；https://x -> HTTP 503");
    assert!(any_network_error(&attempted));
    let quiet = vec!["relay: https://x -> HTTP 404".to_string()];
    assert!(!any_network_error(&quiet));
    assert_eq!(join_errors(&quiet), "relay: https://x -> HTTP 404");
    assert_eq!(join_errors(&vec![]), "");
}

#[test]
fn identity_fill_keeps_reported_values() {
    let r = fill_identity(Some("pro".into()), None, (Some("free".into()), Some("e@x".into())));
    assert_eq!(r, (Some("pro".to_string()), Some("e@x".to_string())));
    assert_eq!(fill_identity(None, None, (None, None)), (None, None));
}

#[test]
fn chain_tries_sources_in_order_and_records_each_failure() {
    // nothing configured: rest skipped, app-server fails, relay skipped
    let mut chain = FetchChain::new();
    assert!(matches!(chain.next_step(None, None), Step::AppServer));
    chain.report(Some("app-server: 未取得 rateLimits 结果".to_string()));
    assert_eq!(chain.stage, Stage::Relay);
    assert!(matches!(chain.next_step(None, None), Step::Finished));
    assert!(!chain.succeeded);
    assert_eq!(
        chain.attempted,
        vec![
            "rest: auth.json 不可读".to_string(),
            "app-server: 未取得 rateLimits 结果".to_string(),
            "relay: 无 base_url 或密钥".to_string()
        ]
    );

    // login present: rest first; its success ends the chain
    let a = auth(Some("tok"), None);
    let mut chain = FetchChain::new();
    match chain.next_step(Some(&a), None) {
        Step::Rest(t) => assert_eq!(t, "tok"),
        other => panic!("unexpected {other:?}"),
    }
    chain.report(None);
    assert!(chain.succeeded);
    assert!(matches!(chain.next_step(Some(&a), None), Step::Finished));
    assert!(chain.attempted.is_empty());

    // relay configured: reached after two failures
    let c = (Some("https://r".to_string()), Some("k".to_string()));
    let mut chain = FetchChain::new();
    assert!(matches!(chain.next_step(Some(&a), Some(&c)), Step::Rest(_)));
    chain.report(Some("https://chatgpt.com -> HTTP 503".to_string()));
    assert!(matches!(chain.next_step(Some(&a), Some(&c)), Step::AppServer));
    chain.report(Some("app-server: 无法启动 codex".to_string()));
    match chain.next_step(Some(&a), Some(&c)) {
        Step::Relay(b, k) => assert_eq!((b.as_str(), k.as_str()), ("https://r", "k")),
        other => panic!("unexpected {other:?}"),
    }
    chain.report(Some("relay: https://r/wham/usage -> HTTP 404".to_string()));
    assert_eq!(chain.stage, Stage::Done);
    assert_eq!(chain.attempted.len(), 3);
}
