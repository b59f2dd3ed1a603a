use gpt_hp_bar::status::{classify_status, looks_like_network_error};

// classify_status argument order: ok, has_login, has_base, has_key, network_error

#[test]
fn status_ok_wins() {
    assert_eq!(classify_status(true, false, false, false, true), "ok");
    assert_eq!(classify_status(true, true, true, true, false), "ok");
}

#[test]
fn status_no_login_beats_network_heuristic() {
    // no credentials at all: even a timeout-like failure means "log in first"
    assert_eq!(classify_status(false, false, false, false, true), "no_login");
    assert_eq!(classify_status(false, false, false, false, false), "no_login");
    // a base URL but neither login nor key: still no credentials
    assert_eq!(classify_status(false, false, true, false, true), "no_login");
}

#[test]
fn status_no_relay_when_key_without_base() {
    assert_eq!(classify_status(false, false, false, true, false), "no_relay");
    // a missing base URL comes first even with a network failure
    assert_eq!(classify_status(false, false, false, true, true), "no_relay");
}

#[test]
fn status_network_only_after_credentials_ok() {
    assert_eq!(classify_status(false, true, true, false, true), "network");
    assert_eq!(classify_status(false, true, true, true, true), "network");
}

#[test]
fn status_none_when_configured_but_failed() {
    assert_eq!(classify_status(false, true, true, true, false), "none");
    assert_eq!(classify_status(false, true, true, false, false), "none");
}

#[test]
fn status_section_4_hard_guarantee_and_relay_ordering() {
    // relay fully configured, no OAuth, relay 404 (not network) -> log in
    assert_eq!(classify_status(false, false, true, true, false), "no_login");
    // relay-only with a network failure -> retry
    assert_eq!(classify_status(false, false, true, true, true), "network");
    // OAuth and key but no base URL -> relay address missing
    assert_eq!(classify_status(false, true, false, true, false), "no_relay");
}

#[test]
fn network_error_detection() {
    assert!(looks_like_network_error("https://x/y: error sending request: timed out"));
    assert!(looks_like_network_error("https://x/y -> HTTP 503"));
    assert!(looks_like_network_error("connection refused"));
    assert!(!looks_like_network_error("https://x/y -> HTTP 404"));
    assert!(!looks_like_network_error("rest: auth.json 无 tokens.access_token"));
}

#[test]
fn network_detection_ignores_ascii_case() {
    assert!(looks_like_network_error("Operation TIMED OUT"));
    assert!(looks_like_network_error("DNS error"));
    assert!(looks_like_network_error("x -> HTTP 502"));
    assert!(looks_like_network_error("x -> HTTP 500"));
    assert!(looks_like_network_error("x -> http 504"));
    assert!(looks_like_network_error("Connection Reset by peer"));
    assert!(looks_like_network_error("connection closed before message completed"));
    assert!(looks_like_network_error("Temporary failure in name resolution"));
    assert!(looks_like_network_error("network unreachable"));
    assert!(looks_like_network_error("request timeout"));
    assert!(!looks_like_network_error(""));
    assert!(looks_like_network_error("Http 501"));
    assert!(!looks_like_network_error("HTTP 401"));
    assert!(!looks_like_network_error("app-server: 未取得 rateLimits 结果"));
}

#[test]
fn status_law_no_credentials_is_no_login_for_every_rest() {
    for has_base in [false, true] {
        for net in [false, true] {
            assert_eq!(classify_status(false, false, has_base, false, net), "no_login");
        }
    }
}

#[test]
fn status_law_ok_wins_for_every_rest() {
    for a in [false, true] {
        for b in [false, true] {
            for c in [false, true] {
                for d in [false, true] {
                    assert_eq!(classify_status(true, a, b, c, d), "ok");
                }
            }
        }
    }
}

#[test]
fn status_law_network_and_none_need_credentials() {
    for ok in [false, true] {
        for login in [false, true] {
            for base in [false, true] {
                for key in [false, true] {
                    for net in [false, true] {
                        let s = classify_status(ok, login, base, key, net);
                        assert!(["ok", "no_relay", "no_login", "network", "none"].contains(&s));
                        if s == "network" {
                            assert!(net && (login || (key && base)));
                        }
                        if s == "none" {
                            assert!(login && !net);
                        }
                    }
                }
            }
        }
    }
}

#[test]
fn every_http_5xx_counts_as_network() {
    for code in 500..600 {
        assert!(looks_like_network_error(&format!("https://x/y -> HTTP {}", code)), "{code}");
    }
    assert!(looks_like_network_error("relay: HTTP 501 not implemented"));
    assert!(!looks_like_network_error("https://x/y -> HTTP 5"));
    assert!(!looks_like_network_error("https://x/y -> HTTP 5x"));
    assert!(!looks_like_network_error("https://x/y -> HTTP 429"));
}
