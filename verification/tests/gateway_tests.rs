use ag_gateway::api::{generate_api_key, validate_zai_fetch, FetchValidationError};
use ag_gateway::config::{
    ConfigSnapshot, ProxyConfig, SecurityConfig, UpstreamProxyConfig, ZaiConfig,
};
use ag_gateway::gate::{admin_auth_decision, admin_gate, api_key_gate, GateDecision};
use ag_gateway::oauth_flow::{
    build_token_data, require_refresh_token, validate_exchange_code, ExchangeError, TokenPair,
    TokenResponse,
};
use ag_gateway::session::SessionStore;
use ag_gateway::zai::{extract_model_ids, join_base_url, normalize_model_ids, JsonVal};

fn config(mapping: Vec<(&str, &str)>) -> ProxyConfig {
    ProxyConfig {
        custom_mapping: mapping
            .into_iter()
            .map(|(a, b)| (a.to_string(), b.to_string()))
            .collect(),
        upstream_proxy: UpstreamProxyConfig { enabled: false, url: String::new() },
        zai: ZaiConfig {
            base_url: "https://api.example.com".to_string(),
            api_key: "key-alpha-1".to_string(),
        },
        security: SecurityConfig {
            require_api_key: true,
            api_key: "key-alpha-1".to_string(),
        },
    }
}

#[test]
fn admin_gate_enforces_exemptions_and_session() {
    assert_eq!(admin_gate("/api/auth/login", false), GateDecision::Allow);
    assert_eq!(admin_gate("/api/auth/status", false), GateDecision::Allow);
    assert_eq!(admin_gate("/healthz", false), GateDecision::Allow);
    assert_eq!(admin_gate("/static/app.js", false), GateDecision::Allow);
    assert_eq!(admin_gate("/v1/messages", false), GateDecision::Allow);
    assert_eq!(
        admin_gate("/api/admin/accounts", false),
        GateDecision::Unauthorized
    );
    assert_eq!(admin_gate("/api/admin/accounts", true), GateDecision::Allow);
    assert_eq!(admin_gate("/api/admin", false), GateDecision::Allow);
}

#[test]
fn api_key_gate_covers_proxy_paths() {
    assert_eq!(api_key_gate("/v1/messages", false), GateDecision::Unauthorized);
    assert_eq!(api_key_gate("/v1/messages", true), GateDecision::Allow);
    assert_eq!(api_key_gate("/v1beta/models", false), GateDecision::Unauthorized);
    assert_eq!(api_key_gate("/api/auth/login", false), GateDecision::Allow);
    assert_eq!(api_key_gate("/healthz", false), GateDecision::Allow);
}

#[test]
fn middleware_decision_checks_cookie_session() {
    let mut sessions = SessionStore::new();
    let token = "tok-1".to_string();
    sessions.create_session(&token, 1_000);

    let good = "other=1; ag_session=tok-1";
    assert_eq!(
        admin_auth_decision("/api/admin/accounts", Some(good), &sessions, 1_001),
        GateDecision::Allow
    );
    assert_eq!(
        admin_auth_decision("/api/admin/accounts", Some(good), &sessions, 1_000 + 86_400),
        GateDecision::Unauthorized
    );
    let bad = "ag_session=unknown";
    assert_eq!(
        admin_auth_decision("/api/admin/accounts", Some(bad), &sessions, 1_001),
        GateDecision::Unauthorized
    );
    assert_eq!(
        admin_auth_decision("/api/admin/accounts", None, &sessions, 1_001),
        GateDecision::Unauthorized
    );
    // Exempt paths pass without any cookie at all.
    assert_eq!(
        admin_auth_decision("/api/auth/status", None, &sessions, 1_001),
        GateDecision::Allow
    );
}

#[test]
fn hot_reload_swaps_single_fields() {
    let mut snapshot = ConfigSnapshot::from_config(&config(vec![("gpt", "upstream-a")]));
    assert_eq!(
        snapshot.mapped_model(&"gpt".to_string()),
        Some("upstream-a".to_string())
    );
    assert_eq!(snapshot.mapped_model(&"other".to_string()), None);

    snapshot.update_mapping(&config(vec![("gpt", "upstream-b")]));
    assert_eq!(
        snapshot.mapped_model(&"gpt".to_string()),
        Some("upstream-b".to_string())
    );

    snapshot.update_proxy(UpstreamProxyConfig {
        enabled: true,
        url: "http://proxy:8080".to_string(),
    });
    // The mapping survives an unrelated update.
    assert_eq!(
        snapshot.mapped_model(&"gpt".to_string()),
        Some("upstream-b".to_string())
    );
}

#[test]
fn api_key_policy_is_checked() {
    let snapshot = ConfigSnapshot::from_config(&config(vec![]));
    let right = "key-alpha-1".to_string();
    let wrong = "nope".to_string();
    assert!(snapshot.api_key_ok(Some(&right)));
    assert!(!snapshot.api_key_ok(Some(&wrong)));
    assert!(!snapshot.api_key_ok(None));

    let mut open_config = config(vec![]);
    open_config.security.require_api_key = false;
    let open_snapshot = ConfigSnapshot::from_config(&open_config);
    assert!(open_snapshot.api_key_ok(None));
}

#[test]
fn join_base_url_normalizes_slashes() {
    assert_eq!(
        join_base_url("https://x.example", "/v1/models"),
        "https://x.example/v1/models"
    );
    assert_eq!(
        join_base_url("https://x.example/", "v1/models"),
        "https://x.example/v1/models"
    );
    assert_eq!(
        join_base_url("https://x.example///", "/v1/models"),
        "https://x.example/v1/models"
    );
    assert_eq!(join_base_url("", "models"), "/models");
}

#[test]
fn extract_model_ids_reads_arrays_and_objects() {
    let arr = JsonVal::Arr(vec![
        JsonVal::Str("m1".to_string()),
        JsonVal::Obj(vec![("id".to_string(), JsonVal::Str("m2".to_string()))]),
        JsonVal::Obj(vec![("name".to_string(), JsonVal::Str("m3".to_string()))]),
        JsonVal::Obj(vec![("other".to_string(), JsonVal::Int(3))]),
        JsonVal::Null,
    ]);
    assert_eq!(
        extract_model_ids(&arr),
        vec!["m1".to_string(), "m2".to_string(), "m3".to_string()]
    );

    let obj = JsonVal::Obj(vec![
        (
            "data".to_string(),
            JsonVal::Arr(vec![JsonVal::Obj(vec![(
                "id".to_string(),
                JsonVal::Str("d1".to_string()),
            )])]),
        ),
        ("models".to_string(), JsonVal::Str("s1".to_string())),
    ]);
    assert_eq!(extract_model_ids(&obj), vec!["d1".to_string(), "s1".to_string()]);

    // An id that is not a string falls back to the name field.
    let fallback = JsonVal::Arr(vec![JsonVal::Obj(vec![
        ("id".to_string(), JsonVal::Int(5)),
        ("name".to_string(), JsonVal::Str("named".to_string())),
    ])]);
    assert_eq!(extract_model_ids(&fallback), vec!["named".to_string()]);

    assert_eq!(extract_model_ids(&JsonVal::Bool(true)), Vec::<String>::new());
}

#[test]
fn normalize_model_ids_sorts_dedups_and_drops_blanks() {
    let raw = vec![
        "beta".to_string(),
        "alpha".to_string(),
        "beta".to_string(),
        "  ".to_string(),
        String::new(),
        "alpha".to_string(),
        "gamma".to_string(),
    ];
    assert_eq!(
        normalize_model_ids(&raw),
        vec!["alpha".to_string(), "beta".to_string(), "gamma".to_string()]
    );
}

#[test]
fn normalize_model_ids_drops_all_whitespace_kinds() {
    let raw = vec![
        "\n".to_string(),
        "\r\n".to_string(),
        "\u{00a0}\u{3000}".to_string(),
        "model".to_string(),
        " \t\n ".to_string(),
    ];
    assert_eq!(normalize_model_ids(&raw), vec!["model".to_string()]);
}

#[test]
fn zai_fetch_validation() {
    let good = ZaiConfig {
        base_url: "https://api.example.com".to_string(),
        api_key: "k".to_string(),
    };
    assert!(validate_zai_fetch(&good).is_ok());

    let no_url = ZaiConfig { base_url: "  ".to_string(), api_key: "k".to_string() };
    assert_eq!(
        validate_zai_fetch(&no_url).unwrap_err(),
        FetchValidationError::EmptyBaseUrl
    );

    let no_key = ZaiConfig {
        base_url: "https://api.example.com".to_string(),
        api_key: String::new(),
    };
    assert_eq!(
        validate_zai_fetch(&no_key).unwrap_err(),
        FetchValidationError::EmptyApiKey
    );

    // Whitespace beyond space and tab is blank too: a newline-only base
    // URL is refused before any request could go out.
    let newline_url = ZaiConfig { base_url: "\n".to_string(), api_key: "k".to_string() };
    assert_eq!(
        validate_zai_fetch(&newline_url).unwrap_err(),
        FetchValidationError::EmptyBaseUrl
    );
}

#[test]
fn generated_api_key_shape() {
    let key = generate_api_key();
    assert_eq!(key.chars().count(), 35);
    assert!(key.starts_with("sk-"));
    assert!(key[3..].chars().all(|c| c.is_ascii_hexdigit() && !c.is_ascii_uppercase()));
    let again = generate_api_key();
    assert_ne!(key, again, "two fresh keys almost surely differ");
}

#[test]
fn hex_encoding_exact() {
    assert_eq!(ag_gateway::api::hex_encode(&vec![]), "");
    assert_eq!(ag_gateway::api::hex_encode(&vec![0x00, 0xff, 0x1a]), "00ff1a");
    assert_eq!(
        ag_gateway::api::hex_encode(&vec![0x01, 0x23, 0x45, 0x67, 0x89, 0xab, 0xcd, 0xef]),
        "0123456789abcdef"
    );
}

#[test]
fn exchange_code_validation() {
    assert_eq!(
        validate_exchange_code("").unwrap_err(),
        ExchangeError::EmptyCode
    );
    assert_eq!(
        validate_exchange_code("   ").unwrap_err(),
        ExchangeError::EmptyCode
    );
    assert!(validate_exchange_code("4/0AX4code").is_ok());
}

#[test]
fn exchange_requires_refresh_token() {
    let with = TokenResponse {
        access_token: "at".to_string(),
        refresh_token: Some("rt".to_string()),
        expires_in: 3600,
    };
    let pair = require_refresh_token(with).unwrap();
    assert_eq!(pair.access_token, "at");
    assert_eq!(pair.refresh_token, "rt");

    let without = TokenResponse {
        access_token: "at".to_string(),
        refresh_token: None,
        expires_in: 3600,
    };
    assert_eq!(
        require_refresh_token(without).unwrap_err(),
        ExchangeError::NoRefreshToken
    );
}

#[test]
fn token_data_expiry_is_clamped_sum() {
    let pair = TokenPair {
        access_token: "at".to_string(),
        refresh_token: "rt".to_string(),
        expires_in: 3600,
    };
    let data = build_token_data(pair, 1_000);
    assert_eq!(data.expires_at, 4_600);

    let huge = TokenPair {
        access_token: "at".to_string(),
        refresh_token: "rt".to_string(),
        expires_in: i64::MAX,
    };
    let clamped = build_token_data(huge, 10);
    assert_eq!(clamped.expires_at, i64::MAX);
}
