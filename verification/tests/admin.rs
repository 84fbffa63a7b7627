use axum::http::{HeaderMap, HeaderName, HeaderValue};
use oai_proxy::admin::auth::{
    has_session, is_authenticated, login_cookie, logout_cookie, ADMIN_COOKIE,
};
use oai_proxy::admin::handlers::{
    api_base_url, empty_upstream_view, first_header_value, is_valid_authority, save_settings,
    save_upstream, shown_upstream, validate_positive, SaveUpstreamForm, SettingsForm, UpstreamSave,
};
use oai_proxy::storage::settings::RuntimeSettings;
use oai_proxy::storage::upstreams::{Upstream, UpstreamWrite};

fn map(lines: &[(&str, &str)]) -> HeaderMap {
    let mut headers = HeaderMap::new();
    for (name, value) in lines {
        headers.append(
            HeaderName::from_bytes(name.as_bytes()).unwrap(),
            HeaderValue::from_str(value).unwrap(),
        );
    }
    headers
}

fn form() -> SettingsForm {
    SettingsForm {
        settings_form_version: None,
        policy_enabled: None,
        request_record_enabled: None,
        response_header_timeout_ms: 111,
        first_token_timeout_ms: 222,
        max_attempts: 1,
        auto_retry_enabled: None,
    }
}

fn current() -> RuntimeSettings {
    RuntimeSettings {
        policy_enabled: true,
        request_record_enabled: true,
        response_header_timeout_ms: 1000,
        first_token_timeout_ms: 1000,
        max_attempts: 2,
        auto_retry_enabled: true,
    }
}

#[test]
fn legacy_settings_post_preserves_new_switches() {
    let settings = save_settings(&form(), &current()).unwrap();
    assert!(settings.policy_enabled);
    assert!(settings.request_record_enabled);
    assert!(!settings.auto_retry_enabled);
    assert_eq!(settings.response_header_timeout_ms, 111);
    assert_eq!(settings.first_token_timeout_ms, 222);
    assert_eq!(settings.max_attempts, 1);
}

#[test]
fn a_newer_form_sets_every_switch() {
    let mut sent = form();
    sent.settings_form_version = Some("2".to_string());
    sent.request_record_enabled = Some("on".to_string());
    sent.auto_retry_enabled = Some(String::new());
    let settings = save_settings(&sent, &current()).unwrap();
    assert!(!settings.policy_enabled);
    assert!(settings.request_record_enabled);
    assert!(settings.auto_retry_enabled);
    sent.settings_form_version = Some("1".to_string());
    assert!(save_settings(&sent, &current()).unwrap().policy_enabled);
}

#[test]
fn numbers_in_the_form_must_be_positive() {
    let refused = |form: SettingsForm| save_settings(&form, &current()).unwrap_err().message();
    let mut sent = form();
    sent.response_header_timeout_ms = 0;
    sent.max_attempts = -1;
    assert_eq!(refused(sent), "response_header_timeout_ms 必须大于 0");
    let mut sent = form();
    sent.first_token_timeout_ms = -5;
    assert_eq!(refused(sent), "first_token_timeout_ms 必须大于 0");
    let mut sent = form();
    sent.max_attempts = 0;
    assert_eq!(refused(sent), "max_attempts 必须大于 0");
    assert!(validate_positive(1, "field").is_ok());
    assert_eq!(validate_positive(0, "field").unwrap_err().message(), "field 必须大于 0");
}

#[test]
fn the_upstream_form_saves_or_tells_why_not() {
    let rows = vec![Upstream {
        id: 4,
        name: "default".to_string(),
        base_url: "https://first.example.test".to_string(),
        created_at: "t0".to_string(),
        updated_at: "t0".to_string(),
    }];
    let save = |base_url: &str| {
        save_upstream(&SaveUpstreamForm { base_url: base_url.to_string() }, &rows, "t1")
    };
    assert!(matches!(
        save("   "),
        UpstreamSave::Refused { error } if error == "上游 Base URL 必填"
    ));
    assert!(matches!(
        save("ftp://example.test"),
        UpstreamSave::Refused { error }
            if error == "上游 Base URL 无效：scheme must be http or https"
    ));
    match save("https://second.example.test/") {
        UpstreamSave::Saved { writes, message } => {
            assert_eq!(message, "上游 Base URL 已保存");
            assert!(matches!(
                &writes[0],
                UpstreamWrite::Update { id: 4, base_url, .. }
                    if base_url == "https://second.example.test"
            ));
            assert!(matches!(&writes[1], UpstreamWrite::DeleteOthers { id: 4 }));
        }
        other => panic!("{other:?}"),
    }
    let (view, found) = shown_upstream(&rows);
    assert!(found);
    assert_eq!(view.base_url, "https://first.example.test");
    let (view, found) = shown_upstream(&[]);
    assert!(!found);
    assert_eq!(view.id, empty_upstream_view().id);
    assert_eq!(view.base_url, "");
}

#[test]
fn settings_page_renders_base_url_from_request_host() {
    let headers = map(&[
        ("host", "ignored.example.test"),
        ("x-forwarded-proto", "https,http"),
        ("x-forwarded-host", "proxy.example.test, edge.example.test"),
    ]);
    assert_eq!(api_base_url(&headers), "https://proxy.example.test");
    assert_eq!(
        api_base_url(&map(&[("host", "local.test:8080")])),
        "http://local.test:8080"
    );
    assert_eq!(api_base_url(&map(&[])), "http://127.0.0.1:57999");
    assert_eq!(
        api_base_url(&map(&[
            ("host", "good.example.test"),
            ("x-forwarded-host", "evil.example.test/path"),
            ("x-forwarded-proto", "javascript"),
        ])),
        "http://127.0.0.1:57999"
    );
    assert_eq!(
        api_base_url(&map(&[("host", "a.test"), ("x-forwarded-host", " , b.test")])),
        "http://a.test"
    );
}

#[test]
fn a_host_is_written_with_few_characters() {
    assert!(is_valid_authority("[::1]:57999"));
    assert!(is_valid_authority("A-z.0"));
    for value in ["a/b", "a\\b", "user@host", "a b", "ä"] {
        assert!(!is_valid_authority(value));
    }
    assert_eq!(
        first_header_value(&map(&[("x-a", " one , two")]), "x-a"),
        Some("one".to_string())
    );
    assert_eq!(first_header_value(&map(&[("x-a", "")]), "x-a"), None);
    assert_eq!(first_header_value(&map(&[]), "x-a"), None);
}

#[test]
fn a_session_cookie_is_recognised() {
    assert_eq!(
        login_cookie("token"),
        "oai_proxy_admin=token; HttpOnly; SameSite=Lax; Path=/admin; Max-Age=604800"
    );
    assert_eq!(
        logout_cookie(),
        "oai_proxy_admin=; HttpOnly; SameSite=Lax; Path=/admin; Max-Age=0"
    );
    assert_eq!(ADMIN_COOKIE, "oai_proxy_admin");
    assert!(is_authenticated(
        &map(&[("cookie", "theme=dark; oai_proxy_admin=token")]),
        "token"
    ));
    assert!(!is_authenticated(&map(&[("cookie", "oai_proxy_admin=other")]), "token"));
    assert!(!is_authenticated(&map(&[]), "token"));
    assert!(has_session(&login_cookie("token"), "token"));
    assert!(!has_session(&logout_cookie(), "token"));
    assert!(has_session("oai_proxy_admin=a=b", "a=b"));
    assert!(!has_session("oai_proxy_admin", "token"));
    assert!(!has_session("oai_proxy_admin_x=token", "token"));
}
