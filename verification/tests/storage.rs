use oai_proxy::config::{AppConfig, EnvValues, FIXED_PORT};
use oai_proxy::interop::url::UrlParts;
use oai_proxy::proxy::upstream::{build_url, target_from};
use oai_proxy::runtime::RuntimeSnapshot;
use oai_proxy::storage::proxy_keys;
use oai_proxy::storage::settings::{
    ensure_defaults, get_runtime_settings, read_bool, read_i64, save_runtime_settings,
    RuntimeSettings, SettingRow,
};
use oai_proxy::storage::upstreams::{
    accept_base_url, count_configured, get_configured, list_runtime, normalize_base_url,
    save_single_base_url, seed_from_env, Upstream, UpstreamError, UpstreamView, UpstreamWrite,
};
use oai_proxy::storage::{mask_secret, max_connections, now};

fn test_config() -> AppConfig {
    AppConfig {
        bind_host: "127.0.0.1".to_string(),
        database_url: "sqlite::memory:".to_string(),
        data_dir: "data".to_string(),
        default_response_header_timeout_ms: 123,
        default_first_token_timeout_ms: 456,
        default_max_attempts: 3,
    }
}

fn row(key: &str, value: &str) -> SettingRow {
    SettingRow {
        key: key.to_string(),
        value: value.to_string(),
    }
}

fn upstream(id: i64, base_url: &str) -> Upstream {
    Upstream {
        id,
        name: format!("row-{id}"),
        base_url: base_url.to_string(),
        created_at: "2026-01-01T00:00:00.000Z".to_string(),
        updated_at: "2026-01-01T00:00:00.000Z".to_string(),
    }
}

fn put(table: &mut Vec<SettingRow>, rows: Vec<SettingRow>) {
    for new in rows {
        table.retain(|old| old.key != new.key);
        table.push(new);
    }
}

#[test]
fn ensure_defaults_and_update_runtime_settings() {
    let config = test_config();
    let mut table = ensure_defaults(&[], &config);
    assert_eq!(table.len(), 6);

    let defaults = get_runtime_settings(&table, &config);
    assert_eq!(defaults.first_token_timeout_ms, 456);
    assert!(!defaults.policy_enabled);
    assert!(defaults.request_record_enabled);
    assert!(defaults.auto_retry_enabled);
    assert_eq!(defaults, RuntimeSettings::from_config(&config));

    let settings = RuntimeSettings {
        policy_enabled: false,
        request_record_enabled: false,
        response_header_timeout_ms: 111,
        first_token_timeout_ms: 222,
        max_attempts: 1,
        auto_retry_enabled: false,
    };
    put(&mut table, save_runtime_settings(&settings));
    assert_eq!(table.len(), 6);
    assert_eq!(get_runtime_settings(&table, &config), settings);
}

#[test]
fn defaults_do_not_touch_what_is_set() {
    let config = test_config();
    let table = vec![row("max_attempts", "9"), row("policy_enabled", "true")];
    let added = ensure_defaults(&table, &config);
    let keys: Vec<&str> = added.iter().map(|row| row.key.as_str()).collect();
    assert_eq!(
        keys,
        vec![
            "request_record_enabled",
            "response_header_timeout_ms",
            "first_token_timeout_ms",
            "auto_retry_enabled",
        ]
    );
    let mut all = table;
    all.extend(added);
    assert!(ensure_defaults(&all, &config).is_empty());
    let other = AppConfig { default_max_attempts: 7, ..test_config() };
    assert!(ensure_defaults(&all, &other).is_empty());
    let settings = get_runtime_settings(&all, &config);
    assert_eq!(settings.max_attempts, 9);
    assert!(settings.policy_enabled);
    assert_eq!(settings.response_header_timeout_ms, 123);
}

#[test]
fn saving_leaves_other_keys_alone() {
    let mut table = vec![row("theme", "dark")];
    put(
        &mut table,
        save_runtime_settings(&RuntimeSettings::from_config(&test_config())),
    );
    assert!(table.iter().any(|row| row.key == "theme" && row.value == "dark"));
}

#[test]
fn numbers_that_make_no_sense_fall_back() {
    for text in ["", "0", "-5", "1.5", "abc", "9223372036854775808", "+"] {
        assert_eq!(read_i64(&[row("k", text)], "k", 7), 7, "{text}");
    }
    assert_eq!(read_i64(&[row("k", "+12")], "k", 7), 12);
    assert_eq!(read_i64(&[row("k", "9223372036854775807")], "k", 7), i64::MAX);
    assert_eq!(read_i64(&[row("k", "1"), row("k", "2")], "k", 7), 2);
    assert_eq!(read_i64(&[], "k", 7), 7);
}

#[test]
fn four_words_switch_something_on() {
    for text in ["1", "true", "on", "yes"] {
        assert!(read_bool(&[row("k", text)], "k", false));
    }
    for text in ["0", "false", "TRUE", ""] {
        assert!(!read_bool(&[row("k", text)], "k", true));
    }
    assert!(read_bool(&[], "k", true));
}

#[test]
fn the_attempts_of_a_request_are_at_least_one() {
    let mut settings = RuntimeSettings::from_config(&test_config());
    assert_eq!(settings.max_attempts_for_request(), 3);
    settings.max_attempts = -2;
    assert_eq!(settings.max_attempts_for_request(), 1);
    settings.max_attempts = 5;
    settings.auto_retry_enabled = false;
    assert_eq!(settings.max_attempts_for_request(), 1);
}

#[test]
fn the_environment_overrides_the_defaults() {
    let config = AppConfig::from_env(&EnvValues::default());
    assert_eq!(config.bind_host, "127.0.0.1");
    assert_eq!(config.database_url, "sqlite://data/oai-proxy.sqlite3?mode=rwc");
    assert_eq!(config.default_response_header_timeout_ms, 5_000);
    assert_eq!(config.default_first_token_timeout_ms, 10_000);
    assert_eq!(config.default_max_attempts, 3);
    assert_eq!(config.listen_addr(), "127.0.0.1:57999");
    assert_eq!(FIXED_PORT, 57_999);

    let config = AppConfig::from_env(&EnvValues {
        bind: Some("0.0.0.0".to_string()),
        data_dir: Some("/var/lib/proxy".to_string()),
        database_url: None,
        response_header_timeout_ms: Some("250".to_string()),
        first_token_timeout_ms: Some("-1".to_string()),
        max_attempts: Some("many".to_string()),
    });
    assert_eq!(config.database_url, "sqlite:///var/lib/proxy/oai-proxy.sqlite3?mode=rwc");
    assert_eq!(config.data_dir, "/var/lib/proxy");
    assert_eq!(config.default_response_header_timeout_ms, 250);
    assert_eq!(config.default_first_token_timeout_ms, 10_000);
    assert_eq!(config.default_max_attempts, 3);
    assert_eq!(config.listen_addr(), "0.0.0.0:57999");
}

#[test]
fn a_base_url_is_trimmed_and_checked() {
    assert_eq!(
        normalize_base_url("  https://api.example.test/v1//  ").unwrap(),
        "https://api.example.test/v1"
    );
    let refused = |text: &str| match normalize_base_url(text) {
        Err(UpstreamError::InvalidBaseUrl(message)) => message,
        Ok(url) => panic!("{url} was accepted"),
    };
    assert_eq!(refused("ftp://example.test"), "scheme must be http or https");
    assert_eq!(refused("https://example.test/?a=1"), "query and fragment are not allowed");
    assert_eq!(refused("https://example.test/#a"), "query and fragment are not allowed");
    assert_eq!(refused("example.test"), "relative URL without a base");
    assert_eq!(refused("http://"), "empty host");
    assert_eq!(refused("http://:80"), "empty host");
    assert_eq!(refused("mailto:a@example.test"), "scheme must be http or https");
}

fn parts(scheme: &str, host: Option<&str>, query: Option<&str>, fragment: Option<&str>) -> UrlParts {
    UrlParts {
        scheme: scheme.to_string(),
        host: host.map(str::to_string),
        query: query.map(str::to_string),
        fragment: fragment.map(str::to_string),
        text: "https://normal.example.test/".to_string(),
    }
}

#[test]
fn a_read_base_url_is_kept_or_refused() {
    let decide = |parsed: Result<UrlParts, String>| match accept_base_url("kept".to_string(), parsed) {
        Ok(url) => (true, url),
        Err(UpstreamError::InvalidBaseUrl(message)) => (false, message),
    };
    let refused = |message: &str| (false, message.to_string());
    let host = Some("example.test");
    assert_eq!(decide(Ok(parts("http", host, None, None))), (true, "kept".to_string()));
    assert_eq!(decide(Ok(parts("https", host, None, None))), (true, "kept".to_string()));
    assert_eq!(decide(Err("what is wrong".to_string())), refused("what is wrong"));
    assert_eq!(decide(Ok(parts("ftp", None, None, None))), refused("scheme must be http or https"));
    assert_eq!(decide(Ok(parts("https", None, Some("a"), None))), refused("host is required"));
    assert_eq!(
        decide(Ok(parts("https", host, Some(""), None))),
        refused("query and fragment are not allowed")
    );
    assert_eq!(
        decide(Ok(parts("https", host, None, Some("f")))),
        refused("query and fragment are not allowed")
    );
}

#[test]
fn saving_a_base_url_leaves_one_row() {
    let writes = save_single_base_url(&[], "https://first.example.test", "t1").unwrap();
    assert_eq!(writes.len(), 1);
    assert!(matches!(
        &writes[0],
        UpstreamWrite::Insert { name, base_url, created_at, updated_at }
            if name == "default" && base_url == "https://first.example.test"
                && created_at == "t1" && updated_at == "t1"
    ));

    let rows = vec![upstream(7, "https://extra.example.test"), upstream(3, "https://old.example.test")];
    let writes = save_single_base_url(&rows, "https://second.example.test/", "t2").unwrap();
    assert_eq!(writes.len(), 2);
    assert!(matches!(
        &writes[0],
        UpstreamWrite::Update { id: 3, name, base_url, updated_at }
            if name == "default" && base_url == "https://second.example.test" && updated_at == "t2"
    ));
    assert!(matches!(&writes[1], UpstreamWrite::DeleteOthers { id: 3 }));
    assert!(save_single_base_url(&rows, "nowhere", "t3").is_err());
}

fn apply(rows: &mut Vec<Upstream>, writes: Vec<UpstreamWrite>) {
    for write in writes {
        match write {
            UpstreamWrite::Update { id, name, base_url, updated_at } => {
                for row in rows.iter_mut().filter(|row| row.id == id) {
                    row.name = name.clone();
                    row.base_url = base_url.clone();
                    row.updated_at = updated_at.clone();
                }
            }
            UpstreamWrite::DeleteOthers { id } => rows.retain(|row| row.id == id),
            UpstreamWrite::Insert { name, base_url, created_at, updated_at } => {
                let id = rows.iter().map(|row| row.id).max().unwrap_or(0) + 1;
                rows.push(Upstream { id, name, base_url, created_at, updated_at });
            }
        }
    }
}

#[test]
fn save_single_base_url_replaces_existing_rows() {
    let mut rows = Vec::new();
    let writes = save_single_base_url(&rows, "https://first.example.test", "t1").unwrap();
    apply(&mut rows, writes);
    apply(
        &mut rows,
        vec![UpstreamWrite::Insert {
            name: "legacy-extra".to_string(),
            base_url: "https://extra.example.test".to_string(),
            created_at: "2026-01-01T00:00:00Z".to_string(),
            updated_at: "2026-01-01T00:00:00Z".to_string(),
        }],
    );
    assert_eq!(rows.len(), 2);
    let writes = save_single_base_url(&rows, "https://second.example.test", "t2").unwrap();
    apply(&mut rows, writes);
    assert_eq!(rows.len(), 1);
    assert_eq!(rows[0].name, "default");
    assert_eq!(rows[0].base_url, "https://second.example.test");
    assert_eq!(rows[0].created_at, "t1");
    assert_eq!(list_runtime(&rows)[0].base_url, "https://second.example.test");
}

#[test]
fn the_first_row_is_the_configured_upstream() {
    let rows = vec![upstream(9, "https://b.example.test"), upstream(2, "https://a.example.test")];
    assert_eq!(get_configured(&rows).unwrap().id, 2);
    assert_eq!(list_runtime(&rows).len(), 1);
    assert_eq!(list_runtime(&rows)[0].base_url, "https://a.example.test");
    assert_eq!(count_configured(&rows), 1);
    assert!(get_configured(&[]).is_none());
    assert!(list_runtime(&[]).is_empty());
    assert_eq!(count_configured(&[]), 0);
    let view = UpstreamView::from(upstream(2, "https://a.example.test"));
    assert_eq!(view.id, 2);
    assert_eq!(view.name, "row-2");
}

#[test]
fn the_environment_seeds_an_upstream_only_where_there_is_none() {
    assert_eq!(seed_from_env(&[], Some("https://a.example.test")), Some("https://a.example.test"));
    assert_eq!(seed_from_env(&[], Some("")), None);
    assert_eq!(seed_from_env(&[], None), None);
    assert_eq!(seed_from_env(&[upstream(1, "x")], Some("https://a.example.test")), None);
}

#[test]
fn a_snapshot_holds_settings_and_upstream() {
    let config = test_config();
    let rows = vec![row("max_attempts", "4")];
    let snapshot = RuntimeSnapshot::load(&rows, &[upstream(1, "https://a.example.test")], &config);
    assert_eq!(snapshot.settings.max_attempts, 4);
    let upstreams = snapshot.configured_upstreams();
    assert_eq!(upstreams.len(), 1);
    assert_eq!(upstreams[0].base_url, "https://a.example.test");
    assert_eq!(upstreams[0].updated_at, "2026-01-01T00:00:00.000Z");
}

#[test]
fn a_request_is_sent_behind_the_base_url() {
    let target = upstream(1, "https://api.example.test/base//");
    assert_eq!(
        build_url(&target, Some("/v1/chat/completions?trace=1")).unwrap(),
        "https://api.example.test/base/v1/chat/completions?trace=1"
    );
    assert_eq!(build_url(&target, None).unwrap(), "https://api.example.test/base/");
    assert_eq!(
        build_url(&upstream(1, "https://EXAMPLE.test:443"), Some("/a b")).unwrap(),
        "https://example.test/a%20b"
    );
    assert_eq!(
        build_url(&upstream(1, "nowhere"), Some("/x")).unwrap_err().message(),
        "invalid upstream url: relative URL without a base"
    );
}

#[test]
fn a_read_target_is_sent_in_its_normal_form() {
    assert_eq!(
        target_from(Ok(parts("https", None, None, None))).unwrap(),
        "https://normal.example.test/"
    );
    assert_eq!(
        target_from(Err("what is wrong".to_string())).unwrap_err().message(),
        "invalid upstream url: what is wrong"
    );
}

#[test]
fn a_secret_shows_its_ends_at_most() {
    assert_eq!(mask_secret(""), "");
    assert_eq!(mask_secret("12345678"), "****");
    assert_eq!(mask_secret("123456789"), "1234****6789");
    assert_eq!(mask_secret("abcdXXXXXXXXefgh"), mask_secret("abcdYefgh"));
    assert_eq!(mask_secret("密密密密密密密密密"), "密密密密****密密密密");
}

#[test]
fn a_database_in_memory_has_one_connection() {
    assert_eq!(max_connections("sqlite::memory:"), 1);
    assert_eq!(max_connections("sqlite://data/oai-proxy.sqlite3?mode=rwc"), 8);
}

#[test]
fn the_time_is_written_in_utc_with_milliseconds() {
    let time = now();
    assert_eq!(time.len(), 24);
    assert!(time.ends_with('Z'));
    assert_eq!(&time[10..11], "T");
    assert_eq!(&time[19..20], ".");
    assert!(time.as_str() > "2020-01-01T00:00:00.000Z");
}

#[test]
fn a_created_key_authorizes_its_secret_only() {
    assert!(proxy_keys::is_authorized(&[], None));
    let key = proxy_keys::create(" client ", " secret ", "t1");
    assert_eq!(key.name, "client");
    assert!(key.enabled);
    assert_eq!(key.created_at, "t1");
    assert_eq!(key.updated_at, "t1");
    assert_eq!(
        key.key_secret,
        "2bb80d537b1da3e38bd30361aa855686bde0eacd7162fef6a25fe97bf527a25b"
    );
    assert_eq!(key.key_secret, proxy_keys::hash_secret("secret"));
    let keys = vec![key];
    assert!(proxy_keys::is_authorized(&keys, Some("secret")));
    assert!(!proxy_keys::is_authorized(&keys, Some("other")));
    assert!(!proxy_keys::is_authorized(&keys, Some("")));
    assert!(!proxy_keys::is_authorized(&keys, None));
    let mut disabled = keys.clone();
    disabled[0].enabled = false;
    assert!(proxy_keys::is_authorized(&disabled, None));
}

#[test]
fn a_known_digest_is_admitted_while_keys_are_in_use() {
    let key = proxy_keys::create("client", "secret", "t1");
    let digest = key.key_secret.clone();
    let mut keys = vec![key, proxy_keys::create("other", "another", "t2")];
    assert!(proxy_keys::admits(&[], None));
    assert!(proxy_keys::admits(&keys, Some(&digest)));
    assert!(!proxy_keys::admits(&keys, Some("secret")));
    assert!(!proxy_keys::admits(&keys, None));
    keys[0].enabled = false;
    assert!(!proxy_keys::admits(&keys, Some(&digest)));
    keys[1].enabled = false;
    assert!(proxy_keys::admits(&keys, None));
}

#[test]
fn a_key_is_seeded_once() {
    let seeded = proxy_keys::seed_from_env(&[], Some("secret"), None, "t1").unwrap();
    assert_eq!(seeded.name, "default");
    assert_eq!(seeded.created_at, "t1");
    let keys = vec![seeded];
    assert!(proxy_keys::name_exists(&keys, " default "));
    assert!(!proxy_keys::name_exists(&keys, "other"));
    assert!(proxy_keys::seed_from_env(&keys, Some("secret"), None, "t1").is_none());
    assert!(proxy_keys::seed_from_env(&keys, Some("secret"), Some("other"), "t1").is_some());
    assert!(proxy_keys::seed_from_env(&[], Some(""), None, "t1").is_none());
    assert!(proxy_keys::seed_from_env(&[], None, None, "t1").is_none());
}
