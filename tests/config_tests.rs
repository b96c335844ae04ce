use obsidian_publisher_server::admin::{check_admin_key, SitesMismatchReport, StorageSummary, StorageUsage};
use obsidian_publisher_server::config::{
    generate_secret, get_database_url, validate_config, AuthConfig, Config, ServerConfig, StaticStorageConfig, StorageConfig, StorageEntry, Validate,
};
use obsidian_publisher_server::error::AppError;
use obsidian_publisher_server::json::{check_unknown_keys, JsonMember, JsonValue};
use obsidian_publisher_server::token::TokenService;

fn entry(backend: &str, path: Option<&str>) -> StorageEntry {
    StorageEntry { name: None, backend: backend.to_string(), path: path.map(|p| p.to_string()) }
}

#[test]
fn default_config_has_secret_and_site_path() {
    let c = Config::with_secret(generate_secret(0x0123456789abcdef0011223344556677));
    assert!(!c.server.jwt_secret.is_empty(), "jwt should be generated");
    assert_eq!(c.server.jwt_secret, "01234567-89ab-cdef-0011-223344556677");
    assert_eq!(c.storage.sites.path, "./data/sites");
    assert_eq!(c.server.port, 8080);
    assert_eq!(c.storage.db.len(), 1);
    assert_eq!(c.storage.db[0].backend, "sled");
    assert_eq!(c.auth.token_expiration_hours, 24);
}

#[test]
fn bind_url_joins_host_and_port() {
    let s = ServerConfig { url: "".to_string(), host: "0.0.0.0".to_string(), port: 8080, jwt_secret: "k".to_string() };
    assert_eq!(s.bind_url(), "0.0.0.0:8080");
    let s = ServerConfig { port: 0, ..s };
    assert_eq!(s.bind_url(), "0.0.0.0:0");
}

#[test]
fn server_url_warnings() {
    let mut s = ServerConfig { url: "  ".to_string(), host: "h".to_string(), port: 1, jwt_secret: "k".to_string() };
    assert_eq!(s.validate(), vec!["server.url is empty".to_string()]);
    s.url = "https://example.com".to_string();
    assert!(s.validate().is_empty());
    s.url = "ftp://example.com".to_string();
    assert_eq!(s.validate(), vec!["server.url 'ftp://example.com' does not look like a valid http(s) URL".to_string()]);
}

#[test]
fn storage_warnings_name_the_entry() {
    let c = StorageConfig { sites: StaticStorageConfig { path: "s".to_string() }, db: vec![] };
    assert_eq!(c.validate(), vec!["storage.db is empty; no storage configured".to_string()]);
    let c = StorageConfig {
        sites: StaticStorageConfig { path: "s".to_string() },
        db: vec![entry("postgres", None), entry("mongo", None), entry("sqlite", None)],
    };
    assert_eq!(
        c.validate(),
        vec![
            "storage.storages[1].backend 'mongo' is not supported; must be one of: sled, sqlite, postgres".to_string(),
            "storage.storages[2] with backend 'sqlite' requires a 'path' field".to_string(),
        ]
    );
}

#[test]
fn auth_and_whole_config_warnings() {
    let a = AuthConfig { allow_plaintext_password: false, token_expiration_hours: 0 };
    assert_eq!(a.validate(), vec!["auth.token_expiration_hours must be > 0".to_string()]);
    let mut c = Config::with_secret("k".to_string());
    c.auth.token_expiration_hours = -1;
    assert_eq!(
        validate_config(&c),
        vec!["server.url is empty".to_string(), "auth.token_expiration_hours must be > 0".to_string()]
    );
}

#[test]
fn first_backend_in_preference_order() {
    let c = StorageConfig {
        sites: StaticStorageConfig { path: "s".to_string() },
        db: vec![entry("sled", Some("a")), entry("sqlite", Some("b")), entry("postgres", None)],
    };
    assert_eq!(c.first_db_with_backend(&["postgres", "sqlite"]).unwrap().backend, "sqlite");
    assert_eq!(c.first_db_with_backend(&["sled"]).unwrap().path.as_deref(), Some("a"));
    assert!(c.first_db_with_backend(&["mysql"]).is_none());
    assert!(c.first_db_with_backend(&[]).is_none());
}

#[test]
fn token_claims_expire_after_the_configured_hours() {
    let t = TokenService::new("secret".to_string(), 24);
    assert_eq!(t.secret(), "secret");
    assert_eq!(t.expiration_hours(), 24);
    let c = t.claims_for(0x0123456789abcdef0011223344556677, "alice".to_string(), 1_000).unwrap();
    assert_eq!(c.exp, 1_000 + 24 * 3600);
    assert_eq!(c.sub, "01234567-89ab-cdef-0011-223344556677");
    assert_eq!(c.username, "alice");
    let past = TokenService::new("s".to_string(), -1);
    assert!(past.claims_for(1, "a".to_string(), 100).is_none());
}

#[test]
fn admin_key_must_equal_the_secret() {
    assert!(check_admin_key(Some("k"), "k").is_ok());
    assert!(matches!(check_admin_key(Some("x"), "k"), Err(AppError::AuthorizationFailed)));
    assert!(matches!(check_admin_key(None, "k"), Err(AppError::AuthorizationFailed)));
}

#[test]
fn mismatch_report_lists_both_sides() {
    let db = vec!["a".to_string(), "b".to_string(), "c".to_string()];
    let disk = vec!["b".to_string(), "blog".to_string(), "a".to_string()];
    let r = SitesMismatchReport::compare(db.clone(), disk.clone());
    assert_eq!(r.orphan_site_dirs, vec!["blog".to_string()]);
    assert_eq!(r.missing_site_dirs, vec!["c".to_string()]);
    assert_eq!(r.db_site_ids, db);
    assert_eq!(r.disk_site_dirs, disk);
}

#[test]
fn storage_summary_totals_sizes() {
    let u = |id: &str, size: u64| StorageUsage { site_id: id.to_string(), path: id.to_string(), size_bytes: size, file_count: 1 };
    let s = StorageSummary::from_usage(vec![u("a", 10), u("b", 32)]);
    assert_eq!(s.total_bytes, 42);
    assert_eq!(s.total_sites, 2);
    let empty = StorageSummary::from_usage(vec![]);
    assert_eq!(empty.total_bytes, 0);
}

#[test]
fn database_urls_by_backend() {
    let sqlite = entry("sqlite", Some("C:\\data\\db"));
    assert_eq!(get_database_url(&sqlite, None), "sqlite:C:/data/db/db.sqlite?mode=rwc");
    let sled = entry("sled", Some("./data/sled"));
    assert_eq!(get_database_url(&sled, None), "./data/sled");
    let pg = entry("postgres", None);
    assert_eq!(get_database_url(&pg, Some("postgres://u@h/db".to_string())), "postgres://u@h/db");
    assert_eq!(get_database_url(&pg, None), "");
    assert_eq!(get_database_url(&entry("mongo", None), None), "");
}

fn obj(members: Vec<(&str, JsonValue)>) -> JsonValue {
    JsonValue::Object(members.into_iter().map(|(k, v)| JsonMember { key: k.to_string(), value: v }).collect())
}

fn text(s: &str) -> JsonValue {
    JsonValue::Text(s.to_string())
}

#[test]
fn unknown_keys_are_reported_as_paths() {
    let defaults = obj(vec![
        ("server", obj(vec![("url", text("")), ("port", JsonValue::Number("8080".to_string()))])),
        ("storage", obj(vec![("db", JsonValue::Array(vec![obj(vec![("backend", text("sled")), ("path", JsonValue::Null)])]))])),
    ]);
    let user = obj(vec![
        ("server", obj(vec![("url", text("http://x")), ("typo", JsonValue::Bool(true))])),
        ("storage", obj(vec![(
            "db",
            JsonValue::Array(vec![obj(vec![("backend", text("sled"))]), obj(vec![("extra", text("1")), ("path", obj(vec![("deep", JsonValue::Null)]))])]),
        )])),
        ("auth", obj(vec![])),
    ]);
    assert_eq!(
        check_unknown_keys(&defaults, &user),
        vec![
            "server.typo".to_string(),
            "storage.db[1].extra".to_string(),
            "storage.db[1].path.deep".to_string(),
            "auth".to_string(),
        ]
    );
    assert!(check_unknown_keys(&defaults, &defaults).is_empty());
    assert!(check_unknown_keys(&defaults, &JsonValue::Null).is_empty());
}
