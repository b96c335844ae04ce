use obsidian_publisher_server::deploy::{plan_deploy, rewrite_rule, save_site_record, SiteUploadParams};
use obsidian_publisher_server::error::AppError;
use obsidian_publisher_server::models::{Site, SiteResponse, User};
use obsidian_publisher_server::users::UserStorage;
use obsidian_publisher_server::rewrite::rewrite_entry;
use obsidian_publisher_server::site_name::validate_site_name;
use obsidian_publisher_server::store::SiteStorage;

const HOUR: i64 = 3_600_000_000;
const NOW: i64 = 1_700_000_000_000_000;

fn id_text(id: u128) -> String {
    uuid::Uuid::from_u128(id).to_string()
}

fn params(site_id: u128, name: &str, user_id: u128) -> SiteUploadParams {
    SiteUploadParams {
        site_id,
        site_name: name.to_string(),
        user_id,
        archive_filename: "site.tar.gz".to_string(),
        archive_path: "/tmp/up/site.tar.gz".to_string(),
    }
}

#[test]
fn test_validate_site_name_valid() {
    assert!(validate_site_name("my-site").is_ok());
    assert!(validate_site_name("my_site").is_ok());
    assert!(validate_site_name("MySite123").is_ok());
    assert!(validate_site_name("a").is_ok());
    assert!(validate_site_name("site-name-with-dashes").is_ok());
}

#[test]
fn test_validate_site_name_invalid() {
    assert!(validate_site_name("").is_err());
    let long_name = "a".repeat(65);
    assert!(validate_site_name(&long_name).is_err());
    assert!(validate_site_name("my site").is_err());
    assert!(validate_site_name("my.site").is_err());
    assert!(validate_site_name("my/site").is_err());
    assert!(validate_site_name("my@site").is_err());
}

#[test]
fn site_name_length_edges() {
    assert!(validate_site_name(&"a".repeat(64)).is_ok());
    assert!(matches!(validate_site_name(&"a".repeat(65)), Err(AppError::InvalidName(_))));
    assert!(matches!(validate_site_name("blög"), Err(AppError::InvalidName(_))));
}

#[test]
fn test_save_site_record_create_new() {
    let mut storage = SiteStorage::new("/srv/sites".to_string());
    let mut users = UserStorage::new();
    let user_id: u128 = 0x1111;
    users.create(User::new(user_id, "testowner".to_string(), "pass".to_string(), NOW)).expect("Failed to create user");
    let site_id: u128 = 0xabcdef;
    let site_name = "new-site".to_string();

    let site = save_site_record(&mut storage, site_id, &site_name, user_id, NOW).expect("save_site_record failed");
    assert_eq!(site.id, site_id);
    assert_eq!(site.name, site_name);
    assert_eq!(site.owner_id, user_id);

    let found = storage.get(site_id);
    assert!(found.is_some());
}

#[test]
fn test_save_site_record_creates_new_version() {
    let mut storage = SiteStorage::new("/srv/sites".to_string());
    let mut users = UserStorage::new();
    let user_id: u128 = 0x2222;
    users.create(User::new(user_id, "owner".to_string(), "pass".to_string(), NOW)).expect("Failed to create user");
    let site1_id: u128 = 0x10;
    let site_name = "existing-site".to_string();
    let site1 = Site::new(site1_id, user_id, site_name.clone(), "Version 1".to_string(), NOW - HOUR);
    storage.create(site1).expect("Failed to create site v1");

    let site2_id: u128 = 0x20;
    let new_site = save_site_record(&mut storage, site2_id, &site_name, user_id, NOW).expect("save_site_record failed");
    assert_eq!(new_site.id, site2_id);
    assert_eq!(new_site.name, site_name);
    assert_eq!(new_site.description, "Site uploaded from CLI");

    let latest = storage.get_latest_by_name(&site_name);
    assert!(latest.is_some());
    assert_eq!(latest.unwrap().id, site2_id, "get_latest_by_name should return the newest version");

    let all_versions = storage.get_all_by_name(&site_name);
    assert_eq!(all_versions.len(), 2, "Should have 2 versions");
    assert_eq!(all_versions[0].id, site2_id);
    assert_eq!(all_versions[1].id, site1_id);
}

#[test]
fn test_site_response_contains_both_urls() {
    let site_id = uuid::Uuid::new_v4().as_u128();
    let site_name = "my-blog".to_string();
    let owner_id = uuid::Uuid::new_v4().as_u128();

    let site = Site::new(site_id, owner_id, site_name.clone(), "Test".to_string(), NOW);
    let response = SiteResponse::from_site(site, "https://example.com");

    assert_eq!(response.url, format!("https://example.com/sites/{}/", site_name));
    assert_eq!(response.url_by_id, format!("https://example.com/sites/{}/", id_text(site_id)));
}

#[test]
fn site_response_identifier_text_is_hyphenated() {
    let site = Site::new(0x0123456789abcdef0011223344556677, 1, "x".to_string(), "d".to_string(), NOW);
    let response = SiteResponse::from_site(site, "http://h");
    assert_eq!(response.url_by_id, "http://h/sites/01234567-89ab-cdef-0011-223344556677/");
    assert_eq!(response.url, "http://h/sites/x/");
}

#[test]
fn upload_rewrites_self_links_in_name_tree_only() {
    // an upload of site S1 named "blog" whose index.html links to /sites/S1/page.html
    let s1: u128 = 0x5151;
    let html = format!("<a href=\"/sites/{}/page.html\">next</a>", id_text(s1));
    let (from, to) = rewrite_rule(s1, "blog");
    assert_eq!(from, format!("/sites/{}/", id_text(s1)));
    assert_eq!(to, "/sites/blog/");
    let named = rewrite_entry(html.as_bytes(), &Some((from, to)));
    let named = String::from_utf8(named).unwrap();
    assert!(named.contains("/sites/blog/"));
    assert!(!named.contains(&format!("/sites/{}/", id_text(s1))));
    assert_eq!(named, "<a href=\"/sites/blog/page.html\">next</a>");
    // the identifier tree is written from the bytes as they are
    let original = rewrite_entry(html.as_bytes(), &None);
    assert_eq!(original, html.as_bytes());
}

#[test]
fn plan_deploy_names_both_trees() {
    let storage = SiteStorage::new("/srv/sites".to_string());
    let s1: u128 = 0x5151;
    let plan = plan_deploy(&storage, &params(s1, "blog", 7)).expect("plan");
    assert_eq!(plan.id_dir, format!("/srv/sites/{}", id_text(s1)));
    assert_eq!(plan.name_dir, "/srv/sites/blog");
    assert_eq!(plan.temp_dir, format!("/srv/sites/.extract_temp_{}", id_text(s1)));
    assert_eq!(plan.rewrite.0, format!("/sites/{}/", id_text(s1)));
    assert_eq!(plan.rewrite.1, "/sites/blog/");
}

#[test]
fn reupload_by_other_owner_is_a_name_conflict() {
    let mut storage = SiteStorage::new("/srv/sites".to_string());
    storage.create(Site::new(1, 100, "blog".to_string(), "v1".to_string(), NOW)).unwrap();
    let before = storage.list_all();
    match plan_deploy(&storage, &params(2, "blog", 200)) {
        Err(AppError::NameConflict(n)) => assert_eq!(n, "blog"),
        other => panic!("expected a name conflict, got {:?}", other),
    }
    match save_site_record(&mut storage, 2, "blog", 200, NOW + HOUR) {
        Err(AppError::NameConflict(_)) => {},
        other => panic!("expected a name conflict, got {:?}", other),
    }
    let after = storage.list_all();
    assert_eq!(before.len(), after.len());
    assert_eq!(after[0].id, 1);
    assert_eq!(after[0].description, "v1");
}

#[test]
fn reupload_by_same_owner_creates_new_latest_version() {
    let mut storage = SiteStorage::new("/srv/sites".to_string());
    save_site_record(&mut storage, 1, "blog", 100, NOW).unwrap();
    assert!(plan_deploy(&storage, &params(2, "blog", 100)).is_ok());
    save_site_record(&mut storage, 2, "blog", 100, NOW + HOUR).unwrap();
    assert_eq!(storage.get_latest_by_name("blog").unwrap().id, 2);
    save_site_record(&mut storage, 3, "blog", 100, NOW + 2 * HOUR).unwrap();
    assert_eq!(storage.get_latest_by_name("blog").unwrap().id, 3);
    assert_eq!(storage.get_all_by_name("blog").len(), 3);
}

#[test]
fn plan_deploy_refuses_bad_name_and_known_id() {
    let mut storage = SiteStorage::new("/srv/sites".to_string());
    assert!(matches!(plan_deploy(&storage, &params(1, "../etc", 1)), Err(AppError::InvalidName(_))));
    storage.create(Site::new(1, 1, "a".to_string(), "d".to_string(), NOW)).unwrap();
    assert!(matches!(plan_deploy(&storage, &params(1, "b", 1)), Err(AppError::DuplicateId)));
    assert!(matches!(save_site_record(&mut storage, 1, "b", 1, NOW), Err(AppError::DuplicateId)));
}
