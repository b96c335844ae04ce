use obsidian_publisher_server::error::AppError;
use obsidian_publisher_server::upload::{field_role, FieldRole, UploadState};

const ID: &str = "67e55044-10b1-426f-9247-bb680e5fe0c8";

#[test]
fn fields_are_recognised_by_name() {
    assert_eq!(field_role("uuid"), FieldRole::SiteId);
    assert_eq!(field_role("siteName"), FieldRole::SiteName);
    assert_eq!(field_role("site"), FieldRole::Archive);
    assert_eq!(field_role("other"), FieldRole::Ignored);
}

#[test]
fn fields_in_any_order_complete_an_upload() {
    let mut st = UploadState::new();
    let path = st.accept_archive(Some("site.zip"), "/srv/sites/.upload_temp").unwrap();
    assert_eq!(path, "/srv/sites/.upload_temp/site.zip");
    st.accept_site_name("blog").unwrap();
    st.accept_site_id(ID).unwrap();
    let p = st.finish(42).unwrap();
    assert_eq!(p.site_id, 0x67e5504410b1426f9247bb680e5fe0c8);
    assert_eq!(p.site_name, "blog");
    assert_eq!(p.user_id, 42);
    assert_eq!(p.archive_filename, "site.zip");
    assert_eq!(p.archive_path, "/srv/sites/.upload_temp/site.zip");
}

#[test]
fn missing_fields_are_named() {
    let st = UploadState::new();
    assert!(matches!(st.finish(1), Err(AppError::MissingField(f)) if f == "uuid"));
    let mut st = UploadState::new();
    st.accept_site_id(ID).unwrap();
    assert!(matches!(st.finish(1), Err(AppError::MissingField(f)) if f == "siteName"));
    st.accept_site_name("blog").unwrap();
    assert!(matches!(st.finish(1), Err(AppError::MissingField(f)) if f == "site"));
}

#[test]
fn bad_field_values_fail_fast() {
    let mut st = UploadState::new();
    assert!(matches!(st.accept_site_name("my site"), Err(AppError::InvalidName(_))));
    assert!(matches!(st.accept_site_id("not-a-uuid"), Err(AppError::InvalidInput(_))));
    assert!(matches!(st.accept_archive(None, "/tmp"), Err(AppError::InvalidInput(_))));
    assert!(matches!(st.accept_archive(Some("../site.zip"), "/tmp"), Err(AppError::InvalidInput(_))));
    assert!(matches!(st.accept_archive(Some("a/site.zip"), "/tmp"), Err(AppError::InvalidInput(_))));
    assert!(matches!(st.finish(1), Err(AppError::MissingField(f)) if f == "uuid"));
}
