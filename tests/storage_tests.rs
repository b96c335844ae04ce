use obsidian_publisher_server::error::AppError;
use obsidian_publisher_server::models::{Site, User};
use obsidian_publisher_server::users::UserStorage;
use obsidian_publisher_server::store::SiteStorage;

const NOW: i64 = 1_700_000_000_000_000;

fn new_id() -> u128 {
    uuid::Uuid::new_v4().as_u128()
}

#[test]
fn test_site_crud_lifecycle() {
    let mut storage = SiteStorage::new("/srv/sites".to_string());
    let mut users = UserStorage::new();
    let owner_id = new_id();
    users.create(User::new(owner_id, "owner".to_string(), "pass".to_string(), NOW)).expect("Failed to create owner");

    let site_id = new_id();
    let site = Site::new(site_id, owner_id, "Test Site".to_string(), "A test site".to_string(), NOW);
    storage.create(site.clone()).expect("Failed to create site");

    let retrieved = storage.get(site_id);
    assert!(retrieved.is_some());
    let retrieved = retrieved.unwrap();
    assert_eq!(retrieved.name, "Test Site");
    assert_eq!(retrieved.owner_id, owner_id);

    let mut updated_site = retrieved.clone();
    updated_site.description = "Updated description".to_string();
    storage.update(updated_site).expect("Failed to update site");

    let after_update = storage.get(site_id).unwrap();
    assert_eq!(after_update.description, "Updated description");

    let owner_sites = storage.list_by_owner(owner_id);
    assert_eq!(owner_sites.len(), 1);
    assert_eq!(owner_sites[0].id, site_id);

    assert!(storage.delete(site_id).is_some());
    let after_delete = storage.get(site_id);
    assert!(after_delete.is_none());
}

#[test]
fn test_user_site_relationship() {
    let mut storage = SiteStorage::new("/srv/sites".to_string());
    let mut users = UserStorage::new();
    let user_id = new_id();
    users.create(User::new(user_id, "user_with_sites".to_string(), "pass".to_string(), NOW)).expect("Failed to create user");

    let site1_id = new_id();
    let site1 = Site::new(site1_id, user_id, "Site 1".to_string(), "First site".to_string(), NOW);
    storage.create(site1).expect("Failed to create site1");

    let site2_id = new_id();
    let site2 = Site::new(site2_id, user_id, "Site 2".to_string(), "Second site".to_string(), NOW + 1);
    storage.create(site2).expect("Failed to create site2");

    let user_sites = storage.list_by_owner(user_id);
    assert_eq!(user_sites.len(), 2);
    let ids: Vec<u128> = user_sites.iter().map(|s| s.id).collect();
    assert!(ids.contains(&site1_id));
    assert!(ids.contains(&site2_id));

    storage.delete(site1_id).expect("Failed to delete site1");
    let user_sites_after = storage.list_by_owner(user_id);
    assert_eq!(user_sites_after.len(), 1);
    assert_eq!(user_sites_after[0].id, site2_id);
}

#[test]
fn test_site_files_path_management() {
    let mut storage = SiteStorage::new("/srv/sites".to_string());
    let mut users = UserStorage::new();
    let owner_id = new_id();
    users.create(User::new(owner_id, "owner".to_string(), "pass".to_string(), NOW)).expect("Failed to create owner");
    let site_id = new_id();
    let site = Site::new(site_id, owner_id, "Site with files".to_string(), "Test".to_string(), NOW);
    storage.create(site).expect("Failed to create site");

    let files_path = storage.get_site_files_path(site_id);
    assert!(files_path.starts_with("/srv/sites"));
    assert!(files_path.contains(&uuid::Uuid::from_u128(site_id).to_string()));
    assert_eq!(files_path, format!("/srv/sites/{}", uuid::Uuid::from_u128(site_id)));

    assert!(storage.delete(site_id).is_some());
    assert!(storage.get(site_id).is_none());
}

#[test]
fn test_site_get_by_name() {
    let mut storage = SiteStorage::new("/srv/sites".to_string());
    let mut users = UserStorage::new();
    let owner_id = new_id();
    users.create(User::new(owner_id, "owner".to_string(), "pass".to_string(), NOW)).expect("Failed to create owner");
    let site_id = new_id();
    let site_name = "my-awesome-site".to_string();
    let site = Site::new(site_id, owner_id, site_name.clone(), "A test site".to_string(), NOW);
    storage.create(site.clone()).expect("Failed to create site");

    let found = storage.get_by_name(&site_name);
    assert!(found.is_some());
    let found = found.unwrap();
    assert_eq!(found.id, site_id);
    assert_eq!(found.name, site_name);
    assert_eq!(found.owner_id, owner_id);

    let not_found = storage.get_by_name("non-existent-site");
    assert!(not_found.is_none());
}

#[test]
fn test_site_name_uniqueness() {
    let mut storage = SiteStorage::new("/srv/sites".to_string());
    let mut users = UserStorage::new();
    let owner1_id = new_id();
    users.create(User::new(owner1_id, "owner1".to_string(), "pass1".to_string(), NOW)).expect("Failed to create owner1");
    let _owner2_id = new_id();
    users.create(User::new(_owner2_id, "owner2".to_string(), "pass2".to_string(), NOW)).expect("Failed to create owner2");

    let site1_id = new_id();
    let shared_name = "shared-name".to_string();
    let site1 = Site::new(site1_id, owner1_id, shared_name.clone(), "First site".to_string(), NOW);
    storage.create(site1.clone()).expect("Failed to create site1");

    let found = storage.get_by_name(&shared_name);
    assert!(found.is_some());
    assert_eq!(found.unwrap().owner_id, owner1_id);

    let site2_id = new_id();
    let site2 = Site::new(site2_id, owner1_id, "another-name".to_string(), "Second site".to_string(), NOW + 1);
    storage.create(site2).expect("Failed to create site2 with different name");

    let all_sites = storage.list_all();
    assert_eq!(all_sites.len(), 2);

    let found_shared = storage.get_by_name(&shared_name);
    assert!(found_shared.is_some());
    assert_eq!(found_shared.unwrap().id, site1_id);

    let found_another = storage.get_by_name("another-name");
    assert!(found_another.is_some());
    assert_eq!(found_another.unwrap().id, site2_id);
}

#[test]
fn test_site_name_update() {
    let mut storage = SiteStorage::new("/srv/sites".to_string());
    let mut users = UserStorage::new();
    let owner_id = new_id();
    users.create(User::new(owner_id, "owner".to_string(), "pass".to_string(), NOW)).expect("Failed to create owner");
    let site_id = new_id();
    let original_name = "original-name".to_string();
    let site = Site::new(site_id, owner_id, original_name.clone(), "Test site".to_string(), NOW);
    storage.create(site.clone()).expect("Failed to create site");

    let found = storage.get_by_name(&original_name);
    assert!(found.is_some());

    let new_name = "new-name".to_string();
    let mut updated_site = storage.get(site_id).unwrap();
    updated_site.name = new_name.clone();
    storage.update(updated_site).expect("update failed");

    let found_new = storage.get_by_name(&new_name);
    assert!(found_new.is_some());
    assert_eq!(found_new.unwrap().id, site_id);

    let found_old = storage.get_by_name(&original_name);
    assert!(found_old.is_none());
}

#[test]
fn list_by_owner_returns_three_newest_first() {
    let mut storage = SiteStorage::new("/srv/sites".to_string());
    let u1: u128 = 1;
    let u2: u128 = 2;
    storage.create(Site::new(30, u1, "a".to_string(), "".to_string(), NOW + 5)).unwrap();
    storage.create(Site::new(10, u1, "b".to_string(), "".to_string(), NOW + 9)).unwrap();
    storage.create(Site::new(40, u2, "c".to_string(), "".to_string(), NOW + 7)).unwrap();
    storage.create(Site::new(20, u1, "d".to_string(), "".to_string(), NOW + 1)).unwrap();
    let sites = storage.list_by_owner(u1);
    let ids: Vec<u128> = sites.iter().map(|s| s.id).collect();
    assert_eq!(ids, vec![10, 30, 20]);
    let other: Vec<u128> = storage.list_by_owner(u2).iter().map(|s| s.id).collect();
    assert_eq!(other, vec![40]);
    assert!(storage.list_by_owner(3).is_empty());
}

#[test]
fn equal_creation_times_break_ties_by_identifier() {
    let mut storage = SiteStorage::new("/srv/sites".to_string());
    storage.create(Site::new(5, 1, "same".to_string(), "".to_string(), NOW)).unwrap();
    storage.create(Site::new(9, 1, "same".to_string(), "".to_string(), NOW)).unwrap();
    storage.create(Site::new(7, 1, "same".to_string(), "".to_string(), NOW)).unwrap();
    assert_eq!(storage.get_latest_by_name("same").unwrap().id, 9);
    let ids: Vec<u128> = storage.get_all_by_name("same").iter().map(|s| s.id).collect();
    assert_eq!(ids, vec![9, 7, 5]);
    let by_owner: Vec<u128> = storage.list_by_owner(1).iter().map(|s| s.id).collect();
    assert_eq!(by_owner, vec![9, 7, 5]);
}

#[test]
fn deleted_site_leaves_owner_listing() {
    let mut storage = SiteStorage::new("/srv/sites".to_string());
    storage.create(Site::new(1, 8, "a".to_string(), "".to_string(), NOW)).unwrap();
    storage.create(Site::new(2, 8, "b".to_string(), "".to_string(), NOW + 1)).unwrap();
    let removed = storage.delete(1).unwrap();
    assert_eq!(removed.name, "a");
    let ids: Vec<u128> = storage.list_by_owner(8).iter().map(|s| s.id).collect();
    assert_eq!(ids, vec![2]);
    assert!(storage.delete(1).is_none());
}

#[test]
fn create_refuses_a_known_identifier() {
    let mut storage = SiteStorage::new("/srv/sites".to_string());
    storage.create(Site::new(1, 8, "a".to_string(), "first".to_string(), NOW)).unwrap();
    let again = storage.create(Site::new(1, 9, "b".to_string(), "second".to_string(), NOW + 1));
    assert!(matches!(again, Err(AppError::DuplicateId)));
    assert_eq!(storage.get(1).unwrap().description, "first");
    assert_eq!(storage.list_by_owner(9).len(), 0);
}

#[test]
fn update_moves_owner_index_entry() {
    let mut storage = SiteStorage::new("/srv/sites".to_string());
    storage.create(Site::new(1, 8, "a".to_string(), "".to_string(), NOW)).unwrap();
    let mut s = storage.get(1).unwrap();
    s.owner_id = 9;
    storage.update(s).unwrap();
    assert!(storage.list_by_owner(8).is_empty());
    assert_eq!(storage.list_by_owner(9)[0].id, 1);
    let missing = Site::new(77, 9, "z".to_string(), "".to_string(), NOW);
    assert!(matches!(storage.update(missing), Err(AppError::NotFound)));
}

#[test]
fn owner_checks_guard_update_and_delete() {
    let mut storage = SiteStorage::new("/srv/sites".to_string());
    storage.create(Site::new(1, 8, "a".to_string(), "old".to_string(), NOW)).unwrap();
    assert!(matches!(storage.update_description(1, 9, "x".to_string()), Err(AppError::AuthorizationFailed)));
    assert!(matches!(storage.update_description(2, 8, "x".to_string()), Err(AppError::NotFound)));
    let s = storage.update_description(1, 8, "new".to_string()).unwrap();
    assert_eq!(s.description, "new");
    assert_eq!(storage.get(1).unwrap().description, "new");
    assert!(matches!(storage.delete_owned(1, 9), Err(AppError::AuthorizationFailed)));
    assert!(storage.get(1).is_some());
    assert_eq!(storage.delete_owned(1, 8).unwrap().id, 1);
    assert!(matches!(storage.delete_owned(1, 8), Err(AppError::NotFound)));
}

#[test]
fn accounts_with_sites_cannot_be_deleted() {
    let mut storage = SiteStorage::new("/srv/sites".to_string());
    assert!(storage.check_account_deletable(8).is_ok());
    storage.create(Site::new(1, 8, "a".to_string(), "".to_string(), NOW)).unwrap();
    assert!(matches!(storage.check_account_deletable(8), Err(AppError::UserDeletionBlocked)));
    assert!(storage.check_account_deletable(9).is_ok());
    storage.delete(1).unwrap();
    assert!(storage.check_account_deletable(8).is_ok());
}
