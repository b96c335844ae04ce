use obsidian_publisher_server::auth::AuthService;
use obsidian_publisher_server::error::AppError;
use obsidian_publisher_server::models::{LoginRequest, RegisterRequest, User};
use obsidian_publisher_server::token::TokenService;
use obsidian_publisher_server::users::UserStorage;

const NOW: i64 = 1_700_000_000_000_000;

fn new_id() -> u128 {
    uuid::Uuid::new_v4().as_u128()
}

#[test]
fn test_user_crud_lifecycle() {
    let mut users = UserStorage::new();
    let user = User::new(new_id(), "testuser".to_string(), "password123".to_string(), NOW);
    let user_id = user.id;
    users.create(user.clone()).expect("Failed to create user");

    let retrieved = users.get(user_id);
    assert!(retrieved.is_some());
    let retrieved = retrieved.unwrap();
    assert_eq!(retrieved.username, "testuser");
    assert_eq!(retrieved.password, "password123");

    let by_username = users.get_by_username("testuser");
    assert!(by_username.is_some());
    assert_eq!(by_username.unwrap().id, user_id);

    let mut updated_user = retrieved.clone();
    updated_user.password = "newpassword".to_string();
    users.update(updated_user).expect("Failed to update user");

    let after_update = users.get(user_id).unwrap();
    assert_eq!(after_update.password, "newpassword");

    users.delete(user_id).expect("Failed to delete user");
    let after_delete = users.get(user_id);
    assert!(after_delete.is_none());

    let by_username_after = users.get_by_username("testuser");
    assert!(by_username_after.is_none());
}

#[test]
fn test_concurrent_operations_safety() {
    let mut users = UserStorage::new();
    let user1 = User::new(new_id(), "concurrent_user1".to_string(), "pass1".to_string(), NOW);
    let user1_id = user1.id;
    users.create(user1).expect("Failed to create user1");
    let user2 = User::new(new_id(), "concurrent_user2".to_string(), "pass2".to_string(), NOW + 1);
    let user2_id = user2.id;
    users.create(user2).expect("Failed to create user2");

    assert!(users.get(user1_id).is_some());
    assert!(users.get(user2_id).is_some());

    let count = users.count();
    assert_eq!(count, 2);

    let all_users = users.list_all();
    assert_eq!(all_users.len(), 2);
    assert_eq!(all_users[0].id, user2_id);

    assert!(users.get_by_username("concurrent_user1").is_some());
    assert!(users.get_by_username("concurrent_user2").is_some());
}

#[test]
fn usernames_stay_unique() {
    let mut users = UserStorage::new();
    users.create(User::new(1, "alice".to_string(), "p".to_string(), NOW)).unwrap();
    assert!(matches!(users.create(User::new(2, "alice".to_string(), "q".to_string(), NOW)), Err(AppError::UserAlreadyExists)));
    assert!(matches!(users.create(User::new(1, "bob".to_string(), "q".to_string(), NOW)), Err(AppError::DuplicateId)));
    users.create(User::new(2, "bob".to_string(), "q".to_string(), NOW)).unwrap();
    let clash = User::new(2, "alice".to_string(), "q".to_string(), NOW);
    assert!(matches!(users.update(clash), Err(AppError::UserAlreadyExists)));
    let missing = User::new(3, "carol".to_string(), "q".to_string(), NOW);
    assert!(matches!(users.update(missing), Err(AppError::NotFound)));
    assert_eq!(users.count(), 2);
}

fn service(plain: bool) -> AuthService {
    AuthService::new(UserStorage::new(), TokenService::new("secret".to_string(), 24), plain)
}

#[test]
fn register_then_login_with_plaintext_passwords() {
    let mut auth = service(true);
    let req = RegisterRequest { username: "alice".to_string(), password: "pw".to_string() };
    let u = auth.register(req, 0x77, NOW).unwrap();
    assert_eq!(u.password, "pw");
    let again = RegisterRequest { username: "alice".to_string(), password: "other".to_string() };
    assert!(matches!(auth.register(again, 0x78, NOW), Err(AppError::UserAlreadyExists)));

    let (user, claims) = auth.login(LoginRequest { username: "alice".to_string(), password: "pw".to_string() }, 1_000).unwrap();
    assert_eq!(user.id, 0x77);
    assert_eq!(claims.exp, 1_000 + 24 * 3600);
    assert_eq!(claims.sub, uuid::Uuid::from_u128(0x77).to_string());
    let wrong = LoginRequest { username: "alice".to_string(), password: "nope".to_string() };
    assert!(matches!(auth.login(wrong, 1_000), Err(AppError::AuthenticationFailed)));
    let unknown = LoginRequest { username: "bob".to_string(), password: "pw".to_string() };
    assert!(matches!(auth.login(unknown, 1_000), Err(AppError::AuthenticationFailed)));
}

#[test]
fn hashed_passwords_are_not_stored_as_given() {
    let mut auth = service(false);
    let req = RegisterRequest { username: "alice".to_string(), password: "pw".to_string() };
    let u = auth.register(req, 0x77, NOW).unwrap();
    assert_ne!(u.password, "pw");
    assert!(u.password.starts_with("$2"));
    assert_eq!(auth.user_storage.get(0x77).unwrap().password, u.password);
    let wrong = LoginRequest { username: "alice".to_string(), password: "pw2".to_string() };
    assert!(matches!(auth.login(wrong, 1_000), Err(AppError::AuthenticationFailed)));
}

#[test]
fn login_fails_when_the_expiry_cannot_be_carried() {
    let mut auth = AuthService::new(UserStorage::new(), TokenService::new("s".to_string(), i64::MAX / 3600), true);
    auth.register(RegisterRequest { username: "a".to_string(), password: "p".to_string() }, 1, NOW).unwrap();
    let req = LoginRequest { username: "a".to_string(), password: "p".to_string() };
    assert!(matches!(auth.login(req, 1_000_000), Err(AppError::Internal(_))));
}

#[test]
fn renaming_keeps_usernames_unique() {
    let mut users = UserStorage::new();
    users.create(User::new(1, "alice".to_string(), "p".to_string(), NOW)).unwrap();
    users.create(User::new(2, "bob".to_string(), "q".to_string(), NOW)).unwrap();
    assert_eq!(users.update_username(1, Some("  ".to_string())).unwrap().username, "alice");
    assert_eq!(users.update_username(1, None).unwrap().username, "alice");
    assert!(matches!(users.update_username(1, Some("bob".to_string())), Err(AppError::UserAlreadyExists)));
    assert_eq!(users.update_username(1, Some("carol".to_string())).unwrap().username, "carol");
    assert_eq!(users.get_by_username("carol").unwrap().id, 1);
    assert!(matches!(users.update_username(9, Some("x".to_string())), Err(AppError::NotFound)));
}
