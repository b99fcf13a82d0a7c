use dim_core::settings::UserSettings;
use dim_core::store::Store;
use dim_core::users::{InsertableUser, Login, UpdateableUser, User};
use dim_core::CoreError;

fn registration(username: &str, password: &str, token: &str) -> InsertableUser {
    InsertableUser {
        username: username.to_string(),
        password: password.to_string(),
        roles: vec!["owner".to_string()],
        prefs: UserSettings::default(),
        claimed_invite: token.to_string(),
    }
}

fn store_with_token(token: &str) -> Store {
    let mut store = Store::new();
    Login::record_invite(&mut store, token.to_string(), 1000).unwrap();
    store
}

#[test]
fn token_claim_race_exactly_one_succeeds() {
    let mut store = store_with_token("tok-1");
    let first = registration("alice", "pw1", "tok-1").insert(&mut store);
    assert_eq!(first, Ok("alice".to_string()));
    let second = registration("bob", "pw2", "tok-1").insert(&mut store);
    assert_eq!(second, Err(CoreError::InvalidToken));
    assert_eq!(store.users.len(), 1);
}

#[test]
fn duplicate_username_conflicts() {
    let mut store = store_with_token("tok-1");
    Login::record_invite(&mut store, "tok-2".to_string(), 1001).unwrap();
    registration("alice", "pw1", "tok-1").insert(&mut store).unwrap();
    let again = registration("alice", "pw2", "tok-2").insert(&mut store);
    assert_eq!(again, Err(CoreError::Conflict));
}

#[test]
fn unknown_token_is_invalid() {
    let mut store = Store::new();
    let r = registration("alice", "pw1", "no-such-token").insert(&mut store);
    assert_eq!(r, Err(CoreError::InvalidToken));
}

#[test]
fn stored_password_is_a_salted_digest() {
    let mut store = store_with_token("tok-1");
    registration("alice", "hunter2", "tok-1").insert(&mut store).unwrap();
    let row = &store.users[0];
    assert_ne!(row.password, "hunter2");
    assert_eq!(
        row.password,
        dim_core::credentials::hash("alice".to_string(), "hunter2".to_string())
    );
}

#[test]
fn authentication_checks_username_and_secret() {
    let mut store = store_with_token("tok-1");
    registration("alice", "hunter2", "tok-1").insert(&mut store).unwrap();
    let ok = User::get_one(&store, "alice".to_string(), "hunter2".to_string());
    assert!(ok.is_ok());
    assert_eq!(ok.unwrap().username, "alice");
    let wrong_pw = User::get_one(&store, "alice".to_string(), "hunter3".to_string());
    assert_eq!(wrong_pw.err(), Some(CoreError::Unauthorized));
    let wrong_user = User::get_one(&store, "bob".to_string(), "hunter2".to_string());
    assert_eq!(wrong_user.err(), Some(CoreError::Unauthorized));
}

#[test]
fn set_password_rotates_the_digest() {
    let mut store = store_with_token("tok-1");
    registration("alice", "old-pw", "tok-1").insert(&mut store).unwrap();
    assert_eq!(User::set_password(&mut store, "alice".to_string(), "new-pw".to_string()), 1);
    assert!(User::get_one(&store, "alice".to_string(), "new-pw".to_string()).is_ok());
    assert!(User::get_one(&store, "alice".to_string(), "old-pw".to_string()).is_err());
    assert_eq!(User::set_password(&mut store, "nobody".to_string(), "x".to_string()), 0);
}

#[test]
fn rename_and_picture_and_prefs_updates() {
    let mut store = store_with_token("tok-1");
    Login::record_invite(&mut store, "tok-2".to_string(), 1001).unwrap();
    registration("alice", "pw1", "tok-1").insert(&mut store).unwrap();
    registration("bob", "pw2", "tok-2").insert(&mut store).unwrap();

    let clash = User::set_username(&mut store, "alice".to_string(), "bob".to_string());
    assert_eq!(clash, Err(CoreError::Conflict));
    let renamed = User::set_username(&mut store, "alice".to_string(), "carol".to_string());
    assert_eq!(renamed, Ok(1));
    assert!(User::get(&store, "carol").is_ok());
    assert!(User::get(&store, "alice").is_err());

    assert_eq!(User::set_picture(&mut store, "carol".to_string(), 42), 1);
    assert_eq!(store.users[0].picture, Some(42));

    let update = UpdateableUser { prefs: Some(UserSettings::default()) };
    assert_eq!(update.update(&mut store, "carol"), 1);
    let noop = UpdateableUser { prefs: None };
    assert_eq!(noop.update(&mut store, "carol"), 0);
}

#[test]
fn get_all_lists_every_account() {
    let mut store = store_with_token("tok-1");
    Login::record_invite(&mut store, "tok-2".to_string(), 1001).unwrap();
    registration("alice", "pw1", "tok-1").insert(&mut store).unwrap();
    registration("bob", "pw2", "tok-2").insert(&mut store).unwrap();
    let all = User::get_all(&store);
    assert_eq!(all.len(), 2);
    assert_eq!(all[0].username, "alice");
    assert_eq!(all[1].username, "bob");
}

#[test]
fn delete_removes_exactly_the_named_account() {
    let mut store = store_with_token("tok-1");
    registration("alice", "pw1", "tok-1").insert(&mut store).unwrap();
    assert_eq!(User::delete(&mut store, "alice".to_string()), 1);
    assert_eq!(User::delete(&mut store, "alice".to_string()), 0);
    assert!(store.users.is_empty());
}

#[test]
fn invite_registry_lifecycle() {
    let mut store = Store::new();
    let token = Login::new_invite(&mut store, 1234).unwrap();
    assert_eq!(token.len(), 36);
    assert_eq!(Login::get_all_invites(&store), vec![token.clone()]);

    let login = Login {
        username: String::new(),
        password: String::new(),
        invite_token: Some(token.clone()),
    };
    assert!(login.invite_token_valid(&store));
    let no_token = Login { username: String::new(), password: String::new(), invite_token: None };
    assert!(!no_token.invite_token_valid(&store));

    // claimed tokens are no longer valid and delete_token refuses them
    registration("alice", "pw", &token).insert(&mut store).unwrap();
    assert!(!login.invite_token_valid(&store));
    assert_eq!(Login::delete_token(&mut store, token.clone()), 0);
    assert_eq!(store.invites.len(), 1);

    // administrative invalidation removes the row regardless
    assert_eq!(login.invalidate_token(&mut store), 1);
    assert!(store.invites.is_empty());
}

#[test]
fn delete_token_removes_an_unclaimed_token() {
    let mut store = Store::new();
    Login::record_invite(&mut store, "tok-9".to_string(), 7).unwrap();
    assert_eq!(Login::delete_token(&mut store, "tok-9".to_string()), 1);
    assert!(store.invites.is_empty());
    assert_eq!(Login::delete_token(&mut store, "tok-9".to_string()), 0);
}

#[test]
fn recording_the_same_token_twice_conflicts() {
    let mut store = Store::new();
    Login::record_invite(&mut store, "tok-1".to_string(), 7).unwrap();
    let again = Login::record_invite(&mut store, "tok-1".to_string(), 8);
    assert_eq!(again.err(), Some(CoreError::Conflict));
}
