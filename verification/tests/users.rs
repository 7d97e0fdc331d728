use entity_repo::repository::Repository;
use entity_repo::v1;
use entity_repo::v2;
use entity_repo::v2::UserRole;

#[test]
fn lib_v1_test_create_user() {
    let user = v1::User::new("1".to_string(), "Alice".to_string(), "alice@example.com".to_string());
    assert_eq!(user.name, "Alice");
}

#[test]
fn lib_v2_test_create_user() {
    let user = v2::User::new("1".to_string(), "Alice".to_string(), "alice@example.com".to_string());
    assert_eq!(user.name, "Alice");
    assert_eq!(user.role, UserRole::User);
}

#[test]
fn test_user_with_role() {
    let user = v2::User::new("1".to_string(), "Bob".to_string(), "bob@example.com".to_string())
        .with_role(UserRole::Admin);
    assert!(user.is_admin());
}

#[test]
fn save_then_find_returns_saved_user() {
    let mut repo = v1::UserRepository::new();
    let user = v1::User::new("1".to_string(), "Alice".to_string(), "alice@example.com".to_string());
    repo.save(user.clone());
    let found = repo.find_by_id("1").expect("saved user must be found");
    assert_eq!(found.id, user.id);
    assert_eq!(found.name, user.name);
    assert_eq!(found.email, user.email);
}

#[test]
fn absent_id_is_absent_for_find_and_delete() {
    let mut repo = v1::UserRepository::new();
    repo.save(v1::User::new("1".to_string(), "Alice".to_string(), "a@example.com".to_string()));
    assert!(repo.find_by_id("2").is_none());
    assert!(repo.delete("2").is_none());
    assert!(repo.find_by_id("1").is_some());
}

#[test]
fn save_twice_with_same_value_changes_nothing() {
    let mut repo = v2::UserRepository::new();
    let user = v2::User::new("1".to_string(), "Alice".to_string(), "a@example.com".to_string());
    repo.save(user.clone());
    repo.save(user.clone());
    let all = repo.find_all();
    assert_eq!(all.len(), 1);
    assert_eq!(all[0].name, "Alice");
}

#[test]
fn save_with_same_id_overwrites() {
    let mut repo = v1::UserRepository::new();
    repo.save(v1::User::new("1".to_string(), "Alice".to_string(), "a@example.com".to_string()));
    repo.save(v1::User::new("1".to_string(), "Alicia".to_string(), "b@example.com".to_string()));
    let found = repo.find_by_id("1").expect("id must still be present");
    assert_eq!(found.name, "Alicia");
    assert_eq!(found.email, "b@example.com");
}

#[test]
fn delete_returns_value_once_then_absent() {
    let mut repo = v1::UserRepository::new();
    repo.save(v1::User::new("1".to_string(), "Alice".to_string(), "a@example.com".to_string()));
    let removed = repo.delete("1").expect("first delete must return the user");
    assert_eq!(removed.name, "Alice");
    assert!(repo.delete("1").is_none());
    assert!(repo.find_by_id("1").is_none());
}

#[test]
fn with_role_leaves_original_value_unchanged() {
    let original = v2::User::new(
        "1".to_string(),
        "Alice".to_string(),
        "alice@example.com".to_string(),
    );
    assert!(!original.is_admin());
    let promoted = original.clone().with_role(UserRole::Admin);
    assert!(promoted.is_admin());
    assert!(!original.is_admin());
    assert_eq!(original.role, UserRole::User);
    assert_eq!(promoted.created_at, original.created_at);
}

#[test]
fn find_by_email_matches_exactly() {
    let mut repo = v2::UserRepository::new();
    repo.save(v2::User::new("1".to_string(), "Alice".to_string(), "alice@example.com".to_string()));
    repo.save(v2::User::new("2".to_string(), "Bob".to_string(), "bob@example.com".to_string()));
    let found = repo.find_by_email("bob@example.com").expect("email is stored");
    assert_eq!(found.id, "2");
    assert!(repo.find_by_email("carol@example.com").is_none());
    assert!(repo.find_by_email("BOB@example.com").is_none());
}

#[test]
fn find_by_role_returns_exactly_the_matching_users() {
    let mut repo = v2::UserRepository::new();
    repo.save(
        v2::User::new("1".to_string(), "Alice".to_string(), "a@example.com".to_string())
            .with_role(UserRole::Admin),
    );
    repo.save(v2::User::new("2".to_string(), "Bob".to_string(), "b@example.com".to_string()));
    repo.save(
        v2::User::new("3".to_string(), "Carol".to_string(), "c@example.com".to_string())
            .with_role(UserRole::Admin),
    );
    let admins = repo.find_by_role(&UserRole::Admin);
    let mut ids: Vec<&str> = admins.iter().map(|u| u.id.as_str()).collect();
    ids.sort();
    assert_eq!(ids, ["1", "3"]);
    let guests = repo.find_by_role(&UserRole::Guest);
    assert!(guests.is_empty());
}

#[test]
fn find_all_returns_every_user() {
    let mut repo = v2::UserRepository::new();
    assert!(repo.find_all().is_empty());
    repo.save(v2::User::new("1".to_string(), "Alice".to_string(), "a@example.com".to_string()));
    repo.save(v2::User::new("2".to_string(), "Bob".to_string(), "b@example.com".to_string()));
    let mut ids: Vec<&str> = repo.find_all().into_iter().map(|u| u.id.as_str()).collect();
    ids.sort();
    assert_eq!(ids, ["1", "2"]);
}

#[test]
fn trait_capability_set_works_for_users() {
    let mut repo = v2::UserRepository::new();
    let user = v2::User::new("1".to_string(), "Alice".to_string(), "a@example.com".to_string());
    Repository::save(&mut repo, user);
    let found = Repository::find_by_id(&repo, "1").expect("saved user must be found");
    assert_eq!(found.name, "Alice");
    let removed = Repository::delete(&mut repo, "1").expect("delete must return the user");
    assert_eq!(removed.name, "Alice");
    assert!(Repository::find_by_id(&repo, "1").is_none());
}

#[test]
fn format_user_v1_renders_name_and_email() {
    let user = v1::User::new("1".to_string(), "Alice".to_string(), "alice@example.com".to_string());
    assert_eq!(v1::format_user(&user), "Alice <alice@example.com>");
}

#[test]
fn format_user_v2_renders_role_label() {
    let user = v2::User::new("1".to_string(), "Alice".to_string(), "alice@example.com".to_string());
    assert_eq!(v2::format_user(&user), "Alice <alice@example.com> (User)");
    let admin = user.with_role(UserRole::Admin);
    assert_eq!(v2::format_user(&admin), "Alice <alice@example.com> (Admin)");
    let guest = v2::User::new("2".to_string(), "Bob".to_string(), "bob@example.com".to_string())
        .with_role(UserRole::Guest);
    assert_eq!(v2::format_user(&guest), "Bob <bob@example.com> (Guest)");
}
