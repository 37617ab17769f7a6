use workspace_context::user::{
    User, UserIdCounter, UserPermissions, UserProfile, UserRepository, UserRole, EMAIL_REGEX,
    MAX_USERNAME_LENGTH, MIN_USERNAME_LENGTH,
};

fn sample(id: u64, name: &str) -> User {
    User::new(id, name.to_string(), format!("{}@example.com", name))
}

#[test]
fn new_user_has_blank_profile() {
    let u = sample(7, "ana");
    assert_eq!(u.id, 7);
    assert_eq!(u.username, "ana");
    assert_eq!(u.email, "ana@example.com");
    assert_eq!(u.profile.first_name, "");
    assert_eq!(u.profile.last_name, "");
    assert!(u.profile.bio.is_none());
    assert!(u.profile.avatar_url.is_none());
}

#[test]
fn full_name_joins_with_space() {
    let mut u = sample(1, "ana");
    assert_eq!(u.full_name(), " ");
    u.update_profile(UserProfile {
        first_name: "Ana".to_string(),
        last_name: "Silva".to_string(),
        bio: Some("hi".to_string()),
        avatar_url: None,
    });
    assert_eq!(u.full_name(), "Ana Silva");
    assert_eq!(u.profile.bio.as_deref(), Some("hi"));
    assert_eq!(u.id, 1);
}

#[test]
fn activity_and_permissions() {
    let active = sample(1, "ana");
    let inactive = sample(2, "");
    assert!(active.is_active());
    assert!(!inactive.is_active());
    assert!(active.can_read() && inactive.can_read());
    assert!(active.can_write());
    assert!(!inactive.can_write());
    assert!(!active.can_delete());
    assert_eq!(UserRole::Admin, UserRole::Admin);
    assert_ne!(UserRole::Guest, UserRole::User);
    assert_ne!(UserRole::Moderator, UserRole::Admin);
}

#[test]
fn repository_add_get_remove() {
    let mut repo = UserRepository::new();
    assert!(repo.get_user(1).is_none());
    repo.add_user(sample(1, "ana"));
    repo.add_user(sample(2, "rui"));
    assert_eq!(repo.get_user(1).map(|u| u.username.clone()), Some("ana".to_string()));
    repo.add_user(sample(1, "eva"));
    assert_eq!(repo.get_user(1).map(|u| u.username.clone()), Some("eva".to_string()));
    let removed = repo.remove_user(2);
    assert_eq!(removed.map(|u| u.username), Some("rui".to_string()));
    assert!(repo.get_user(2).is_none());
    assert!(repo.remove_user(2).is_none());
}

#[test]
fn user_ids_increase_from_one() {
    let mut c = UserIdCounter::new();
    assert_eq!(c.get_next_user_id(), 1);
    assert_eq!(c.get_next_user_id(), 2);
    assert_eq!(c.get_next_user_id(), 3);
    assert!(MIN_USERNAME_LENGTH < MAX_USERNAME_LENGTH);
    assert_eq!(EMAIL_REGEX, r"^[^\s@]+@[^\s@]+\.[^\s@]+$");
}
