use vstats::admin::{effective_password_hash, login_allowed, PasswordChange};
use vstats::config::AppConfig;

#[test]
fn login_checks_the_effective_hash() {
    let hash = bcrypt::hash("secret", 4).unwrap();
    let stale = bcrypt::hash("old", 4).unwrap();
    assert!(login_allowed(Some(hash.clone()), &stale, "secret"));
    assert!(!login_allowed(Some(hash.clone()), &stale, "old"));
    assert!(login_allowed(Some("garbage".to_string()), &stale, "old"));
    assert!(login_allowed(None, &hash, "secret"));
    assert!(!login_allowed(None, &"not a hash".to_string(), "secret"));
    assert_eq!(effective_password_hash(Some("garbage".to_string()), &stale), stale);
    assert_eq!(effective_password_hash(Some(hash.clone()), &stale), hash);
}

#[test]
fn fresh_config_and_password_change() {
    let (mut config, password) = AppConfig::new_with_random_password().expect("hashing works");
    assert_eq!(password.len(), 16);
    assert!(config.admin_password_hash.starts_with("$2b$"));
    assert_ne!(config.admin_password_hash, password);
    assert!(login_allowed(None, &config.admin_password_hash, &password));
    assert_eq!(config.jwt_secret.len(), 64);
    assert!(config.servers.is_empty());
    assert_eq!(config.site_settings.site_name, "vStats Dashboard");
    let current = config.admin_password_hash.clone();
    assert!(matches!(config.change_password(&current, "wrong", "next"), PasswordChange::WrongPassword));
    assert_eq!(config.admin_password_hash, current);
}

#[test]
fn repair_replaces_bad_hash_and_empty_secret() {
    let (mut config, _) = AppConfig::new_with_random_password().expect("hashing works");
    config.admin_password_hash = "plain".to_string();
    config.jwt_secret = String::new();
    let repair = config.repair();
    assert!(repair.changed);
    let password = repair.new_password.expect("new password");
    assert_eq!(password.len(), 16);
    assert!(config.admin_password_hash.starts_with("$2b$"));
    assert_eq!(config.jwt_secret.len(), 64);
    let again = config.repair();
    assert!(!again.changed);
    assert!(again.new_password.is_none());
}
