use poem_api::middleware::auth::{constant_time_eq, Auth};

#[test]
fn constant_time_eq_matches_equal_strings() {
    assert!(constant_time_eq("secret", "secret"));
    assert!(constant_time_eq("", ""));
    assert!(constant_time_eq("密钥", "密钥"));
}

#[test]
fn constant_time_eq_rejects_different_strings() {
    assert!(!constant_time_eq("secret", "wrong"));
    assert!(!constant_time_eq("secret", "secreT"));
    assert!(!constant_time_eq("secret", "secret2"));
    assert!(!constant_time_eq("", "x"));
}

#[test]
fn constant_time_eq_compares_all_length_bits() {
    let nuls = "\0".repeat(256);
    assert!(!constant_time_eq("", &nuls));
    assert!(!constant_time_eq("a", &("a".to_string() + &"\0".repeat(256))));
}

#[test]
fn nul_key_admits_only_itself() {
    let key = "\0".repeat(256);
    let auth = Auth::new(Some(key.clone()));
    assert!(!auth.is_authorized(Some(""), None));
    assert!(!auth.is_authorized(None, Some("Bearer ")));
    assert!(auth.is_authorized(Some(&key), None));
    assert!(auth.is_authorized(None, Some(&format!("Bearer {}", key))));
}

#[test]
fn open_mode_lets_everything_pass() {
    let auth = Auth::new(None);
    assert!(auth.is_authorized(None, None));
    assert!(auth.is_authorized(Some("anything"), Some("Bearer x")));
}

#[test]
fn api_key_header_is_checked() {
    let auth = Auth::new(Some("secret".to_string()));
    assert!(!auth.is_authorized(None, None));
    assert!(auth.is_authorized(Some("secret"), None));
    assert!(!auth.is_authorized(Some("wrong"), None));
}

#[test]
fn api_key_header_takes_precedence_over_bearer() {
    let auth = Auth::new(Some("secret".to_string()));
    assert!(!auth.is_authorized(Some("wrong"), Some("Bearer secret")));
    assert!(auth.is_authorized(Some("secret"), Some("Bearer wrong")));
}

#[test]
fn bearer_token_is_checked() {
    let auth = Auth::new(Some("secret".to_string()));
    assert!(auth.is_authorized(None, Some("Bearer secret")));
    assert!(!auth.is_authorized(None, Some("Bearer wrong")));
    assert!(!auth.is_authorized(None, Some("bearer secret")));
    assert!(!auth.is_authorized(None, Some("secret")));
    assert!(!auth.is_authorized(None, Some("Bearer  secret")));
}
