use creeper_term::ssh::{SshAuth, SshConfig};

fn config(password: Option<&str>, key_path: Option<&str>) -> SshConfig {
    SshConfig {
        host: "example.com".to_string(),
        port: 22,
        username: "me".to_string(),
        password: password.map(|s| s.to_string()),
        key_path: key_path.map(|s| s.to_string()),
    }
}

#[test]
fn password_comes_first() {
    match config(Some("pw"), Some("/k")).auth() {
        Some(SshAuth::Password(p)) => assert_eq!(p, "pw"),
        other => panic!("unexpected {:?}", other),
    }
}

#[test]
fn key_file_without_password() {
    match config(None, Some("/home/me/.ssh/id_ed25519")).auth() {
        Some(SshAuth::KeyFile(k)) => assert_eq!(k, "/home/me/.ssh/id_ed25519"),
        other => panic!("unexpected {:?}", other),
    }
}

#[test]
fn nothing_to_authenticate_with() {
    assert!(config(None, None).auth().is_none());
}
