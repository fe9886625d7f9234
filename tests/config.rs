use rust_ssh_connect::config::{
    config_path, default_config, has_pub_suffix, log_level, parse_user_list, select_private_keys,
    split_fields,
};

#[test]
fn split_keeps_empty_pieces() {
    assert_eq!(split_fields("a,,b,", ','), vec!["a", "", "b", ""]);
    assert_eq!(split_fields("", ','), vec![""]);
    assert_eq!(split_fields("abc", ','), vec!["abc"]);
}

#[test]
fn user_list_is_trimmed() {
    assert_eq!(parse_user_list(" ubuntu , ec2-user,admin "), vec!["ubuntu", "ec2-user", "admin"]);
}

#[test]
fn default_config_uses_default_users_and_port() {
    let c = default_config(vec!["/home/me/.ssh/id_rsa".to_string()], None);
    assert_eq!(c.ssh.certs, vec!["/home/me/.ssh/id_rsa"]);
    assert_eq!(c.ssh.ports, vec![22]);
    assert_eq!(c.ssh.users, vec!["ubuntu", "ec2-user", "admin"]);
}

#[test]
fn default_config_takes_given_users() {
    let c = default_config(vec![], Some("root, git"));
    assert!(c.ssh.certs.is_empty());
    assert_eq!(c.ssh.users, vec!["root", "git"]);
}

#[test]
fn pub_suffix() {
    assert!(has_pub_suffix("/h/.ssh/id_rsa.pub"));
    assert!(has_pub_suffix(".pub"));
    assert!(!has_pub_suffix("/h/.ssh/id_rsa"));
    assert!(!has_pub_suffix("pub"));
    assert!(!has_pub_suffix("/h/.ssh/id.pubx"));
}

#[test]
fn private_keys_are_files_without_pub_suffix() {
    let entries = vec![
        ("/h/.ssh/id_rsa".to_string(), true),
        ("/h/.ssh/id_rsa.pub".to_string(), true),
        ("/h/.ssh/sub".to_string(), false),
        ("/h/.ssh/id_ed25519".to_string(), true),
    ];
    assert_eq!(select_private_keys(&entries), vec!["/h/.ssh/id_rsa", "/h/.ssh/id_ed25519"]);
}

#[test]
fn config_path_choice() {
    assert_eq!(config_path(Some("/etc/x.toml".to_string()), None), Some("/etc/x.toml".to_string()));
    assert_eq!(
        config_path(None, Some("/home/me".to_string())),
        Some("/home/me/.config/rust-ssh-connect.toml".to_string())
    );
    assert_eq!(config_path(None, None), None);
}

#[test]
fn log_levels() {
    assert_eq!(log_level(true, true), "debug");
    assert_eq!(log_level(false, true), "error");
    assert_eq!(log_level(false, false), "info");
}
