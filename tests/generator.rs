use rust_ssh_connect::combos::{expand_home_dir, generate_combos};
use rust_ssh_connect::{ConnectionInfo, SshConfig};

fn source(certs: &[&str], ports: &[u16], users: &[&str]) -> SshConfig {
    SshConfig {
        certs: certs.iter().map(|s| s.to_string()).collect(),
        ports: ports.to_vec(),
        users: users.iter().map(|s| s.to_string()).collect(),
    }
}

fn triple(c: &ConnectionInfo) -> (String, u16, String) {
    (c.private_key.clone(), c.port, c.username.clone())
}

#[test]
fn count_is_product_in_key_port_user_order() {
    let cfg = source(&["/k1", "/k2"], &[22, 2222, 80], &["a", "b"]);
    let combos = generate_combos("host", &cfg, "", "", "/home/me");
    assert_eq!(combos.len(), 2 * 3 * 2);
    let mut expected = Vec::new();
    for k in ["/k1", "/k2"] {
        for p in [22u16, 2222, 80] {
            for u in ["a", "b"] {
                expected.push((k.to_string(), p, u.to_string()));
            }
        }
    }
    let got: Vec<_> = combos.iter().map(triple).collect();
    assert_eq!(got, expected);
    assert!(combos.iter().all(|c| c.host == "host"));
}

#[test]
fn username_override_replaces_user_list() {
    let cfg = source(&["/k1", "/k2"], &[22, 23], &["a", "b", "c"]);
    let combos = generate_combos("h", &cfg, "root", "", "/home/me");
    assert_eq!(combos.len(), 2 * 2 * 1);
    assert!(combos.iter().all(|c| c.username == "root"));
}

#[test]
fn key_override_replaces_key_list() {
    let cfg = source(&["/k1", "/k2"], &[22], &["a"]);
    let combos = generate_combos("h", &cfg, "", "~/.ssh/special", "/home/me");
    assert_eq!(combos.len(), 1);
    assert_eq!(combos[0].private_key, "/home/me/.ssh/special");
}

#[test]
fn leading_tilde_becomes_home() {
    let cfg = source(&["~/.ssh/id_rsa", "/abs/key"], &[22], &["u"]);
    let combos = generate_combos("h", &cfg, "", "", "/home/me");
    assert_eq!(combos[0].private_key, "/home/me/.ssh/id_rsa");
    assert_eq!(combos[1].private_key, "/abs/key");
    assert!(combos.iter().all(|c| !c.private_key.starts_with('~')));
}

#[test]
fn expand_home_only_touches_a_leading_tilde() {
    assert_eq!(expand_home_dir("~/.ssh/id_rsa", "/root"), "/root/.ssh/id_rsa");
    assert_eq!(expand_home_dir("/keys/a~b", "/root"), "/keys/a~b");
    assert_eq!(expand_home_dir("", "/root"), "");
    assert_eq!(expand_home_dir("~", "/root"), "/root");
}

#[test]
fn empty_keys_give_no_candidates() {
    let cfg = source(&[], &[22], &["u"]);
    assert!(generate_combos("h", &cfg, "", "", "/home/me").is_empty());
}

#[test]
fn empty_ports_give_no_candidates() {
    let cfg = source(&["/k"], &[], &["u"]);
    assert!(generate_combos("h", &cfg, "", "", "/home/me").is_empty());
}

#[test]
fn empty_users_give_no_candidates() {
    let cfg = source(&["/k"], &[22], &[]);
    assert!(generate_combos("h", &cfg, "", "", "/home/me").is_empty());
}
