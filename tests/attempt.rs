use rust_ssh_connect::attempt::{connection_string, decimal_string, ssh_arguments, CONNECT_TIMEOUT_SECS};
use rust_ssh_connect::ConnectionInfo;

fn info() -> ConnectionInfo {
    ConnectionInfo {
        host: "10.0.0.5".to_string(),
        port: 2222,
        username: "ubuntu".to_string(),
        private_key: "/home/me/.ssh/id_rsa".to_string(),
    }
}

#[test]
fn decimal_rendering() {
    assert_eq!(decimal_string(0), "0");
    assert_eq!(decimal_string(7), "7");
    assert_eq!(decimal_string(22), "22");
    assert_eq!(decimal_string(100), "100");
    assert_eq!(decimal_string(65535), "65535");
}

#[test]
fn connection_string_format() {
    assert_eq!(connection_string(&info()), "ssh -i /home/me/.ssh/id_rsa ubuntu@10.0.0.5 -p2222");
}

#[test]
fn arguments_are_batch_mode_with_bounded_connect() {
    let args = ssh_arguments(&info(), CONNECT_TIMEOUT_SECS);
    let expected = vec![
        "-i",
        "/home/me/.ssh/id_rsa",
        "-p",
        "2222",
        "ubuntu@10.0.0.5",
        "-o",
        "BatchMode=yes",
        "-o",
        "StrictHostKeyChecking=no",
        "-o",
        "NumberOfPasswordPrompts=0",
        "-o",
        "ConnectTimeout=5",
        "-v",
        "exit",
    ];
    assert_eq!(args, expected);
}
