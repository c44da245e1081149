use portweave::config::{ForwardKind, TunnelConfig};
use portweave::ssh::command_args;

fn remote_config() -> TunnelConfig {
    TunnelConfig {
        id: 0,
        name: "example-remote".into(),
        host: "203.0.113.10".into(),
        user: "developer".into(),
        ssh_port: 2222,
        kind: ForwardKind::Remote,
        bind_address: "127.0.0.1".into(),
        bind_port: 7897,
        target_host: "127.0.0.1".into(),
        target_port: 7897,
        identity_file: None,
        proxy_jump: None,
        autostart: false,
    }
}

#[test]
fn builds_expected_remote_forward_arguments() {
    let args = command_args(&remote_config());
    assert!(args.windows(2).any(|pair| pair == ["-p", "2222"]));
    assert!(args.windows(2).any(|pair| pair == ["-o", "BatchMode=yes"]));
    assert!(args
        .windows(2)
        .any(|pair| pair == ["-R", "127.0.0.1:7897:127.0.0.1:7897"]));
    assert_eq!(args.last().unwrap(), "developer@203.0.113.10");
}

#[test]
fn identity_file_is_one_unsplit_argument() {
    let mut config = remote_config();
    config.identity_file = Some("C:/Keys/my server key".into());
    let args = command_args(&config);
    assert!(args.contains(&"C:/Keys/my server key".to_string()));
}

#[test]
fn builds_local_forward_arguments() {
    let mut config = remote_config();
    config.kind = ForwardKind::Local;
    let args = command_args(&config);
    assert!(args
        .windows(2)
        .any(|pair| pair == ["-L", "127.0.0.1:7897:127.0.0.1:7897"]));
}

#[test]
fn builds_proxy_jump_chain_as_one_argument() {
    let mut config = remote_config();
    config.proxy_jump = Some("bastion,ops@edge.example:2202".into());
    let args = command_args(&config);
    assert!(args
        .windows(2)
        .any(|pair| pair == ["-J", "bastion,ops@edge.example:2202"]));
}

#[test]
fn full_argument_list() {
    let mut config = remote_config();
    config.identity_file = Some("key".into());
    config.proxy_jump = Some("jump".into());
    config.kind = ForwardKind::Local;
    config.bind_port = 1;
    config.target_host = "db".into();
    config.target_port = 65535;
    assert_eq!(
        command_args(&config),
        vec![
            "-N",
            "-T",
            "-o",
            "ExitOnForwardFailure=yes",
            "-o",
            "BatchMode=yes",
            "-o",
            "ServerAliveInterval=30",
            "-o",
            "ServerAliveCountMax=3",
            "-p",
            "2222",
            "-i",
            "key",
            "-J",
            "jump",
            "-L",
            "127.0.0.1:1:db:65535",
            "developer@203.0.113.10",
        ]
    );
}
