use portweave::config::{AppConfig, ForwardKind, TunnelConfig, CONFIG_VERSION};

fn sample() -> TunnelConfig {
    TunnelConfig {
        id: 0,
        name: "example-remote".into(),
        host: "203.0.113.10".into(),
        user: "developer".into(),
        ssh_port: 2222,
        kind: ForwardKind::Remote,
        bind_address: "127.0.0.1".into(),
        bind_port: 7897,
        target_host: "127.0.0.1".into(),
        target_port: 7897,
        identity_file: None,
        proxy_jump: None,
        autostart: false,
    }
}

#[test]
fn validates_required_fields() {
    let mut tunnel = sample();
    assert!(tunnel.validate().is_ok());
    tunnel.host.clear();
    assert_eq!(tunnel.validate().unwrap_err(), "请输入服务器地址");
}

#[test]
fn rejects_destination_values_that_could_be_parsed_as_options() {
    let mut tunnel = sample();
    tunnel.host = "-oProxyCommand=bad".into();
    assert_eq!(tunnel.validate().unwrap_err(), "服务器地址包含不支持的字符");

    tunnel.host = "example.com".into();
    tunnel.user = "name@example".into();
    assert_eq!(tunnel.validate().unwrap_err(), "SSH 用户名包含不支持的字符");
}

#[test]
fn validates_proxy_jump_chains() {
    let mut tunnel = sample();
    tunnel.proxy_jump = Some("bastion,ops@edge.example:2222".into());
    assert!(tunnel.validate().is_ok());

    tunnel.proxy_jump = Some("bastion, -oBad=yes".into());
    assert_eq!(
        tunnel.validate().unwrap_err(),
        "跳板机必须使用英文逗号分隔，且不能包含空格"
    );
}

#[test]
fn validation_reports_the_first_broken_rule_in_order() {
    let mut tunnel = sample();
    tunnel.name = " \t".into();
    tunnel.host = String::new();
    assert_eq!(tunnel.validate().unwrap_err(), "请输入名称");

    let mut tunnel = sample();
    tunnel.user = "\u{3000}".into();
    assert_eq!(tunnel.validate().unwrap_err(), "请输入 SSH 用户名");

    let mut tunnel = sample();
    tunnel.host = "exa mple".into();
    assert_eq!(tunnel.validate().unwrap_err(), "服务器地址包含不支持的字符");

    let mut tunnel = sample();
    tunnel.host = "bad\u{2003}host".into();
    assert_eq!(tunnel.validate().unwrap_err(), "服务器地址包含不支持的字符");

    let mut tunnel = sample();
    tunnel.bind_address = " ".into();
    assert_eq!(tunnel.validate().unwrap_err(), "请输入监听地址");

    let mut tunnel = sample();
    tunnel.target_host = String::new();
    assert_eq!(tunnel.validate().unwrap_err(), "请输入目标地址");

    let mut tunnel = sample();
    tunnel.target_port = 0;
    assert_eq!(tunnel.validate().unwrap_err(), "端口必须介于 1 到 65535 之间");
}

#[test]
fn host_may_hold_an_at_sign_but_the_user_may_not() {
    let mut tunnel = sample();
    tunnel.host = "user@host".into();
    assert!(tunnel.validate().is_ok());
    tunnel.user = "-l".into();
    assert_eq!(tunnel.validate().unwrap_err(), "SSH 用户名包含不支持的字符");
}

#[test]
fn rejects_jump_chains_with_empty_or_option_hops() {
    for bad in ["", "  ", "a,,b", ",a", "a,", "-J", "a,-b", "a\tb"] {
        let mut tunnel = sample();
        tunnel.proxy_jump = Some(bad.into());
        assert_eq!(
            tunnel.validate().unwrap_err(),
            "跳板机必须使用英文逗号分隔，且不能包含空格",
            "{bad:?}"
        );
    }
    let mut tunnel = sample();
    tunnel.proxy_jump = Some("a-b,c".into());
    assert!(tunnel.validate().is_ok());
}

#[test]
fn destination_and_mapping_texts() {
    let tunnel = sample();
    assert_eq!(tunnel.destination(), "developer@203.0.113.10:2222");
    assert_eq!(tunnel.mapping(), "127.0.0.1:7897 → 127.0.0.1:7897");
}

#[test]
fn forward_kind_flags_and_labels() {
    assert_eq!(ForwardKind::Remote.ssh_flag(), "-R");
    assert_eq!(ForwardKind::Local.ssh_flag(), "-L");
    assert_eq!(ForwardKind::Remote.label(), "远程转发 (-R)");
    assert_eq!(ForwardKind::Local.label(), "本地转发 (-L)");
    assert_eq!(ForwardKind::Local.to_label_string(), "本地转发 (-L)");
    assert_eq!(ForwardKind::all(), [ForwardKind::Remote, ForwardKind::Local]);
    assert_eq!(ForwardKind::default(), ForwardKind::Remote);
}

#[test]
fn default_settings() {
    let config = AppConfig::default();
    assert_eq!(config.version, CONFIG_VERSION);
    assert!(config.tunnels.is_empty());
    assert!(config.minimize_to_tray);
    assert!(!config.start_minimized);
    assert_eq!(portweave::config::default_ssh_port(), 22);
    assert_eq!(portweave::config::default_loopback(), "127.0.0.1");
    assert!(portweave::config::default_true());
    assert_eq!(portweave::config::config_version(), 1);
}

#[test]
fn clone_keeps_every_field() {
    let mut tunnel = sample();
    tunnel.identity_file = Some("C:/Keys/id".into());
    tunnel.proxy_jump = Some("bastion".into());
    assert_eq!(tunnel.clone(), tunnel);
}
