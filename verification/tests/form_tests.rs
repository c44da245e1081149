use portweave::config::{ForwardKind, TunnelConfig};
use portweave::form::TunnelForm;
use portweave::ssh_config::SshConnection;

fn filled() -> TunnelForm {
    let mut form = TunnelForm::new();
    form.name = "  example-remote ".into();
    form.host = "203.0.113.10".into();
    form.user = "developer".into();
    form.ssh_port = "2222".into();
    form.bind_port = "7897".into();
    form.target_port = "7897".into();
    form
}

#[test]
fn a_new_form_has_the_defaults() {
    let form = TunnelForm::default();
    assert_eq!(form.editing, None);
    assert_eq!(form.ssh_port, "22");
    assert_eq!(form.kind, ForwardKind::Remote);
    assert_eq!(form.bind_address, "127.0.0.1");
    assert_eq!(form.target_host, "127.0.0.1");
    assert!(form.bind_port.is_empty());
    assert!(form.error.is_none());
}

#[test]
fn saving_a_form_trims_and_validates() {
    let tunnel = filled().to_tunnel_with_id(99).unwrap();
    assert_eq!(tunnel.id, 99);
    assert_eq!(tunnel.name, "example-remote");
    assert_eq!(tunnel.ssh_port, 2222);
    assert_eq!(tunnel.identity_file, None);
    assert_eq!(tunnel.proxy_jump, None);

    let mut form = filled();
    form.identity_file = "  C:/Keys/my key ".into();
    form.proxy_jump = " bastion ".into();
    let tunnel = form.to_tunnel_with_id(1).unwrap();
    assert_eq!(tunnel.identity_file.as_deref(), Some("C:/Keys/my key"));
    assert_eq!(tunnel.proxy_jump.as_deref(), Some("bastion"));
}

#[test]
fn port_fields_are_checked_in_order() {
    let mut form = filled();
    form.ssh_port = "0".into();
    form.bind_port = "".into();
    assert_eq!(form.to_tunnel_with_id(1).unwrap_err(), "SSH 端口必须介于 1 到 65535 之间");
    form.ssh_port = "22".into();
    assert_eq!(form.to_tunnel_with_id(1).unwrap_err(), "监听端口必须介于 1 到 65535 之间");
    form.bind_port = "80".into();
    form.target_port = "65536".into();
    assert_eq!(form.to_tunnel_with_id(1).unwrap_err(), "目标端口必须介于 1 到 65535 之间");
    form.target_port = "65535".into();
    form.host = " ".into();
    assert_eq!(form.to_tunnel_with_id(1).unwrap_err(), "请输入服务器地址");
}

#[test]
fn editing_keeps_the_id_and_round_trips() {
    let tunnel = TunnelConfig {
        id: 5,
        name: "n".into(),
        host: "h".into(),
        user: "u".into(),
        ssh_port: 22,
        kind: ForwardKind::Local,
        bind_address: "0.0.0.0".into(),
        bind_port: 8080,
        target_host: "db".into(),
        target_port: 5432,
        identity_file: Some("k".into()),
        proxy_jump: Some("j".into()),
        autostart: true,
    };
    let form = TunnelForm::from_tunnel(&tunnel);
    assert_eq!(form.bind_port, "8080");
    assert_eq!(form.to_tunnel_with_id(1234).unwrap(), tunnel);
    assert_eq!(form.to_tunnel().unwrap(), tunnel);
}

#[test]
fn a_new_tunnel_gets_a_fresh_id() {
    let a = filled().to_tunnel().unwrap();
    let b = filled().to_tunnel().unwrap();
    assert_ne!(a.id, b.id);
    assert_eq!(uuid::Uuid::from_u128(a.id).get_version_num(), 4);
    assert_eq!(uuid::Uuid::from_u128(b.id).get_version_num(), 4);
}

#[test]
fn an_imported_connection_prefills_the_form() {
    let connection = SshConnection {
        alias: "app".into(),
        host_name: "10.0.0.1".into(),
        user: "deploy".into(),
        port: 2202,
        proxy_jump: Some("bastion".into()),
    };
    let form = TunnelForm::from_ssh_connection(&connection);
    assert_eq!(form.name, "app");
    assert_eq!(form.host, "app");
    assert_eq!(form.user, "deploy");
    assert_eq!(form.ssh_port, "2202");
    assert_eq!(form.proxy_jump, "bastion");
    assert_eq!(form.editing, None);
}

#[test]
fn an_imported_connection_is_saved_under_its_alias() {
    let connection = SshConnection {
        alias: "app".into(),
        host_name: "10.0.0.1".into(),
        user: "deploy".into(),
        port: 2202,
        proxy_jump: Some("bastion,edge".into()),
    };
    let mut form = TunnelForm::from_ssh_connection(&connection);
    form.kind = ForwardKind::Local;
    form.bind_port = "8080".into();
    form.target_port = "80".into();
    let tunnel = form.to_tunnel().unwrap();
    assert_eq!(tunnel.name, "app");
    assert_eq!(tunnel.host, "app");
    assert_eq!(tunnel.user, "deploy");
    assert_eq!(tunnel.ssh_port, 2202);
    assert_eq!(tunnel.proxy_jump.as_deref(), Some("bastion,edge"));
    assert_eq!(tunnel.identity_file, None);
    assert_eq!(tunnel.kind, ForwardKind::Local);
}
