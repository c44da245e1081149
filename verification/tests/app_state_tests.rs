use portweave::app_state::{Action, AppState, Message, Page, TunnelStatus, MAX_LOG_LINES};
use portweave::config::{AppConfig, ForwardKind, TunnelConfig};
use portweave::ssh_config::{SshConfigImport, SshConnection};

fn tunnel(id: u128, name: &str, autostart: bool) -> TunnelConfig {
    TunnelConfig {
        id,
        name: name.into(),
        host: "203.0.113.10".into(),
        user: "developer".into(),
        ssh_port: 22,
        kind: ForwardKind::Remote,
        bind_address: "127.0.0.1".into(),
        bind_port: 7897,
        target_host: "127.0.0.1".into(),
        target_port: 7897,
        identity_file: None,
        proxy_jump: None,
        autostart,
    }
}

fn state_with(tunnels: Vec<TunnelConfig>) -> (AppState, Vec<Action>) {
    let mut config = AppConfig::default();
    config.tunnels = tunnels;
    AppState::boot(config, None, None, true, false, Ok(false))
}

fn ids(actions: &[Action]) -> Vec<(String, u128)> {
    actions
        .iter()
        .map(|a| match a {
            Action::StartTunnel(id) => ("start".into(), *id),
            Action::StopTunnel(id) => ("stop".into(), *id),
            Action::FinishDelete(id) => ("delete".into(), *id),
            other => (format!("{other:?}"), 0),
        })
        .collect()
}

#[test]
fn boot_starts_autostart_tunnels_and_reports_the_first_problem() {
    let (state, actions) = state_with(vec![tunnel(1, "a", true), tunnel(2, "b", false), tunnel(3, "c", true)]);
    assert_eq!(ids(&actions), vec![("start".into(), 1), ("start".into(), 3)]);
    assert_eq!(state.banner, None);
    assert_eq!(state.page, Page::Tunnels);

    let (state, _) = AppState::boot(
        AppConfig::default(),
        Some("bad json".into()),
        Some("no tray".into()),
        false,
        true,
        Err("denied".into()),
    );
    assert_eq!(state.banner.as_deref(), Some("无法加载已保存的配置：bad json"));
    let (state, _) = AppState::boot(AppConfig::default(), None, Some("no tray".into()), false, true, Err("denied".into()));
    assert_eq!(state.banner.as_deref(), Some("系统托盘不可用，关闭窗口将退出程序：no tray"));
    let (state, _) = AppState::boot(AppConfig::default(), None, None, true, true, Err("denied".into()));
    assert_eq!(state.banner.as_deref(), Some("无法读取开机启动状态：denied"));
    assert!(!state.launch_at_login);
}

#[test]
fn starting_and_stopping_are_logged() {
    let (mut state, _) = state_with(vec![tunnel(1, "web", false)]);
    assert_eq!(ids(&state.update(Message::Start(1))), vec![("start".into(), 1)]);
    state.on_start_result(1, Ok(4242));
    state.on_start_result(1, Err("无法启动 OpenSSH：missing".into()));
    assert_eq!(state.errors.get(&1).map(String::as_str), Some("无法启动 OpenSSH：missing"));
    assert_eq!(state.banner.as_deref(), Some("无法启动“web”：无法启动 OpenSSH：missing"));
    state.on_stop_result(1, Ok(true));
    state.on_stop_result(1, Ok(false));
    state.on_tunnel_exit(1, Ok(-1));
    state.on_process_output(2, "Permission denied".into());
    let lines = state.logs.lines();
    assert_eq!(lines[0], "[web] 已启动 SSH 进程 4242。");
    assert_eq!(lines[1], "[web] 启动失败：无法启动 OpenSSH：missing");
    assert_eq!(lines[2], "[web] 已停止。");
    assert_eq!(lines[3], "[web] SSH 已退出，代码为 -1。");
    assert_eq!(
        lines[4],
        format!("[{}] Permission denied", uuid::Uuid::from_u128(2))
    );
    assert_eq!(state.errors.get(&1).map(String::as_str), Some("SSH 已退出，代码为 -1"));
}

#[test]
fn the_log_keeps_the_latest_lines() {
    let (mut state, _) = state_with(vec![tunnel(1, "web", false)]);
    for i in 0..(MAX_LOG_LINES + 3) {
        state.on_process_output(1, format!("line {i}"));
    }
    let lines = state.logs.lines();
    assert_eq!(lines.len(), MAX_LOG_LINES);
    assert_eq!(lines[0], "[web] line 3");
    assert_eq!(lines[MAX_LOG_LINES - 1], format!("[web] line {}", MAX_LOG_LINES + 2));
}

#[test]
fn deleting_stops_then_removes_and_saves() {
    let (mut state, _) = state_with(vec![tunnel(1, "a", false), tunnel(2, "b", false)]);
    state.update(Message::RequestDelete(2));
    assert_eq!(state.pending_delete, Some(2));
    let actions = state.update(Message::ConfirmDelete(2));
    assert_eq!(ids(&actions), vec![("stop".into(), 2), ("delete".into(), 2)]);
    state.on_stop_result(2, Ok(true));
    let actions = state.finish_delete(2);
    assert!(matches!(actions.as_slice(), [Action::SaveConfig]));
    assert_eq!(state.config.tunnels.len(), 1);
    assert_eq!(state.pending_delete, None);
    let lines = state.logs.lines();
    assert_eq!(lines[0], "[b] 已停止。");
    assert_eq!(lines[1], "已删除“b”。");
}

#[test]
fn saving_the_editor_replaces_or_adds() {
    let (mut state, _) = state_with(vec![tunnel(1, "a", false)]);
    state.update(Message::Edit(1));
    assert_eq!(state.page, Page::Editor);
    state.update(Message::NameChanged("renamed".into()));
    state.update(Message::SshPortChanged("2a2".into()));
    assert_eq!(state.form.ssh_port, "22");
    let actions = state.update(Message::SaveTunnel);
    let tunnel = match actions.as_slice() {
        [Action::StopIfRunning { id: 1, name }, Action::StoreTunnel(t)] => {
            assert_eq!(name, "renamed");
            t.clone()
        }
        other => panic!("unexpected {other:?}"),
    };
    state.on_stopped_for_change("renamed");
    let actions = state.store_tunnel(tunnel);
    assert!(matches!(actions.as_slice(), [Action::SaveConfig]));
    assert_eq!(state.config.tunnels.len(), 1);
    assert_eq!(state.config.tunnels[0].name, "renamed");
    assert_eq!(state.page, Page::Tunnels);
    assert_eq!(state.logs.lines()[0], "[renamed] 配置已更改，因此已停止。");

    state.update(Message::NewTunnel);
    state.update(Message::HostChanged("h".into()));
    let actions = state.update(Message::SaveTunnel);
    assert!(actions.is_empty());
    assert_eq!(state.form.error.as_deref(), Some("监听端口必须介于 1 到 65535 之间"));
}

#[test]
fn window_events() {
    let (mut state, _) = state_with(vec![]);
    state.config.start_minimized = true;
    assert!(matches!(state.update(Message::WindowEvent { close_requested: false }).as_slice(), [Action::HideWindow]));
    assert!(state.update(Message::WindowEvent { close_requested: false }).is_empty());
    assert!(matches!(state.update(Message::WindowEvent { close_requested: true }).as_slice(), [Action::HideWindow]));
    assert_eq!(state.logs.lines()[0], "窗口已隐藏，PortWeave 仍在系统托盘中运行。");
    state.tray_available = false;
    assert!(matches!(state.update(Message::WindowEvent { close_requested: true }).as_slice(), [Action::Quit]));
}

#[test]
fn settings_and_launch_at_login() {
    let (mut state, _) = state_with(vec![]);
    assert!(matches!(state.update(Message::MinimizeToTrayChanged(false)).as_slice(), [Action::SaveConfig]));
    assert!(!state.config.minimize_to_tray);
    assert!(matches!(state.update(Message::LaunchAtLoginChanged(true)).as_slice(), [Action::SetLaunchAtLogin(true)]));
    state.on_launch_at_login_result(true, Ok(()));
    assert!(state.launch_at_login);
    state.on_launch_at_login_result(false, Err("denied".into()));
    assert!(state.launch_at_login);
    assert_eq!(state.banner.as_deref(), Some("denied"));
    state.update(Message::DismissBanner);
    assert_eq!(state.banner, None);
    state.on_save_failed("disk full");
    assert_eq!(state.banner.as_deref(), Some("无法保存配置：disk full"));
}

#[test]
fn importing_reports_connections_and_skipped_aliases() {
    let (mut state, _) = state_with(vec![]);
    assert!(matches!(state.update(Message::ImportSshConfig).as_slice(), [Action::RunImport]));
    assert!(state.importing);
    let import = SshConfigImport {
        config_path: "C:/Users/u/.ssh/config".into(),
        connections: vec![SshConnection {
            alias: "app".into(),
            host_name: "10.0.0.1".into(),
            user: "deploy".into(),
            port: 22,
            proxy_jump: None,
        }],
        warnings: vec!["x: bad".into()],
    };
    state.update(Message::SshConfigImported(Ok(import)));
    assert!(!state.importing);
    assert_eq!(state.page, Page::Import);
    assert_eq!(state.banner.as_deref(), Some("找到 1 个连接；另有 1 个 Host 别名无法解析。"));
    assert_eq!(state.logs.lines()[0], "[SSH 导入] 已跳过 x: bad");
    state.update(Message::SelectImportedConnection(3));
    assert_eq!(state.page, Page::Import);
    state.update(Message::SelectImportedConnection(0));
    assert_eq!(state.page, Page::Editor);
    assert_eq!(state.form.host, "app");
    state.update(Message::SshConfigImported(Err("no home".into())));
    assert_eq!(state.banner.as_deref(), Some("无法导入 SSH 配置：no home"));
}

#[test]
fn start_all_and_stop_all_follow_the_list() {
    let (mut state, _) = state_with(vec![tunnel(3, "a", false), tunnel(1, "b", false)]);
    assert_eq!(ids(&state.update(Message::StartAll)), vec![("start".into(), 3), ("start".into(), 1)]);
    assert_eq!(ids(&state.update(Message::StopAll)), vec![("stop".into(), 3), ("stop".into(), 1)]);
    assert!(matches!(state.update(Message::Quit).as_slice(), [Action::Quit]));
}

#[test]
fn a_card_shows_running_problem_or_stopped() {
    let (mut state, _) = state_with(vec![tunnel(1, "web", false)]);
    assert_eq!(state.tunnel_status(1, None), TunnelStatus::Stopped);
    assert_eq!(state.tunnel_status(1, None).text(), "已停止");
    state.on_tunnel_exit(1, Ok(255));
    assert_eq!(state.tunnel_status(1, None), TunnelStatus::NeedsAttention);
    assert_eq!(state.tunnel_status(1, None).text(), "需要处理");
    assert_eq!(state.tunnel_status(1, Some(4242)), TunnelStatus::Running(4242));
    assert_eq!(state.tunnel_status(1, Some(4242)).text(), "运行中 · PID 4242");
    state.on_start_result(1, Ok(4242));
    assert_eq!(state.tunnel_status(1, None), TunnelStatus::Stopped);
}
