//! The application's decisions: what each user action, process event and
//! window event does to the state, and which outside work (processes, files,
//! windows) it asks the caller to carry out, in order.
use crate::config::{AppConfig, ForwardKind, TunnelConfig};
use crate::form::{blank_form, edit_form, form_outcome, import_form, digits_of, digits_only, FormView, TunnelForm};
use crate::ids::{is_v4_id, uuid_string, uuid_text};
use crate::ssh_config::{SshConfigImport, SshConnection};
use crate::text::{decimal, push_char, push_decimal, string_views};
use std::collections::HashMap;
use vstd::prelude::*;
use vstd::std_specs::hash::group_hash_axioms;

verus! {

/// The most lines the activity log keeps.
pub const MAX_LOG_LINES: usize = 500;

/// The activity log: the latest lines, oldest first, at most `MAX_LOG_LINES`.
#[derive(Debug)]
pub struct ActivityLog {
    lines: Vec<String>,
}

impl View for ActivityLog {
    type V = Seq<Seq<char>>;

    closed spec fn view(&self) -> Seq<Seq<char>> {
        string_views(self.lines@)
    }
}

/// The log after `line` was added: the oldest line goes when the log is full.
pub open spec fn log_push(log: Seq<Seq<char>>, line: Seq<char>) -> Seq<Seq<char>> {
    if log.len() >= MAX_LOG_LINES {
        log.drop_first().push(line)
    } else {
        log.push(line)
    }
}

/// The log after adding each of `lines` in turn.
pub open spec fn log_push_all(log: Seq<Seq<char>>, lines: Seq<Seq<char>>) -> Seq<Seq<char>>
    decreases lines.len(),
{
    if lines.len() == 0 {
        log
    } else {
        log_push(log_push_all(log, lines.drop_last()), lines.last())
    }
}

impl ActivityLog {
    #[verifier::type_invariant]
    closed spec fn bounded(self) -> bool {
        self.lines.len() <= MAX_LOG_LINES
    }

    pub fn new() -> (log: Self)
        ensures
            log@ == Seq::<Seq<char>>::empty(),
    {
        let log = ActivityLog { lines: Vec::new() };
        assert(log@ =~= Seq::<Seq<char>>::empty());
        log
    }

    /// Adds a line, dropping the oldest one when the log is full.
    pub fn push(&mut self, line: String)
        ensures
            final(self)@ == log_push(old(self)@, line@),
            final(self)@.len() <= MAX_LOG_LINES,
    {
        proof {
            use_type_invariant(&*self);
        }
        let ghost lv = line@;
        let mut lines = Vec::new();
        std::mem::swap(&mut lines, &mut self.lines);
        let ghost before = string_views(lines@);
        if lines.len() == MAX_LOG_LINES {
            lines.remove(0);
            assert(string_views(lines@) =~= before.drop_first());
        }
        let ghost mid = string_views(lines@);
        lines.push(line);
        assert(string_views(lines@) =~= mid.push(lv));
        self.lines = lines;
    }

    /// The lines, oldest first.
    pub fn lines(&self) -> (lines: &Vec<String>)
        ensures
            string_views(lines@) == self@,
            lines@.len() <= MAX_LOG_LINES,
    {
        proof {
            use_type_invariant(self);
        }
        &self.lines
    }
}

/// The page the window shows.
#[derive(Debug, Clone, Copy, PartialEq, Eq, Structural)]
pub enum Page {
    Tunnels,
    Logs,
    Settings,
    Editor,
    Import,
}

/// What a tunnel's card says of it.
#[derive(Debug, Clone, Copy, PartialEq, Eq, Structural)]
pub enum TunnelStatus {
    /// Its process runs, with this process id.
    Running(u32),
    /// It is stopped after a problem that its card shows.
    NeedsAttention,
    /// It is stopped.
    Stopped,
}

/// The words a card shows for a status.
pub open spec fn status_text(s: TunnelStatus) -> Seq<char> {
    match s {
        TunnelStatus::Running(pid) => "运行中 · PID "@ + decimal(pid as nat),
        TunnelStatus::NeedsAttention => "需要处理"@,
        TunnelStatus::Stopped => "已停止"@,
    }
}

impl TunnelStatus {
    pub fn text(self) -> (t: String)
        ensures
            t@ == status_text(self),
    {
        match self {
            TunnelStatus::Running(pid) => {
                let mut t = String::from_str("运行中 · PID ");
                push_decimal(&mut t, pid as u64);
                t
            },
            TunnelStatus::NeedsAttention => String::from_str("需要处理"),
            TunnelStatus::Stopped => String::from_str("已停止"),
        }
    }
}

/// Outside work that a decision asks for, carried out in order by the caller,
/// which reports each result back through the matching `on_…` method.
#[derive(Debug)]
pub enum Action {
    /// Start the tunnel's process, then report with `on_start_result`.
    StartTunnel(u128),
    /// Stop the tunnel's process, then report with `on_stop_result`.
    StopTunnel(u128),
    /// When the tunnel runs: stop it, report with `on_stop_result`, then with `on_stopped_for_change(name)`.
    StopIfRunning { id: u128, name: String },
    /// Continue deleting the tunnel with `finish_delete`.
    FinishDelete(u128),
    /// Continue saving the tunnel with `store_tunnel`.
    StoreTunnel(TunnelConfig),
    /// Write the configuration; report a failure with `on_save_failed`.
    SaveConfig,
    /// Import the user's OpenSSH configuration; deliver it as `Message::SshConfigImported`.
    RunImport,
    /// Register or remove the start at login, then report with `on_launch_at_login_result`.
    SetLaunchAtLogin(bool),
    /// Hide the window.
    HideWindow,
    /// Stop every tunnel and exit.
    Quit,
}

/// What the user or the window asked for.
#[derive(Debug)]
pub enum Message {
    Navigate(Page),
    /// A window event; `close_requested` when it is a request to close.
    WindowEvent { close_requested: bool },
    Start(u128),
    Stop(u128),
    StartAll,
    StopAll,
    Edit(u128),
    RequestDelete(u128),
    ConfirmDelete(u128),
    CancelDelete,
    NewTunnel,
    ImportSshConfig,
    SshConfigImported(Result<SshConfigImport, String>),
    SelectImportedConnection(usize),
    CancelImport,
    SaveTunnel,
    CancelEdit,
    DismissBanner,
    NameChanged(String),
    HostChanged(String),
    UserChanged(String),
    SshPortChanged(String),
    KindChanged(ForwardKind),
    BindAddressChanged(String),
    BindPortChanged(String),
    TargetHostChanged(String),
    TargetPortChanged(String),
    IdentityFileChanged(String),
    ProxyJumpChanged(String),
    AutostartChanged(bool),
    MinimizeToTrayChanged(bool),
    StartMinimizedChanged(bool),
    LaunchAtLoginChanged(bool),
    Quit,
}

/// Everything the window shows and the decisions depend on.
#[derive(Debug)]
pub struct AppState {
    pub config: AppConfig,
    pub page: Page,
    pub form: TunnelForm,
    pub logs: ActivityLog,
    /// The last problem of each tunnel, shown on its card.
    pub errors: HashMap<u128, String>,
    /// A message shown above every page until dismissed.
    pub banner: Option<String>,
    pub initial_window_event_seen: bool,
    pub tray_available: bool,
    pub launch_at_login_supported: bool,
    pub launch_at_login: bool,
    /// The tunnel whose deletion waits for confirmation.
    pub pending_delete: Option<u128>,
    pub imported_connections: Vec<SshConnection>,
    pub import_source: Option<String>,
    pub importing: bool,
}

/// The state as plain values.
#[verifier::ext_equal]
pub struct AppView {
    pub version: u32,
    pub tunnels: Seq<TunnelConfig>,
    pub minimize_to_tray: bool,
    pub start_minimized: bool,
    pub page: Page,
    pub form: FormView,
    pub logs: Seq<Seq<char>>,
    pub errors: Map<u128, Seq<char>>,
    pub banner: Option<Seq<char>>,
    pub initial_window_event_seen: bool,
    pub tray_available: bool,
    pub launch_at_login_supported: bool,
    pub launch_at_login: bool,
    pub pending_delete: Option<u128>,
    pub imported: Seq<SshConnection>,
    pub import_source: Option<Seq<char>>,
    pub importing: bool,
}

pub open spec fn opt_string_view(o: Option<String>) -> Option<Seq<char>> {
    match o {
        Some(s) => Some(s@),
        None => None,
    }
}

pub open spec fn errors_view(m: Map<u128, String>) -> Map<u128, Seq<char>> {
    m.map_values(|s: String| s@)
}

impl View for AppState {
    type V = AppView;

    open spec fn view(&self) -> AppView {
        AppView {
            version: self.config.version,
            tunnels: self.config.tunnels@,
            minimize_to_tray: self.config.minimize_to_tray,
            start_minimized: self.config.start_minimized,
            page: self.page,
            form: self.form@,
            logs: self.logs@,
            errors: errors_view(self.errors@),
            banner: opt_string_view(self.banner),
            initial_window_event_seen: self.initial_window_event_seen,
            tray_available: self.tray_available,
            launch_at_login_supported: self.launch_at_login_supported,
            launch_at_login: self.launch_at_login,
            pending_delete: self.pending_delete,
            imported: self.imported_connections@,
            import_source: opt_string_view(self.import_source),
            importing: self.importing,
        }
    }
}

/// The position of the first tunnel with the id `id` at or after `i`; -1 when there is none.
pub open spec fn find_from(tunnels: Seq<TunnelConfig>, id: u128, i: int) -> int
    decreases tunnels.len() - i,
{
    if i >= tunnels.len() {
        -1
    } else if tunnels[i].id == id {
        i
    } else {
        find_from(tunnels, id, i + 1)
    }
}

/// The position of the first tunnel with the id `id`; -1 when there is none.
pub open spec fn tunnel_index(tunnels: Seq<TunnelConfig>, id: u128) -> int {
    find_from(tunnels, id, 0)
}

proof fn lemma_find_from(tunnels: Seq<TunnelConfig>, id: u128, i: int)
    requires
        0 <= i <= tunnels.len(),
    ensures
        find_from(tunnels, id, i) == -1 || (i <= find_from(tunnels, id, i) < tunnels.len() && tunnels[find_from(tunnels, id, i)].id == id),
        find_from(tunnels, id, i) == -1 ==> forall|j: int| i <= j < tunnels.len() ==> tunnels[j].id != id,
        forall|j: int| i <= j < find_from(tunnels, id, i) ==> tunnels[j].id != id,
    decreases tunnels.len() - i,
{
    if i < tunnels.len() {
        lemma_find_from(tunnels, id, i + 1);
    }
}

/// How the log and messages name a tunnel: its name, or its id when it is gone.
pub open spec fn tunnel_name(tunnels: Seq<TunnelConfig>, id: u128) -> Seq<char> {
    if tunnel_index(tunnels, id) >= 0 {
        tunnels[tunnel_index(tunnels, id)].name@
    } else {
        uuid_text(id)
    }
}

/// `[name] `, the prefix of a tunnel's log lines.
pub open spec fn tagged(name: Seq<char>) -> Seq<char> {
    seq!['['] + name + seq![']', ' ']
}

/// A number with its sign, as `i32::to_string` writes it.
pub open spec fn signed_decimal(n: int) -> Seq<char> {
    if n < 0 {
        seq!['-'] + decimal((-n) as nat)
    } else {
        decimal(n as nat)
    }
}

/// The tunnels other than those with the id `id`, in order.
pub open spec fn without_tunnel(tunnels: Seq<TunnelConfig>, id: u128) -> Seq<TunnelConfig> {
    tunnels.filter(|t: TunnelConfig| t.id != id)
}

/// The tunnels with `tunnel` in place of the first one with its id, or added last.
pub open spec fn with_tunnel(tunnels: Seq<TunnelConfig>, tunnel: TunnelConfig) -> Seq<TunnelConfig> {
    if tunnel_index(tunnels, tunnel.id) >= 0 {
        tunnels.update(tunnel_index(tunnels, tunnel.id), tunnel)
    } else {
        tunnels.push(tunnel)
    }
}

/// A start (or stop) request for every tunnel, in order.
pub open spec fn start_all(tunnels: Seq<TunnelConfig>) -> Seq<Action> {
    tunnels.map_values(|t: TunnelConfig| Action::StartTunnel(t.id))
}

pub open spec fn stop_all(tunnels: Seq<TunnelConfig>) -> Seq<Action> {
    tunnels.map_values(|t: TunnelConfig| Action::StopTunnel(t.id))
}

/// A start request for every tunnel that starts with the program, in order.
pub open spec fn autostart_actions(tunnels: Seq<TunnelConfig>) -> Seq<Action>
    decreases tunnels.len(),
{
    if tunnels.len() == 0 {
        Seq::empty()
    } else {
        let before = autostart_actions(tunnels.drop_last());
        if tunnels.last().autostart {
            before.push(Action::StartTunnel(tunnels.last().id))
        } else {
            before
        }
    }
}

/// What the banner says after the program started: a configuration that could
/// not be loaded first, then a missing tray, then an unknown login state.
pub open spec fn boot_banner(
    config_error: Option<Seq<char>>,
    tray_error: Option<Seq<char>>,
    launch_error: Option<Seq<char>>,
) -> Option<Seq<char>> {
    match config_error {
        Some(e) => Some("无法加载已保存的配置："@ + e),
        None => match tray_error {
            Some(e) => Some("系统托盘不可用，关闭窗口将退出程序："@ + e),
            None => match launch_error {
                Some(e) => Some("无法读取开机启动状态："@ + e),
                None => None,
            },
        },
    }
}

/// The state after an import of the OpenSSH configuration came back.
pub open spec fn imported_state(v: AppView, result: Result<SshConfigImport, String>) -> AppView {
    match result {
        Ok(import) => {
            let count = import.connections@.len();
            let warnings = string_views(import.warnings@);
            let base = AppView {
                importing: false,
                import_source: Some(import.config_path@),
                imported: import.connections@,
                page: Page::Import,
                ..v
            };
            if warnings.len() == 0 {
                AppView {
                    logs: log_push(v.logs, "在 OpenSSH 配置中找到 "@ + decimal(count) + " 个连接。"@),
                    ..base
                }
            } else {
                AppView {
                    banner: Some(
                        "找到 "@ + decimal(count) + " 个连接；另有 "@ + decimal(warnings.len()) + " 个 Host 别名无法解析。"@,
                    ),
                    logs: log_push_all(v.logs, warnings.map_values(|w: Seq<char>| "[SSH 导入] 已跳过 "@ + w)),
                    ..base
                }
            }
        },
        Err(e) => AppView { importing: false, banner: Some("无法导入 SSH 配置："@ + e@), ..v },
    }
}

/// The state after a tunnel's process exited (`Ok` with its exit code) or could not be checked.
pub open spec fn exit_state(v: AppView, id: u128, result: Result<i32, String>) -> AppView {
    let name = tunnel_name(v.tunnels, id);
    match result {
        Ok(code) => {
            let message = "SSH 已退出，代码为 "@ + signed_decimal(code as int);
            AppView {
                errors: v.errors.insert(id, message),
                logs: log_push(v.logs, tagged(name) + message + "。"@),
                ..v
            }
        },
        Err(e) => AppView {
            errors: v.errors.insert(id, e@),
            logs: log_push(v.logs, tagged(name) + "无法检查 SSH 进程："@ + e@),
            ..v
        },
    }
}

/// The state after starting a tunnel's process gave its process id or an error.
pub open spec fn start_state(v: AppView, id: u128, result: Result<u32, String>) -> AppView {
    let name = tunnel_name(v.tunnels, id);
    match result {
        Ok(pid) => AppView {
            errors: v.errors.remove(id),
            logs: log_push(v.logs, tagged(name) + "已启动 SSH 进程 "@ + decimal(pid as nat) + "。"@),
            ..v
        },
        Err(e) => AppView {
            errors: v.errors.insert(id, e@),
            banner: Some("无法启动“"@ + name + "”："@ + e@),
            logs: log_push(v.logs, tagged(name) + "启动失败："@ + e@),
            ..v
        },
    }
}

/// The state after stopping a tunnel: `Ok(true)` when it was running.
pub open spec fn stop_state(v: AppView, id: u128, result: Result<bool, String>) -> AppView {
    let name = tunnel_name(v.tunnels, id);
    match result {
        Ok(true) => AppView { logs: log_push(v.logs, tagged(name) + "已停止。"@), ..v },
        Ok(false) => v,
        Err(e) => AppView {
            banner: Some(e@),
            logs: log_push(v.logs, tagged(name) + "停止失败："@ + e@),
            ..v
        },
    }
}

/// What a window event does: the first event hides a window that starts
/// minimized; a close request hides the window when the tray can bring it
/// back and the user wants that, and quits otherwise.
pub open spec fn window_outcome(v: AppView, close_requested: bool) -> (AppView, Seq<Action>) {
    if !v.initial_window_event_seen && v.start_minimized {
        (AppView { initial_window_event_seen: true, ..v }, seq![Action::HideWindow])
    } else {
        let seen = AppView { initial_window_event_seen: true, ..v };
        if close_requested {
            if v.minimize_to_tray && v.tray_available {
                (
                    AppView { logs: log_push(v.logs, "窗口已隐藏，PortWeave 仍在系统托盘中运行。"@), ..seen },
                    seq![Action::HideWindow],
                )
            } else {
                (seen, seq![Action::Quit])
            }
        } else {
            (seen, Seq::empty())
        }
    }
}

/// The name a deletion reports: the tunnel's, or a generic word when it is gone.
pub open spec fn deleted_name(tunnels: Seq<TunnelConfig>, id: u128) -> Seq<char> {
    if tunnel_index(tunnels, id) >= 0 {
        tunnels[tunnel_index(tunnels, id)].name@
    } else {
        "隧道"@
    }
}

/// The form after one of its fields changed.
pub open spec fn form_field_change(f: FormView, m: Message) -> FormView {
    match m {
        Message::NameChanged(v) => FormView { name: v@, ..f },
        Message::HostChanged(v) => FormView { host: v@, ..f },
        Message::UserChanged(v) => FormView { user: v@, ..f },
        Message::SshPortChanged(v) => FormView { ssh_port: digits_of(v@), ..f },
        Message::KindChanged(k) => FormView { kind: k, ..f },
        Message::BindAddressChanged(v) => FormView { bind_address: v@, ..f },
        Message::BindPortChanged(v) => FormView { bind_port: digits_of(v@), ..f },
        Message::TargetHostChanged(v) => FormView { target_host: v@, ..f },
        Message::TargetPortChanged(v) => FormView { target_port: digits_of(v@), ..f },
        Message::IdentityFileChanged(v) => FormView { identity_file: v@, ..f },
        Message::ProxyJumpChanged(v) => FormView { proxy_jump: v@, ..f },
        Message::AutostartChanged(b) => FormView { autostart: b, ..f },
        _ => f,
    }
}

/// Whether `m` edits a field of the form.
pub open spec fn is_field_change(m: Message) -> bool {
    ||| m is NameChanged
    ||| m is HostChanged
    ||| m is UserChanged
    ||| m is SshPortChanged
    ||| m is KindChanged
    ||| m is BindAddressChanged
    ||| m is BindPortChanged
    ||| m is TargetHostChanged
    ||| m is TargetPortChanged
    ||| m is IdentityFileChanged
    ||| m is ProxyJumpChanged
    ||| m is AutostartChanged
}

/// What a message does to the state and which work it asks for; saving the
/// form is described by `save_outcome`, since a new tunnel gets a random id.
pub open spec fn update_outcome(v: AppView, m: Message) -> (AppView, Seq<Action>) {
    if is_field_change(m) {
        (AppView { form: form_field_change(v.form, m), ..v }, Seq::empty())
    } else {
        match m {
            Message::Navigate(page) => (AppView { page, ..v }, Seq::empty()),
            Message::WindowEvent { close_requested } => window_outcome(v, close_requested),
            Message::Start(id) => (v, seq![Action::StartTunnel(id)]),
            Message::Stop(id) => (v, seq![Action::StopTunnel(id)]),
            Message::StartAll => (v, start_all(v.tunnels)),
            Message::StopAll => (v, stop_all(v.tunnels)),
            Message::Edit(id) => if tunnel_index(v.tunnels, id) >= 0 {
                (
                    AppView { form: edit_form(v.tunnels[tunnel_index(v.tunnels, id)]@), page: Page::Editor, ..v },
                    Seq::empty(),
                )
            } else {
                (v, Seq::empty())
            },
            Message::RequestDelete(id) => (AppView { pending_delete: Some(id), ..v }, Seq::empty()),
            Message::ConfirmDelete(id) => (v, seq![Action::StopTunnel(id), Action::FinishDelete(id)]),
            Message::CancelDelete => (AppView { pending_delete: None, ..v }, Seq::empty()),
            Message::NewTunnel => (AppView { form: blank_form(), page: Page::Editor, ..v }, Seq::empty()),
            Message::ImportSshConfig => (AppView { importing: true, ..v }, seq![Action::RunImport]),
            Message::SshConfigImported(result) => (imported_state(v, result), Seq::empty()),
            Message::SelectImportedConnection(index) => if index < v.imported.len() {
                (AppView { form: import_form(v.imported[index as int]), page: Page::Editor, ..v }, Seq::empty())
            } else {
                (v, Seq::empty())
            },
            Message::CancelImport => (AppView { page: Page::Tunnels, ..v }, Seq::empty()),
            Message::CancelEdit => (AppView { form: blank_form(), page: Page::Tunnels, ..v }, Seq::empty()),
            Message::DismissBanner => (AppView { banner: None, ..v }, Seq::empty()),
            Message::MinimizeToTrayChanged(b) => (AppView { minimize_to_tray: b, ..v }, seq![Action::SaveConfig]),
            Message::StartMinimizedChanged(b) => (AppView { start_minimized: b, ..v }, seq![Action::SaveConfig]),
            Message::LaunchAtLoginChanged(b) => (v, seq![Action::SetLaunchAtLogin(b)]),
            Message::Quit => (v, seq![Action::Quit]),
            _ => (v, Seq::empty()),
        }
    }
}

/// Saving the form when a new tunnel would get the id `new_id`: an invalid form
/// keeps its message; a valid one asks to stop the tunnel if it runs, then to store it.
pub open spec fn save_outcome(v: AppView, new_id: u128, after: AppView, actions: Seq<Action>) -> bool {
    match form_outcome(v.form, new_id) {
        Ok(t) => {
            &&& after == v
            &&& actions.len() == 2
            &&& actions[0] matches Action::StopIfRunning { id, name } && id == t.id && name@ == t.name
            &&& actions[1] matches Action::StoreTunnel(c) && c@ == t
        },
        Err(message) => {
            &&& after == AppView { form: FormView { error: Some(message), ..v.form }, ..v }
            &&& actions.len() == 0
        },
    }
}

fn append_tagged(out: &mut String, name: &str)
    ensures
        final(out)@ == old(out)@ + tagged(name@),
{
    push_char(out, '[');
    out.append(name);
    push_char(out, ']');
    push_char(out, ' ');
    assert(final(out)@ =~= old(out)@ + tagged(name@));
}

fn push_signed(out: &mut String, n: i32)
    ensures
        final(out)@ == old(out)@ + signed_decimal(n as int),
{
    if n < 0 {
        push_char(out, '-');
        let m: i64 = -(n as i64);
        push_decimal(out, m as u64);
        assert(final(out)@ =~= old(out)@ + signed_decimal(n as int));
    } else {
        push_decimal(out, n as u64);
    }
}

impl AppState {
    /// The position of the first tunnel with the id `id`.
    pub fn find_tunnel(&self, id: u128) -> (r: Option<usize>)
        ensures
            match r {
                Some(i) => i == tunnel_index(self.config.tunnels@, id),
                None => tunnel_index(self.config.tunnels@, id) == -1,
            },
            r matches Some(i) ==> i < self.config.tunnels@.len() && self.config.tunnels@[i as int].id == id,
    {
        proof {
            lemma_find_from(self.config.tunnels@, id, 0);
        }
        let mut i: usize = 0;
        while i < self.config.tunnels.len()
            invariant
                i <= self.config.tunnels@.len(),
                find_from(self.config.tunnels@, id, 0) == find_from(self.config.tunnels@, id, i as int),
            decreases self.config.tunnels@.len() - i,
        {
            if self.config.tunnels[i].id == id {
                return Some(i);
            }
            i += 1;
        }
        None
    }

    /// The name the log uses for the tunnel `id`.
    pub fn tunnel_name(&self, id: u128) -> (name: String)
        ensures
            name@ == tunnel_name(self.config.tunnels@, id),
    {
        proof {
            lemma_find_from(self.config.tunnels@, id, 0);
        }
        match self.find_tunnel(id) {
            Some(i) => self.config.tunnels[i].name.clone(),
            None => uuid_string(id),
        }
    }

    /// The status of the tunnel `id`, given its process id when it runs.
    pub fn tunnel_status(&self, id: u128, running_pid: Option<u32>) -> (s: TunnelStatus)
        ensures
            s == (match running_pid {
                Some(pid) => TunnelStatus::Running(pid),
                None => if self@.errors.contains_key(id) {
                    TunnelStatus::NeedsAttention
                } else {
                    TunnelStatus::Stopped
                },
            }),
    {
        broadcast use group_hash_axioms;

        match running_pid {
            Some(pid) => TunnelStatus::Running(pid),
            None => {
                if self.errors.contains_key(&id) {
                    TunnelStatus::NeedsAttention
                } else {
                    TunnelStatus::Stopped
                }
            },
        }
    }

    fn log(&mut self, line: String)
        ensures
            final(self)@ == (AppView { logs: log_push(old(self)@.logs, line@), ..old(self)@ }),
    {
        self.logs.push(line);
    }

    /// The state right after the program started, and the tunnels that start with it.
    pub fn boot(
        config: AppConfig,
        config_error: Option<String>,
        tray_error: Option<String>,
        tray_available: bool,
        launch_at_login_supported: bool,
        launch_state: Result<bool, String>,
    ) -> (r: (AppState, Vec<Action>))
        ensures
            r.0@ == (AppView {
                version: config.version,
                tunnels: config.tunnels@,
                minimize_to_tray: config.minimize_to_tray,
                start_minimized: config.start_minimized,
                page: Page::Tunnels,
                form: blank_form(),
                logs: Seq::empty(),
                errors: Map::empty(),
                banner: boot_banner(
                    opt_string_view(config_error),
                    opt_string_view(tray_error),
                    match launch_state {
                        Ok(_) => None,
                        Err(e) => Some(e@),
                    },
                ),
                initial_window_event_seen: false,
                tray_available,
                launch_at_login_supported,
                launch_at_login: match launch_state {
                    Ok(b) => b,
                    Err(_) => false,
                },
                pending_delete: None,
                imported: Seq::empty(),
                import_source: None,
                importing: false,
            }),
            r.1@ == autostart_actions(config.tunnels@),
    {
        broadcast use group_hash_axioms;

        let banner = match config_error {
            Some(e) => {
                let mut b = String::from_str("无法加载已保存的配置：");
                b.append(e.as_str());
                Some(b)
            },
            None => match tray_error {
                Some(e) => {
                    let mut b = String::from_str("系统托盘不可用，关闭窗口将退出程序：");
                    b.append(e.as_str());
                    Some(b)
                },
                None => match &launch_state {
                    Ok(_) => None,
                    Err(e) => {
                        let mut b = String::from_str("无法读取开机启动状态：");
                        b.append(e.as_str());
                        Some(b)
                    },
                },
            },
        };
        let launch_at_login = match launch_state {
            Ok(b) => b,
            Err(_) => false,
        };
        let mut actions: Vec<Action> = Vec::new();
        for i in 0..config.tunnels.len()
            invariant
                actions@ == autostart_actions(config.tunnels@.take(i as int)),
        {
            assert(config.tunnels@.take(i + 1).drop_last() == config.tunnels@.take(i as int));
            if config.tunnels[i].autostart {
                actions.push(Action::StartTunnel(config.tunnels[i].id));
            }
        }
        assert(config.tunnels@.take(config.tunnels@.len() as int) == config.tunnels@);
        let errors: HashMap<u128, String> = HashMap::new();
        let state = AppState {
            config,
            page: Page::Tunnels,
            form: TunnelForm::new(),
            logs: ActivityLog::new(),
            errors,
            banner,
            initial_window_event_seen: false,
            tray_available,
            launch_at_login_supported,
            launch_at_login,
            pending_delete: None,
            imported_connections: Vec::new(),
            import_source: None,
            importing: false,
        };
        assert(errors_view(state.errors@) =~= Map::<u128, Seq<char>>::empty());
        (state, actions)
    }

    /// Records a line that a tunnel's `ssh` wrote to its error stream.
    pub fn on_process_output(&mut self, id: u128, line: String)
        ensures
            final(self)@ == (AppView {
                logs: log_push(old(self)@.logs, tagged(tunnel_name(old(self)@.tunnels, id)) + line@),
                ..old(self)@
            }),
    {
        let name = self.tunnel_name(id);
        let mut text = String::new();
        append_tagged(&mut text, name.as_str());
        text.append(line.as_str());
        self.log(text);
    }

    /// Records that a tunnel's process exited (`Ok` with its exit code) or could not be checked.
    pub fn on_tunnel_exit(&mut self, id: u128, result: Result<i32, String>)
        ensures
            final(self)@ == exit_state(old(self)@, id, result),
    {
        broadcast use group_hash_axioms;

        let name = self.tunnel_name(id);
        let mut text = String::new();
        append_tagged(&mut text, name.as_str());
        let ghost errors0 = self.errors@;
        match result {
            Ok(code) => {
                let mut message = String::from_str("SSH 已退出，代码为 ");
                push_signed(&mut message, code);
                text.append(message.as_str());
                text.append("。");
                let ghost mv = message@;
                self.errors.insert(id, message);
                assert(errors_view(self.errors@) =~= errors_view(errors0).insert(id, mv));
            },
            Err(error) => {
                text.append("无法检查 SSH 进程：");
                text.append(error.as_str());
                let ghost ev = error@;
                self.errors.insert(id, error);
                assert(errors_view(self.errors@) =~= errors_view(errors0).insert(id, ev));
            },
        }
        self.log(text);
    }

    /// Records what starting the tunnel `id` gave: its process id or an error.
    pub fn on_start_result(&mut self, id: u128, result: Result<u32, String>)
        ensures
            final(self)@ == start_state(old(self)@, id, result),
    {
        broadcast use group_hash_axioms;

        let name = self.tunnel_name(id);
        let mut text = String::new();
        append_tagged(&mut text, name.as_str());
        let ghost errors0 = self.errors@;
        match result {
            Ok(pid) => {
                text.append("已启动 SSH 进程 ");
                push_decimal(&mut text, pid as u64);
                text.append("。");
                self.errors.remove(&id);
                assert(errors_view(self.errors@) =~= errors_view(errors0).remove(id));
            },
            Err(error) => {
                let mut banner = String::from_str("无法启动“");
                banner.append(name.as_str());
                banner.append("”：");
                banner.append(error.as_str());
                self.banner = Some(banner);
                text.append("启动失败：");
                text.append(error.as_str());
                let ghost ev = error@;
                self.errors.insert(id, error);
                assert(errors_view(self.errors@) =~= errors_view(errors0).insert(id, ev));
            },
        }
        self.log(text);
    }

    /// Records what stopping the tunnel `id` gave: `Ok(true)` when it was running.
    pub fn on_stop_result(&mut self, id: u128, result: Result<bool, String>)
        ensures
            final(self)@ == stop_state(old(self)@, id, result),
    {
        let name = self.tunnel_name(id);
        match result {
            Ok(true) => {
                let mut text = String::new();
                append_tagged(&mut text, name.as_str());
                text.append("已停止。");
                self.log(text);
            },
            Ok(false) => {},
            Err(error) => {
                let mut text = String::new();
                append_tagged(&mut text, name.as_str());
                text.append("停止失败：");
                text.append(error.as_str());
                self.banner = Some(error);
                self.log(text);
            },
        }
    }

    /// Records that a running tunnel was stopped because its settings were saved.
    pub fn on_stopped_for_change(&mut self, name: &str)
        ensures
            final(self)@ == (AppView {
                logs: log_push(old(self)@.logs, tagged(name@) + "配置已更改，因此已停止。"@),
                ..old(self)@
            }),
    {
        let mut text = String::new();
        append_tagged(&mut text, name);
        text.append("配置已更改，因此已停止。");
        self.log(text);
    }

    /// Records that the configuration could not be written.
    pub fn on_save_failed(&mut self, error: &str)
        ensures
            final(self)@ == (AppView { banner: Some("无法保存配置："@ + error@), ..old(self)@ }),
    {
        let mut banner = String::from_str("无法保存配置：");
        banner.append(error);
        self.banner = Some(banner);
    }

    /// Records what registering (or removing) the start at login gave.
    pub fn on_launch_at_login_result(&mut self, enabled: bool, result: Result<(), String>)
        ensures
            final(self)@ == (match result {
                Ok(()) => AppView {
                    launch_at_login: enabled,
                    logs: log_push(old(self)@.logs, if enabled {
                        "已启用 Windows 登录时自动启动 PortWeave。"@
                    } else {
                        "已关闭 Windows 登录时自动启动 PortWeave。"@
                    }),
                    ..old(self)@
                },
                Err(e) => AppView { banner: Some(e@), ..old(self)@ },
            }),
    {
        match result {
            Ok(()) => {
                self.launch_at_login = enabled;
                if enabled {
                    self.log(String::from_str("已启用 Windows 登录时自动启动 PortWeave。"));
                } else {
                    self.log(String::from_str("已关闭 Windows 登录时自动启动 PortWeave。"));
                }
            },
            Err(error) => {
                self.banner = Some(error);
            },
        }
    }

    /// Decides what a window event does.
    pub fn on_window_event(&mut self, close_requested: bool) -> (actions: Vec<Action>)
        ensures
            final(self)@ == window_outcome(old(self)@, close_requested).0,
            actions@ == window_outcome(old(self)@, close_requested).1,
    {
        if !self.initial_window_event_seen {
            self.initial_window_event_seen = true;
            if self.config.start_minimized {
                return vec![Action::HideWindow];
            }
        }
        if close_requested {
            if self.config.minimize_to_tray && self.tray_available {
                self.log(String::from_str("窗口已隐藏，PortWeave 仍在系统托盘中运行。"));
                return vec![Action::HideWindow];
            }
            return vec![Action::Quit];
        }
        Vec::new()
    }

    /// Saves the form, a new tunnel getting the id `new_id`.
    pub fn save_tunnel_with_id(&mut self, new_id: u128) -> (actions: Vec<Action>)
        ensures
            save_outcome(old(self)@, new_id, final(self)@, actions@),
    {
        match self.form.to_tunnel_with_id(new_id) {
            Ok(tunnel) => {
                let name = tunnel.name.clone();
                vec![Action::StopIfRunning { id: tunnel.id, name }, Action::StoreTunnel(tunnel)]
            },
            Err(error) => {
                self.form.error = Some(error);
                Vec::new()
            },
        }
    }

    /// Saves the form; a new tunnel gets a fresh random version-4 id.
    pub fn save_tunnel(&mut self) -> (actions: Vec<Action>)
        ensures
            exists|new_id: u128| {
                &&& (old(self)@.form.editing is None ==> is_v4_id(new_id))
                &&& #[trigger] save_outcome(old(self)@, new_id, final(self)@, actions@)
            },
    {
        let new_id = match self.form.editing {
            Some(id) => id,
            None => crate::ids::new_tunnel_id(),
        };
        self.save_tunnel_with_id(new_id)
    }

    /// Takes in an import of the OpenSSH configuration.
    pub fn on_imported(&mut self, result: Result<SshConfigImport, String>)
        ensures
            final(self)@ == imported_state(old(self)@, result),
    {
        let ghost r = result;
        let ghost v0 = self@;
        self.importing = false;
        match result {
            Ok(import) => {
                let count = import.connections.len();
                let ghost warnings = string_views(import.warnings@);
                let ghost logs0 = self@.logs;
                self.import_source = Some(import.config_path);
                self.imported_connections = import.connections;
                self.page = Page::Import;
                if import.warnings.len() == 0 {
                    let mut text = String::from_str("在 OpenSSH 配置中找到 ");
                    push_decimal(&mut text, count as u64);
                    text.append(" 个连接。");
                    self.log(text);
                } else {
                    let mut banner = String::from_str("找到 ");
                    push_decimal(&mut banner, count as u64);
                    banner.append(" 个连接；另有 ");
                    push_decimal(&mut banner, import.warnings.len() as u64);
                    banner.append(" 个 Host 别名无法解析。");
                    self.banner = Some(banner);
                    let ghost lines = warnings.map_values(|w: Seq<char>| "[SSH 导入] 已跳过 "@ + w);
                    let ghost mid = self@;
                    assert(mid.logs == logs0);
                    for i in 0..import.warnings.len()
                        invariant
                            self@ == (AppView { logs: self@.logs, ..mid }),
                            warnings == string_views(import.warnings@),
                            lines == warnings.map_values(|w: Seq<char>| "[SSH 导入] 已跳过 "@ + w),
                            self@.logs == log_push_all(logs0, lines.take(i as int)),
                    {
                        let mut text = String::from_str("[SSH 导入] 已跳过 ");
                        text.append(import.warnings[i].as_str());
                        assert(lines.take(i + 1).drop_last() == lines.take(i as int));
                        assert(warnings[i as int] == import.warnings@[i as int]@);
                        self.log(text);
                    }
                    assert(lines.take(lines.len() as int) == lines);
                }
                assert(self@ =~= imported_state(v0, r));
            },
            Err(error) => {
                let mut banner = String::from_str("无法导入 SSH 配置：");
                banner.append(error.as_str());
                self.banner = Some(banner);
            },
        }
    }

    fn change_field(&mut self, message: Message)
        requires
            is_field_change(message),
        ensures
            final(self)@ == (AppView { form: form_field_change(old(self)@.form, message), ..old(self)@ }),
    {
        let ghost m = message;
        match message {
            Message::NameChanged(value) => self.form.name = value,
            Message::HostChanged(value) => self.form.host = value,
            Message::UserChanged(value) => self.form.user = value,
            Message::SshPortChanged(value) => self.form.ssh_port = digits_only(value),
            Message::KindChanged(kind) => self.form.kind = kind,
            Message::BindAddressChanged(value) => self.form.bind_address = value,
            Message::BindPortChanged(value) => self.form.bind_port = digits_only(value),
            Message::TargetHostChanged(value) => self.form.target_host = value,
            Message::TargetPortChanged(value) => self.form.target_port = digits_only(value),
            Message::IdentityFileChanged(value) => self.form.identity_file = value,
            Message::ProxyJumpChanged(value) => self.form.proxy_jump = value,
            Message::AutostartChanged(value) => self.form.autostart = value,
            _ => {},
        }
        assert(self@ =~= (AppView { form: form_field_change(old(self)@.form, m), ..old(self)@ }));
    }

    /// A start (`start`) or stop request for every tunnel, in order.
    fn for_each_tunnel(&self, start: bool) -> (actions: Vec<Action>)
        ensures
            actions@ == (if start { start_all(self.config.tunnels@) } else { stop_all(self.config.tunnels@) }),
    {
        let mut actions: Vec<Action> = Vec::new();
        for i in 0..self.config.tunnels.len()
            invariant
                actions@ == (if start {
                    start_all(self.config.tunnels@.take(i as int))
                } else {
                    stop_all(self.config.tunnels@.take(i as int))
                }),
        {
            let id = self.config.tunnels[i].id;
            if start {
                actions.push(Action::StartTunnel(id));
            } else {
                actions.push(Action::StopTunnel(id));
            }
            assert(start_all(self.config.tunnels@.take(i + 1)) =~= start_all(self.config.tunnels@.take(i as int)).push(
                Action::StartTunnel(id),
            ));
            assert(stop_all(self.config.tunnels@.take(i + 1)) =~= stop_all(self.config.tunnels@.take(i as int)).push(
                Action::StopTunnel(id),
            ));
        }
        assert(self.config.tunnels@.take(self.config.tunnels@.len() as int) == self.config.tunnels@);
        actions
    }

    /// Decides what a message from the window does.
    #[verifier::rlimit(60)]
    pub fn update(&mut self, message: Message) -> (actions: Vec<Action>)
        ensures
            !(message is SaveTunnel) ==> final(self)@ == update_outcome(old(self)@, message).0 && actions@
                == update_outcome(old(self)@, message).1,
            message is SaveTunnel ==> exists|new_id: u128| {
                &&& (old(self)@.form.editing is None ==> is_v4_id(new_id))
                &&& #[trigger] save_outcome(old(self)@, new_id, final(self)@, actions@)
            },
    {
        match message {
            Message::Navigate(page) => {
                self.page = page;
                Vec::new()
            },
            Message::WindowEvent { close_requested } => self.on_window_event(close_requested),
            Message::Start(id) => vec![Action::StartTunnel(id)],
            Message::Stop(id) => vec![Action::StopTunnel(id)],
            Message::StartAll => self.for_each_tunnel(true),
            Message::StopAll => self.for_each_tunnel(false),
            Message::Edit(id) => {
                proof {
                    lemma_find_from(self.config.tunnels@, id, 0);
                }
                if let Some(i) = self.find_tunnel(id) {
                    self.form = TunnelForm::from_tunnel(&self.config.tunnels[i]);
                    self.page = Page::Editor;
                }
                Vec::new()
            },
            Message::RequestDelete(id) => {
                self.pending_delete = Some(id);
                Vec::new()
            },
            Message::ConfirmDelete(id) => vec![Action::StopTunnel(id), Action::FinishDelete(id)],
            Message::CancelDelete => {
                self.pending_delete = None;
                Vec::new()
            },
            Message::NewTunnel => {
                self.form = TunnelForm::new();
                self.page = Page::Editor;
                Vec::new()
            },
            Message::ImportSshConfig => {
                self.importing = true;
                vec![Action::RunImport]
            },
            Message::SshConfigImported(result) => {
                self.on_imported(result);
                Vec::new()
            },
            Message::SelectImportedConnection(index) => {
                if index < self.imported_connections.len() {
                    self.form = TunnelForm::from_ssh_connection(&self.imported_connections[index]);
                    self.page = Page::Editor;
                }
                Vec::new()
            },
            Message::CancelImport => {
                self.page = Page::Tunnels;
                Vec::new()
            },
            Message::SaveTunnel => self.save_tunnel(),
            Message::CancelEdit => {
                self.form = TunnelForm::new();
                self.page = Page::Tunnels;
                Vec::new()
            },
            Message::DismissBanner => {
                self.banner = None;
                Vec::new()
            },
            Message::NameChanged(_) | Message::HostChanged(_) | Message::UserChanged(_)
            | Message::SshPortChanged(_) | Message::KindChanged(_) | Message::BindAddressChanged(_)
            | Message::BindPortChanged(_) | Message::TargetHostChanged(_) | Message::TargetPortChanged(_)
            | Message::IdentityFileChanged(_) | Message::ProxyJumpChanged(_) | Message::AutostartChanged(_) => {
                self.change_field(message);
                Vec::new()
            },
            Message::MinimizeToTrayChanged(value) => {
                self.config.minimize_to_tray = value;
                vec![Action::SaveConfig]
            },
            Message::StartMinimizedChanged(value) => {
                self.config.start_minimized = value;
                vec![Action::SaveConfig]
            },
            Message::LaunchAtLoginChanged(value) => vec![Action::SetLaunchAtLogin(value)],
            Message::Quit => vec![Action::Quit],
        }
    }

    /// Completes the deletion of the tunnel `id` once it was stopped: every
    /// tunnel with that id goes, with its error; the configuration is to be saved.
    pub fn finish_delete(&mut self, id: u128) -> (actions: Vec<Action>)
        ensures
            final(self)@ == (AppView {
                tunnels: without_tunnel(old(self)@.tunnels, id),
                errors: old(self)@.errors.remove(id),
                logs: log_push(old(self)@.logs, "已删除“"@ + deleted_name(old(self)@.tunnels, id) + "”。"@),
                pending_delete: None,
                ..old(self)@
            }),
            actions@ == seq![Action::SaveConfig],
    {
        broadcast use group_hash_axioms;

        proof {
            lemma_find_from(self.config.tunnels@, id, 0);
        }
        let name = match self.find_tunnel(id) {
            Some(i) => self.config.tunnels[i].name.clone(),
            None => String::from_str("隧道"),
        };
        let ghost old_tunnels = self.config.tunnels@;
        let mut kept: Vec<TunnelConfig> = Vec::new();
        let mut old_list: Vec<TunnelConfig> = Vec::new();
        std::mem::swap(&mut old_list, &mut self.config.tunnels);
        let n = old_list.len();
        let mut rest = old_list;
        let mut i: usize = 0;
        while i < n
            invariant
                n == old_tunnels.len(),
                i <= n,
                rest@ == old_tunnels.skip(i as int),
                kept@ == old_tunnels.take(i as int).filter(|t: TunnelConfig| t.id != id),
            decreases n - i,
        {
            let t = rest.remove(0);
            assert(t == old_tunnels[i as int]);
            assert(rest@ =~= old_tunnels.skip(i + 1));
            assert(old_tunnels.take(i + 1).drop_last() == old_tunnels.take(i as int));
            reveal_with_fuel(Seq::filter, 1);
            if t.id != id {
                kept.push(t);
            }
            i += 1;
        }
        assert(old_tunnels.take(n as int) == old_tunnels);
        self.config.tunnels = kept;
        let ghost errors0 = self.errors@;
        self.errors.remove(&id);
        assert(errors_view(self.errors@) =~= errors_view(errors0).remove(id));
        let mut text = String::from_str("已删除“");
        text.append(name.as_str());
        text.append("”。");
        self.log(text);
        self.pending_delete = None;
        vec![Action::SaveConfig]
    }

    /// Completes saving a tunnel once it was stopped if it ran: it replaces
    /// the first tunnel with its id (or is added), the editor is cleared and
    /// the list shown; the configuration is to be saved.
    pub fn store_tunnel(&mut self, tunnel: TunnelConfig) -> (actions: Vec<Action>)
        ensures
            final(self)@ == (AppView {
                tunnels: with_tunnel(old(self)@.tunnels, tunnel),
                form: blank_form(),
                errors: old(self)@.errors.remove(tunnel.id),
                page: Page::Tunnels,
                ..old(self)@
            }),
            actions@ == seq![Action::SaveConfig],
    {
        broadcast use group_hash_axioms;

        let id = tunnel.id;
        match self.find_tunnel(id) {
            Some(i) => {
                self.config.tunnels.set(i, tunnel);
            },
            None => {
                self.config.tunnels.push(tunnel);
            },
        }
        self.form = TunnelForm::new();
        let ghost errors0 = self.errors@;
        self.errors.remove(&id);
        assert(errors_view(self.errors@) =~= errors_view(errors0).remove(id));
        self.page = Page::Tunnels;
        vec![Action::SaveConfig]
    }
}

/// The activity log keeps the latest lines: after adding `lines` to a log that
/// holds at most `MAX_LOG_LINES`, it holds the last `MAX_LOG_LINES` of the old
/// lines followed by the new ones (all of them while they fit), oldest first.
pub proof fn the_log_keeps_the_latest_lines(log: Seq<Seq<char>>, lines: Seq<Seq<char>>)
    requires
        log.len() <= MAX_LOG_LINES,
    ensures
        ({
            let all = log + lines;
            log_push_all(log, lines) == all.skip(
                if all.len() > MAX_LOG_LINES {
                    all.len() - MAX_LOG_LINES
                } else {
                    0
                },
            )
        }),
    decreases lines.len(),
{
    let all = log + lines;
    if lines.len() == 0 {
        assert(all =~= log);
        assert(all.skip(0) =~= all);
    } else {
        let rest = lines.drop_last();
        the_log_keeps_the_latest_lines(log, rest);
        let before = log + rest;
        assert(all =~= before.push(lines.last()));
        let dropped = if before.len() > MAX_LOG_LINES {
            before.len() - MAX_LOG_LINES
        } else {
            0
        };
        let kept = before.skip(dropped);
        if before.len() >= MAX_LOG_LINES {
            assert(kept.drop_first().push(lines.last()) =~= all.skip(all.len() - MAX_LOG_LINES));
        } else {
            assert(kept =~= before);
            assert(all.skip(0) =~= all);
        }
    }
}

/// Only the tunnels marked to start with the program are started when it
/// boots: one start request for each of them, in the order of the list.
pub proof fn only_autostart_tunnels_start_at_boot(tunnels: Seq<TunnelConfig>)
    ensures
        autostart_actions(tunnels) == tunnels.filter(|t: TunnelConfig| t.autostart).map_values(
            |t: TunnelConfig| Action::StartTunnel(t.id),
        ),
    decreases tunnels.len(),
{
    reveal_with_fuel(Seq::filter, 1);
    if tunnels.len() == 0 {
        assert(tunnels.filter(|t: TunnelConfig| t.autostart) =~= Seq::<TunnelConfig>::empty());
        assert(Seq::<TunnelConfig>::empty().map_values(|t: TunnelConfig| Action::StartTunnel(t.id))
            =~= Seq::<Action>::empty());
    } else {
        let rest = tunnels.drop_last();
        only_autostart_tunnels_start_at_boot(rest);
        let chosen = rest.filter(|t: TunnelConfig| t.autostart);
        if tunnels.last().autostart {
            assert(chosen.push(tunnels.last()).map_values(|t: TunnelConfig| Action::StartTunnel(t.id))
                =~= chosen.map_values(|t: TunnelConfig| Action::StartTunnel(t.id)).push(
                Action::StartTunnel(tunnels.last().id),
            ));
        }
    }
}

/// Once the window is up, closing it hides it into the tray, with every tunnel
/// left running, when the user asked for that and a tray exists; otherwise the
/// program quits (which stops every tunnel).
pub proof fn closing_the_window_keeps_running_in_the_tray(v: AppView)
    requires
        v.initial_window_event_seen,
    ensures
        v.minimize_to_tray && v.tray_available ==> window_outcome(v, true).1 == seq![Action::HideWindow],
        !(v.minimize_to_tray && v.tray_available) ==> window_outcome(v, true).1 == seq![Action::Quit],
        window_outcome(v, true).0.tunnels == v.tunnels,
{
}

/// A program set to start hidden hides its window at the first window event,
/// whatever that event is; any event marks the first one as seen.
pub proof fn a_hidden_start_goes_straight_to_the_tray(v: AppView, close_requested: bool)
    requires
        v.start_minimized,
    ensures
        !v.initial_window_event_seen ==> window_outcome(v, close_requested).1 == seq![Action::HideWindow],
        window_outcome(v, close_requested).0.initial_window_event_seen,
{
}

/// Any import that succeeds shows the import page with its connections, and
/// records where they came from, whether or not some aliases were skipped; a
/// failed import leaves the page as it was.
pub proof fn a_successful_import_shows_its_connections(v: AppView, result: Result<SshConfigImport, String>)
    ensures
        result matches Ok(i) ==> {
            &&& imported_state(v, result).page == Page::Import
            &&& imported_state(v, result).imported == i.connections@
            &&& imported_state(v, result).import_source == Some(i.config_path@)
            &&& !imported_state(v, result).importing
            &&& imported_state(v, result).tunnels == v.tunnels
        },
        result is Err ==> imported_state(v, result).page == v.page && !imported_state(v, result).importing,
{
}

} // verus!
