//! Tunnel definitions: the forwarding kinds, the stored tunnel record, its
//! validation rules and the application settings that hold the tunnels.
use crate::text::{
    blank, any_space, chars_of, contains_char, decimal, has_space, is_blank, push_char, push_decimal,
    split, split_chars, starts_with_char, views,
};
use vstd::prelude::*;

verus! {

/// The version number written into new configuration files.
pub const CONFIG_VERSION: u32 = 1;

/// The direction of a port forward.
#[derive(Debug, Clone, Copy, PartialEq, Eq, Structural)]
pub enum ForwardKind {
    /// `ssh -R`: the server listens and forwards to this side.
    Remote,
    /// `ssh -L`: this side listens and forwards through the server.
    Local,
}

impl Default for ForwardKind {
    fn default() -> (k: Self)
        ensures
            k == ForwardKind::Remote,
    {
        ForwardKind::Remote
    }
}

pub open spec fn spec_ssh_flag(kind: ForwardKind) -> Seq<char> {
    match kind {
        ForwardKind::Remote => seq!['-', 'R'],
        ForwardKind::Local => seq!['-', 'L'],
    }
}

pub open spec fn spec_kind_label(kind: ForwardKind) -> Seq<char> {
    match kind {
        ForwardKind::Remote => "远程转发 (-R)"@,
        ForwardKind::Local => "本地转发 (-L)"@,
    }
}

impl ForwardKind {
    /// Both kinds, in the order a picker offers them.
    pub fn all() -> (kinds: [ForwardKind; 2])
        ensures
            kinds@ == seq![ForwardKind::Remote, ForwardKind::Local],
    {
        [ForwardKind::Remote, ForwardKind::Local]
    }

    /// The OpenSSH option that requests this kind of forward.
    pub fn ssh_flag(self) -> (flag: &'static str)
        ensures
            flag@ == spec_ssh_flag(self),
    {
        proof {
            reveal_strlit("-R");
            reveal_strlit("-L");
        }
        match self {
            ForwardKind::Remote => "-R",
            ForwardKind::Local => "-L",
        }
    }

    /// The name shown to the user.
    pub fn label(self) -> (label: &'static str)
        ensures
            label@ == spec_kind_label(self),
    {
        match self {
            ForwardKind::Remote => "远程转发 (-R)",
            ForwardKind::Local => "本地转发 (-L)",
        }
    }

    /// The name shown to the user, as an owned string.
    pub fn to_label_string(self) -> (label: String)
        ensures
            label@ == spec_kind_label(self),
    {
        String::from_str(self.label())
    }
}

/// The SSH port used when none is given.
pub fn default_ssh_port() -> (port: u16)
    ensures
        port == 22,
{
    22
}

/// The loopback address that listen and target addresses default to.
pub open spec fn loopback() -> Seq<char> {
    seq!['1', '2', '7', '.', '0', '.', '0', '.', '1']
}

pub fn default_loopback() -> (address: String)
    ensures
        address@ == loopback(),
{
    proof {
        reveal_strlit("127.0.0.1");
    }
    String::from_str("127.0.0.1")
}

pub fn default_true() -> (b: bool)
    ensures
        b,
{
    true
}

pub fn config_version() -> (version: u32)
    ensures
        version == CONFIG_VERSION,
{
    CONFIG_VERSION
}

/// One SSH port forward, as the user configured it.
///
/// `id` is the 128-bit value of the tunnel's UUID.
#[derive(Debug, PartialEq, Eq)]
pub struct TunnelConfig {
    pub id: u128,
    pub name: String,
    pub host: String,
    pub user: String,
    pub ssh_port: u16,
    pub kind: ForwardKind,
    pub bind_address: String,
    pub bind_port: u16,
    pub target_host: String,
    pub target_port: u16,
    pub identity_file: Option<String>,
    pub proxy_jump: Option<String>,
    pub autostart: bool,
}

pub fn clone_option_string(o: &Option<String>) -> (r: Option<String>)
    ensures
        r == *o,
{
    match o {
        Some(s) => Some(s.clone()),
        None => None,
    }
}

impl Clone for TunnelConfig {
    fn clone(&self) -> (r: Self)
        ensures
            r == *self,
    {
        TunnelConfig {
            id: self.id,
            name: self.name.clone(),
            host: self.host.clone(),
            user: self.user.clone(),
            ssh_port: self.ssh_port,
            kind: self.kind,
            bind_address: self.bind_address.clone(),
            bind_port: self.bind_port,
            target_host: self.target_host.clone(),
            target_port: self.target_port,
            identity_file: clone_option_string(&self.identity_file),
            proxy_jump: clone_option_string(&self.proxy_jump),
            autostart: self.autostart,
        }
    }
}

/// A tunnel as plain values.
pub struct TunnelView {
    pub id: u128,
    pub name: Seq<char>,
    pub host: Seq<char>,
    pub user: Seq<char>,
    pub ssh_port: u16,
    pub kind: ForwardKind,
    pub bind_address: Seq<char>,
    pub bind_port: u16,
    pub target_host: Seq<char>,
    pub target_port: u16,
    pub identity_file: Option<Seq<char>>,
    pub proxy_jump: Option<Seq<char>>,
    pub autostart: bool,
}

/// The view of an optional string.
pub open spec fn opt_view(o: Option<String>) -> Option<Seq<char>> {
    match o {
        Some(s) => Some(s@),
        None => None,
    }
}

impl View for TunnelConfig {
    type V = TunnelView;

    open spec fn view(&self) -> TunnelView {
        TunnelView {
            id: self.id,
            name: self.name@,
            host: self.host@,
            user: self.user@,
            ssh_port: self.ssh_port,
            kind: self.kind,
            bind_address: self.bind_address@,
            bind_port: self.bind_port,
            target_host: self.target_host@,
            target_port: self.target_port,
            identity_file: opt_view(self.identity_file),
            proxy_jump: opt_view(self.proxy_jump),
            autostart: self.autostart,
        }
    }
}

/// `user@host:port`.
pub open spec fn spec_destination(user: Seq<char>, host: Seq<char>, port: u16) -> Seq<char> {
    user + seq!['@'] + host + seq![':'] + decimal(port as nat)
}

/// `bind:port → target:port`.
pub open spec fn spec_mapping(
    bind_address: Seq<char>,
    bind_port: u16,
    target_host: Seq<char>,
    target_port: u16,
) -> Seq<char> {
    bind_address + seq![':'] + decimal(bind_port as nat) + seq![' ', '→', ' '] + target_host
        + seq![':'] + decimal(target_port as nat)
}

/// Appends `user@host:port` to `out`.
pub fn push_destination(out: &mut String, user: &str, host: &str, port: u16)
    ensures
        final(out)@ == old(out)@ + spec_destination(user@, host@, port),
{
    out.append(user);
    push_char(out, '@');
    out.append(host);
    push_char(out, ':');
    push_decimal(out, port as u64);
    assert(final(out)@ =~= old(out)@ + spec_destination(user@, host@, port));
}

/// The suffix of the message for a host or user that holds a character ssh would misread.
pub open spec fn unsupported_suffix() -> Seq<char> {
    "包含不支持的字符"@
}

pub open spec fn host_label() -> Seq<char> {
    "服务器地址"@
}

pub open spec fn user_label() -> Seq<char> {
    "SSH 用户名"@
}

pub open spec fn proxy_jump_message() -> Seq<char> {
    "跳板机必须使用英文逗号分隔，且不能包含空格"@
}

/// A value that goes into the `user@host` argument: it must not look like an
/// option, must hold no white space, and (for the user) no `@`.
pub open spec fn destination_part_ok(value: Seq<char>, reject_at: bool) -> bool {
    &&& !starts_with_char(value, '-')
    &&& !has_space(value)
    &&& !(reject_at && value.contains('@'))
}

/// One hop of a jump chain: not empty, and not an option.
pub open spec fn hop_ok(hop: Seq<char>) -> bool {
    hop.len() > 0 && hop[0] != '-'
}

/// A `-J` value: comma-separated hops, no white space anywhere.
pub open spec fn proxy_jump_ok(value: Seq<char>) -> bool {
    &&& !is_blank(value)
    &&& !has_space(value)
    &&& forall|k: int| 0 <= k < split(value, ',').len() ==> hop_ok(#[trigger] split(value, ',')[k])
}

/// The first rule that the tunnel breaks, as the message shown for it; `None` when it breaks none.
pub open spec fn tunnel_error(t: TunnelView) -> Option<Seq<char>> {
    if is_blank(t.name) {
        Some("请输入名称"@)
    } else if is_blank(t.host) {
        Some("请输入服务器地址"@)
    } else if is_blank(t.user) {
        Some("请输入 SSH 用户名"@)
    } else if !destination_part_ok(t.host, false) {
        Some(host_label() + unsupported_suffix())
    } else if !destination_part_ok(t.user, true) {
        Some(user_label() + unsupported_suffix())
    } else if is_blank(t.bind_address) {
        Some("请输入监听地址"@)
    } else if is_blank(t.target_host) {
        Some("请输入目标地址"@)
    } else if t.ssh_port == 0 || t.bind_port == 0 || t.target_port == 0 {
        Some("端口必须介于 1 到 65535 之间"@)
    } else if t.proxy_jump is Some && !proxy_jump_ok(t.proxy_jump->0) {
        Some(proxy_jump_message())
    } else {
        None
    }
}

pub fn validate_destination_part(label: &str, value: &str, reject_at: bool) -> (r: Result<(), String>)
    ensures
        r is Ok <==> destination_part_ok(value@, reject_at),
        r matches Err(e) ==> e@ == label@ + unsupported_suffix(),
{
    let v = chars_of(value);
    let starts_dash = v.len() > 0 && v[0] == '-';
    if starts_dash || any_space(&v) || (reject_at && contains_char(&v, '@')) {
        let mut message = String::from_str(label);
        message.append("包含不支持的字符");
        return Err(message);
    }
    Ok(())
}

pub fn validate_proxy_jump(value: &str) -> (r: Result<(), String>)
    ensures
        r is Ok <==> proxy_jump_ok(value@),
        r matches Err(e) ==> e@ == proxy_jump_message(),
{
    let v = chars_of(value);
    if blank(&v) || any_space(&v) {
        return Err(String::from_str("跳板机必须使用英文逗号分隔，且不能包含空格"));
    }
    let hops = split_chars(&v, ',');
    assert(views(hops@).len() == hops@.len());
    for k in 0..hops.len()
        invariant
            views(hops@) == split(v@, ','),
            hops@.len() == split(v@, ',').len(),
            v@ == value@,
            forall|j: int| 0 <= j < k ==> hop_ok(#[trigger] split(v@, ',')[j]),
    {
        assert(views(hops@)[k as int] == hops@[k as int]@);
        if hops[k].len() == 0 || hops[k][0] == '-' {
            assert(!hop_ok(split(v@, ',')[k as int]));
            return Err(String::from_str("跳板机必须使用英文逗号分隔，且不能包含空格"));
        }
    }
    Ok(())
}

impl TunnelConfig {
    /// `user@host:port`, as the tunnel list shows it.
    pub fn destination(&self) -> (d: String)
        ensures
            d@ == spec_destination(self.user@, self.host@, self.ssh_port),
    {
        let mut out = String::new();
        push_destination(&mut out, self.user.as_str(), self.host.as_str(), self.ssh_port);
        out
    }

    /// `bind:port → target:port`, as the tunnel list shows it.
    pub fn mapping(&self) -> (m: String)
        ensures
            m@ == spec_mapping(self.bind_address@, self.bind_port, self.target_host@, self.target_port),
    {
        let mut out = String::new();
        out.append(self.bind_address.as_str());
        push_char(&mut out, ':');
        push_decimal(&mut out, self.bind_port as u64);
        push_char(&mut out, ' ');
        push_char(&mut out, '→');
        push_char(&mut out, ' ');
        out.append(self.target_host.as_str());
        push_char(&mut out, ':');
        push_decimal(&mut out, self.target_port as u64);
        assert(out@ =~= spec_mapping(self.bind_address@, self.bind_port, self.target_host@, self.target_port));
        out
    }

    /// Checks the tunnel before it is saved or started; the error is the
    /// message for the first rule broken.
    pub fn validate(&self) -> (r: Result<(), String>)
        ensures
            r is Ok <==> tunnel_error(self@) is None,
            r matches Err(e) ==> tunnel_error(self@) == Some(e@),
    {
        if blank(&chars_of(self.name.as_str())) {
            return Err(String::from_str("请输入名称"));
        }
        if blank(&chars_of(self.host.as_str())) {
            return Err(String::from_str("请输入服务器地址"));
        }
        if blank(&chars_of(self.user.as_str())) {
            return Err(String::from_str("请输入 SSH 用户名"));
        }
        validate_destination_part("服务器地址", self.host.as_str(), false)?;
        validate_destination_part("SSH 用户名", self.user.as_str(), true)?;
        if blank(&chars_of(self.bind_address.as_str())) {
            return Err(String::from_str("请输入监听地址"));
        }
        if blank(&chars_of(self.target_host.as_str())) {
            return Err(String::from_str("请输入目标地址"));
        }
        if self.ssh_port == 0 || self.bind_port == 0 || self.target_port == 0 {
            return Err(String::from_str("端口必须介于 1 到 65535 之间"));
        }
        if let Some(proxy_jump) = &self.proxy_jump {
            validate_proxy_jump(proxy_jump.as_str())?;
        }
        Ok(())
    }
}

/// The application settings: the tunnels and the window behaviour.
#[derive(Debug)]
pub struct AppConfig {
    pub version: u32,
    pub tunnels: Vec<TunnelConfig>,
    pub minimize_to_tray: bool,
    pub start_minimized: bool,
}

impl Default for AppConfig {
    fn default() -> (c: Self)
        ensures
            c.version == CONFIG_VERSION,
            c.tunnels@.len() == 0,
            c.minimize_to_tray,
            !c.start_minimized,
    {
        AppConfig {
            version: CONFIG_VERSION,
            tunnels: Vec::new(),
            minimize_to_tray: true,
            start_minimized: false,
        }
    }
}

} // verus!
