//! The tunnel editor: the text fields the user fills in, and how they become a
//! tunnel (or the message that says why they do not).
use crate::config::{
    clone_option_string, default_loopback, loopback, opt_view, tunnel_error, ForwardKind,
    TunnelConfig, TunnelView,
};
use crate::ids::{is_v4_id, new_tunnel_id};
use crate::ssh_config::SshConnection;
use crate::text::{
    chars_of, decimal, decimal_string, is_digit, parse_u16, parse_u16_range, push_char,
    string_of_range, trim, trim_bounds, lemma_trim_idempotent, lemma_parse_decimal,
};
use vstd::prelude::*;

verus! {

/// The editor's fields, as typed.
#[derive(Debug)]
pub struct TunnelForm {
    /// The id of the tunnel being edited; `None` for a new one.
    pub editing: Option<u128>,
    pub name: String,
    pub host: String,
    pub user: String,
    pub ssh_port: String,
    pub kind: ForwardKind,
    pub bind_address: String,
    pub bind_port: String,
    pub target_host: String,
    pub target_port: String,
    pub identity_file: String,
    pub proxy_jump: String,
    pub autostart: bool,
    /// The message of the last failed save.
    pub error: Option<String>,
}

/// The editor's fields as plain values.
pub struct FormView {
    pub editing: Option<u128>,
    pub name: Seq<char>,
    pub host: Seq<char>,
    pub user: Seq<char>,
    pub ssh_port: Seq<char>,
    pub kind: ForwardKind,
    pub bind_address: Seq<char>,
    pub bind_port: Seq<char>,
    pub target_host: Seq<char>,
    pub target_port: Seq<char>,
    pub identity_file: Seq<char>,
    pub proxy_jump: Seq<char>,
    pub autostart: bool,
    pub error: Option<Seq<char>>,
}

impl View for TunnelForm {
    type V = FormView;

    open spec fn view(&self) -> FormView {
        FormView {
            editing: self.editing,
            name: self.name@,
            host: self.host@,
            user: self.user@,
            ssh_port: self.ssh_port@,
            kind: self.kind,
            bind_address: self.bind_address@,
            bind_port: self.bind_port@,
            target_host: self.target_host@,
            target_port: self.target_port@,
            identity_file: self.identity_file@,
            proxy_jump: self.proxy_jump@,
            autostart: self.autostart,
            error: opt_view(self.error),
        }
    }
}

/// The form of a new tunnel: port 22, remote forward, loopback on both sides.
pub open spec fn blank_form() -> FormView {
    FormView {
        editing: None,
        name: Seq::empty(),
        host: Seq::empty(),
        user: Seq::empty(),
        ssh_port: seq!['2', '2'],
        kind: ForwardKind::Remote,
        bind_address: loopback(),
        bind_port: Seq::empty(),
        target_host: loopback(),
        target_port: Seq::empty(),
        identity_file: Seq::empty(),
        proxy_jump: Seq::empty(),
        autostart: false,
        error: None,
    }
}

/// The form that edits the tunnel `t`: its fields as text, its ports as
/// decimal numerals, absent optional values as empty fields.
pub open spec fn edit_form(t: TunnelView) -> FormView {
    FormView {
        editing: Some(t.id),
        name: t.name,
        host: t.host,
        user: t.user,
        ssh_port: decimal(t.ssh_port as nat),
        kind: t.kind,
        bind_address: t.bind_address,
        bind_port: decimal(t.bind_port as nat),
        target_host: t.target_host,
        target_port: decimal(t.target_port as nat),
        identity_file: or_empty(t.identity_file),
        proxy_jump: or_empty(t.proxy_jump),
        autostart: t.autostart,
        error: None,
    }
}

/// The form of a new tunnel that starts from an imported connection: named and
/// addressed by its alias (so that OpenSSH keeps applying its settings).
pub open spec fn import_form(c: SshConnection) -> FormView {
    FormView {
        name: c.alias@,
        host: c.alias@,
        user: c.user@,
        ssh_port: decimal(c.port as nat),
        proxy_jump: or_empty(opt_view(c.proxy_jump)),
        ..blank_form()
    }
}

/// The text of an optional value: empty when absent.
pub open spec fn or_empty(o: Option<Seq<char>>) -> Seq<char> {
    match o {
        Some(s) => s,
        None => Seq::empty(),
    }
}

fn string_or_empty(o: &Option<String>) -> (s: String)
    ensures
        s@ == or_empty(opt_view(*o)),
{
    match o {
        Some(s) => s.clone(),
        None => String::new(),
    }
}

/// A port field: a number from 1 to 65535, as `str::parse::<u16>` reads it.
pub open spec fn port_value(field: Seq<char>) -> Option<u16> {
    match parse_u16(field) {
        Some(p) => if p > 0 {
            Some(p)
        } else {
            None
        },
        None => None,
    }
}

/// The message for a port field that is no valid port.
pub open spec fn port_message(label: Seq<char>) -> Seq<char> {
    label + "必须介于 1 到 65535 之间"@
}

/// A trimmed optional field: absent when nothing but white space was typed.
pub open spec fn optional_field(field: Seq<char>) -> Option<Seq<char>> {
    if trim(field).len() == 0 {
        None
    } else {
        Some(trim(field))
    }
}

/// The tunnel that the form describes, given its ports and its id.
pub open spec fn form_tunnel(f: FormView, id: u128, ssh_port: u16, bind_port: u16, target_port: u16) -> TunnelView {
    TunnelView {
        id,
        name: trim(f.name),
        host: trim(f.host),
        user: trim(f.user),
        ssh_port,
        kind: f.kind,
        bind_address: trim(f.bind_address),
        bind_port,
        target_host: trim(f.target_host),
        target_port,
        identity_file: optional_field(f.identity_file),
        proxy_jump: optional_field(f.proxy_jump),
        autostart: f.autostart,
    }
}

/// What saving the form gives when the new tunnel would get the id `new_id`:
/// the ports are read in order (SSH, listen, target) and the first bad one is
/// reported; then the tunnel is validated.
pub open spec fn form_outcome(f: FormView, new_id: u128) -> Result<TunnelView, Seq<char>> {
    let id = match f.editing {
        Some(id) => id,
        None => new_id,
    };
    match (port_value(f.ssh_port), port_value(f.bind_port), port_value(f.target_port)) {
        (None, _, _) => Err(port_message("SSH 端口"@)),
        (Some(_), None, _) => Err(port_message("监听端口"@)),
        (Some(_), Some(_), None) => Err(port_message("目标端口"@)),
        (Some(s), Some(b), Some(t)) => {
            let tunnel = form_tunnel(f, id, s, b, t);
            match tunnel_error(tunnel) {
                Some(message) => Err(message),
                None => Ok(tunnel),
            }
        },
    }
}

fn trimmed(s: &String) -> (r: String)
    ensures
        r@ == trim(s@),
{
    let v = chars_of(s.as_str());
    let (a, b) = trim_bounds(&v, 0, v.len());
    assert(v@.subrange(0, v@.len() as int) == v@);
    string_of_range(&v, a, b)
}

fn optional_trimmed(s: &String) -> (r: Option<String>)
    ensures
        opt_view(r) == optional_field(s@),
{
    let t = trimmed(s);
    if t.as_str().is_empty() {
        None
    } else {
        Some(t)
    }
}

fn parse_port(label: &str, value: &String) -> (r: Result<u16, String>)
    ensures
        match port_value(value@) {
            Some(p) => r == Ok::<u16, String>(p),
            None => r matches Err(e) && e@ == port_message(label@),
        },
{
    let v = chars_of(value.as_str());
    assert(v@.subrange(0, v@.len() as int) == v@);
    match parse_u16_range(&v, 0, v.len()) {
        Some(p) => {
            if p > 0 {
                return Ok(p);
            }
        },
        None => {},
    }
    let mut message = String::from_str(label);
    message.append("必须介于 1 到 65535 之间");
    Err(message)
}

impl Default for TunnelForm {
    fn default() -> (f: Self)
        ensures
            f@ == blank_form(),
    {
        TunnelForm::new()
    }
}

impl TunnelForm {
    /// An empty form for a new tunnel.
    pub fn new() -> (f: Self)
        ensures
            f@ == blank_form(),
    {
        let f = TunnelForm {
            editing: None,
            name: String::new(),
            host: String::new(),
            user: String::new(),
            ssh_port: decimal_string(22),
            kind: ForwardKind::Remote,
            bind_address: default_loopback(),
            bind_port: String::new(),
            target_host: default_loopback(),
            target_port: String::new(),
            identity_file: String::new(),
            proxy_jump: String::new(),
            autostart: false,
            error: None,
        };
        proof {
            assert(decimal(22) == seq!['2', '2']) by {
                assert(decimal(2) == seq!['2']);
            }
        }
        assert(f@ =~= blank_form());
        f
    }

    /// The form that edits `tunnel`.
    pub fn from_tunnel(tunnel: &TunnelConfig) -> (f: Self)
        ensures
            f@ == edit_form(tunnel@),
    {
        TunnelForm {
            editing: Some(tunnel.id),
            name: tunnel.name.clone(),
            host: tunnel.host.clone(),
            user: tunnel.user.clone(),
            ssh_port: decimal_string(tunnel.ssh_port as u64),
            kind: tunnel.kind,
            bind_address: tunnel.bind_address.clone(),
            bind_port: decimal_string(tunnel.bind_port as u64),
            target_host: tunnel.target_host.clone(),
            target_port: decimal_string(tunnel.target_port as u64),
            identity_file: string_or_empty(&tunnel.identity_file),
            proxy_jump: string_or_empty(&tunnel.proxy_jump),
            autostart: tunnel.autostart,
            error: None,
        }
    }

    /// A new tunnel that starts from an imported connection: named and
    /// addressed by its alias (so that OpenSSH keeps applying its settings).
    pub fn from_ssh_connection(connection: &SshConnection) -> (f: Self)
        ensures
            f@ == import_form(*connection),
    {
        let base = TunnelForm::new();
        let f = TunnelForm {
            name: connection.alias.clone(),
            host: connection.alias.clone(),
            user: connection.user.clone(),
            ssh_port: decimal_string(connection.port as u64),
            proxy_jump: string_or_empty(&connection.proxy_jump),
            ..base
        };
        assert(f@ =~= import_form(*connection));
        f
    }

    /// The tunnel the form describes, with `new_id` as the id of a new tunnel.
    pub fn to_tunnel_with_id(&self, new_id: u128) -> (r: Result<TunnelConfig, String>)
        ensures
            match form_outcome(self@, new_id) {
                Ok(t) => r matches Ok(c) && c@ == t,
                Err(m) => r matches Err(e) && e@ == m,
            },
    {
        let id = match self.editing {
            Some(id) => id,
            None => new_id,
        };
        let ssh_port = parse_port("SSH 端口", &self.ssh_port)?;
        let bind_port = parse_port("监听端口", &self.bind_port)?;
        let target_port = parse_port("目标端口", &self.target_port)?;
        let tunnel = TunnelConfig {
            id,
            name: trimmed(&self.name),
            host: trimmed(&self.host),
            user: trimmed(&self.user),
            ssh_port,
            kind: self.kind,
            bind_address: trimmed(&self.bind_address),
            bind_port,
            target_host: trimmed(&self.target_host),
            target_port,
            identity_file: optional_trimmed(&self.identity_file),
            proxy_jump: optional_trimmed(&self.proxy_jump),
            autostart: self.autostart,
        };
        assert(tunnel@ == form_tunnel(self@, id, ssh_port, bind_port, target_port));
        tunnel.validate()?;
        Ok(tunnel)
    }

    /// The tunnel the form describes; a new tunnel gets a fresh random
    /// version-4 id. Whatever id that is, the result is the one
    /// `to_tunnel_with_id` gives for it.
    pub fn to_tunnel(&self) -> (r: Result<TunnelConfig, String>)
        ensures
            exists|new_id: u128| {
                &&& (self@.editing is None ==> is_v4_id(new_id))
                &&& match #[trigger] form_outcome(self@, new_id) {
                    Ok(t) => r matches Ok(c) && c@ == t,
                    Err(m) => r matches Err(e) && e@ == m,
                }
            },
    {
        let new_id = match self.editing {
            Some(id) => id,
            None => new_tunnel_id(),
        };
        self.to_tunnel_with_id(new_id)
    }
}

/// The characters of `value` that are ASCII digits, in order.
pub open spec fn digits_of(value: Seq<char>) -> Seq<char> {
    value.filter(|c: char| is_digit(c))
}

/// Keeps only the ASCII digits of what was typed into a port field.
pub fn digits_only(value: String) -> (r: String)
    ensures
        r@ == digits_of(value@),
{
    let v = chars_of(value.as_str());
    let mut r = String::new();
    for i in 0..v.len()
        invariant
            v@ == value@,
            r@ == v@.take(i as int).filter(|c: char| is_digit(c)),
    {
        let c = v[i];
        assert(v@.take(i + 1).drop_last() == v@.take(i as int));
        reveal_with_fuel(Seq::filter, 1);
        if '0' <= c && c <= '9' {
            push_char(&mut r, c);
        }
    }
    assert(v@.take(v.len() as int) == v@);
    r
}


proof fn lemma_optional_field_stable(field: Seq<char>)
    ensures
        optional_field(or_empty(optional_field(field))) == optional_field(field),
{
    lemma_trim_idempotent(field);
    if trim(field).len() == 0 {
        assert(or_empty(optional_field(field)) =~= Seq::<char>::empty());
        assert(trim(Seq::<char>::empty()) =~= Seq::<char>::empty());
    }
}

/// Opening a saved tunnel in the editor and saving it again without changes
/// gives the same tunnel, whatever id a new tunnel would have got.
pub proof fn saving_an_unchanged_tunnel_is_stable(f: FormView, new_id: u128, other_id: u128)
    requires
        form_outcome(f, new_id) is Ok,
    ensures
        form_outcome(edit_form(form_outcome(f, new_id)->Ok_0), other_id) == form_outcome(f, new_id),
{
    let t = form_outcome(f, new_id)->Ok_0;
    let g = edit_form(t);
    lemma_trim_idempotent(f.name);
    lemma_trim_idempotent(f.host);
    lemma_trim_idempotent(f.user);
    lemma_trim_idempotent(f.bind_address);
    lemma_trim_idempotent(f.target_host);
    lemma_optional_field_stable(f.identity_file);
    lemma_optional_field_stable(f.proxy_jump);
    lemma_parse_decimal(t.ssh_port);
    lemma_parse_decimal(t.bind_port);
    lemma_parse_decimal(t.target_port);
    let id = t.id;
    assert(form_tunnel(g, id, t.ssh_port, t.bind_port, t.target_port) == t);
}

/// A tunnel saved from an imported connection is named and addressed by the
/// connection's Host alias (so that OpenSSH keeps applying that alias's
/// settings) and keeps its user, SSH port and jump chain, whatever mapping the
/// user filled in.
pub proof fn an_imported_connection_is_saved_under_its_alias(
    c: SshConnection,
    kind: ForwardKind,
    bind_address: Seq<char>,
    bind_port: Seq<char>,
    target_host: Seq<char>,
    target_port: Seq<char>,
    autostart: bool,
    new_id: u128,
)
    requires
        form_outcome(
            FormView { kind, bind_address, bind_port, target_host, target_port, autostart, ..import_form(c) },
            new_id,
        ) is Ok,
    ensures
        ({
            let f = FormView { kind, bind_address, bind_port, target_host, target_port, autostart, ..import_form(c) };
            let t = form_outcome(f, new_id)->Ok_0;
            &&& t.id == new_id
            &&& t.name == trim(c.alias@)
            &&& t.host == trim(c.alias@)
            &&& t.user == trim(c.user@)
            &&& t.ssh_port == c.port
            &&& t.proxy_jump == optional_field(or_empty(opt_view(c.proxy_jump)))
            &&& t.identity_file is None
        }),
{
    lemma_parse_decimal(c.port);
    assert(trim(Seq::<char>::empty()) =~= Seq::<char>::empty());
}

/// Saving a form keeps what the user chose that needs no reading: the
/// forwarding direction and the autostart choice; the id is the edited
/// tunnel's, or the new one.
pub proof fn saving_keeps_the_chosen_direction(f: FormView, new_id: u128)
    ensures
        form_outcome(f, new_id) matches Ok(t) ==> {
            &&& t.kind == f.kind
            &&& t.autostart == f.autostart
            &&& t.id == (match f.editing {
                Some(id) => id,
                None => new_id,
            })
        },
{
}

} // verus!
