//! The OpenSSH command line that runs one tunnel.
use crate::config::{hop_ok, spec_ssh_flag, tunnel_error, TunnelConfig};
use crate::text::{decimal, has_space, is_space, push_char, push_decimal, split, starts_with_char, string_views};
use vstd::prelude::*;

verus! {

/// `bind:port:target:port`, the argument of `-L` and `-R`.
pub open spec fn spec_forward_spec(t: TunnelConfig) -> Seq<char> {
    t.bind_address@ + seq![':'] + decimal(t.bind_port as nat) + seq![':'] + t.target_host@ + seq![':']
        + decimal(t.target_port as nat)
}

/// The options every tunnel runs with: no remote command, no terminal, fail when
/// the forward cannot be set up, never prompt, and keep-alives every 30 seconds.
pub open spec fn fixed_options() -> Seq<Seq<char>> {
    seq![
        "-N"@,
        "-T"@,
        "-o"@,
        "ExitOnForwardFailure=yes"@,
        "-o"@,
        "BatchMode=yes"@,
        "-o"@,
        "ServerAliveInterval=30"@,
        "-o"@,
        "ServerAliveCountMax=3"@,
        "-p"@,
    ]
}

/// The arguments passed to `ssh` for the tunnel `t`, each one a single argument
/// (nothing is split or quoted by a shell).
pub open spec fn spec_command_args(t: TunnelConfig) -> Seq<Seq<char>> {
    let head = fixed_options().push(decimal(t.ssh_port as nat));
    let with_identity = match t.identity_file {
        Some(path) => head.push("-i"@).push(path@),
        None => head,
    };
    let with_jump = match t.proxy_jump {
        Some(jump) => with_identity.push("-J"@).push(jump@),
        None => with_identity,
    };
    with_jump.push(spec_ssh_flag(t.kind)).push(spec_forward_spec(t)).push(
        t.user@ + seq!['@'] + t.host@,
    )
}

fn push_arg(args: &mut Vec<String>, arg: &str)
    ensures
        string_views(final(args)@) == string_views(old(args)@).push(arg@),
{
    args.push(String::from_str(arg));
    assert(string_views(args@) =~= string_views(old(args)@).push(arg@));
}

fn push_owned(args: &mut Vec<String>, arg: String)
    ensures
        string_views(final(args)@) == string_views(old(args)@).push(arg@),
{
    let ghost a = arg@;
    args.push(arg);
    assert(string_views(args@) =~= string_views(old(args)@).push(a));
}

/// The `ssh` arguments that run the tunnel `config`.
pub fn command_args(config: &TunnelConfig) -> (args: Vec<String>)
    ensures
        string_views(args@) == spec_command_args(*config),
{
    let mut mapping = String::new();
    mapping.append(config.bind_address.as_str());
    push_char(&mut mapping, ':');
    push_decimal(&mut mapping, config.bind_port as u64);
    push_char(&mut mapping, ':');
    mapping.append(config.target_host.as_str());
    push_char(&mut mapping, ':');
    push_decimal(&mut mapping, config.target_port as u64);
    assert(mapping@ =~= spec_forward_spec(*config));

    let mut args: Vec<String> = Vec::new();
    push_arg(&mut args, "-N");
    push_arg(&mut args, "-T");
    push_arg(&mut args, "-o");
    push_arg(&mut args, "ExitOnForwardFailure=yes");
    push_arg(&mut args, "-o");
    push_arg(&mut args, "BatchMode=yes");
    push_arg(&mut args, "-o");
    push_arg(&mut args, "ServerAliveInterval=30");
    push_arg(&mut args, "-o");
    push_arg(&mut args, "ServerAliveCountMax=3");
    push_arg(&mut args, "-p");
    let mut port = String::new();
    push_decimal(&mut port, config.ssh_port as u64);
    push_owned(&mut args, port);
    assert(string_views(args@) =~= fixed_options().push(decimal(config.ssh_port as nat)));
    if let Some(identity_file) = &config.identity_file {
        push_arg(&mut args, "-i");
        push_owned(&mut args, identity_file.clone());
    }
    if let Some(proxy_jump) = &config.proxy_jump {
        push_arg(&mut args, "-J");
        push_owned(&mut args, proxy_jump.clone());
    }
    push_arg(&mut args, config.kind.ssh_flag());
    push_owned(&mut args, mapping);
    let mut destination = String::new();
    destination.append(config.user.as_str());
    push_char(&mut destination, '@');
    destination.append(config.host.as_str());
    assert(destination@ =~= config.user@ + seq!['@'] + config.host@);
    push_owned(&mut args, destination);
    args
}


/// A tunnel that passes validation cannot smuggle options into the `ssh`
/// command: its `user@host` argument is the last one, does not start with `-`
/// and holds no white space, and its jump chain (when given) is one argument of
/// hops that are neither empty nor options.
pub proof fn validated_tunnels_cannot_inject_options(t: TunnelConfig)
    requires
        tunnel_error(t@) is None,
    ensures
        ({
            let args = spec_command_args(t);
            let destination = t.user@ + seq!['@'] + t.host@;
            &&& args.last() == destination
            &&& !starts_with_char(destination, '-')
            &&& !has_space(destination)
            &&& (t.proxy_jump matches Some(jump) ==> {
                &&& !has_space(jump@)
                &&& forall|k: int| 0 <= k < split(jump@, ',').len() ==> hop_ok(#[trigger] split(jump@, ',')[k])
            })
        }),
{
    let destination = t.user@ + seq!['@'] + t.host@;
    assert(t.user@.len() > 0);
    assert(destination[0] == t.user@[0]);
    assert forall|i: int| 0 <= i < destination.len() implies !is_space(#[trigger] destination[i]) by {
        if i < t.user@.len() {
            assert(destination[i] == t.user@[i]);
        } else if i > t.user@.len() {
            assert(destination[i] == t.host@[i - t.user@.len() - 1]);
        }
    }
}

/// The identity file, when there is one, is passed as the adjacent pair
/// `-i path` right after `-p port`, whether or not there is a jump chain;
/// without one, what follows the port is the `-J` of the jump chain or the
/// forward flag.
pub proof fn the_identity_file_follows_its_option(t: TunnelConfig)
    ensures
        ({
            let args = spec_command_args(t);
            &&& args[10] == "-p"@
            &&& args[11] == decimal(t.ssh_port as nat)
            &&& (t.identity_file matches Some(path) ==> args[12] == "-i"@ && args[13] == path@)
            &&& (t.identity_file is None ==> args[12] == (if t.proxy_jump is Some {
                "-J"@
            } else {
                spec_ssh_flag(t.kind)
            }))
            &&& args.len() == 15 + (if t.identity_file is Some { 2int } else { 0 }) + (if t.proxy_jump is Some { 2int } else { 0 })
        }),
{
}

} // verus!
