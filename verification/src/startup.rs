//! Launching at login: the command registered for the program and how a
//! registered command is recognised.
use crate::text::{ascii_lower, chars_of, is_space, lemma_trim_of_bracketed, lower_range, push_char, trim, trim_bounds, vec_eq};
use vstd::prelude::*;

verus! {

/// The command registered to start the program at `executable` (its path as
/// text): the path in double quotes, so that spaces in it survive.
pub open spec fn spec_startup_command(executable: Seq<char>) -> Seq<char> {
    seq!['"'] + executable + seq!['"']
}

pub fn startup_command(executable: &str) -> (command: String)
    ensures
        command@ == spec_startup_command(executable@),
{
    let mut command = String::new();
    push_char(&mut command, '"');
    command.append(executable);
    push_char(&mut command, '"');
    assert(command@ =~= spec_startup_command(executable@));
    command
}

/// Whether the registered command starts the program at `executable`: equal to
/// its startup command once trimmed, ignoring ASCII case.
pub open spec fn spec_command_matches(registered: Seq<char>, executable: Seq<char>) -> bool {
    ascii_lower(trim(registered)) == ascii_lower(spec_startup_command(executable))
}

pub fn command_matches(registered: &str, executable: &str) -> (r: bool)
    ensures
        r == spec_command_matches(registered@, executable@),
{
    let v = chars_of(registered);
    let (a, b) = trim_bounds(&v, 0, v.len());
    assert(v@.subrange(0, v@.len() as int) == v@);
    let left = lower_range(&v, a, b);
    let command = startup_command(executable);
    let w = chars_of(command.as_str());
    let right = lower_range(&w, 0, w.len());
    assert(w@.subrange(0, w@.len() as int) == w@);
    vec_eq(&left, &right)
}

/// Whether the platform has a registry of programs started at login; this
/// library models a platform without one.
pub fn is_supported() -> (r: bool)
    ensures
        !r,
{
    false
}

/// Whether the program is registered to start at login, where the platform has
/// no such registry: never.
pub fn is_enabled() -> (r: Result<bool, String>)
    ensures
        r == Ok::<bool, String>(false),
{
    Ok(false)
}

pub open spec fn unsupported_message() -> Seq<char> {
    "当前系统尚不支持开机启动设置"@
}

/// Registers or removes the program's start at login, where the platform has no
/// such registry: always refused.
pub fn set_enabled(enabled: bool) -> (r: Result<(), String>)
    ensures
        r matches Err(e) && e@ == unsupported_message(),
{
    Err(String::from_str("当前系统尚不支持开机启动设置"))
}


/// The command that is registered for a program is recognised as starting it,
/// also when the registry gives it back padded or in another ASCII case.
pub proof fn registered_command_is_recognised(executable: Seq<char>, registered: Seq<char>)
    requires
        trim(registered) == registered,
        ascii_lower(registered) == ascii_lower(spec_startup_command(executable)),
    ensures
        spec_command_matches(spec_startup_command(executable), executable),
        spec_command_matches(registered, executable),
{
    let c = spec_startup_command(executable);
    assert(c[0] == '"');
    assert(c.last() == '"');
    lemma_trim_of_bracketed(c);
}

} // verus!
