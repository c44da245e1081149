use portweave::startup::{command_matches, is_enabled, is_supported, set_enabled, startup_command};

#[test]
fn quotes_executable_paths_for_the_windows_run_key() {
    let command = startup_command(r"C:\Program Files\PortWeave\portweave.exe");
    assert_eq!(command, r#""C:\Program Files\PortWeave\portweave.exe""#);
}

#[test]
fn compares_registered_commands_case_insensitively() {
    let executable = r"C:\Apps\PortWeave\portweave.exe";
    assert!(command_matches(
        r#"  "c:\apps\portweave\PORTWEAVE.EXE"  "#,
        executable
    ));
    assert!(!command_matches(
        r#""C:\Apps\Other\portweave.exe""#,
        executable
    ));
}

#[test]
fn a_registered_command_is_recognised() {
    let executable = r"C:\Tools\pw.exe";
    assert!(command_matches(&startup_command(executable), executable));
    assert!(!command_matches(executable, executable));
}

#[test]
fn without_a_login_registry() {
    assert!(!is_supported());
    assert_eq!(is_enabled(), Ok(false));
    assert_eq!(set_enabled(true), Err("当前系统尚不支持开机启动设置".to_string()));
}
