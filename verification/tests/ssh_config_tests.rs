use portweave::ssh_config::{
    classify_lines, collect_import, include_target, is_concrete_alias, parse_directive,
    parse_effective_config, resolve_output, split_words, strip_comment, AliasCollector,
    ConfigLine, IncludeTarget, IncludeWalk, SshConnection, WalkAction, WalkEvent,
};

#[test]
fn parses_effective_connection_and_proxy_jump() {
    let connection = parse_effective_config(
        "private-app",
        "host private-app\nhostname 10.20.0.15\nuser deploy\nport 2202\nproxyjump bastion,edge\n",
    )
    .unwrap();
    assert_eq!(connection.alias, "private-app");
    assert_eq!(connection.host_name, "10.20.0.15");
    assert_eq!(connection.user, "deploy");
    assert_eq!(connection.port, 2202);
    assert_eq!(connection.proxy_jump.as_deref(), Some("bastion,edge"));
}

/// Runs the include walk over an in-memory file system: `files` maps a path
/// (its own canonical form) to its text, `globs` maps an include pattern, as
/// the walk names it, to the files it matches.
fn walk(main: &str, files: &[(&str, &str)], globs: &[(&str, &[&str])]) -> Result<Vec<String>, String> {
    let mut walk = IncludeWalk::new(main.into(), "/home/dev".into());
    let mut action = walk.request();
    for _ in 0..100 {
        let event = match action {
            WalkAction::Open { path, .. } => {
                if files.iter().any(|(name, _)| *name == path) {
                    WalkEvent::Canonical(path)
                } else {
                    WalkEvent::NotFound("No such file or directory (os error 2)".into())
                }
            }
            WalkAction::Read(path) => {
                let text = files.iter().find(|(name, _)| *name == path).unwrap().1;
                WalkEvent::Contents(text.into())
            }
            WalkAction::Expand(target) => {
                let pattern = match target {
                    IncludeTarget::Path(p) => p,
                    IncludeTarget::UnderHome(rest) => format!("/home/dev/{rest}"),
                    IncludeTarget::Home => "/home/dev".into(),
                };
                let matches = globs
                    .iter()
                    .find(|(g, _)| *g == pattern)
                    .map(|(_, m)| m.iter().map(|s| s.to_string()).collect())
                    .unwrap_or_default();
                WalkEvent::Expanded(matches)
            }
            WalkAction::Done(aliases) => return Ok(aliases),
            WalkAction::Fail(message) => return Err(message),
        };
        action = walk.step(event);
    }
    panic!("the walk did not end");
}

#[test]
fn discovers_concrete_aliases_from_includes() {
    let aliases = walk(
        ".ssh/config",
        &[
            (
                ".ssh/config",
                "Host *\n  ServerAliveInterval 30\nInclude config.d/*.conf\nHost direct !blocked *.wild\n",
            ),
            (".ssh/config.d/servers.conf", "Host jump app\n  User deploy\n"),
        ],
        &[("config.d/*.conf", &[".ssh/config.d/servers.conf"])],
    )
    .unwrap();
    assert_eq!(aliases, ["jump", "app", "direct"]);
}

#[test]
fn include_cycles_end_and_missing_includes_are_skipped() {
    let aliases = walk(
        "main",
        &[
            ("main", "Host a\nInclude other gone ~/extra\nHost b a\n"),
            ("other", "Host c\nInclude main other\n"),
        ],
        &[("other", &["other"]), ("gone", &["gone"]), ("main", &["main"])],
    )
    .unwrap();
    assert_eq!(aliases, ["a", "c", "b"]);
}

#[test]
fn a_missing_main_file_fails() {
    assert_eq!(
        walk("nowhere", &[], &[]),
        Err("无法打开 nowhere：No such file or directory (os error 2)".to_string())
    );
}

#[test]
fn walk_failures_carry_their_messages() {
    let mut walk = IncludeWalk::new("main".into(), "/home/dev".into());
    assert_eq!(walk.request(), WalkAction::Open { path: "main".into(), required: true });
    assert_eq!(walk.step(WalkEvent::Contents("ignored".into())), WalkAction::Open { path: "main".into(), required: true });
    assert_eq!(walk.step(WalkEvent::Canonical("/abs/main".into())), WalkAction::Read("/abs/main".into()));
    assert_eq!(
        walk.step(WalkEvent::Contents("Include ~/x/*.conf\n".into())),
        WalkAction::Expand(IncludeTarget::UnderHome("x/*.conf".into()))
    );
    assert_eq!(
        walk.step(WalkEvent::BadPattern { pattern: "/home/dev/x/[".into(), error: "bad".into() }),
        WalkAction::Fail("SSH Include 模式无效 /home/dev/x/[：bad".into())
    );

    let mut walk = IncludeWalk::new("main".into(), "/home/dev".into());
    walk.step(WalkEvent::Canonical("main".into()));
    assert_eq!(
        walk.step(WalkEvent::ReadFailed("denied".into())),
        WalkAction::Fail("无法读取 main：denied".into())
    );
}

#[test]
fn parses_equals_quotes_and_comments() {
    assert_eq!(
        parse_directive("Host = \"app server\" api # comment"),
        Some(("host".into(), vec!["app server".into(), "api".into()]))
    );
    assert_eq!(
        parse_directive("Include C:\\Users\\jack\\.ssh\\config.d\\*.conf"),
        Some((
            "include".into(),
            vec!["C:\\Users\\jack\\.ssh\\config.d\\*.conf".into()]
        ))
    );
}

#[test]
fn comments_quotes_and_escapes() {
    assert_eq!(parse_directive("   # only a comment"), None);
    assert_eq!(parse_directive(""), None);
    assert_eq!(parse_directive("  \t "), None);
    assert_eq!(strip_comment("Host a # b"), "Host a ");
    assert_eq!(strip_comment("Host 'a#b' \"c#d\" e\\#f#g"), "Host 'a#b' \"c#d\" e\\#f");
    assert_eq!(
        split_words("a\\ b 'c d' \"e\\\"f\" g\\x"),
        vec!["a b", "c d", "e\"f", "g\\x"]
    );
    assert_eq!(split_words("  "), Vec::<String>::new());
    assert_eq!(split_words("''"), Vec::<String>::new());
    assert_eq!(
        parse_directive("HostName=example.com"),
        Some(("hostname".into(), vec!["example.com".into()]))
    );
    assert_eq!(
        parse_directive("USER  = \t deploy"),
        Some(("user".into(), vec!["deploy".into()]))
    );
}

#[test]
fn concrete_aliases() {
    assert!(is_concrete_alias("app"));
    assert!(is_concrete_alias("app.example-1"));
    for not_concrete in ["", "*", "a*", "a?", "[ab]", "!a", "-a", "a b"] {
        assert!(!is_concrete_alias(not_concrete), "{not_concrete:?}");
    }
}

#[test]
fn aliases_are_collected_once_in_first_seen_order() {
    let mut collector = AliasCollector::new();
    collector.add_host_values(&vec!["b".into(), "a".into(), "b".into(), "*".into()]);
    collector.add_host_values(&vec!["a".into(), "c".into()]);
    assert_eq!(collector.into_aliases(), ["b", "a", "c"]);
}

#[test]
fn lines_of_a_file_with_carriage_returns() {
    let lines = classify_lines("Host a\r\nInclude x\r\nUser u\r\n");
    assert_eq!(
        lines,
        vec![
            ConfigLine::Host(vec!["a".into()]),
            ConfigLine::Include(vec!["x".into()]),
            ConfigLine::Other
        ]
    );
    assert!(classify_lines("").is_empty());
}

#[test]
fn effective_settings_rules() {
    let c = parse_effective_config("a", "user u\nport 22\nhostname h1\nhostname h2\nproxyjump none\n")
        .unwrap();
    assert_eq!(c.host_name, "h1");
    assert_eq!(c.proxy_jump, None);
    let c = parse_effective_config("a", "User u\r\nPort x\r\nPORT 2200\r\nProxyJump NONE\r\nproxyjump j\r\n")
        .unwrap();
    assert_eq!(c.host_name, "a");
    assert_eq!(c.port, 2200);
    assert_eq!(c.proxy_jump.as_deref(), Some("j"));
    assert_eq!(
        parse_effective_config("a", "port 22\n").unwrap_err(),
        "OpenSSH 未返回用户名"
    );
    assert_eq!(
        parse_effective_config("a", "user u\nport 70000\n").unwrap_err(),
        "OpenSSH 未返回有效端口"
    );
    assert_eq!(
        parse_effective_config("a", "user u\nport +22\n").unwrap().port,
        22
    );
    assert_eq!(
        parse_effective_config("a", "user   spaced name  \nport 1").unwrap().user,
        "spaced name"
    );
}

#[test]
fn failed_resolution_messages() {
    let err = resolve_output("a", false, "exit status: 255", Vec::new(), "  bad alias \n").unwrap_err();
    assert_eq!(err, "bad alias");
    let err = resolve_output("a", false, "exit status: 255", Vec::new(), " \n").unwrap_err();
    assert_eq!(err, "ssh -G 已退出，状态为 exit status: 255");
    let err = resolve_output("a", true, "", vec![0xff, 0xfe], "").unwrap_err();
    assert_eq!(err, "OpenSSH 返回的连接数据不是有效的 UTF-8");
    let ok = resolve_output("a", true, "", b"user u\nport 1\n".to_vec(), "").unwrap();
    assert_eq!(ok.user, "u");
}

fn connection(alias: &str) -> SshConnection {
    SshConnection {
        alias: alias.into(),
        host_name: alias.into(),
        user: "u".into(),
        port: 22,
        proxy_jump: None,
    }
}

#[test]
fn import_outcomes() {
    let err = collect_import("C:/cfg".into(), &Vec::new(), Vec::new()).unwrap_err();
    assert_eq!(err, "SSH 配置文件中没有可导入的具体 Host 别名：C:/cfg");

    let aliases = vec!["a".to_string(), "b".to_string()];
    let err = collect_import(
        "C:/cfg".into(),
        &aliases,
        vec![Err("boom".into()), Err("bang".into())],
    )
    .unwrap_err();
    assert_eq!(err, "OpenSSH 无法解析任何 Host 别名: a: boom");

    let import = collect_import(
        "C:/cfg".into(),
        &aliases,
        vec![Err("boom".into()), Ok(connection("b"))],
    )
    .unwrap();
    assert_eq!(import.config_path, "C:/cfg");
    assert_eq!(import.connections, vec![connection("b")]);
    assert_eq!(import.warnings, vec!["a: boom".to_string()]);
}

#[test]
fn include_targets() {
    assert_eq!(include_target("~", "/home/u"), IncludeTarget::Home);
    assert_eq!(
        include_target("~/x/*.conf", "/home/u"),
        IncludeTarget::UnderHome("x/*.conf".into())
    );
    assert_eq!(
        include_target("~\\x", "C:\\Users\\u"),
        IncludeTarget::UnderHome("x".into())
    );
    assert_eq!(
        include_target("%d/.ssh/extra", "/home/u"),
        IncludeTarget::Path("/home/u/.ssh/extra".into())
    );
    assert_eq!(
        include_target("config.d/*.conf", "/home/u"),
        IncludeTarget::Path("config.d/*.conf".into())
    );
    assert_eq!(include_target("%%d", "H"), IncludeTarget::Path("%H".into()));
}

#[test]
fn connection_destination() {
    let mut c = connection("a");
    c.host_name = "10.0.0.1".into();
    c.port = 2202;
    assert_eq!(c.destination(), "u@10.0.0.1:2202");
}

#[test]
fn unquoted_words_split_at_white_space() {
    let value = "  bastion\tedge  ops@host:22 \u{3000}x ";
    let expected: Vec<String> = value.split_whitespace().map(String::from).collect();
    assert_eq!(split_words(value), expected);
    assert_eq!(expected, ["bastion", "edge", "ops@host:22", "x"]);
}
