use iris_agentic_dev::cmd::connection_args::ConnectionArgs;
use iris_agentic_dev::cmd::exec::{CodeSource, ExecCommand};

fn conn(namespace: &str) -> ConnectionArgs {
    ConnectionArgs {
        host: None,
        web_port: 52773,
        namespace: namespace.to_string(),
        username: None,
        password: None,
        container: None,
    }
}

/// The command that `exec [--namespace NS] [--file FILE] [CODE]` parses to.
fn parse(code: Option<&str>, file: Option<&str>, namespace: Option<&str>) -> ExecCommand {
    ExecCommand {
        code: code.map(|s| s.to_string()),
        file: file.map(|s| s.to_string()),
        conn: conn(namespace.unwrap_or("USER")),
    }
}

#[test]
fn test_inline_code() {
    let cmd = parse(Some("write $ZVersion,!"), None, None);
    assert!(matches!(cmd.source(), CodeSource::Inline(_)));
}

#[test]
fn test_stdin_sentinel() {
    let cmd = parse(Some("-"), None, None);
    assert!(matches!(cmd.source(), CodeSource::Stdin));
}

#[test]
fn test_file_flag() {
    let cmd = parse(None, Some("/tmp/script.os"), None);
    assert!(matches!(cmd.source(), CodeSource::File(_)));
}

#[test]
fn test_no_code_is_stdin() {
    // No positional arg and no --file → defaults to stdin
    let cmd = parse(None, None, None);
    assert!(matches!(cmd.source(), CodeSource::Stdin));
}

#[test]
fn test_file_flag_path_preserved() {
    let cmd = parse(None, Some("/tmp/my script.os"), None);
    if let CodeSource::File(p) = cmd.source() {
        assert_eq!(p, "/tmp/my script.os");
    } else {
        panic!("expected CodeSource::File");
    }
}

#[test]
fn test_inline_code_with_namespace() {
    let cmd = parse(Some("write 1,!"), None, Some("MYNS"));
    assert_eq!(cmd.conn.namespace, "MYNS");
    assert!(matches!(cmd.source(), CodeSource::Inline(_)));
}

#[test]
fn test_inline_code_preserved_verbatim() {
    let code = "write $ZVersion,!";
    let cmd = parse(Some(code), None, None);
    if let CodeSource::Inline(s) = cmd.source() {
        assert_eq!(s, code);
    } else {
        panic!("expected inline");
    }
}

// ---------------------------------------------------------------------------
// Further cases
// ---------------------------------------------------------------------------

#[test]
fn file_wins_over_inline_code() {
    let cmd = parse(Some("write 1"), Some("/x.os"), None);
    assert!(matches!(cmd.source(), CodeSource::File(p) if p == "/x.os"));
}

#[test]
fn dash_with_more_text_is_inline() {
    let cmd = parse(Some("--"), None, None);
    assert!(matches!(cmd.source(), CodeSource::Inline(s) if s == "--"));
    let cmd = parse(Some(" -"), None, None);
    assert!(matches!(cmd.source(), CodeSource::Inline(s) if s == " -"));
}

#[test]
fn explicit_target_defaults_credentials() {
    let mut c = conn("APP");
    assert!(c.explicit_target().is_none());
    c.host = Some("myserver".to_string());
    c.web_port = 8080;
    let t = c.explicit_target().unwrap();
    assert_eq!(t.base_url, "http://myserver:8080");
    assert_eq!(t.namespace, "APP");
    assert_eq!(t.username, "_SYSTEM");
    assert_eq!(t.password, "SYS");
}

#[test]
fn explicit_target_uses_given_credentials_and_port_digits() {
    let c = ConnectionArgs {
        host: Some("192.168.1.1".to_string()),
        web_port: 0,
        namespace: "%SYS".to_string(),
        username: Some("SuperUser".to_string()),
        password: Some("pass".to_string()),
        container: Some("my-iris".to_string()),
    };
    let t = c.explicit_target().unwrap();
    assert_eq!(t.base_url, "http://192.168.1.1:0");
    assert_eq!(t.username, "SuperUser");
    assert_eq!(t.password, "pass");
    assert_eq!(t.namespace, "%SYS");
    let c = ConnectionArgs { web_port: 65535, ..c };
    assert_eq!(c.explicit_target().unwrap().base_url, "http://192.168.1.1:65535");
    let c = ConnectionArgs { web_port: 52773, ..c };
    assert_eq!(c.explicit_target().unwrap().base_url, "http://192.168.1.1:52773");
}
