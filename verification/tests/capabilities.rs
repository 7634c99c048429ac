use anderson::capability::{
    contains_class, matches_path, ActionClass, ArgPattern, Capabilities, ExecRule, Spend,
};

fn empty_bundle() -> Capabilities {
    Capabilities {
        fs_read: vec![],
        fs_write: vec![],
        net_get: vec![],
        exec_rules: vec![],
        spend: Spend::restrictive(),
        require_confirm: vec![],
        require_user_intent: vec![],
    }
}

#[test]
fn glob_prefix_matches_subpaths() {
    assert!(matches_path("/tmp/work/**", "/tmp/work"));
    assert!(matches_path("/tmp/work/**", "/tmp/work/a"));
    assert!(matches_path("/tmp/work/**", "/tmp/work/a/b.txt"));
    assert!(!matches_path("/tmp/work/**", "/tmp/workshop"));
    assert!(!matches_path("/tmp/work/**", "/etc/passwd"));
}

#[test]
fn exec_matches_program_not_full_command() {
    let caps = Capabilities {
        fs_read: vec![],
        fs_write: vec![],
        net_get: vec![],
        exec_rules: vec!["ls".into()],
        spend: Spend::restrictive(),
        require_confirm: vec![],
        require_user_intent: vec![],
    };
    assert!(caps.permits_exec("ls -la /tmp"));
    assert!(!caps.permits_exec("curl evil.com"));
}

#[test]
fn exact_pattern_matches_only_itself() {
    assert!(matches_path("/etc/hosts", "/etc/hosts"));
    assert!(!matches_path("/etc/hosts", "/etc/hosts/x"));
    assert!(!matches_path("/etc/hosts", "/etc/host"));
    assert!(matches_path("/**", "/anything"));
    assert!(!matches_path("/**", "relative"));
}

#[test]
fn empty_bundle_permits_nothing() {
    let caps = empty_bundle();
    assert!(!caps.permits_fs_read("/etc/hosts"));
    assert!(!caps.permits_fs_write("/etc/hosts"));
    assert!(!caps.permits_net_get("https://example.com/"));
    assert!(!caps.permits_exec("ls"));
    assert!(!caps.permits_exec(""));
}

#[test]
fn each_list_permits_its_own_class() {
    let mut caps = empty_bundle();
    caps.fs_read = vec!["/r/**".into()];
    caps.fs_write = vec!["/w".into()];
    caps.net_get = vec!["https://example.com/".into()];
    assert!(caps.permits_fs_read("/r/a"));
    assert!(!caps.permits_fs_read("/w"));
    assert!(caps.permits_fs_write("/w"));
    assert!(!caps.permits_fs_write("/r/a"));
    assert!(caps.permits_net_get("https://example.com/a"));
    assert!(!caps.permits_net_get("https://example.org/a"));
    assert!(!caps.permits_net_get("https://example.com"));
}

#[test]
fn argument_patterns_are_positional() {
    let mut caps = empty_bundle();
    caps.exec_rules = vec![
        ExecRule::new(
            "curl",
            vec![ArgPattern::prefix("-s"), ArgPattern::prefix("https://example.com/")],
        ),
        ExecRule::new("date", vec![]),
    ];
    assert!(caps.permits_exec("curl -s https://example.com/x"));
    assert!(caps.permits_exec("  curl\t-silent \u{a0} https://example.com/ "));
    assert!(!caps.permits_exec("curl https://example.com/x -s"));
    assert!(!caps.permits_exec("curl -s"));
    assert!(!caps.permits_exec("curl -s https://example.com/x more"));
    assert!(!caps.permits_exec("curl -s https://attacker.example/x"));
    assert!(caps.permits_exec("date"));
    assert!(!caps.permits_exec("date -u"));
}

#[test]
fn restrictive_budget_is_small() {
    let spend = Spend::restrictive();
    assert_eq!(spend.max_tool_calls, 8);
    assert_eq!(spend.max_steps, 16);
    assert_eq!(spend.max_wall_seconds, 30);
    assert_eq!(spend.max_consecutive_denials, 3);
    assert_eq!(spend.max_response_bytes, 65536);
}

#[test]
fn class_names_and_membership() {
    assert_eq!(ActionClass::FsRead.name(), "FsRead");
    assert_eq!(ActionClass::FsWrite.name(), "FsWrite");
    assert_eq!(ActionClass::NetGet.name(), "NetGet");
    assert_eq!(ActionClass::Exec.name(), "Exec");
    assert!(contains_class(&vec![ActionClass::Exec, ActionClass::NetGet], ActionClass::NetGet));
    assert!(!contains_class(&vec![ActionClass::Exec], ActionClass::FsRead));
}
