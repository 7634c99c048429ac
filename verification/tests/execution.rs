use anderson::audit::AuditLog;
use anderson::capability::{Capabilities, Spend};
use anderson::executor::{
    exec_output, read_output, response_output, ExecReply, NetReply, ReadFault, ResponseBody, Task,
};
use anderson::monitor::{Monitor, Verdict};
use anderson::provenance::Provenance;
use anderson::sandbox::{
    build_sandboxed_command, bwrap_candidates, find_bwrap, Platform, SANDBOX_PATH, SANDBOX_PROFILE,
};
use anderson::tools::{Action, AllowedAction, ExecutorLimits, SandboxedExecutor, ToolCall};
use anderson::walk::{locate, locate_beneath, LocateFault, PathGrant};
use std::time::Duration;

fn allowed(action: Action, max_response_bytes: usize) -> AllowedAction {
    let mut spend = Spend::restrictive();
    spend.max_response_bytes = max_response_bytes;
    let caps = Capabilities {
        fs_read: vec!["/**".into()],
        fs_write: vec!["/**".into()],
        net_get: vec!["".into()],
        exec_rules: vec!["ls".into(), "".into()],
        spend,
        require_confirm: vec![],
        require_user_intent: vec![],
    };
    let mut audit = AuditLog::new();
    let mut calls_made = 0;
    let mut mon = Monitor::new(&caps, &mut audit, &mut calls_made);
    let call = ToolCall {
        action,
        justification_chunks: vec![],
    };
    match mon.authorize(&call, &[]) {
        Verdict::Allow(allowed) => allowed,
        _ => panic!("expected Allow"),
    }
}

fn grant(root: &str, subtree: bool) -> PathGrant {
    PathGrant {
        root: root.as_bytes().to_vec(),
        subtree,
    }
}

fn reader(root: &str) -> SandboxedExecutor {
    SandboxedExecutor::new(vec![grant(root, true)], vec![], ExecutorLimits::default())
}

fn writer(root: &str) -> SandboxedExecutor {
    SandboxedExecutor::new(vec![], vec![grant(root, true)], ExecutorLimits::default())
}

fn bytes(s: &str) -> Option<Vec<u8>> {
    Some(s.as_bytes().to_vec())
}

#[test]
fn fs_read_rejects_symlink_at_leaf() {
    let executor = reader("/bundle");
    let plan = executor
        .plan_fs_read("/bundle/trapdoor", bytes("/bundle"))
        .expect("a walk");
    assert_eq!(plan.leaf, b"trapdoor".to_vec());
    let out = executor.finish_fs_read(&plan, Err(ReadFault::Open));
    assert!(out.content.starts_with("error:"), "got: {}", out.content);
    assert!(
        !out.content.contains("escape"),
        "symlink target leaked into output: {}",
        out.content
    );
    assert!(
        !out.content.contains("/outside"),
        "denial leaked the resolved out-of-bundle path: {}",
        out.content
    );
}

#[test]
fn fs_read_refuses_intermediate_symlink() {
    let executor = reader("/bundle");
    let out = executor
        .plan_fs_read("/bundle/doorway/secret.txt", bytes("/outside"))
        .expect_err("no walk");
    assert!(out.content.starts_with("error:"), "got: {}", out.content);
    assert!(
        !out.content.contains("OUT-OF-BUNDLE SECRET"),
        "intermediate-symlink escape leaked content: {}",
        out.content
    );
    assert!(
        !out.content.contains("/outside"),
        "denial leaked the resolved out-of-bundle path: {}",
        out.content
    );
}

#[test]
fn fs_read_allows_in_bundle_path() {
    let executor = reader("/bundle");
    let plan = executor
        .plan_fs_read("/bundle/note.txt", bytes("/bundle"))
        .expect("a walk");
    let out = executor.finish_fs_read(&plan, Ok(b"hello".to_vec()));
    assert!(out.content.contains("hello"), "got: {}", out.content);
    assert!(matches!(out.provenance_hint, Some(Provenance::File { .. })));
}

#[test]
fn fs_write_refuses_symlinked_leaf() {
    let executor = writer("/bundle");
    let plan = executor
        .plan_fs_write("/bundle/output.txt", Ok(b"/bundle".to_vec()))
        .expect("a walk");
    let out = executor.finish_fs_write(
        &plan,
        "hostile",
        Err("Too many levels of symbolic links (os error 40)".into()),
    );
    assert!(
        out.content.contains("error"),
        "expected error, got: {}",
        out.content
    );
    assert_eq!(
        out.content,
        "error: fs_write /bundle/output.txt: Too many levels of symbolic links (os error 40)"
    );
}

#[test]
fn default_limits_are_fixed() {
    let limits = ExecutorLimits::default();
    assert_eq!(limits.exec_timeout, Duration::from_secs(15));
    assert_eq!(limits.exec_stdout_max_bytes, 64 * 1024);
    assert_eq!(limits.http_timeout, Duration::from_secs(10));
    assert_eq!(limits.http_max_bytes, 256 * 1024);
    assert_eq!(limits.fs_max_read_bytes, 256 * 1024);
    assert_eq!(reader("/a").limits(), limits);
    assert_eq!(reader("/a").read_limit(), 256 * 1024 + 1);
}

#[test]
fn patterns_become_grants() {
    assert_eq!(PathGrant::root_of("/a/b/**"), "/a/b");
    assert_eq!(PathGrant::root_of("/a/**/**"), "/a");
    assert_eq!(PathGrant::root_of("/a"), "/a");
    let resolved = PathGrant::new("/a/**", bytes("/private/a"));
    assert_eq!(resolved.root, b"/private/a".to_vec());
    assert!(resolved.subtree);
    let unresolved = PathGrant::new("/missing", None);
    assert_eq!(unresolved.root, b"/missing".to_vec());
    assert!(!unresolved.subtree);
}

#[test]
fn walk_follows_plain_names_from_the_root() {
    let grants = vec![grant("/other", true), grant("/bundle", true)];
    match locate(&grants, b"/x/../bundle/a/b/c.txt", b"/bundle/a/b") {
        Ok(plan) => {
            assert_eq!(plan.root, b"/bundle".to_vec());
            assert_eq!(plan.directories, vec![b"a".to_vec(), b"b".to_vec()]);
            assert_eq!(plan.leaf, b"c.txt".to_vec());
            assert_eq!(plan.target, b"/bundle/a/b/c.txt".to_vec());
        }
        Err(_) => panic!("expected a walk"),
    }
    match locate(&grants, b"/bundler/f", b"/bundler") {
        Err(LocateFault::Outside { target }) => assert_eq!(target, b"/bundler/f".to_vec()),
        _ => panic!("expected Outside"),
    }
    assert!(matches!(
        locate(&grants, b"/bundle/..", b"/bundle"),
        Err(LocateFault::Unnamed)
    ));
    assert!(matches!(locate(&grants, b"/", b"/"), Err(LocateFault::Unnamed)));
}

#[test]
fn walk_to_a_grant_itself() {
    match locate(&vec![grant("/bundle", true)], b"/bundle", b"/") {
        Err(LocateFault::Blocked { reason, .. }) => {
            assert_eq!(reason, "relative path resolves to bundle root")
        }
        _ => panic!("expected Blocked"),
    }
    match locate(&vec![grant("/etc/hosts", false)], b"/etc/hosts", b"/etc") {
        Ok(plan) => {
            assert_eq!(plan.root, b"/etc".to_vec());
            assert!(plan.directories.is_empty());
            assert_eq!(plan.leaf, b"hosts".to_vec());
            assert_eq!(plan.target, b"/etc/hosts".to_vec());
        }
        Err(_) => panic!("expected a walk"),
    }
}

#[test]
fn file_granted_by_itself_is_read_but_not_written() {
    let single = || vec![grant("/etc/hosts", false)];
    match locate_beneath(&single(), b"/etc/hosts", b"/etc") {
        Err(LocateFault::Blocked { target, reason }) => {
            assert_eq!(target, b"/etc/hosts".to_vec());
            assert_eq!(reason, "relative path resolves to bundle root");
        }
        _ => panic!("expected Blocked"),
    }
    match locate_beneath(&vec![grant("/b", false)], b"/b/d/f", b"/b/d") {
        Ok(plan) => {
            assert_eq!(plan.root, b"/b".to_vec());
            assert_eq!(plan.directories, vec![b"d".to_vec()]);
            assert_eq!(plan.leaf, b"f".to_vec());
        }
        Err(_) => panic!("expected a walk"),
    }
    let executor = SandboxedExecutor::new(single(), single(), ExecutorLimits::default());
    assert!(executor.plan_fs_read("/etc/hosts", bytes("/etc")).is_ok());
    match executor.plan_fs_write("/etc/hosts", Ok(b"/etc".to_vec())) {
        Ok(_) => panic!("expected a refusal"),
        Err(output) => assert_eq!(
            output.content,
            "error: fs_write /etc/hosts: relative path resolves to bundle root"
        ),
    }
}

#[test]
fn walk_refuses_components_that_are_not_names() {
    let cases: Vec<(&str, &str, &str)> = vec![
        ("", "/a", "disallowed path component RootDir"),
        ("", ".", "disallowed path component CurDir"),
        ("", "..", "disallowed path component ParentDir"),
    ];
    for (root, parent, expected) in cases {
        match locate(&vec![grant(root, true)], b"f", parent.as_bytes()) {
            Err(LocateFault::Blocked { reason, .. }) => assert_eq!(reason, expected),
            _ => panic!("expected Blocked"),
        }
    }
}

#[test]
fn refused_reads_say_one_of_three_things() {
    let executor = reader("/bundle");
    let outside = "error: fs_read denied: target outside the bundle";
    let content = |path: &str, parent: Option<Vec<u8>>| match executor.plan_fs_read(path, parent) {
        Ok(_) => panic!("expected a refusal"),
        Err(output) => {
            assert!(output.provenance_hint.is_none());
            output.content
        }
    };
    assert_eq!(content("/nowhere/f", None), outside);
    assert_eq!(content("/etc/passwd", bytes("/etc")), outside);
    assert_eq!(
        content("/bundle/..", bytes("/bundle")),
        "error: fs_read: empty file name"
    );
    assert_eq!(
        content("/bundle", bytes("/")),
        "error: fs_read denied: open failed"
    );
}

#[test]
fn reads_are_cut_at_the_cap() {
    let mut limits = ExecutorLimits::default();
    limits.fs_max_read_bytes = 4;
    let executor = SandboxedExecutor::new(vec![grant("/b", true)], vec![], limits);
    assert_eq!(executor.read_limit(), 5);
    let plan = executor.plan_fs_read("/b/f", bytes("/b")).expect("a walk");
    let exact = executor.finish_fs_read(&plan, Ok(b"abcd".to_vec()));
    assert_eq!(exact.content, "abcd");
    assert_eq!(
        exact.provenance_hint,
        Some(Provenance::File {
            path: "/b/f".into()
        })
    );
    let longer = executor.finish_fs_read(&plan, Ok(b"abcde".to_vec()));
    assert_eq!(longer.content, "abcd\n... [truncated at byte cap]");
    let broken = executor.finish_fs_read(&plan, Ok(vec![b'a', 0xff, b'b']));
    assert_eq!(broken.content, "a\u{fffd}b");
    let failed = executor.finish_fs_read(&plan, Err(ReadFault::Read));
    assert_eq!(failed.content, "error: fs_read: read failed");
    let shown = read_output("t".into(), true, "/p".into());
    assert_eq!(shown.content, "t\n... [truncated at byte cap]");
}

#[test]
fn writes_report_what_happened() {
    let executor = writer("/b");
    let content = |path: &str, parent: Result<Vec<u8>, String>| match executor
        .plan_fs_write(path, parent)
    {
        Ok(_) => panic!("expected a refusal"),
        Err(output) => output.content,
    };
    assert_eq!(
        content("/x/y/f", Err("No such file".into())),
        "error: canonicalize parent /x/y: No such file"
    );
    assert_eq!(
        content("f", Err("gone".into())),
        "error: canonicalize parent .: gone"
    );
    assert_eq!(
        content("/b/..", Ok(b"/b".to_vec())),
        "error: fs_write: empty file name"
    );
    assert_eq!(
        content("/c/f", Ok(b"/c".to_vec())),
        "error: fs_write denied: canonical path /c/f escapes the bundle"
    );
    assert_eq!(
        content("/b", Ok(b"/".to_vec())),
        "error: fs_write /b: relative path resolves to bundle root"
    );
    let plan = executor
        .plan_fs_write("/b/f", Ok(b"/b".to_vec()))
        .expect("a walk");
    let done = executor.finish_fs_write(&plan, "h\u{e9}", Ok(()));
    assert_eq!(done.content, "wrote 3 bytes to /b/f");
    assert!(done.provenance_hint.is_none());
}

#[test]
fn canned_pages_answer_without_the_host() {
    let executor = reader("/b")
        .with_web_override("https://x/a", "first")
        .with_web_override("https://x/a", "second");
    let get = |url: &str| Action::NetGet { url: url.into() };
    match executor.task(&allowed(get("https://x/a"), 10)) {
        Task::Answer(output) => {
            assert_eq!(output.content, "first");
            assert_eq!(
                output.provenance_hint,
                Some(Provenance::Web {
                    url: "https://x/a".into()
                })
            );
        }
        _ => panic!("expected Answer"),
    }
    match executor.task(&allowed(get("https://x/b"), 10)) {
        Task::Fetch { url, cap } => {
            assert_eq!(url, "https://x/b");
            assert_eq!(cap, 10);
        }
        _ => panic!("expected Fetch"),
    }
    match executor.task(&allowed(get("https://x/b"), usize::MAX)) {
        Task::Fetch { cap, .. } => assert_eq!(cap, 256 * 1024),
        _ => panic!("expected Fetch"),
    }
}

#[test]
fn other_actions_become_tasks() {
    let executor = reader("/b");
    match executor.task(&allowed(
        Action::FsRead {
            path: "/b//f".into(),
        },
        1,
    )) {
        Task::Read { path, directory } => {
            assert_eq!(path, "/b//f");
            assert_eq!(directory, b"/b".to_vec());
        }
        _ => panic!("expected Read"),
    }
    match executor.task(&allowed(
        Action::FsWrite {
            path: "/f".into(),
            content: "c".into(),
        },
        1,
    )) {
        Task::Write {
            path,
            content,
            directory,
        } => {
            assert_eq!(path, "/f");
            assert_eq!(content, "c");
            assert_eq!(directory, b"/".to_vec());
        }
        _ => panic!("expected Write"),
    }
    match executor.task(&allowed(
        Action::Exec {
            cmd: "ls  -la\t/tmp ".into(),
        },
        1,
    )) {
        Task::Run { words } => assert_eq!(words, vec!["ls", "-la", "/tmp"]),
        _ => panic!("expected Run"),
    }
    match executor.task(&allowed(Action::Exec { cmd: " \n".into() }, 1)) {
        Task::Answer(output) => assert_eq!(output.content, "error: exec: empty command"),
        _ => panic!("expected Answer"),
    }
}

#[test]
fn responses_are_cut_at_the_cap() {
    let mut body = ResponseBody::new(5);
    assert!(body.take_in(b"abc"));
    assert!(body.take_in(b"defg"));
    assert!(!body.take_in(b"h"));
    assert!(!body.take_in(b"i"));
    assert_eq!(
        body.into_bytes(),
        b"abcde\n... [response truncated at byte cap]".to_vec()
    );
    let mut body = ResponseBody::new(5);
    assert!(body.take_in(b"abcde"));
    assert_eq!(body.into_bytes(), b"abcde".to_vec());
    let mut body = ResponseBody::new(0);
    assert!(!body.take_in(b""));
    assert_eq!(
        body.into_bytes(),
        b"\n... [response truncated at byte cap]".to_vec()
    );
}

#[test]
fn requests_report_what_happened() {
    let executor = reader("/b");
    let told = |reply: NetReply| executor.finish_net_get("https://x", &reply).content;
    assert_eq!(
        told(NetReply::Failed("refused".into())),
        "error: net_get https://x: refused"
    );
    assert_eq!(told(NetReply::TimedOut), "error: net_get https://x: timed out");
    assert_eq!(
        told(NetReply::StreamFailed("cut".into())),
        "error: net_get https://x stream: cut"
    );
    let page = executor.finish_net_get(
        "https://x",
        &NetReply::Answered {
            status: "200 OK".into(),
            body: vec![b'o', b'k', 0xc3],
        },
    );
    assert_eq!(page.content, "HTTP 200 OK\n\nok\u{fffd}");
    assert_eq!(
        page.provenance_hint,
        Some(Provenance::Web {
            url: "https://x".into()
        })
    );
    assert_eq!(
        response_output("u", "302 Found", "").content,
        "HTTP 302 Found\n\n"
    );
}

#[test]
fn programs_report_what_happened() {
    let mut limits = ExecutorLimits::default();
    limits.exec_stdout_max_bytes = 3;
    let executor = SandboxedExecutor::new(vec![], vec![], limits);
    let told = |reply: ExecReply| executor.finish_exec(&reply).content;
    assert_eq!(
        told(ExecReply::SpawnFailed("nope".into())),
        "error: exec spawn: nope"
    );
    assert_eq!(
        told(ExecReply::WaitFailed("lost".into())),
        "error: exec wait: lost"
    );
    assert_eq!(told(ExecReply::TimedOut), "error: exec: timed out");
    assert_eq!(
        told(ExecReply::Exited {
            stdout: b"abc".to_vec(),
            success: true,
            status: "exit status: 0".into()
        }),
        "abc"
    );
    assert_eq!(
        told(ExecReply::Exited {
            stdout: b"abcdefghijkl".to_vec(),
            success: false,
            status: "exit status: 2".into()
        }),
        "abc\n... [stdout truncated, 12 bytes total]\n[exit status: exit status: 2]"
    );
    assert_eq!(
        exec_output("t".into(), 1, 1, Some("signal: 9")).content,
        "t\n[exit status: signal: 9]"
    );
}

fn words(items: &[&str]) -> Vec<String> {
    items.iter().map(|s| s.to_string()).collect()
}

#[test]
fn sandbox_command_lines() {
    let parts = words(&["ls", "-la", "--unshare-net"]);
    let linux = build_sandboxed_command(Platform::Linux, Some("/bin/bwrap".into()), &parts)
        .expect("a command");
    assert_eq!(linux.program, "/bin/bwrap");
    assert_eq!(
        linux.args.join(" "),
        "--ro-bind /usr /usr --ro-bind-try /lib /lib --ro-bind-try /lib64 /lib64 --ro-bind-try /bin /bin --ro-bind-try /sbin /sbin --tmpfs /tmp --proc /proc --dev /dev --unshare-net --unshare-user --unshare-ipc --unshare-pid --die-with-parent -- ls -la --unshare-net"
    );
    let mac = build_sandboxed_command(Platform::MacOs, None, &parts).expect("a command");
    assert_eq!(mac.program, "/usr/bin/sandbox-exec");
    assert_eq!(mac.args[0], "-p");
    assert_eq!(mac.args[1], SANDBOX_PROFILE);
    assert_eq!(mac.args[2], "--");
    assert_eq!(mac.args[3..].to_vec(), parts);
    assert!(SANDBOX_PROFILE.starts_with("(version 1)\n(deny default)\n"));
    assert!(!SANDBOX_PROFILE.contains("network"));
    assert_eq!(SANDBOX_PATH, "/usr/bin:/bin");
    assert_eq!(
        build_sandboxed_command(Platform::Linux, None, &parts).expect_err("no command"),
        "bwrap not found on PATH or in usual locations"
    );
    assert_eq!(
        build_sandboxed_command(Platform::Other, Some("x".into()), &parts)
            .expect_err("no command"),
        "no sandbox implementation for this platform"
    );
}

#[test]
fn missing_sandbox_is_reported() {
    let executor = reader("/b");
    match executor.plan_exec(Platform::Other, None, &words(&["ls"])) {
        Err(output) => assert_eq!(
            output.content,
            "error: exec sandbox unavailable: no sandbox implementation for this platform"
        ),
        Ok(_) => panic!("expected a refusal"),
    }
    assert!(executor
        .plan_exec(Platform::MacOs, None, &words(&["ls"]))
        .is_ok());
}

#[test]
fn bwrap_is_looked_for_in_order() {
    assert_eq!(
        bwrap_candidates(None),
        vec![
            "/usr/bin/bwrap",
            "/bin/bwrap",
            "/usr/local/bin/bwrap",
            "/run/current-system/sw/bin/bwrap"
        ]
    );
    let places = bwrap_candidates(Some("/opt/bin::/nix/"));
    assert_eq!(
        places[4..].to_vec(),
        vec!["/opt/bin/bwrap", "bwrap", "/nix/bwrap"]
    );
    assert_eq!(
        find_bwrap(&places, |place: &String| place.contains("nix") || place == "bwrap"),
        Some("bwrap".to_string())
    );
    assert_eq!(find_bwrap(&places, |_place: &String| false), None);
}
