use anderson::audit::{AuditEvent, AuditLog};
use anderson::capability::{ActionClass, ArgPattern, Capabilities, ExecRule, Spend};
use anderson::executor::Task;
use anderson::model::{Model, ModelStep, ScriptedModel};
use anderson::monitor::Decision;
use anderson::orchestrator::{Progress, Session, SessionEnd, SessionState, StepOutcome};
use anderson::provenance::{Chunk, Provenance};
use anderson::tools::{
    Action, AllowedAction, ExecutorLimits, Output, SandboxedExecutor, ToolCall, ToolExecutor,
};
use std::cell::RefCell;
use std::rc::Rc;

/// Runs the tasks that ask nothing of the host.
struct Offline {
    executor: SandboxedExecutor,
}

impl ToolExecutor for Offline {
    fn execute(&mut self, allowed: &AllowedAction) -> Output {
        match self.executor.task(allowed) {
            Task::Answer(output) => output,
            _ => Output {
                content: "offline".into(),
                provenance_hint: None,
            },
        }
    }
}

fn offline() -> Offline {
    Offline {
        executor: SandboxedExecutor::new(vec![], vec![], ExecutorLimits::default()),
    }
}

fn offline_with(url: &str, body: &str) -> Offline {
    Offline {
        executor: SandboxedExecutor::new(vec![], vec![], ExecutorLimits::default())
            .with_web_override(url, body),
    }
}

fn caps_with_exec_requiring_user() -> Capabilities {
    Capabilities {
        fs_read: vec![],
        fs_write: vec![],
        net_get: vec!["https://example.com/".into()],
        exec_rules: vec![ExecRule::any_args("curl")],
        spend: Spend::restrictive(),
        require_confirm: vec![],
        require_user_intent: vec![ActionClass::Exec, ActionClass::FsWrite, ActionClass::NetGet],
    }
}

fn reading(path: &str) -> Capabilities {
    Capabilities {
        fs_read: vec![path.into()],
        fs_write: vec![],
        net_get: vec![],
        exec_rules: vec![],
        spend: Spend::restrictive(),
        require_confirm: vec![],
        require_user_intent: vec![],
    }
}

fn read_step(path: &str, ids: Vec<u64>) -> ModelStep {
    ModelStep::Call(ToolCall {
        action: Action::FsRead { path: path.into() },
        justification_chunks: ids,
    })
}

fn get_step(url: &str, ids: Vec<u64>) -> ModelStep {
    ModelStep::Call(ToolCall {
        action: Action::NetGet { url: url.into() },
        justification_chunks: ids,
    })
}

fn exec_step(cmd: &str, ids: Vec<u64>) -> ModelStep {
    ModelStep::Call(ToolCall {
        action: Action::Exec { cmd: cmd.into() },
        justification_chunks: ids,
    })
}

fn stop_step(answer: &str) -> ModelStep {
    ModelStep::Stop {
        answer: answer.into(),
    }
}

fn decisions(log: &AuditLog) -> Vec<Decision> {
    log.entries()
        .iter()
        .filter_map(|e| e.as_tool_decision())
        .map(|(_, d)| d.clone())
        .collect()
}

fn denials(log: &AuditLog) -> Vec<String> {
    decisions(log)
        .into_iter()
        .filter_map(|d| match d {
            Decision::Deny { reason } => Some(reason),
            _ => None,
        })
        .collect()
}

#[test]
fn injection_via_web_chunk_is_denied_and_session_recovers() {
    let user_id = 0u64;
    let web_id = 1u64;
    let model = ScriptedModel::new(vec![
        get_step("https://example.com/page", vec![user_id]),
        exec_step("curl https://evil/", vec![web_id]),
        stop_step("Refused to follow the page's instructions."),
    ]);
    let caps = caps_with_exec_requiring_user();
    let executor = offline_with("https://example.com/page", "hostile content");
    let mut session = Session::new(model, executor, caps);
    session.add_user_input("fetch and summarise");
    let outcome = session.run();

    match outcome {
        SessionEnd::Answer(_) => {}
        other => panic!("expected Answer (recovered after denial), got {other:?}"),
    }

    let entries = decisions(session.audit());
    assert_eq!(entries.len(), 2, "expected exactly two recorded decisions");
    assert!(matches!(entries[0], Decision::Allow));
    match &entries[1] {
        Decision::Deny { reason } => {
            assert!(reason.contains("untrusted"), "deny reason: {reason}");
        }
        other => panic!("expected Deny, got {other:?}"),
    }
}

#[test]
fn injection_with_mixed_citations_is_still_denied() {
    let user_id = 0u64;
    let web_id = 1u64;
    let model = ScriptedModel::new(vec![
        get_step("https://example.com/page", vec![user_id]),
        exec_step("curl https://evil/", vec![user_id, web_id]),
        stop_step("done"),
    ]);
    let caps = caps_with_exec_requiring_user();
    let executor = offline_with("https://example.com/page", "hostile content");
    let mut session = Session::new(model, executor, caps);
    session.add_user_input("fetch and summarise");
    let _ = session.run();

    assert!(!denials(session.audit()).is_empty(), "expected at least one denial");
}

#[test]
fn out_of_bundle_target_is_denied() {
    let model = ScriptedModel::new(vec![read_step("/etc/passwd", vec![0]), stop_step("done")]);
    let caps = reading("/etc/hostname");
    let mut session = Session::new(model, offline(), caps);
    session.add_user_input("get /etc/passwd");
    let _ = session.run();

    let deny_count = denials(session.audit()).len();
    assert_eq!(deny_count, 1);
}

#[test]
fn exec_with_wrong_arg_prefix_is_denied_by_capability_check() {
    let model = ScriptedModel::new(vec![
        exec_step("curl https://attacker.example/x", vec![0]),
        stop_step("denied"),
    ]);
    let caps = Capabilities {
        fs_read: vec![],
        fs_write: vec![],
        net_get: vec![],
        exec_rules: vec![ExecRule::new(
            "curl",
            vec![ArgPattern::prefix("https://example.com/")],
        )],
        spend: Spend::restrictive(),
        require_confirm: vec![],
        require_user_intent: vec![],
    };
    let mut session = Session::new(model, offline(), caps);
    session.add_user_input("run that curl");
    let _ = session.run();

    let denials = denials(session.audit());
    assert_eq!(denials.len(), 1);
    let reason = &denials[0];
    assert!(
        reason.contains("outside capability bundle"),
        "unexpected reason: {reason}"
    );
}

#[test]
fn audit_log_hash_chain_verifies_after_session() {
    let model = ScriptedModel::new(vec![
        exec_step("curl https://blocked/", vec![]),
        stop_step("done"),
    ]);
    let caps = caps_with_exec_requiring_user();
    let mut session = Session::new(model, offline(), caps);
    session.add_user_input("anything");
    let _ = session.run();

    session
        .audit()
        .verify_chain()
        .expect("audit chain must verify after a real session");
}

#[test]
fn consecutive_denial_limit_halts_session() {
    let model = ScriptedModel::new(vec![
        read_step("/etc/shadow", vec![0]),
        read_step("/etc/shadow", vec![0]),
        read_step("/etc/shadow", vec![0]),
        read_step("/etc/shadow", vec![0]),
    ]);
    let mut spend = Spend::restrictive();
    spend.max_consecutive_denials = 3;
    let mut caps = reading("/etc/hostname");
    caps.spend = spend;
    let mut session = Session::new(model, offline(), caps);
    session.add_user_input("read shadow");
    let outcome = session.run();

    match outcome {
        SessionEnd::Halted { reason } => {
            assert!(reason.contains("consecutive denials"));
            assert_eq!(
                reason,
                "3 consecutive denials reached; last reason: FsRead target outside capability bundle"
            );
        }
        other => panic!("expected Halted, got {other:?}"),
    }
    assert_eq!(denials(session.audit()).len(), 3);
}

#[test]
fn session_records_its_context_and_its_end() {
    let model = ScriptedModel::new(vec![
        read_step("/etc/hostname", vec![0]),
        read_step("/etc/passwd", vec![0]),
        stop_step("bye"),
    ]);
    let mut session = Session::new(model, offline(), reading("/etc/hostname"));
    assert_eq!(session.add_system_prompt("be careful"), 0);
    assert_eq!(session.add_user_input("go"), 1);
    assert!(matches!(session.run(), SessionEnd::Answer(a) if a == "bye"));
    let context = session.context();
    assert_eq!(context.len(), 4);
    assert_eq!(context[0].provenance, Provenance::System);
    assert_eq!(context[1].provenance, Provenance::User);
    assert_eq!(
        context[2].provenance,
        Provenance::Tool {
            name: "FsRead".into(),
            call_id: 0
        }
    );
    assert_eq!(context[2].content, "offline");
    assert_eq!(context[3].provenance, Provenance::Monitor);
    assert_eq!(
        context[3].content,
        "[monitor denied last call: FsRead target outside capability bundle]"
    );
    for (i, chunk) in context.iter().enumerate() {
        assert_eq!(chunk.id, i as u64);
    }
    let entries = session.audit().entries();
    assert_eq!(entries.len(), 3);
    assert!(matches!(&entries[2].event, AuditEvent::Answer { text } if text == "bye"));
}

#[test]
fn denial_notice_cannot_be_cited() {
    let model = ScriptedModel::new(vec![
        exec_step("curl x", vec![]),
        exec_step("curl x", vec![1]),
        stop_step("ok"),
    ]);
    let mut session = Session::new(model, offline(), caps_with_exec_requiring_user());
    session.add_user_input("go");
    session.run();
    let reasons = denials(session.audit());
    assert_eq!(reasons.len(), 2);
    assert!(reasons[1].contains("chunk(s) [1] are untrusted"));
}

#[test]
fn budgets_halt_a_session() {
    let mut caps = reading("/a");
    caps.spend.max_steps = 2;
    let model = ScriptedModel::new(vec![
        read_step("/a", vec![]),
        read_step("/a", vec![]),
        read_step("/a", vec![]),
    ]);
    let mut session = Session::new(model, offline(), caps);
    match session.run() {
        SessionEnd::Halted { reason } => assert_eq!(reason, "step budget exhausted (2 steps)"),
        other => panic!("expected Halted, got {other:?}"),
    }

    let mut caps = reading("/a");
    caps.spend.max_wall_seconds = 0;
    let mut session = Session::new(ScriptedModel::new(vec![]), offline(), caps);
    match session.run() {
        SessionEnd::Halted { reason } => assert_eq!(reason, "wall-clock budget exhausted (0s)"),
        other => panic!("expected Halted, got {other:?}"),
    }
    assert!(matches!(
        &session.audit().entries()[0].event,
        AuditEvent::Halt { .. }
    ));

    let mut caps = reading("/a");
    caps.spend.max_tool_calls = 1;
    let model = ScriptedModel::new(vec![
        read_step("/a", vec![]),
        read_step("/a", vec![]),
        stop_step("x"),
    ]);
    let mut session = Session::new(model, offline(), caps);
    assert!(matches!(session.run(), SessionEnd::Answer(_)));
    assert_eq!(
        denials(session.audit()),
        vec!["tool-call budget exhausted (1 used)".to_string()]
    );
}

#[test]
fn escalation_ends_the_session() {
    let mut caps = reading("/a");
    caps.require_confirm = vec![ActionClass::FsRead];
    let model = ScriptedModel::new(vec![read_step("/a", vec![]), stop_step("unreached")]);
    let mut session = Session::new(model, offline(), caps);
    match session.run() {
        SessionEnd::Halted { reason } => assert_eq!(
            reason,
            "escalation required: FsRead requires human confirmation"
        ),
        other => panic!("expected Halted, got {other:?}"),
    }
}

#[test]
fn script_runs_out_with_an_answer() {
    let mut model = ScriptedModel::new(vec![stop_step("one")]);
    assert!(matches!(model.next_step(&[]), ModelStep::Stop { answer } if answer == "one"));
    assert!(
        matches!(model.next_step(&[]), ModelStep::Stop { answer } if answer == "(script exhausted)")
    );
}

#[test]
fn script_is_played_in_order_across_runs() {
    let model = ScriptedModel::new(vec![
        read_step("/a", vec![]),
        read_step("/b", vec![]),
        stop_step("one"),
        read_step("/c", vec![]),
    ]);
    let mut session = Session::new(model, offline(), reading("/a"));
    assert!(matches!(session.run(), SessionEnd::Answer(text) if text == "one"));
    session.add_user_input("go on");
    assert!(matches!(session.run(), SessionEnd::Answer(text) if text == "(script exhausted)"));
    let paths: Vec<String> = session
        .audit()
        .entries()
        .iter()
        .filter_map(|entry| match &entry.event {
            AuditEvent::Tool { call, .. } => match &call.action {
                Action::FsRead { path } => Some(path.clone()),
                _ => None,
            },
            _ => None,
        })
        .collect();
    assert_eq!(paths, vec!["/a", "/b", "/c"]);
}

/// Takes its time over every step.
struct Slow {
    script: ScriptedModel,
    asked: Rc<RefCell<u32>>,
}

impl Model for Slow {
    fn next_step(&mut self, context: &[Chunk]) -> ModelStep {
        *self.asked.borrow_mut() += 1;
        let started = std::time::Instant::now();
        while started.elapsed() <= std::time::Duration::from_millis(1100) {}
        self.script.next_step(context)
    }

    fn notify_chunk(&mut self, chunk: &Chunk) {
        self.script.notify_chunk(chunk);
    }

    fn notify_denial(&mut self, call: &ToolCall, reason: &str) {
        self.script.notify_denial(call, reason);
    }
}

#[test]
fn clock_is_read_in_every_turn() {
    let asked = Rc::new(RefCell::new(0));
    let model = Slow {
        script: ScriptedModel::new(vec![
            read_step("/a", vec![]),
            read_step("/a", vec![]),
            stop_step("unreached"),
        ]),
        asked: asked.clone(),
    };
    let mut caps = reading("/a");
    caps.spend.max_wall_seconds = 1;
    let mut session = Session::new(model, offline(), caps);
    match session.run() {
        SessionEnd::Halted { reason } => assert_eq!(reason, "wall-clock budget exhausted (1s)"),
        other => panic!("expected Halted, got {other:?}"),
    }
    assert_eq!(*asked.borrow(), 1);
}

/// Plays a script and writes down what it is told.
struct Listener {
    script: ScriptedModel,
    heard: Rc<RefCell<Vec<String>>>,
}

impl Model for Listener {
    fn next_step(&mut self, context: &[Chunk]) -> ModelStep {
        self.heard.borrow_mut().push(format!("step after {}", context.len()));
        self.script.next_step(context)
    }

    fn notify_chunk(&mut self, chunk: &Chunk) {
        self.heard
            .borrow_mut()
            .push(format!("chunk {} {}", chunk.id, chunk.provenance.label()));
    }

    fn notify_denial(&mut self, _call: &ToolCall, reason: &str) {
        self.heard.borrow_mut().push(format!("denied: {reason}"));
    }
}

#[test]
fn model_hears_of_every_chunk_and_denial() {
    let heard = Rc::new(RefCell::new(Vec::new()));
    let model = Listener {
        script: ScriptedModel::new(vec![
            read_step("/a", vec![]),
            read_step("/b", vec![]),
            stop_step("x"),
        ]),
        heard: heard.clone(),
    };
    let mut session = Session::new(model, offline(), reading("/a"));
    session.add_user_input("go");
    session.run();
    assert_eq!(
        heard.borrow().clone(),
        vec![
            "chunk 0 USER".to_string(),
            "step after 1".to_string(),
            "chunk 1 TOOL(FsRead#0)".to_string(),
            "step after 2".to_string(),
            "denied: FsRead target outside capability bundle".to_string(),
            "chunk 2 MONITOR".to_string(),
            "step after 3".to_string(),
        ]
    );
}

#[test]
fn turns_follow_from_what_they_are_given() {
    let mut state = SessionState::new(reading("/a"), AuditLog::new());
    let mut progress = Progress {
        steps: 0,
        denials: 0,
    };
    assert!(state.begin_turn(&mut progress, 30_000_000_000).is_none());
    assert_eq!(progress.steps, 1);
    match state.take_step(&mut progress, &read_step("/a", vec![])) {
        StepOutcome::Execute { allowed, call_id } => {
            assert_eq!(call_id, 0);
            assert!(matches!(allowed.action(), Action::FsRead { path } if path == "/a"));
        }
        _ => panic!("expected Execute"),
    }
    assert_eq!(state.calls_made(), 1);
    match state.take_step(&mut progress, &read_step("/b", vec![])) {
        StepOutcome::Denied { halt, .. } => assert!(halt.is_none()),
        _ => panic!("expected Denied"),
    }
    assert_eq!(progress.denials, 1);
    assert_eq!(state.context().len(), 1);
    match state.begin_turn(&mut progress, 30_000_000_001) {
        Some(SessionEnd::Halted { reason }) => {
            assert_eq!(reason, "wall-clock budget exhausted (30s)")
        }
        _ => panic!("expected Halted"),
    }
    assert_eq!(state.audit().entries().len(), 3);
}

#[test]
fn run_keeps_what_was_there() {
    let mut log = AuditLog::new();
    log.record_answer("earlier");
    let first = log.entries()[0].to_json();
    let model = ScriptedModel::new(vec![read_step("/a", vec![]), stop_step("later")]);
    let mut session = Session::with_audit(model, offline(), reading("/a"), log);
    session.add_user_input("go");
    session.run();
    let entries = session.audit().entries();
    assert_eq!(entries.len(), 3);
    assert_eq!(entries[0].to_json(), first);
    assert!(session.audit().verify_chain().is_ok());
    assert_eq!(session.context()[0].content, "go");
}

#[test]
fn allowed_call_resets_the_denials() {
    let mut caps = reading("/a");
    caps.spend.max_consecutive_denials = 2;
    let model = ScriptedModel::new(vec![
        read_step("/b", vec![]),
        read_step("/a", vec![]),
        read_step("/b", vec![]),
        stop_step("made it"),
    ]);
    let mut session = Session::new(model, offline(), caps);
    assert!(matches!(session.run(), SessionEnd::Answer(a) if a == "made it"));
    assert_eq!(denials(session.audit()).len(), 2);
}

#[test]
fn refused_call_is_recorded_and_brings_no_output() {
    let model = ScriptedModel::new(vec![read_step("/b", vec![4]), stop_step("x")]);
    let mut session = Session::new(model, offline(), reading("/a"));
    session.run();
    let (call, decision) = session.audit().entries()[0]
        .as_tool_decision()
        .expect("a decision");
    assert_eq!(call.justification_chunks, vec![4]);
    assert!(matches!(decision, Decision::Deny { .. }));
    assert!(session.context().iter().all(|c| c.content != "offline"));
}

/// Writes down what it is asked to carry out.
struct Recorder {
    done: Rc<RefCell<Vec<String>>>,
}

impl ToolExecutor for Recorder {
    fn execute(&mut self, allowed: &AllowedAction) -> Output {
        let n = self.done.borrow().len();
        if let Action::FsRead { path } = allowed.action() {
            self.done.borrow_mut().push(path.clone());
        }
        Output {
            content: format!("output {n}"),
            provenance_hint: None,
        }
    }
}

#[test]
fn executed_calls_are_those_on_record_as_allowed() {
    let done = Rc::new(RefCell::new(Vec::new()));
    let mut caps = reading("/a/**");
    caps.spend.max_tool_calls = 2;
    caps.spend.max_consecutive_denials = 9;
    let model = ScriptedModel::new(vec![
        read_step("/a/1", vec![]),
        read_step("/b", vec![]),
        read_step("/a/2", vec![]),
        read_step("/a/3", vec![]),
        stop_step("end"),
    ]);
    let mut session = Session::new(model, Recorder { done: done.clone() }, caps);
    session.add_user_input("go");
    session.run();
    assert_eq!(done.borrow().clone(), vec!["/a/1", "/a/2"]);
    let recorded: Vec<String> = session
        .audit()
        .entries()
        .iter()
        .filter_map(|e| e.as_tool_decision())
        .map(|(call, _)| match &call.action {
            Action::FsRead { path } => path.clone(),
            other => panic!("unexpected {other:?}"),
        })
        .collect();
    assert_eq!(recorded, vec!["/a/1", "/b", "/a/2", "/a/3"]);
    let contents: Vec<&str> = session.context().iter().map(|c| c.content.as_str()).collect();
    assert_eq!(
        contents,
        vec![
            "go",
            "output 0",
            "[monitor denied last call: FsRead target outside capability bundle]",
            "output 1",
            "[monitor denied last call: tool-call budget exhausted (2 used)]",
        ]
    );
    assert_eq!(
        session.context()[3].provenance,
        Provenance::Tool {
            name: "FsRead".into(),
            call_id: 1
        }
    );
}

#[test]
fn model_hears_of_an_escalation() {
    let heard = Rc::new(RefCell::new(Vec::new()));
    let model = Listener {
        script: ScriptedModel::new(vec![read_step("/a", vec![]), stop_step("unreached")]),
        heard: heard.clone(),
    };
    let mut caps = reading("/a");
    caps.require_confirm = vec![ActionClass::FsRead];
    let mut session = Session::new(model, offline(), caps);
    assert!(matches!(session.run(), SessionEnd::Halted { .. }));
    assert_eq!(
        heard.borrow().clone(),
        vec![
            "step after 0".to_string(),
            "denied: FsRead requires human confirmation".to_string(),
        ]
    );
}

#[test]
fn model_is_asked_no_more_often_than_the_bundle_permits() {
    let heard = Rc::new(RefCell::new(Vec::new()));
    let script: Vec<ModelStep> = (0..10).map(|_| read_step("/a", vec![])).collect();
    let model = Listener {
        script: ScriptedModel::new(script),
        heard: heard.clone(),
    };
    let mut caps = reading("/a");
    caps.spend.max_steps = 4;
    let mut session = Session::new(model, offline(), caps);
    session.run();
    let asked = heard.borrow().iter().filter(|h| h.starts_with("step")).count();
    assert_eq!(asked, 4);
}

#[test]
fn script_plays_on_between_notices() {
    let mut model = ScriptedModel::new(vec![stop_step("one"), stop_step("two")]);
    let chunk = Chunk {
        id: 0,
        provenance: Provenance::User,
        content: "x".into(),
    };
    let call = ToolCall {
        action: Action::FsRead { path: "/a".into() },
        justification_chunks: vec![],
    };
    model.notify_chunk(&chunk);
    assert!(matches!(model.next_step(&[]), ModelStep::Stop { answer } if answer == "one"));
    model.notify_denial(&call, "no");
    model.notify_chunk(&chunk);
    assert!(matches!(model.next_step(&[chunk]), ModelStep::Stop { answer } if answer == "two"));
}
