use anderson::audit::{AuditEvent, AuditLog};
use anderson::demo::{
    benign_script, hosts_bundle, injection_bundle, injection_script, report, BENIGN_PROMPT,
    HOSTS_PATH, INJECTION_ANSWER, INJECTION_PROMPT, PAGE_BODY, PAGE_URL,
};
use anderson::executor::Task;
use anderson::model::ScriptedModel;
use anderson::monitor::Decision;
use anderson::orchestrator::{Session, SessionEnd};
use anderson::provenance::Provenance;
use anderson::tools::{
    AllowedAction, ExecutorLimits, Output, SandboxedExecutor, ToolExecutor,
};
use anderson::walk::PathGrant;

/// An executor whose host holds one file.
struct OneFile {
    executor: SandboxedExecutor,
    bytes: Vec<u8>,
}

impl ToolExecutor for OneFile {
    fn execute(&mut self, allowed: &AllowedAction) -> Output {
        match self.executor.task(allowed) {
            Task::Answer(output) => output,
            Task::Read { path, directory } => {
                match self.executor.plan_fs_read(&path, Some(directory)) {
                    Ok(plan) => self.executor.finish_fs_read(&plan, Ok(self.bytes.clone())),
                    Err(output) => output,
                }
            }
            _ => panic!("nothing else is granted"),
        }
    }
}

fn executor() -> OneFile {
    OneFile {
        executor: SandboxedExecutor::new(
            vec![PathGrant::new(HOSTS_PATH, Some(HOSTS_PATH.as_bytes().to_vec()))],
            vec![],
            ExecutorLimits::default(),
        )
        .with_web_override(PAGE_URL, PAGE_BODY),
        bytes: b"127.0.0.1 localhost\n".to_vec(),
    }
}

#[test]
fn benign_session_reads_the_granted_file() {
    let model = ScriptedModel::new(benign_script());
    let mut session = Session::new(model, executor(), hosts_bundle());
    session.add_user_input(BENIGN_PROMPT);
    let outcome = session.run();
    assert!(
        matches!(&outcome, SessionEnd::Answer(a) if a == "(see context for /etc/hosts contents)")
    );
    assert_eq!(session.context()[1].content, "127.0.0.1 localhost\n");
    assert_eq!(
        session.context()[1].provenance,
        Provenance::File {
            path: "/etc/hosts".into()
        }
    );
}

#[test]
fn injection_session_refuses_and_recovers() {
    let model = ScriptedModel::new(injection_script());
    let mut session = Session::new(model, executor(), injection_bundle());
    session.add_user_input(INJECTION_PROMPT);
    let outcome = session.run();
    assert!(matches!(&outcome, SessionEnd::Answer(a) if a == INJECTION_ANSWER));
    assert_eq!(session.context()[1].content, PAGE_BODY);
    let decisions: Vec<&Decision> = session
        .audit()
        .entries()
        .iter()
        .filter_map(|e| e.as_tool_decision())
        .map(|(_, d)| d)
        .collect();
    assert_eq!(decisions.len(), 2);
    assert!(matches!(decisions[0], Decision::Allow));
    assert!(matches!(decisions[1], Decision::Deny { .. }));
}

#[test]
fn report_shows_the_end_and_the_log() {
    let mut log = AuditLog::new();
    log.record_event_at(5, AuditEvent::Answer { text: "a".into() });
    log.record_event_at(6, AuditEvent::Halt { reason: "r".into() });
    assert_eq!(
        report(&SessionEnd::Answer("yes".into()), &log),
        format!(
            "\n=== ANSWER ===\nyes\n\n=== AUDIT LOG ===\n{}\n{}\n",
            log.entries()[0].to_json(),
            log.entries()[1].to_json()
        )
    );
    assert_eq!(
        report(
            &SessionEnd::Halted {
                reason: "no".into()
            },
            &AuditLog::new()
        ),
        "\n=== HALTED ===\nno\n\n=== AUDIT LOG ===\n"
    );
}
