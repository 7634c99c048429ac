use anderson::audit::{
    compute_entry_hash, event_json, verify_entries, AuditEntry, AuditEvent, AuditLog, AuditSink,
    MemorySink,
};
use anderson::clock::millis_at;
use anderson::monitor::Decision;
use anderson::tools::{Action, ToolCall};
use sha2::Digest;
use std::cell::RefCell;
use std::rc::Rc;
use std::time::{Duration, SystemTime};

fn sample_call() -> ToolCall {
    ToolCall {
        action: Action::FsRead {
            path: "/etc/hosts".into(),
        },
        justification_chunks: vec![0],
    }
}

fn copies(log: &AuditLog) -> Vec<AuditEntry> {
    log.entries().iter().map(|e| e.clone()).collect()
}

#[test]
fn chain_verifies_for_empty_and_growing_log() {
    let mut log = AuditLog::new();
    assert!(log.verify_chain().is_ok());
    log.record_decision(&sample_call(), &Decision::Allow);
    log.record_decision(&sample_call(), &Decision::Deny { reason: "x".into() });
    log.record_answer("done");
    assert!(log.verify_chain().is_ok());
}

#[test]
fn chain_detects_tampered_entry() {
    let mut log = AuditLog::new();
    log.record_decision(&sample_call(), &Decision::Allow);
    log.record_decision(&sample_call(), &Decision::Allow);
    let mut entries = copies(&log);
    entries[0].event = AuditEvent::Tool {
        call: sample_call(),
        decision: Decision::Deny {
            reason: "fake".into(),
        },
    };
    assert!(verify_entries(&entries).is_err());
}

#[test]
fn chain_detects_tampered_answer() {
    let mut log = AuditLog::new();
    log.record_decision(&sample_call(), &Decision::Allow);
    log.record_answer("real answer");
    let mut entries = copies(&log);
    entries[1].event = AuditEvent::Answer {
        text: "innocuous answer".into(),
    };
    assert!(verify_entries(&entries).is_err());
}

/// A sink whose file is a shared buffer.
struct SharedSink {
    contents: Rc<RefCell<String>>,
}

impl AuditSink for SharedSink {
    fn write(&mut self, _entry: &AuditEntry, line: &str) {
        let mut contents = self.contents.borrow_mut();
        contents.push_str(line);
        contents.push('\n');
    }
}

#[test]
fn jsonl_sink_persists_each_entry() {
    let file = Rc::new(RefCell::new(String::new()));
    let sink = SharedSink {
        contents: file.clone(),
    };
    let mut log = AuditLog::with_sink(Box::new(sink));
    log.record_decision(&sample_call(), &Decision::Allow);
    log.record_decision(&sample_call(), &Decision::Deny { reason: "x".into() });
    log.record_halt("budget exhausted");
    let contents = file.borrow().clone();
    assert_eq!(contents.lines().count(), 3);
    for line in contents.lines() {
        let _: serde_json::Value = serde_json::from_str(line).expect("valid JSON");
    }
    assert_eq!(contents, log.to_jsonl() + "\n");
}

#[test]
fn memory_sink_keeps_lines_in_order() {
    let mut log = AuditLog::new();
    log.record_answer("a");
    log.record_answer("b");
    let mut sink = MemorySink::new();
    for entry in log.entries() {
        sink.write(entry, &entry.to_json());
    }
    assert_eq!(sink.kept().join("\n"), log.to_jsonl());
}

#[test]
fn hashes_cover_the_canonical_form() {
    let mut log = AuditLog::new();
    log.record_event_at(
        0,
        AuditEvent::Answer {
            text: "done".into(),
        },
    );
    log.record_event_at(
        7,
        AuditEvent::Halt {
            reason: "budget \"\u{e9}\"".into(),
        },
    );
    let entries = log.entries();
    assert_eq!(entries[0].prev_hash, "");
    assert_eq!(
        entries[0].hash,
        "5d544686122a7739dbefd39e72364da131f80a6614060399d16d2f18c0b02554"
    );
    assert_eq!(entries[1].prev_hash, entries[0].hash);
    assert_eq!(
        entries[1].hash,
        "f14fad87f7724495db5deda7135c1f4003a198d01adea94cb4fcd94cff535086"
    );
    let canonical = format!(
        "[1,7,{},\"{}\"]",
        event_json(&entries[1].event),
        entries[0].hash
    );
    let digest = sha2::Sha256::digest(canonical.as_bytes());
    let hex: String = digest.iter().map(|b| format!("{b:02x}")).collect();
    assert_eq!(entries[1].hash, hex);
    assert_eq!(
        compute_entry_hash(1, 7, &entries[1].event, &entries[0].hash),
        hex
    );
}

#[test]
fn entries_have_their_json_form() {
    let mut log = AuditLog::new();
    log.record_event_at(
        340282366920938463463374607431768211455,
        AuditEvent::Tool {
            call: ToolCall {
                action: Action::FsWrite {
                    path: "/a\"b".into(),
                    content: "\u{1}\n\t\u{8}\u{c}\r\\\u{7f}".into(),
                },
                justification_chunks: vec![3, 18446744073709551615],
            },
            decision: Decision::Escalate {
                reason: "why".into(),
            },
        },
    );
    let entry = &log.entries()[0];
    assert_eq!(
        entry.to_json(),
        format!(
            "{{\"seq\":0,\"ts_millis\":340282366920938463463374607431768211455,\"event\":{{\"kind\":\"tool\",\"call\":{{\"action\":{{\"kind\":\"fs_write\",\"path\":\"/a\\\"b\",\"content\":\"\\u0001\\n\\t\\b\\f\\r\\\\\u{7f}\"}},\"justification_chunks\":[3,18446744073709551615]}},\"decision\":{{\"verdict\":\"escalate\",\"reason\":\"why\"}}}},\"prev_hash\":\"\",\"hash\":\"{}\"}}",
            entry.hash
        )
    );
}

#[test]
fn json_forms_spell_what_they_hold() {
    let event = AuditEvent::Tool {
        call: ToolCall {
            action: Action::NetGet {
                url: "https://x/\u{0}\u{1f}\u{2028}\u{1f600}".into(),
            },
            justification_chunks: vec![],
        },
        decision: Decision::Allow,
    };
    let value: serde_json::Value = serde_json::from_str(&event_json(&event)).expect("valid JSON");
    assert_eq!(value["kind"], "tool");
    assert_eq!(value["call"]["action"]["kind"], "net_get");
    assert_eq!(
        value["call"]["action"]["url"],
        "https://x/\u{0}\u{1f}\u{2028}\u{1f600}"
    );
    assert_eq!(value["decision"]["verdict"], "allow");
    assert_eq!(
        event_json(&AuditEvent::Halt { reason: "r".into() }),
        "{\"kind\":\"halt\",\"reason\":\"r\"}"
    );
}

fn three_entries() -> Vec<AuditEntry> {
    let mut log = AuditLog::new();
    log.record_event_at(1, AuditEvent::Answer { text: "a".into() });
    log.record_event_at(2, AuditEvent::Answer { text: "b".into() });
    log.record_event_at(3, AuditEvent::Answer { text: "c".into() });
    copies(&log)
}

#[test]
fn each_chain_fault_has_its_message() {
    let mut entries = three_entries();
    entries[1].seq = 5;
    assert_eq!(
        verify_entries(&entries),
        Err("entry 1: seq 5 (expected 1)".to_string())
    );

    let mut entries = three_entries();
    entries[2].prev_hash = String::new();
    assert_eq!(
        verify_entries(&entries),
        Err("entry 2: prev_hash does not chain".to_string())
    );

    let mut entries = three_entries();
    entries[0].ts_millis = 9;
    assert_eq!(
        verify_entries(&entries),
        Err("entry 0: hash does not match content".to_string())
    );

    let mut entries = three_entries();
    entries.remove(1);
    assert_eq!(
        verify_entries(&entries),
        Err("entry 1: seq 2 (expected 1)".to_string())
    );
    assert_eq!(verify_entries(&[]), Ok(()));
}

#[test]
fn rehashed_edit_still_breaks_the_next_link() {
    let mut entries = three_entries();
    entries[1].event = AuditEvent::Answer { text: "x".into() };
    entries[1].hash = compute_entry_hash(1, 2, &entries[1].event, &entries[1].prev_hash);
    assert_eq!(
        verify_entries(&entries),
        Err("entry 2: prev_hash does not chain".to_string())
    );
}

#[test]
fn only_tool_entries_are_decisions() {
    let mut log = AuditLog::default();
    log.record_decision(&sample_call(), &Decision::Deny { reason: "r".into() });
    log.record_answer("a");
    let (call, decision) = log.entries()[0].as_tool_decision().expect("a decision");
    assert!(matches!(&call.action, Action::FsRead { path } if path == "/etc/hosts"));
    assert!(matches!(decision, Decision::Deny { reason } if reason == "r"));
    assert!(log.entries()[1].as_tool_decision().is_none());
    assert_eq!(AuditLog::new().to_jsonl(), "");
}

#[test]
fn text_has_one_line_per_entry() {
    let mut log = AuditLog::new();
    log.record_answer("two\nlines\r\nand more");
    log.record_halt("\n");
    log.record_decision(
        &ToolCall {
            action: Action::FsWrite {
                path: "/a\nb".into(),
                content: "\n\n".into(),
            },
            justification_chunks: vec![1, 2],
        },
        &Decision::Deny {
            reason: "no\n".into(),
        },
    );
    let text = log.to_jsonl();
    let lines: Vec<&str> = text.split('\n').collect();
    assert_eq!(lines.len(), 3);
    for (line, entry) in lines.iter().zip(log.entries()) {
        assert_eq!(*line, entry.to_json());
    }
}

#[test]
fn different_values_have_different_forms() {
    let cases = vec![
        ("a", "b"),
        ("\"", "\\"),
        ("\\n", "\n"),
        ("\u{1}", "\\u0001"),
        ("", "\u{0}"),
    ];
    for (a, b) in cases {
        let form = |text: &str| event_json(&AuditEvent::Answer { text: text.into() });
        assert_ne!(form(a), form(b), "{a:?} and {b:?}");
    }
    assert_ne!(
        event_json(&AuditEvent::Answer { text: "x".into() }),
        event_json(&AuditEvent::Halt { reason: "x".into() })
    );
}

#[test]
fn tip_stands_for_the_history() {
    let tip = |texts: &[&str]| {
        let mut log = AuditLog::new();
        for text in texts {
            log.record_event_at(1, AuditEvent::Answer { text: (*text).into() });
        }
        log.entries().last().expect("an entry").hash.clone()
    };
    assert_eq!(tip(&["a", "b", "c"]), tip(&["a", "b", "c"]));
    assert_ne!(tip(&["a", "b", "c"]), tip(&["x", "b", "c"]));
    assert_ne!(tip(&["a", "b", "c"]), tip(&["b", "a", "c"]));
}

#[test]
fn time_stamps_count_whole_milliseconds() {
    let epoch = SystemTime::UNIX_EPOCH;
    assert_eq!(millis_at(&epoch), 0);
    assert_eq!(millis_at(&(epoch + Duration::from_micros(1_999))), 1);
    assert_eq!(
        millis_at(&(epoch + Duration::from_millis(1_700_000_000_123))),
        1_700_000_000_123
    );
    assert_eq!(millis_at(&(epoch - Duration::from_secs(5))), 0);
}

#[test]
fn entries_are_stamped_with_the_clock() {
    let before = millis_at(&SystemTime::now());
    let mut log = AuditLog::new();
    log.record_answer("a");
    let after = millis_at(&SystemTime::now());
    let stamp = log.entries()[0].ts_millis;
    assert!(before <= stamp && stamp <= after);
}
