//! The text of an audit log, one JSON object per line.
//!
//! No form of an entry holds a line feed, so the lines of the text are the
//! forms of the entries. Different logs have different texts.

use crate::audit;
use crate::audit::{AuditEntryView, AuditEventView};
use crate::json;
use crate::monitor::DecisionView;
use crate::text;
use crate::tools::{ActionView, ToolCallView};
use crate::wire;
use vstd::prelude::*;

verus! {

/// The text is on one line.
pub open spec fn one_line(s: Seq<char>) -> bool {
    !s.contains('\n')
}

proof fn lemma_join(a: Seq<char>, b: Seq<char>)
    requires
        one_line(a),
        one_line(b),
    ensures
        one_line(a + b),
{
    assert forall|i: int| 0 <= i < (a + b).len() implies (a + b)[i] != '\n' by {
        if i < a.len() {
            assert(a.contains(a[i]));
        } else {
            assert(b.contains(b[i - a.len()]));
        }
    }
}

proof fn lemma_joins()
    ensures
        forall|a: Seq<char>, b: Seq<char>|
            one_line(a) && one_line(b) ==> #[trigger] one_line(a + b),
{
    assert forall|a: Seq<char>, b: Seq<char>| one_line(a) && one_line(b) implies #[trigger] one_line(
        a + b,
    ) by {
        lemma_join(a, b);
    }
}

proof fn lemma_escaped_line(s: Seq<char>)
    ensures
        one_line(json::escaped(s)),
    decreases s.len(),
{
    if s.len() > 0 {
        lemma_escaped_line(s.drop_first());
        lemma_join(json::json_char(s[0]), json::escaped(s.drop_first()));
    }
}

proof fn lemma_text_line(s: Seq<char>)
    ensures
        one_line(json::json_text(s)),
{
    lemma_escaped_line(s);
    lemma_join(seq!['"'], json::escaped(s));
    lemma_join(seq!['"'] + json::escaped(s), seq!['"']);
}

proof fn lemma_decimal_line(n: nat)
    ensures
        one_line(text::decimal(n)),
{
    wire::lemma_decimal_digits(n);
}

proof fn lemma_ids_line(ids: Seq<u64>)
    ensures
        one_line(text::id_list(ids, ","@)),
    decreases ids.len(),
{
    reveal_strlit(",");
    if ids.len() == 1 {
        lemma_decimal_line(ids[0] as nat);
    } else if ids.len() > 1 {
        lemma_ids_line(ids.drop_last());
        lemma_decimal_line(ids.last() as nat);
        lemma_joins();
    }
}

proof fn lemma_action_line(action: ActionView)
    ensures
        one_line(wire::action_form(action)),
{
    reveal_strlit("{\"kind\":\"fs_read\",\"path\":");
    reveal_strlit("{\"kind\":\"fs_write\",\"path\":");
    reveal_strlit(",\"content\":");
    reveal_strlit("{\"kind\":\"net_get\",\"url\":");
    reveal_strlit("{\"kind\":\"exec\",\"cmd\":");
    reveal_strlit("}");
    lemma_joins();
    match action {
        ActionView::FsRead { path } => lemma_text_line(path),
        ActionView::FsWrite { path, content } => {
            lemma_text_line(path);
            lemma_text_line(content);
        },
        ActionView::NetGet { url } => lemma_text_line(url),
        ActionView::Exec { cmd } => lemma_text_line(cmd),
    }
}

proof fn lemma_event_line(event: AuditEventView)
    ensures
        one_line(audit::event_form(event)),
{
    reveal_strlit("{\"kind\":\"tool\",\"call\":");
    reveal_strlit("{\"kind\":\"answer\",\"text\":");
    reveal_strlit("{\"kind\":\"halt\",\"reason\":");
    reveal_strlit(",\"decision\":");
    reveal_strlit("}");
    lemma_joins();
    match event {
        AuditEventView::Tool { call, decision } => {
            lemma_call_line(call);
            lemma_decision_line(decision);
        },
        AuditEventView::Answer { text } => lemma_text_line(text),
        AuditEventView::Halt { reason } => lemma_text_line(reason),
    }
}

proof fn lemma_call_line(call: ToolCallView)
    ensures
        one_line(wire::call_form(call)),
{
    reveal_strlit("[");
    reveal_strlit("]");
    reveal_strlit("{\"action\":");
    reveal_strlit(",\"justification_chunks\":");
    reveal_strlit("}");
    lemma_joins();
    lemma_action_line(call.action);
    lemma_ids_line(call.justification_chunks);
    assert(one_line(wire::ids_form(call.justification_chunks)));
}

proof fn lemma_decision_line(decision: DecisionView)
    ensures
        one_line(wire::decision_form(decision)),
{
    reveal_strlit("{\"verdict\":\"allow\"}");
    reveal_strlit("{\"verdict\":\"deny\",\"reason\":");
    reveal_strlit("{\"verdict\":\"escalate\",\"reason\":");
    reveal_strlit("}");
    lemma_joins();
    match decision {
        DecisionView::Allow => {},
        DecisionView::Deny { reason } => lemma_text_line(reason),
        DecisionView::Escalate { reason } => lemma_text_line(reason),
    }
}

/// The form of an entry is on one line.
pub proof fn law_entry_is_one_line(entry: AuditEntryView)
    ensures
        one_line(audit::entry_form(entry)),
{
    reveal_strlit("{\"seq\":");
    reveal_strlit(",\"ts_millis\":");
    reveal_strlit(",\"event\":");
    reveal_strlit(",\"prev_hash\":");
    reveal_strlit(",\"hash\":");
    reveal_strlit("}");
    lemma_joins();
    lemma_decimal_line(entry.seq as nat);
    lemma_decimal_line(entry.ts_millis as nat);
    lemma_event_line(entry.event);
    lemma_text_line(entry.prev_hash);
    lemma_text_line(entry.hash);
}

/// The text of a log has one line per entry: split at line feeds, it gives
/// back the forms of the entries in their order.
pub proof fn law_one_line_per_entry(log: Seq<AuditEntryView>)
    requires
        log.len() > 0,
    ensures
        text::pieces(audit::jsonl_form(log), '\n') == audit::entry_forms(log),
    decreases log.len(),
{
    reveal_strlit("\n");
    law_entry_is_one_line(log.last());
    if log.len() == 1 {
        text::lemma_only_piece(audit::entry_form(log[0]), '\n');
        assert(audit::entry_forms(log) =~= seq![audit::entry_form(log[0])]);
    } else {
        let front = audit::jsonl_form(log.drop_last());
        law_one_line_per_entry(log.drop_last());
        text::lemma_last_piece(front, '\n', audit::entry_form(log.last()));
        assert(front + "\n"@ =~= front.push('\n'));
        assert(audit::entry_forms(log) =~= audit::entry_forms(log.drop_last()).push(
            audit::entry_form(log.last()),
        ));
    }
}

/// The form of an entry, read from its front.
proof fn lemma_entry_nesting(
    seq: Seq<char>,
    time: Seq<char>,
    event: Seq<char>,
    link: Seq<char>,
    hash: Seq<char>,
)
    ensures
        "{\"seq\":"@ + seq + ",\"ts_millis\":"@ + time + ",\"event\":"@ + event + ",\"prev_hash\":"@
            + link + ",\"hash\":"@ + hash + "}"@ == "{\"seq\":"@ + (seq + (",\"ts_millis\":"@ + (time
            + (",\"event\":"@ + (event + (",\"prev_hash\":"@ + (link + (",\"hash\":"@ + (hash
            + "}"@))))))))),
{
    let tail = ",\"prev_hash\":"@ + (link + (",\"hash\":"@ + (hash + "}"@)));
    let whole = "{\"seq\":"@ + seq + ",\"ts_millis\":"@ + time + ",\"event\":"@ + event;
    assert(whole + ",\"prev_hash\":"@ + link + ",\"hash\":"@ + hash + "}"@ =~= whole + tail);
    assert(whole + tail =~= "{\"seq\":"@ + (seq + (",\"ts_millis\":"@ + (time + (",\"event\":"@ + (
    event + tail))))));
}

/// The form of an entry tells which entry it is.
pub proof fn law_entry_form_unique(a: AuditEntryView, b: AuditEntryView)
    requires
        audit::entry_form(a) == audit::entry_form(b),
    ensures
        a == b,
{
    reveal_strlit(",\"ts_millis\":");
    reveal_strlit(",\"event\":");
    let hash_a = json::json_text(a.hash) + "}"@;
    let hash_b = json::json_text(b.hash) + "}"@;
    let link_a = json::json_text(a.prev_hash) + (",\"hash\":"@ + hash_a);
    let link_b = json::json_text(b.prev_hash) + (",\"hash\":"@ + hash_b);
    let event_a = audit::event_form(a.event) + (",\"prev_hash\":"@ + link_a);
    let event_b = audit::event_form(b.event) + (",\"prev_hash\":"@ + link_b);
    let time_a = text::decimal(a.ts_millis as nat) + (",\"event\":"@ + event_a);
    let time_b = text::decimal(b.ts_millis as nat) + (",\"event\":"@ + event_b);
    let seq_a = text::decimal(a.seq as nat) + (",\"ts_millis\":"@ + time_a);
    let seq_b = text::decimal(b.seq as nat) + (",\"ts_millis\":"@ + time_b);
    lemma_entry_nesting(
        text::decimal(a.seq as nat),
        text::decimal(a.ts_millis as nat),
        audit::event_form(a.event),
        json::json_text(a.prev_hash),
        json::json_text(a.hash),
    );
    lemma_entry_nesting(
        text::decimal(b.seq as nat),
        text::decimal(b.ts_millis as nat),
        audit::event_form(b.event),
        json::json_text(b.prev_hash),
        json::json_text(b.hash),
    );
    wire::lemma_common_head("{\"seq\":"@, seq_a, seq_b);
    wire::lemma_decimal_unique(
        a.seq as nat,
        b.seq as nat,
        ",\"ts_millis\":"@ + time_a,
        ",\"ts_millis\":"@ + time_b,
    );
    wire::lemma_common_head(",\"ts_millis\":"@, time_a, time_b);
    wire::lemma_decimal_unique(
        a.ts_millis as nat,
        b.ts_millis as nat,
        ",\"event\":"@ + event_a,
        ",\"event\":"@ + event_b,
    );
    wire::lemma_common_head(",\"event\":"@, event_a, event_b);
    audit::law_event_form_unique(
        a.event,
        b.event,
        ",\"prev_hash\":"@ + link_a,
        ",\"prev_hash\":"@ + link_b,
    );
    wire::lemma_common_head(",\"prev_hash\":"@, link_a, link_b);
    json::law_json_text_unique(
        a.prev_hash,
        b.prev_hash,
        ",\"hash\":"@ + hash_a,
        ",\"hash\":"@ + hash_b,
    );
    wire::lemma_common_head(",\"hash\":"@, hash_a, hash_b);
    json::law_json_text_unique(a.hash, b.hash, "}"@, "}"@);
}

/// The text of a log tells which log it is: two logs with the same text are
/// the same, entry by entry.
pub proof fn law_jsonl_unique(a: Seq<AuditEntryView>, b: Seq<AuditEntryView>)
    requires
        audit::jsonl_form(a) == audit::jsonl_form(b),
    ensures
        a == b,
{
    lemma_text_is_there(a);
    lemma_text_is_there(b);
    if a.len() > 0 {
        law_one_line_per_entry(a);
        law_one_line_per_entry(b);
        assert(audit::entry_forms(a).len() == audit::entry_forms(b).len());
        assert forall|i: int| 0 <= i < a.len() implies a[i] == b[i] by {
            assert(audit::entry_forms(a)[i] == audit::entry_forms(b)[i]);
            law_entry_form_unique(a[i], b[i]);
        }
    }
    assert(a =~= b);
}

/// Only the log without entries has no text.
proof fn lemma_text_is_there(log: Seq<AuditEntryView>)
    ensures
        audit::jsonl_form(log).len() == 0 <==> log.len() == 0,
{
    reveal_strlit("{\"seq\":");
    if log.len() > 0 {
        assert(audit::entry_form(log.last()).len() > 0);
    }
}

/// A log without entries has no text, and each further entry comes on a line
/// of its own after the others.
pub proof fn law_text_grows_by_a_line(log: Seq<AuditEntryView>, entry: AuditEntryView)
    ensures
        audit::jsonl_form(Seq::empty()) == Seq::<char>::empty(),
        audit::jsonl_form(log.push(entry)) == if log.len() == 0 {
            audit::entry_form(entry)
        } else {
            audit::jsonl_form(log) + "\n"@ + audit::entry_form(entry)
        },
{
    assert(log.push(entry).drop_last() =~= log);
}

} // verus!
