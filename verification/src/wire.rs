//! The JSON form of calls, decisions and audit events.
//!
//! Each form is one JSON object with its members in a fixed order and no white
//! space. Two different values never have the same form: the laws below say so
//! for each type, whatever text follows.

use crate::json;
use crate::monitor::{Decision, DecisionView};
use crate::text;
use crate::tools::{Action, ActionView, ToolCall, ToolCallView};
use vstd::prelude::*;
use vstd::string::*;

verus! {

/// The JSON form of an action.
pub open spec fn action_form(action: ActionView) -> Seq<char> {
    match action {
        ActionView::FsRead { path } => "{\"kind\":\"fs_read\",\"path\":"@ + json::json_text(path) + "}"@,
        ActionView::FsWrite { path, content } => "{\"kind\":\"fs_write\",\"path\":"@ + json::json_text(
            path,
        ) + ",\"content\":"@ + json::json_text(content) + "}"@,
        ActionView::NetGet { url } => "{\"kind\":\"net_get\",\"url\":"@ + json::json_text(url) + "}"@,
        ActionView::Exec { cmd } => "{\"kind\":\"exec\",\"cmd\":"@ + json::json_text(cmd) + "}"@,
    }
}

/// Writes the JSON form of an action.
pub fn action_json(action: &Action) -> (res: String)
    ensures
        res@ == action_form(action@),
{
    match action {
        Action::FsRead { path } => {
            let mut s = "{\"kind\":\"fs_read\",\"path\":".to_owned();
            s.append(json::json_string(path.as_str()).as_str());
            s.append("}");
            s
        },
        Action::FsWrite { path, content } => {
            let mut s = "{\"kind\":\"fs_write\",\"path\":".to_owned();
            s.append(json::json_string(path.as_str()).as_str());
            s.append(",\"content\":");
            s.append(json::json_string(content.as_str()).as_str());
            s.append("}");
            s
        },
        Action::NetGet { url } => {
            let mut s = "{\"kind\":\"net_get\",\"url\":".to_owned();
            s.append(json::json_string(url.as_str()).as_str());
            s.append("}");
            s
        },
        Action::Exec { cmd } => {
            let mut s = "{\"kind\":\"exec\",\"cmd\":".to_owned();
            s.append(json::json_string(cmd.as_str()).as_str());
            s.append("}");
            s
        },
    }
}

/// The JSON form of a list of ids.
pub open spec fn ids_form(ids: Seq<u64>) -> Seq<char> {
    "["@ + text::id_list(ids, ","@) + "]"@
}

/// The JSON form of a tool call.
pub open spec fn call_form(call: ToolCallView) -> Seq<char> {
    "{\"action\":"@ + action_form(call.action) + ",\"justification_chunks\":"@ + ids_form(
        call.justification_chunks,
    ) + "}"@
}

/// Writes the JSON form of a tool call.
pub fn call_json(call: &ToolCall) -> (res: String)
    ensures
        res@ == call_form(call@),
{
    let mut ids = "[".to_owned();
    ids.append(text::id_list_text(&call.justification_chunks, ",").as_str());
    ids.append("]");
    let mut s = "{\"action\":".to_owned();
    s.append(action_json(&call.action).as_str());
    s.append(",\"justification_chunks\":");
    s.append(ids.as_str());
    s.append("}");
    s
}

/// The JSON form of a decision.
pub open spec fn decision_form(decision: DecisionView) -> Seq<char> {
    match decision {
        DecisionView::Allow => "{\"verdict\":\"allow\"}"@,
        DecisionView::Deny { reason } => "{\"verdict\":\"deny\",\"reason\":"@ + json::json_text(reason)
            + "}"@,
        DecisionView::Escalate { reason } => "{\"verdict\":\"escalate\",\"reason\":"@ + json::json_text(
            reason,
        ) + "}"@,
    }
}

/// Writes the JSON form of a decision.
pub fn decision_json(decision: &Decision) -> (res: String)
    ensures
        res@ == decision_form(decision@),
{
    match decision {
        Decision::Allow => "{\"verdict\":\"allow\"}".to_owned(),
        Decision::Deny { reason } => {
            let mut s = "{\"verdict\":\"deny\",\"reason\":".to_owned();
            s.append(json::json_string(reason.as_str()).as_str());
            s.append("}");
            s
        },
        Decision::Escalate { reason } => {
            let mut s = "{\"verdict\":\"escalate\",\"reason\":".to_owned();
            s.append(json::json_string(reason.as_str()).as_str());
            s.append("}");
            s
        },
    }
}

/// Two texts that begin with literals that differ somewhere are different.
pub proof fn lemma_different_heads(
    p: Seq<char>,
    x: Seq<char>,
    q: Seq<char>,
    y: Seq<char>,
    k: int,
)
    requires
        0 <= k < p.len(),
        k < q.len(),
        p[k] != q[k],
    ensures
        p + x != q + y,
{
    assert((p + x)[k] == p[k]);
    assert((q + y)[k] == q[k]);
}

/// A common head can be removed.
pub proof fn lemma_common_head(p: Seq<char>, x: Seq<char>, y: Seq<char>)
    requires
        p + x == p + y,
    ensures
        x == y,
{
    assert(x =~= (p + x).skip(p.len() as int));
    assert(y =~= (p + y).skip(p.len() as int));
}

/// `"head" string "tail"` tells which string it holds, whatever follows.
pub proof fn lemma_framed_text(
    head: Seq<char>,
    a: Seq<char>,
    b: Seq<char>,
    tail: Seq<char>,
    x: Seq<char>,
    y: Seq<char>,
)
    requires
        head + json::json_text(a) + tail + x == head + json::json_text(b) + tail + y,
    ensures
        a == b,
        x == y,
{
    assert(head + json::json_text(a) + tail + x =~= head + (json::json_text(a) + (tail + x)));
    assert(head + json::json_text(b) + tail + y =~= head + (json::json_text(b) + (tail + y)));
    lemma_common_head(head, json::json_text(a) + (tail + x), json::json_text(b) + (tail + y));
    json::law_json_text_unique(a, b, tail + x, tail + y);
    lemma_common_head(tail, x, y);
}

/// A numeral consists of decimal digits, and of at least one.
pub proof fn lemma_decimal_digits(n: nat)
    ensures
        text::decimal(n).len() > 0,
        forall|i: int| 0 <= i < text::decimal(n).len() ==> '0' <= #[trigger] text::decimal(n)[i] <= '9',
    decreases n,
{
    if n >= 10 {
        lemma_decimal_digits(n / 10);
    }
}

/// Different numbers have different numerals.
pub proof fn lemma_decimal_injective(m: nat, n: nat)
    requires
        text::decimal(m) == text::decimal(n),
    ensures
        m == n,
    decreases m,
{
    lemma_decimal_digits(m);
    lemma_decimal_digits(n);
    assert(text::decimal(m).last() == text::digit(m % 10));
    assert(text::decimal(n).last() == text::digit(n % 10));
    if m >= 10 {
        lemma_decimal_digits(m / 10);
    }
    if n >= 10 {
        lemma_decimal_digits(n / 10);
    }
    if m < 10 {
        assert(text::decimal(m).len() == 1);
        assert(n < 10);
    } else {
        assert(n >= 10);
        assert(text::decimal(m / 10) =~= text::decimal(m).drop_last());
        assert(text::decimal(n / 10) =~= text::decimal(n).drop_last());
        lemma_decimal_injective(m / 10, n / 10);
    }
}

/// A text that does not go on with a digit.
pub open spec fn ends_numeral(s: Seq<char>) -> bool {
    s.len() == 0 || !('0' <= s[0] <= '9')
}

/// A numeral that is not followed by a digit tells which number it is.
pub proof fn lemma_decimal_unique(m: nat, n: nat, x: Seq<char>, y: Seq<char>)
    requires
        text::decimal(m) + x == text::decimal(n) + y,
        ends_numeral(x),
        ends_numeral(y),
    ensures
        m == n,
        x == y,
{
    lemma_decimal_digits(m);
    lemma_decimal_digits(n);
    let left = text::decimal(m) + x;
    let right = text::decimal(n) + y;
    let a = text::decimal(m).len() as int;
    let b = text::decimal(n).len() as int;
    if a < b {
        assert(right[a] == text::decimal(n)[a]);
        assert(x.len() > 0);
        assert(left[a] == x[0]);
    } else if b < a {
        assert(left[b] == text::decimal(m)[b]);
        assert(y.len() > 0);
        assert(right[b] == y[0]);
    }
    assert(text::decimal(m) =~= left.take(a));
    assert(text::decimal(n) =~= right.take(b));
    lemma_decimal_injective(m, n);
    lemma_common_head(text::decimal(m), x, y);
}

/// A list of ids begins with the first id.
pub proof fn lemma_id_list_front(ids: Seq<u64>, sep: Seq<char>)
    requires
        ids.len() > 1,
    ensures
        text::id_list(ids, sep) == text::decimal(ids[0] as nat) + sep + text::id_list(ids.drop_first(), sep),
    decreases ids.len(),
{
    if ids.len() == 2 {
        reveal_with_fuel(text::id_list, 2);
    } else {
        lemma_id_list_front(ids.drop_last(), sep);
        assert(ids.drop_first().drop_last() =~= ids.drop_last().drop_first());
        assert(text::id_list(ids, sep) =~= text::decimal(ids[0] as nat) + sep + text::id_list(
            ids.drop_first(),
            sep,
        ));
    }
}

proof fn lemma_id_list_unique(a: Seq<u64>, b: Seq<u64>, x: Seq<char>, y: Seq<char>)
    requires
        text::id_list(a, ","@) + ("]"@ + x) == text::id_list(b, ","@) + ("]"@ + y),
    ensures
        a == b,
        x == y,
    decreases a.len(),
{
    reveal_strlit(",");
    reveal_strlit("]");
    let left = text::id_list(a, ","@) + ("]"@ + x);
    let right = text::id_list(b, ","@) + ("]"@ + y);
    let rest_a = if a.len() <= 1 {
        "]"@ + x
    } else {
        ","@ + (text::id_list(a.drop_first(), ","@) + ("]"@ + x))
    };
    let rest_b = if b.len() <= 1 {
        "]"@ + y
    } else {
        ","@ + (text::id_list(b.drop_first(), ","@) + ("]"@ + y))
    };
    if a.len() > 0 {
        lemma_decimal_digits(a[0] as nat);
        if a.len() > 1 {
            lemma_id_list_front(a, ","@);
        }
        assert(left =~= text::decimal(a[0] as nat) + rest_a);
        assert(left[0] == text::decimal(a[0] as nat)[0]);
    } else {
        assert(left =~= rest_a);
    }
    if b.len() > 0 {
        lemma_decimal_digits(b[0] as nat);
        if b.len() > 1 {
            lemma_id_list_front(b, ","@);
        }
        assert(right =~= text::decimal(b[0] as nat) + rest_b);
        assert(right[0] == text::decimal(b[0] as nat)[0]);
    } else {
        assert(right =~= rest_b);
    }
    if a.len() > 0 && b.len() > 0 {
        lemma_decimal_unique(a[0] as nat, b[0] as nat, rest_a, rest_b);
        assert(rest_a[0] == rest_b[0]);
        if a.len() > 1 {
            assert(b.len() > 1);
            lemma_common_head(
                ","@,
                text::id_list(a.drop_first(), ","@) + ("]"@ + x),
                text::id_list(b.drop_first(), ","@) + ("]"@ + y),
            );
            lemma_id_list_unique(a.drop_first(), b.drop_first(), x, y);
            assert(a =~= seq![a[0]] + a.drop_first());
            assert(b =~= seq![b[0]] + b.drop_first());
        } else {
            assert(b.len() == 1);
            lemma_common_head("]"@, x, y);
            assert(a =~= b);
        }
    } else {
        assert(a.len() == 0 && b.len() == 0);
        lemma_common_head("]"@, x, y);
        assert(a =~= b);
    }
}

/// The form of a list of ids tells which ids it holds, whatever follows.
pub proof fn law_ids_form_unique(a: Seq<u64>, b: Seq<u64>, x: Seq<char>, y: Seq<char>)
    requires
        ids_form(a) + x == ids_form(b) + y,
    ensures
        a == b,
        x == y,
{
    let inner_a = text::id_list(a, ","@) + ("]"@ + x);
    let inner_b = text::id_list(b, ","@) + ("]"@ + y);
    assert(ids_form(a) + x =~= "["@ + inner_a);
    assert(ids_form(b) + y =~= "["@ + inner_b);
    lemma_common_head("["@, inner_a, inner_b);
    lemma_id_list_unique(a, b, x, y);
}

/// The head of the form of an action, up to its first string.
spec fn action_head(action: ActionView) -> Seq<char> {
    match action {
        ActionView::FsRead { .. } => "{\"kind\":\"fs_read\",\"path\":"@,
        ActionView::FsWrite { .. } => "{\"kind\":\"fs_write\",\"path\":"@,
        ActionView::NetGet { .. } => "{\"kind\":\"net_get\",\"url\":"@,
        ActionView::Exec { .. } => "{\"kind\":\"exec\",\"cmd\":"@,
    }
}

/// The form of an action after its head.
spec fn action_rest(action: ActionView) -> Seq<char> {
    match action {
        ActionView::FsRead { path } => json::json_text(path) + "}"@,
        ActionView::FsWrite { path, content } => json::json_text(path) + (",\"content\":"@ + (json::json_text(
            content,
        ) + "}"@)),
        ActionView::NetGet { url } => json::json_text(url) + "}"@,
        ActionView::Exec { cmd } => json::json_text(cmd) + "}"@,
    }
}

proof fn lemma_action_heads(a: ActionView, b: ActionView, x: Seq<char>, y: Seq<char>)
    requires
        action_head(a) + x == action_head(b) + y,
    ensures
        a.class() == b.class(),
{
    reveal_strlit("{\"kind\":\"fs_read\",\"path\":");
    reveal_strlit("{\"kind\":\"fs_write\",\"path\":");
    reveal_strlit("{\"kind\":\"net_get\",\"url\":");
    reveal_strlit("{\"kind\":\"exec\",\"cmd\":");
    if a.class() != b.class() {
        if action_head(a)[9] != action_head(b)[9] {
            lemma_different_heads(action_head(a), x, action_head(b), y, 9);
        } else {
            lemma_different_heads(action_head(a), x, action_head(b), y, 12);
        }
    }
}

/// The form of an action tells which action it is, whatever follows.
pub proof fn law_action_form_unique(a: ActionView, b: ActionView, x: Seq<char>, y: Seq<char>)
    requires
        action_form(a) + x == action_form(b) + y,
    ensures
        a == b,
        x == y,
{
    assert(action_form(a) + x =~= action_head(a) + (action_rest(a) + x));
    assert(action_form(b) + y =~= action_head(b) + (action_rest(b) + y));
    lemma_action_heads(a, b, action_rest(a) + x, action_rest(b) + y);
    match (a, b) {
        (ActionView::FsRead { path: p }, ActionView::FsRead { path: q }) => {
            lemma_framed_text(action_head(a), p, q, "}"@, x, y);
        },
        (
            ActionView::FsWrite { path: p, content: c },
            ActionView::FsWrite { path: q, content: d },
        ) => {
            let mid = ",\"content\":"@;
            lemma_common_head(action_head(a), action_rest(a) + x, action_rest(b) + y);
            assert(action_rest(a) + x =~= json::json_text(p) + (mid + json::json_text(c) + "}"@ + x));
            assert(action_rest(b) + y =~= json::json_text(q) + (mid + json::json_text(d) + "}"@ + y));
            json::law_json_text_unique(
                p,
                q,
                mid + json::json_text(c) + "}"@ + x,
                mid + json::json_text(d) + "}"@ + y,
            );
            lemma_framed_text(mid, c, d, "}"@, x, y);
        },
        (ActionView::NetGet { url: p }, ActionView::NetGet { url: q }) => {
            lemma_framed_text(action_head(a), p, q, "}"@, x, y);
        },
        (ActionView::Exec { cmd: p }, ActionView::Exec { cmd: q }) => {
            lemma_framed_text(action_head(a), p, q, "}"@, x, y);
        },
        _ => {},
    }
}

/// The form of a call tells which call it is, whatever follows.
pub proof fn law_call_form_unique(a: ToolCallView, b: ToolCallView, x: Seq<char>, y: Seq<char>)
    requires
        call_form(a) + x == call_form(b) + y,
    ensures
        a == b,
        x == y,
{
    let head = "{\"action\":"@;
    let mid = ",\"justification_chunks\":"@;
    let after_a = ids_form(a.justification_chunks) + ("}"@ + x);
    let after_b = ids_form(b.justification_chunks) + ("}"@ + y);
    assert(call_form(a) + x =~= head + (action_form(a.action) + (mid + after_a)));
    assert(call_form(b) + y =~= head + (action_form(b.action) + (mid + after_b)));
    lemma_common_head(
        head,
        action_form(a.action) + (mid + after_a),
        action_form(b.action) + (mid + after_b),
    );
    law_action_form_unique(a.action, b.action, mid + after_a, mid + after_b);
    lemma_common_head(mid, after_a, after_b);
    law_ids_form_unique(a.justification_chunks, b.justification_chunks, "}"@ + x, "}"@ + y);
    lemma_common_head("}"@, x, y);
}

/// The form of a decision tells which decision it is, whatever follows.
pub proof fn law_decision_form_unique(
    a: DecisionView,
    b: DecisionView,
    x: Seq<char>,
    y: Seq<char>,
)
    requires
        decision_form(a) + x == decision_form(b) + y,
    ensures
        a == b,
        x == y,
{
    let allow = "{\"verdict\":\"allow\"}"@;
    let deny = "{\"verdict\":\"deny\",\"reason\":"@;
    let escalate = "{\"verdict\":\"escalate\",\"reason\":"@;
    reveal_strlit("{\"verdict\":\"allow\"}");
    reveal_strlit("{\"verdict\":\"deny\",\"reason\":");
    reveal_strlit("{\"verdict\":\"escalate\",\"reason\":");
    let head_a = match a {
        DecisionView::Allow => allow,
        DecisionView::Deny { .. } => deny,
        DecisionView::Escalate { .. } => escalate,
    };
    let head_b = match b {
        DecisionView::Allow => allow,
        DecisionView::Deny { .. } => deny,
        DecisionView::Escalate { .. } => escalate,
    };
    let rest_a = match a {
        DecisionView::Allow => x,
        DecisionView::Deny { reason } => json::json_text(reason) + "}"@ + x,
        DecisionView::Escalate { reason } => json::json_text(reason) + "}"@ + x,
    };
    let rest_b = match b {
        DecisionView::Allow => y,
        DecisionView::Deny { reason } => json::json_text(reason) + "}"@ + y,
        DecisionView::Escalate { reason } => json::json_text(reason) + "}"@ + y,
    };
    assert(decision_form(a) + x =~= head_a + rest_a);
    assert(decision_form(b) + y =~= head_b + rest_b);
    if head_a[12] != head_b[12] {
        lemma_different_heads(head_a, rest_a, head_b, rest_b, 12);
    }
    match (a, b) {
        (DecisionView::Allow, DecisionView::Allow) => {
            lemma_common_head(allow, x, y);
        },
        (DecisionView::Deny { reason: p }, DecisionView::Deny { reason: q }) => {
            lemma_framed_text(deny, p, q, "}"@, x, y);
        },
        (DecisionView::Escalate { reason: p }, DecisionView::Escalate { reason: q }) => {
            lemma_framed_text(escalate, p, q, "}"@, x, y);
        },
        _ => {},
    }
}

/// An action is written with its kind and all of its texts.
pub proof fn law_actions_are_written_whole(action: &Action, form: String)
    requires
        call_ensures(action_json, (action,), form),
    ensures
        match *action {
            Action::FsRead { path } => form@ == "{\"kind\":\"fs_read\",\"path\":"@
                + json::json_text(path@) + "}"@,
            Action::FsWrite { path, content } => form@ == "{\"kind\":\"fs_write\",\"path\":"@
                + json::json_text(path@) + ",\"content\":"@ + json::json_text(content@) + "}"@,
            Action::NetGet { url } => form@ == "{\"kind\":\"net_get\",\"url\":"@
                + json::json_text(url@) + "}"@,
            Action::Exec { cmd } => form@ == "{\"kind\":\"exec\",\"cmd\":"@ + json::json_text(
                cmd@,
            ) + "}"@,
        },
{
}

/// A call is written with its action and all the ids it cites.
pub proof fn law_calls_are_written_whole(call: &ToolCall, form: String)
    requires
        call_ensures(call_json, (call,), form),
    ensures
        form@ == "{\"action\":"@ + action_form(call.action@) + ",\"justification_chunks\":"@ + ("["@
            + text::id_list(call.justification_chunks@, ","@) + "]"@) + "}"@,
{
}

/// A decision is written with its verdict and the whole reason.
pub proof fn law_decisions_are_written_whole(decision: &Decision, form: String)
    requires
        call_ensures(decision_json, (decision,), form),
    ensures
        match *decision {
            Decision::Allow => form@ == "{\"verdict\":\"allow\"}"@,
            Decision::Deny { reason } => form@ == "{\"verdict\":\"deny\",\"reason\":"@
                + json::json_text(reason@) + "}"@,
            Decision::Escalate { reason } => form@ == "{\"verdict\":\"escalate\",\"reason\":"@
                + json::json_text(reason@) + "}"@,
        },
{
}

} // verus!
