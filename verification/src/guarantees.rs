//! What holds of the turns of a run, whatever the model proposes and whatever
//! the tools return.
//!
//! The laws speak of [`crate::orchestrator::play`], turn by turn.
//! [`crate::orchestrator::Session::run`] is held to it by
//! [`crate::orchestrator::ran`], which also says what the model and the executor were
//! asked and told; [`crate::accounts`] states what follows for a whole run.

use crate::audit::{AuditEntryView, AuditEventView};
use crate::clock;
use crate::monitor::{self, DecisionView};
use crate::orchestrator::{self, RunView, SessionEndView, SessionView, Turn};
use crate::provenance::{ChunkView, ProvenanceView};
use crate::text;
use crate::tools::{OutputView, ToolCallView};
use std::time::SystemTime;
use vstd::prelude::*;

verus! {

/// A run only adds: the bundle stays as it is, and everything recorded in the
/// log and everything in the context stays where it is.
pub proof fn law_run_only_adds(s: SessionView, turns: Seq<Turn>)
    ensures
        ({
            let after = orchestrator::play(orchestrator::run_start(s), turns).0.session;
            &&& after.caps == s.caps
            &&& s.audit.is_prefix_of(after.audit)
            &&& s.context.is_prefix_of(after.context)
        }),
    decreases turns.len(),
{
    if turns.len() > 0 {
        law_run_only_adds(s, turns.drop_last());
        let (before, end) = orchestrator::play(orchestrator::run_start(s), turns.drop_last());
        if end is None {
            lemma_turn_only_adds(before, turns.last());
            let after = orchestrator::turn(before, turns.last()).0.session;
            lemma_prefix_chain(s.audit, before.session.audit, after.audit);
            lemma_prefix_chain(s.context, before.session.context, after.context);
        }
    } else {
        lemma_prefix_self(s.audit);
        lemma_prefix_self(s.context);
    }
}

proof fn lemma_prefix_self<T>(a: Seq<T>)
    ensures
        a.is_prefix_of(a),
{
    assert(a =~= a.subrange(0, a.len() as int));
}

pub proof fn lemma_prefix_chain<T>(a: Seq<T>, b: Seq<T>, c: Seq<T>)
    requires
        a.is_prefix_of(b),
        b.is_prefix_of(c),
    ensures
        a.is_prefix_of(c),
{
    assert(a =~= c.subrange(0, a.len() as int)) by {
        assert forall|i: int| 0 <= i < a.len() implies a[i] == c[i] by {
            assert(b.subrange(0, a.len() as int)[i] == b[i]);
            assert(c.subrange(0, b.len() as int)[i] == c[i]);
        }
    }
}

pub proof fn lemma_prefix_index<T>(a: Seq<T>, b: Seq<T>, i: int)
    requires
        a.is_prefix_of(b),
        0 <= i < a.len(),
    ensures
        a[i] == b[i],
{
    assert(b.subrange(0, a.len() as int)[i] == b[i]);
}

pub proof fn lemma_turn_only_adds(r: RunView, t: Turn)
    ensures
        ({
            let after = orchestrator::turn(r, t).0.session;
            &&& after.caps == r.session.caps
            &&& r.session.audit.is_prefix_of(after.audit)
            &&& r.session.context.is_prefix_of(after.context)
        }),
{
    reveal(orchestrator::turn);
    reveal(orchestrator::stepped);
    let after = orchestrator::turn(r, t).0.session;
    assert(r.session.audit =~= after.audit.subrange(0, r.session.audit.len() as int));
    assert(r.session.context =~= after.context.subrange(0, r.session.context.len() as int));
}

/// Every session that ends has its end on record: the last entry of the log is
/// the answer that was returned, or the reason of the halt.
pub proof fn law_end_is_on_record(s: SessionView, turns: Seq<Turn>)
    ensures
        ({
            let (after, end) = orchestrator::play(orchestrator::run_start(s), turns);
            end matches Some(e) ==> {
                &&& after.session.audit.len() > s.audit.len()
                &&& after.session.audit.last().event == orchestrator::end_event(e)
            }
        }),
    decreases turns.len(),
{
    reveal(orchestrator::turn);
    reveal(orchestrator::stepped);
    if turns.len() > 0 {
        law_end_is_on_record(s, turns.drop_last());
        law_run_only_adds(s, turns.drop_last());
    }
}

/// The number of entries of a log that record an allowed call.
pub open spec fn allowed_count(log: Seq<AuditEntryView>) -> nat
    decreases log.len(),
{
    if log.len() == 0 {
        0
    } else {
        allowed_count(log.drop_last()) + (if is_allowed(log.last()) {
            1nat
        } else {
            0
        })
    }
}

/// The entry records an allowed call.
pub open spec fn is_allowed(entry: AuditEntryView) -> bool {
    entry.event matches AuditEventView::Tool { decision, .. } && decision is Allow
}

proof fn lemma_count_push(log: Seq<AuditEntryView>, entry: AuditEntryView)
    ensures
        allowed_count(log.push(entry)) == allowed_count(log) + (if is_allowed(entry) {
            1nat
        } else {
            0
        }),
{
    assert(log.push(entry).drop_last() =~= log);
}

proof fn lemma_turn_count(r: RunView, t: Turn)
    requires
        r.session.calls_made <= r.session.caps.spend.max_tool_calls,
    ensures
        ({
            let after = orchestrator::turn(r, t).0.session;
            &&& after.calls_made <= after.caps.spend.max_tool_calls
            &&& allowed_count(after.audit) - allowed_count(r.session.audit) == after.calls_made
                - r.session.calls_made
        }),
{
    reveal(orchestrator::turn);
    reveal(orchestrator::stepped);
    let (after, end) = orchestrator::turn(r, t);
    match orchestrator::turn_fault(r, t) {
        Some(_) => {
            lemma_count_push(r.session.audit, after.session.audit.last());
        },
        None => match t.step {
            crate::model::ModelStepView::Stop { .. } => {
                lemma_count_push(r.session.audit, after.session.audit.last());
            },
            crate::model::ModelStepView::Call(call) => {
                let judged = orchestrator::judged(r.session, t.decided_at, call);
                lemma_count_push(r.session.audit, judged.audit.last());
                if end is Some {
                    lemma_count_push(judged.audit, after.session.audit.last());
                }
            },
        },
    }
}

/// The tool-call budget is a hard ceiling: the spend counter never exceeds it,
/// and it counts exactly the allowed calls on record.
pub proof fn law_budget_is_a_ceiling(s: SessionView, turns: Seq<Turn>)
    requires
        s.calls_made <= s.caps.spend.max_tool_calls,
    ensures
        ({
            let after = orchestrator::play(orchestrator::run_start(s), turns).0.session;
            &&& after.calls_made <= s.caps.spend.max_tool_calls
            &&& allowed_count(after.audit) - allowed_count(s.audit) == after.calls_made
                - s.calls_made
        }),
    decreases turns.len(),
{
    if turns.len() > 0 {
        law_budget_is_a_ceiling(s, turns.drop_last());
        law_run_only_adds(s, turns.drop_last());
        let (before, end) = orchestrator::play(orchestrator::run_start(s), turns.drop_last());
        if end is None {
            lemma_turn_count(before, turns.last());
            lemma_turn_only_adds(before, turns.last());
        }
    }
}

/// A run cannot go on: it takes at most as many model steps as the bundle
/// permits, and it has ended after one turn more.
pub proof fn law_steps_are_bounded(s: SessionView, turns: Seq<Turn>)
    ensures
        ({
            let (after, end) = orchestrator::play(orchestrator::run_start(s), turns);
            &&& after.steps <= s.caps.spend.max_steps
            &&& end is None ==> turns.len() == after.steps
            &&& turns.len() > s.caps.spend.max_steps ==> end is Some
        }),
    decreases turns.len(),
{
    reveal(orchestrator::turn);
    reveal(orchestrator::stepped);
    if turns.len() > 0 {
        law_steps_are_bounded(s, turns.drop_last());
        law_run_only_adds(s, turns.drop_last());
    }
}

/// A run that has used up the wall clock halts before the model is asked
/// again, and says so.
pub proof fn law_wall_clock_halts(r: RunView, t: Turn)
    requires
        clock::whole_nanos(t.elapsed) > r.session.caps.spend.max_wall_seconds
            * 1_000_000_000,
    ensures
        orchestrator::turn(r, t).1 == Some(
            SessionEndView::Halted {
                reason: "wall-clock budget exhausted ("@ + text::decimal(
                    r.session.caps.spend.max_wall_seconds as nat,
                ) + "s)"@,
            },
        ),
        orchestrator::turn_exchanges(r, t).len() == 0,
        orchestrator::turn_executions(r, t).len() == 0,
{
    orchestrator::lemma_faulty_turn(r, t);
}

/// A run that has used up its steps halts before the model is asked again, and
/// says so.
pub proof fn law_step_budget_halts(r: RunView, t: Turn)
    requires
        clock::whole_nanos(t.elapsed) <= r.session.caps.spend.max_wall_seconds
            * 1_000_000_000,
        r.steps >= r.session.caps.spend.max_steps,
    ensures
        orchestrator::turn(r, t).1 == Some(
            SessionEndView::Halted {
                reason: "step budget exhausted ("@ + text::decimal(
                    r.session.caps.spend.max_steps as nat,
                ) + " steps)"@,
            },
        ),
        orchestrator::turn_exchanges(r, t).len() == 0,
        orchestrator::turn_executions(r, t).len() == 0,
{
    orchestrator::lemma_faulty_turn(r, t);
}

/// A denial that reaches the limit of denials in a row halts the session, and
/// the reason says how many there were and why the last one came.
pub proof fn law_denial_limit_halts(r: RunView, t: Turn, reason: Seq<char>)
    requires
        orchestrator::turn_fault(r, t) is None,
        t.step is Call,
        orchestrator::decision_on(r.session, t.step->Call_0) == (DecisionView::Deny { reason }),
        r.denials < u32::MAX,
        r.denials + 1 >= r.session.caps.spend.max_consecutive_denials,
    ensures
        orchestrator::turn(r, t).1 == Some(
            SessionEndView::Halted {
                reason: text::decimal((r.denials + 1) as nat)
                    + " consecutive denials reached; last reason: "@ + reason,
            },
        ),
{
    orchestrator::lemma_turn_after_step(r, t);
}

/// The number of denials at the end of a log, counting back to position
/// `from`.
pub open spec fn trailing_denials(log: Seq<AuditEntryView>, from: nat) -> nat
    decreases log.len(),
{
    if log.len() <= from {
        0
    } else if log.last().event matches AuditEventView::Tool { decision, .. } && decision is Deny {
        trailing_denials(log.drop_last(), from) + 1
    } else {
        0
    }
}

/// The most denials that may come in a row.
pub open spec fn denial_limit(s: SessionView) -> nat {
    if s.caps.spend.max_consecutive_denials > 1 {
        s.caps.spend.max_consecutive_denials as nat
    } else {
        1
    }
}

/// Denial loops are bounded: as long as a run goes on, its counter is the
/// number of denials in a row that are on record since the run started, and
/// that number is below the limit of the bundle. At no point of the log is it
/// above the limit, or above one where the limit is 0.
pub proof fn law_denials_are_bounded(s: SessionView, turns: Seq<Turn>, m: int)
    ensures
        ({
            let (after, end) = orchestrator::play(orchestrator::run_start(s), turns);
            &&& after.denials <= after.steps
            &&& end is None ==> {
                &&& after.denials == trailing_denials(after.session.audit, s.audit.len())
                &&& after.denials > 0 ==> after.denials < s.caps.spend.max_consecutive_denials
            }
            &&& s.audit.len() <= m <= after.session.audit.len() ==> trailing_denials(
                after.session.audit.take(m),
                s.audit.len(),
            ) <= denial_limit(s)
        }),
    decreases turns.len(),
{
    let n = s.audit.len();
    let start = orchestrator::run_start(s);
    if turns.len() > 0 {
        law_denials_are_bounded(s, turns.drop_last(), m);
        law_steps_are_bounded(s, turns.drop_last());
        law_run_only_adds(s, turns.drop_last());
        let (before, end) = orchestrator::play(start, turns.drop_last());
        let t = turns.last();
        if end is None {
            let (after, stop) = orchestrator::turn(before, t);
            let log = before.session.audit;
            let longer = after.session.audit;
            if orchestrator::turn_fault(before, t) is Some {
                orchestrator::lemma_faulty_turn(before, t);
            } else {
                orchestrator::lemma_turn_after_step(before, t);
            }
            if n <= m <= longer.len() {
                if m <= log.len() {
                    assert(longer.take(m) =~= log.take(m));
                } else {
                    assert(longer.take(log.len() as int + 1).drop_last() =~= log);
                    if m == log.len() + 2 {
                        assert(longer.take(m).last() == longer.last());
                    } else {
                        assert(m == log.len() + 1);
                        assert(longer.take(m).last() == longer[log.len() as int]);
                    }
                }
            }
            if stop is None {
                assert(longer.drop_last() =~= log);
            }
        }
    } else if n <= m <= s.audit.len() {
        assert(s.audit.take(m) =~= s.audit);
    }
}

/// The policy allows `call` with some number of calls made and with some
/// earlier stage of `context`, no shorter than `from`.
pub open spec fn was_permitted(
    caps: crate::capability::Capabilities,
    context: Seq<ChunkView>,
    from: nat,
    call: ToolCallView,
) -> bool {
    exists|n: int, made: u32|
        from <= n <= context.len() && (#[trigger] monitor::policy(
            caps,
            made,
            call,
            context.take(n),
        )) is Allow
}

/// The harness, not the model, decides what executes: every call that a run
/// has on record as allowed was allowed by the policy, given the context as it
/// stood at that moment.
pub proof fn law_every_allowed_call_was_permitted(s: SessionView, turns: Seq<Turn>, j: int)
    requires
        s.audit.len() <= j,
        j < orchestrator::play(orchestrator::run_start(s), turns).0.session.audit.len(),
        is_allowed(orchestrator::play(orchestrator::run_start(s), turns).0.session.audit[j]),
    ensures
        ({
            let after = orchestrator::play(orchestrator::run_start(s), turns).0.session;
            after.audit[j].event matches AuditEventView::Tool { call, .. } && was_permitted(
                s.caps,
                after.context,
                s.context.len(),
                call,
            )
        }),
    decreases turns.len(),
{
    reveal(orchestrator::turn);
    reveal(orchestrator::stepped);
    if turns.len() > 0 {
        law_run_only_adds(s, turns.drop_last());
        let (before, end) = orchestrator::play(orchestrator::run_start(s), turns.drop_last());
        let t = turns.last();
        if end is Some {
            law_every_allowed_call_was_permitted(s, turns.drop_last(), j);
        } else {
            let (after, stop) = orchestrator::turn(before, t);
            lemma_turn_only_adds(before, t);
            if j < before.session.audit.len() {
                lemma_prefix_index(before.session.audit, after.session.audit, j);
                law_every_allowed_call_was_permitted(s, turns.drop_last(), j);
                match before.session.audit[j].event {
                    AuditEventView::Tool { call, .. } => {
                        let (n, made) = choose|n: int, made: u32|
                            s.context.len() <= n <= before.session.context.len() && (
                            #[trigger] monitor::policy(
                                s.caps,
                                made,
                                call,
                                before.session.context.take(n),
                            )) is Allow;
                        assert forall|i: int| 0 <= i < n implies before.session.context[i]
                            == after.session.context[i] by {
                            lemma_prefix_index(before.session.context, after.session.context, i);
                        }
                        assert(before.session.context.take(n) =~= after.session.context.take(n));
                        assert(monitor::policy(s.caps, made, call, after.session.context.take(n))
                            is Allow);
                    },
                    _ => {},
                }
            } else {
                match t.step {
                    crate::model::ModelStepView::Call(call) => {
                        let judged = orchestrator::judged(before.session, t.decided_at, call);
                        assert(judged.audit[before.session.audit.len() as int].event
                            == AuditEventView::Tool {
                            call,
                            decision: orchestrator::decision_on(before.session, call),
                        });
                        assert(j == before.session.audit.len());
                        let n = before.session.context.len() as int;
                        assert(after.session.context.take(n) =~= before.session.context);
                        assert(monitor::policy(
                            s.caps,
                            before.session.calls_made,
                            call,
                            after.session.context.take(n),
                        ) is Allow);
                    },
                    _ => {},
                }
            }
        }
    }
}

/// The chunk that a lookup finds is in the context and has the id asked for.
pub proof fn lemma_found_chunk(context: Seq<ChunkView>, id: u64) -> (i: int)
    requires
        monitor::find_chunk(context, id) is Some,
    ensures
        0 <= i < context.len(),
        context[i].id == id,
        monitor::find_chunk(context, id) == Some(context[i]),
    decreases context.len(),
{
    if context[0].id == id {
        0
    } else {
        let k = lemma_found_chunk(context.drop_first(), id);
        assert(context.drop_first()[k] == context[k + 1]);
        k + 1
    }
}

/// Every proposal is on record, whatever becomes of it: as long as no budget is
/// exhausted, a proposed call and the decision on it are the next entry of the
/// log.
pub proof fn law_every_proposal_is_on_record(r: RunView, t: Turn, call: ToolCallView)
    requires
        orchestrator::turn_fault(r, t) is None,
        t.step == crate::model::ModelStepView::Call(call),
    ensures
        ({
            let after = orchestrator::turn(r, t).0.session;
            let n = r.session.audit.len();
            &&& after.audit.len() > n
            &&& after.audit[n as int].event == (AuditEventView::Tool {
                call,
                decision: orchestrator::decision_on(r.session, call),
            })
        }),
{
    reveal(orchestrator::turn);
    reveal(orchestrator::stepped);
    let judged = orchestrator::judged(r.session, t.decided_at, call);
    assert(judged.audit[r.session.audit.len() as int] == judged.audit.last());
}

/// The monitor is always asked: unless it allows the proposed call, no output
/// of the executor has any part in the turn.
pub proof fn law_refused_calls_bring_no_output(r: RunView, t: Turn, other: OutputView)
    requires
        !(t.step is Call && orchestrator::decision_on(r.session, t.step->Call_0) is Allow),
    ensures
        orchestrator::turn(r, t) == orchestrator::turn(r, (Turn { output: other, ..t })),
{
    reveal(orchestrator::turn);
    reveal(orchestrator::stepped);
}

/// A denial cannot be turned into authority: a call whose class requires user
/// intent is denied if it cites the notice that a denial added to the context.
pub proof fn law_denial_notice_authorizes_nothing(
    s: SessionView,
    at: SystemTime,
    denied: ToolCallView,
    reason: Seq<char>,
    retry: ToolCallView,
    k: int,
)
    requires
        orchestrator::ids_are_positions(s.context),
        s.context.len() <= u64::MAX,
        orchestrator::decision_on(s, denied) == (DecisionView::Deny { reason }),
        s.caps.require_user_intent@.contains(retry.action.class()),
        0 <= k < retry.justification_chunks.len(),
        retry.justification_chunks[k] == s.context.len(),
    ensures
        orchestrator::decision_on(
            orchestrator::with_chunk(
                orchestrator::judged(s, at, denied),
                ProvenanceView::Monitor,
                orchestrator::denial_note(reason),
            ),
            retry,
        ) is Deny,
{
    let after = orchestrator::with_chunk(
        orchestrator::judged(s, at, denied),
        ProvenanceView::Monitor,
        orchestrator::denial_note(reason),
    );
    let id = retry.justification_chunks[k];
    if monitor::find_chunk(after.context, id) is Some {
        let i = lemma_found_chunk(after.context, id);
        if i < s.context.len() {
            assert(after.context[i] == s.context[i]);
            assert(s.context[i].id == i);
        }
    }
    monitor::law_untrusted_citation_is_denied(
        after.caps,
        after.calls_made,
        retry,
        after.context,
        k,
    );
}

/// After a denial the session goes on, so that the model can recover: unless
/// the limit of denials in a row is reached, the run has not ended, the model
/// finds the reason in its context, and nothing was executed.
pub proof fn law_denial_lets_the_session_go_on(r: RunView, t: Turn, reason: Seq<char>)
    requires
        orchestrator::turn_fault(r, t) is None,
        t.step is Call,
        orchestrator::decision_on(r.session, t.step->Call_0) == (DecisionView::Deny { reason }),
        r.denials < u32::MAX,
        r.denials + 1 < r.session.caps.spend.max_consecutive_denials,
    ensures
        orchestrator::turn(r, t).1 is None,
        orchestrator::turn(r, t).0.session.calls_made == r.session.calls_made,
        orchestrator::turn(r, t).0.session.context.len() == r.session.context.len() + 1,
        orchestrator::turn(r, t).0.session.context.last().content == orchestrator::denial_note(
            reason,
        ),
        orchestrator::turn(r, t).0.session.context.last().content
            == "[monitor denied last call: "@ + reason + "]"@,
        orchestrator::turn(r, t).0.session.context.last().provenance is Monitor,
{
    reveal(orchestrator::turn);
    reveal(orchestrator::stepped);
}

/// An escalation halts the session and names what has to be confirmed; nothing
/// is executed.
pub proof fn law_escalation_halts(r: RunView, t: Turn, reason: Seq<char>)
    requires
        orchestrator::turn_fault(r, t) is None,
        t.step is Call,
        orchestrator::decision_on(r.session, t.step->Call_0) == (DecisionView::Escalate {
            reason,
        }),
    ensures
        orchestrator::turn(r, t).1 == Some(
            SessionEndView::Halted { reason: orchestrator::escalation_reason(reason) },
        ),
        orchestrator::turn(r, t).1 == Some(
            SessionEndView::Halted { reason: "escalation required: "@ + reason },
        ),
        orchestrator::turn(r, t).0.session.calls_made == r.session.calls_made,
        orchestrator::turn(r, t).0.session.context == r.session.context,
{
    reveal(orchestrator::turn);
    reveal(orchestrator::stepped);
}

} // verus!
