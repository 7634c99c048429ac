//! How a run is accounted for.
//!
//! The audit log, the exchanges with the model, the work of the executor and
//! the context tell the same story. What the model proposed is what is on
//! record; what was executed is what is on record as allowed; what the model
//! was told is what was refused and what was added to the context; and the
//! context grew by exactly the outputs of the executed calls and the notices
//! of the denials.

use crate::audit::{AuditEntryView, AuditEventView};
use crate::clock;
use crate::guarantees;
use crate::model;
use crate::model::{Exchange, ModelStepView};
use crate::monitor::{self, Approval, DecisionView};
use crate::orchestrator::{self, RunView, SessionEndView, SessionView, Turn};
use crate::provenance::{ChunkView, ProvenanceView};
use crate::text;
use crate::tools::{ActionView, OutputView, ToolCallView};
use std::time::Duration;
use vstd::prelude::*;

verus! {

/// The calls that a log has decisions on, in order.
pub open spec fn recorded_calls(log: Seq<AuditEntryView>) -> Seq<ToolCallView>
    decreases log.len(),
{
    if log.len() == 0 {
        Seq::empty()
    } else {
        match log.last().event {
            AuditEventView::Tool { call, .. } => recorded_calls(log.drop_last()).push(call),
            _ => recorded_calls(log.drop_last()),
        }
    }
}

/// The calls that a log has on record as allowed, in order.
pub open spec fn allowed_calls(log: Seq<AuditEntryView>) -> Seq<ToolCallView>
    decreases log.len(),
{
    if log.len() == 0 {
        Seq::empty()
    } else {
        match log.last().event {
            AuditEventView::Tool { call, decision: DecisionView::Allow } => allowed_calls(
                log.drop_last(),
            ).push(call),
            _ => allowed_calls(log.drop_last()),
        }
    }
}

/// The calls that a log has on record as denied or escalated, in order, each
/// with the reason.
pub open spec fn refused_calls(log: Seq<AuditEntryView>) -> Seq<(ToolCallView, Seq<char>)>
    decreases log.len(),
{
    if log.len() == 0 {
        Seq::empty()
    } else {
        match log.last().event {
            AuditEventView::Tool { call, decision: DecisionView::Deny { reason } } => refused_calls(
                log.drop_last(),
            ).push((call, reason)),
            AuditEventView::Tool {
                call,
                decision: DecisionView::Escalate { reason },
            } => refused_calls(log.drop_last()).push((call, reason)),
            _ => refused_calls(log.drop_last()),
        }
    }
}

/// How often the model was asked for a step.
pub open spec fn times_asked(said: Seq<Exchange>) -> nat
    decreases said.len(),
{
    if said.len() == 0 {
        0
    } else {
        times_asked(said.drop_last()) + (if said.last() is Proposed {
            1nat
        } else {
            0
        })
    }
}

/// The calls that the model proposed, in order.
pub open spec fn proposed_calls(said: Seq<Exchange>) -> Seq<ToolCallView>
    decreases said.len(),
{
    if said.len() == 0 {
        Seq::empty()
    } else {
        match said.last() {
            Exchange::Proposed { step: ModelStepView::Call(call), .. } => proposed_calls(
                said.drop_last(),
            ).push(call),
            _ => proposed_calls(said.drop_last()),
        }
    }
}

/// The chunks that the model was told of, in order.
pub open spec fn told_chunks(said: Seq<Exchange>) -> Seq<ChunkView>
    decreases said.len(),
{
    if said.len() == 0 {
        Seq::empty()
    } else {
        match said.last() {
            Exchange::ToldChunk(chunk) => told_chunks(said.drop_last()).push(chunk),
            _ => told_chunks(said.drop_last()),
        }
    }
}

/// The denials and escalations that the model was told of, in order.
pub open spec fn told_denials(said: Seq<Exchange>) -> Seq<(ToolCallView, Seq<char>)>
    decreases said.len(),
{
    if said.len() == 0 {
        Seq::empty()
    } else {
        match said.last() {
            Exchange::ToldDenial { call, reason } => told_denials(said.drop_last()).push(
                (call, reason),
            ),
            _ => told_denials(said.drop_last()),
        }
    }
}

/// The calls that were executed, in order.
pub open spec fn executed_calls(done: Seq<(Approval, OutputView)>) -> Seq<ToolCallView> {
    Seq::new(done.len(), |i: int| done[i].0.call)
}

/// The chunks that go with the entries of a log, where `done` holds what was
/// executed and returned for the allowed calls among them. An allowed call
/// brings its output, tagged as the executor says or else with the tool and the
/// number of the call; a denial brings its notice; nothing else brings a chunk.
pub open spec fn chunks_due(
    s: SessionView,
    log: Seq<AuditEntryView>,
    done: Seq<(Approval, OutputView)>,
) -> Seq<ChunkView>
    decreases log.len(),
{
    if log.len() == 0 {
        Seq::empty()
    } else {
        let earlier = log.drop_last();
        let front = chunks_due(s, earlier, done);
        let id = (s.context.len() + front.len()) as u64;
        match log.last().event {
            AuditEventView::Tool { call, decision: DecisionView::Allow } => {
                let k = allowed_calls(earlier).len();
                let output = done[k as int].1;
                front.push(
                    ChunkView {
                        id,
                        provenance: orchestrator::output_provenance(
                            call.action.class(),
                            (s.calls_made + k) as u64,
                            output,
                        ),
                        content: output.content,
                    },
                )
            },
            AuditEventView::Tool { decision: DecisionView::Deny { reason }, .. } => front.push(
                ChunkView {
                    id,
                    provenance: ProvenanceView::Monitor,
                    content: orchestrator::denial_note(reason),
                },
            ),
            _ => front,
        }
    }
}

/// The entries that a run added to the log.
pub open spec fn new_entries(before: SessionView, after: SessionView) -> Seq<AuditEntryView> {
    after.audit.skip(before.audit.len() as int)
}

/// The log, the exchanges, the executions and the context account for each
/// other.
pub open spec fn accounted(
    before: SessionView,
    after: SessionView,
    said: Seq<Exchange>,
    done: Seq<(Approval, OutputView)>,
) -> bool {
    let log = new_entries(before, after);
    &&& proposed_calls(said) == recorded_calls(log)
    &&& executed_calls(done) == allowed_calls(log)
    &&& told_denials(said) == refused_calls(log)
    &&& told_chunks(said) == after.context.skip(before.context.len() as int)
    &&& after.context == before.context + chunks_due(before, log, done)
    &&& after.calls_made == before.calls_made + done.len()
    &&& forall|k: int|
        0 <= k < done.len() ==> (#[trigger] done[k]).0.granted() && done[k].0.caps == before.caps
}

proof fn lemma_log_push(
    s: SessionView,
    log: Seq<AuditEntryView>,
    entry: AuditEntryView,
    done: Seq<(Approval, OutputView)>,
)
    ensures
        ({
            let next = log.push(entry);
            let front = chunks_due(s, log, done);
            let id = (s.context.len() + front.len()) as u64;
            match entry.event {
                AuditEventView::Tool { call, decision } => {
                    &&& recorded_calls(next) == recorded_calls(log).push(call)
                    &&& match decision {
                        DecisionView::Allow => {
                            let k = allowed_calls(log).len();
                            &&& allowed_calls(next) == allowed_calls(log).push(call)
                            &&& refused_calls(next) == refused_calls(log)
                            &&& chunks_due(s, next, done) == front.push(
                                ChunkView {
                                    id,
                                    provenance: orchestrator::output_provenance(
                                        call.action.class(),
                                        (s.calls_made + k) as u64,
                                        done[k as int].1,
                                    ),
                                    content: done[k as int].1.content,
                                },
                            )
                        },
                        DecisionView::Deny { reason } => {
                            &&& allowed_calls(next) == allowed_calls(log)
                            &&& refused_calls(next) == refused_calls(log).push((call, reason))
                            &&& chunks_due(s, next, done) == front.push(
                                ChunkView {
                                    id,
                                    provenance: ProvenanceView::Monitor,
                                    content: orchestrator::denial_note(reason),
                                },
                            )
                        },
                        DecisionView::Escalate { reason } => {
                            &&& allowed_calls(next) == allowed_calls(log)
                            &&& refused_calls(next) == refused_calls(log).push((call, reason))
                            &&& chunks_due(s, next, done) == front
                        },
                    }
                },
                _ => {
                    &&& recorded_calls(next) == recorded_calls(log)
                    &&& allowed_calls(next) == allowed_calls(log)
                    &&& refused_calls(next) == refused_calls(log)
                    &&& chunks_due(s, next, done) == front
                },
            }
        }),
{
    assert(log.push(entry).drop_last() =~= log);
}

proof fn lemma_said_push(said: Seq<Exchange>, x: Exchange)
    ensures
        ({
            let next = said.push(x);
            &&& times_asked(next) == times_asked(said) + (if x is Proposed {
                1nat
            } else {
                0
            })
            &&& match x {
                Exchange::Proposed { step, .. } => {
                    &&& proposed_calls(next) == match step {
                        ModelStepView::Call(call) => proposed_calls(said).push(call),
                        _ => proposed_calls(said),
                    }
                    &&& told_chunks(next) == told_chunks(said)
                    &&& told_denials(next) == told_denials(said)
                },
                Exchange::ToldChunk(chunk) => {
                    &&& proposed_calls(next) == proposed_calls(said)
                    &&& told_chunks(next) == told_chunks(said).push(chunk)
                    &&& told_denials(next) == told_denials(said)
                },
                Exchange::ToldDenial { call, reason } => {
                    &&& proposed_calls(next) == proposed_calls(said)
                    &&& told_chunks(next) == told_chunks(said)
                    &&& told_denials(next) == told_denials(said).push((call, reason))
                },
            }
        }),
{
    assert(said.push(x).drop_last() =~= said);
}

/// Only as many outputs matter as there are allowed calls.
proof fn lemma_chunks_due_early(
    s: SessionView,
    log: Seq<AuditEntryView>,
    done: Seq<(Approval, OutputView)>,
    more: (Approval, OutputView),
)
    requires
        allowed_calls(log).len() <= done.len(),
    ensures
        chunks_due(s, log, done.push(more)) == chunks_due(s, log, done),
    decreases log.len(),
{
    if log.len() > 0 {
        let earlier = log.drop_last();
        let k = allowed_calls(earlier).len() as int;
        lemma_chunks_due_early(s, earlier, done, more);
        if k < done.len() {
            assert(done.push(more)[k] == done[k]);
        }
    }
}

proof fn lemma_turn_account(
    s: SessionView,
    r: RunView,
    t: Turn,
    said: Seq<Exchange>,
    done: Seq<(Approval, OutputView)>,
)
    requires
        accounted(s, r.session, said, done),
        times_asked(said) == r.steps,
        r.session.caps == s.caps,
        r.session.audit.len() >= s.audit.len(),
        r.session.context.len() >= s.context.len(),
    ensures
        ({
            let after = orchestrator::turn(r, t).0;
            let said_after = said + orchestrator::turn_exchanges(r, t);
            &&& accounted(
                s,
                after.session,
                said_after,
                done + orchestrator::turn_executions(r, t),
            )
            &&& times_asked(said_after) == after.steps
        }),
{
    let log = new_entries(s, r.session);
    let n = s.audit.len() as int;
    let m = s.context.len() as int;
    let after = orchestrator::turn(r, t).0;
    let said_after = said + orchestrator::turn_exchanges(r, t);
    let done_after = done + orchestrator::turn_executions(r, t);
    if orchestrator::turn_fault(r, t) is Some {
        orchestrator::lemma_faulty_turn(r, t);
        let entry = after.session.audit.last();
        lemma_log_push(s, log, entry, done);
        assert(new_entries(s, after.session) =~= log.push(entry));
        assert(said_after =~= said);
        assert(done_after =~= done);
    } else {
        orchestrator::lemma_turn_after_step(r, t);
        let asked = Exchange::Proposed { context: r.session.context, step: t.step };
        lemma_said_push(said, asked);
        match t.step {
            ModelStepView::Stop { .. } => {
                let entry = after.session.audit.last();
                lemma_log_push(s, log, entry, done);
                assert(new_entries(s, after.session) =~= log.push(entry));
                assert(said_after =~= said.push(asked));
                assert(done_after =~= done);
            },
            ModelStepView::Call(call) => {
                let judged = orchestrator::judged(r.session, t.decided_at, call);
                let entry = judged.audit.last();
                assert(new_entries(s, judged) =~= log.push(entry));
                match orchestrator::decision_on(r.session, call) {
                    DecisionView::Allow => {
                        let chunk = after.session.context.last();
                        let approval = Approval {
                            caps: r.session.caps,
                            calls_made: r.session.calls_made,
                            call,
                            context: r.session.context,
                        };
                        let more = (approval, t.output);
                        monitor::law_allowed_exactly_when(
                            r.session.caps,
                            r.session.calls_made,
                            call,
                            r.session.context,
                        );
                        assert(allowed_calls(log).len() == done.len());
                        lemma_chunks_due_early(s, log, done, more);
                        lemma_log_push(s, log, entry, done.push(more));
                        lemma_said_push(said.push(asked), Exchange::ToldChunk(chunk));
                        assert(said_after =~= said.push(asked).push(Exchange::ToldChunk(chunk)));
                        assert(done_after =~= done.push(more));
                        assert(executed_calls(done_after) =~= executed_calls(done).push(call));
                        assert(after.session.context =~= s.context + chunks_due(
                            s,
                            log.push(entry),
                            done_after,
                        ));
                        assert(after.session.context.skip(m) =~= r.session.context.skip(m).push(
                            chunk,
                        ));
                    },
                    DecisionView::Deny { reason } => {
                        let chunk = after.session.context.last();
                        let notice = Exchange::ToldDenial { call, reason };
                        lemma_log_push(s, log, entry, done);
                        lemma_said_push(said.push(asked), notice);
                        lemma_said_push(said.push(asked).push(notice), Exchange::ToldChunk(chunk));
                        assert(said_after =~= said.push(asked).push(notice).push(
                            Exchange::ToldChunk(chunk),
                        ));
                        assert(done_after =~= done);
                        assert(after.session.context.skip(m) =~= r.session.context.skip(m).push(
                            chunk,
                        ));
                        assert(after.session.context =~= s.context + chunks_due(
                            s,
                            log.push(entry),
                            done,
                        ));
                        if orchestrator::turn(r, t).1 is Some {
                            let last = after.session.audit.last();
                            lemma_log_push(s, log.push(entry), last, done);
                            assert(new_entries(s, after.session) =~= log.push(entry).push(last));
                        } else {
                            assert(new_entries(s, after.session) =~= log.push(entry));
                        }
                    },
                    DecisionView::Escalate { reason } => {
                        let notice = Exchange::ToldDenial { call, reason };
                        let last = after.session.audit.last();
                        lemma_log_push(s, log, entry, done);
                        lemma_log_push(s, log.push(entry), last, done);
                        lemma_said_push(said.push(asked), notice);
                        assert(said_after =~= said.push(asked).push(notice));
                        assert(done_after =~= done);
                        assert(new_entries(s, after.session) =~= log.push(entry).push(last));
                    },
                }
            },
        }
    }
}

proof fn lemma_play_account(s: SessionView, turns: Seq<Turn>)
    ensures
        ({
            let start = orchestrator::run_start(s);
            let after = orchestrator::play(start, turns).0;
            let said = orchestrator::exchanged(start, turns);
            &&& accounted(s, after.session, said, orchestrator::executed(start, turns))
            &&& times_asked(said) == after.steps
        }),
    decreases turns.len(),
{
    let start = orchestrator::run_start(s);
    if turns.len() > 0 {
        let front = turns.drop_last();
        let (before, end) = orchestrator::play(start, front);
        lemma_play_account(s, front);
        if end is None {
            guarantees::law_run_only_adds(s, front);
            lemma_turn_account(
                s,
                before,
                turns.last(),
                orchestrator::exchanged(start, front),
                orchestrator::executed(start, front),
            );
        }
    } else {
        assert(new_entries(s, s) =~= Seq::empty());
        assert(s.context.skip(s.context.len() as int) =~= Seq::empty());
        assert(s.context =~= s.context + chunks_due(s, new_entries(s, s), Seq::empty()));
        assert(executed_calls(Seq::empty()) =~= Seq::empty());
    }
}

/// A run is accounted for: it only adds, its end is the last entry of the log,
/// and the log, the exchanges with the model, the executions and the context
/// tell the same story.
///
/// In particular, every call that the model proposed is on record exactly once
/// and in the order proposed; the calls that were executed are those on record
/// as allowed, in their order, each under an approval that the policy grants;
/// the model was told of every denial and every escalation, and of every new
/// chunk, once; and the context grew by the outputs of the executed calls and
/// the notices of the denials alone.
pub proof fn law_run_is_accounted_for(
    before: SessionView,
    after: SessionView,
    end: SessionEndView,
    said: Seq<Exchange>,
    done: Seq<(Approval, OutputView)>,
    times: Seq<Duration>,
)
    requires
        orchestrator::ran(before, after, end, said, done, times),
    ensures
        after.caps == before.caps,
        before.audit.is_prefix_of(after.audit),
        before.context.is_prefix_of(after.context),
        after.audit.len() > before.audit.len(),
        after.audit.last().event == orchestrator::end_event(end),
        after.audit.last().event == match end {
            SessionEndView::Answer(text) => AuditEventView::Answer { text },
            SessionEndView::Halted { reason } => AuditEventView::Halt { reason },
        },
        accounted(before, after, said, done),
{
    let turns = orchestrator::lemma_turns_of(before, after, end, said, done, times);
    guarantees::law_run_only_adds(before, turns);
    guarantees::law_end_is_on_record(before, turns);
    lemma_play_account(before, turns);
}

/// A run is bounded in every dimension of the bundle: the model is asked at
/// most `max_steps` times; no more calls are executed than the budget has left;
/// and at no point of the log have more denials come in a row than the limit,
/// or than one where the limit is 0.
pub proof fn law_run_is_bounded(
    before: SessionView,
    after: SessionView,
    end: SessionEndView,
    said: Seq<Exchange>,
    done: Seq<(Approval, OutputView)>,
    times: Seq<Duration>,
    m: int,
)
    requires
        orchestrator::ran(before, after, end, said, done, times),
        before.calls_made <= before.caps.spend.max_tool_calls,
        before.audit.len() <= m <= after.audit.len(),
    ensures
        times_asked(said) <= before.caps.spend.max_steps,
        done.len() <= before.caps.spend.max_tool_calls - before.calls_made,
        guarantees::trailing_denials(after.audit.take(m), before.audit.len())
            <= guarantees::denial_limit(before),
{
    let turns = orchestrator::lemma_turns_of(before, after, end, said, done, times);
    guarantees::law_steps_are_bounded(before, turns);
    guarantees::law_budget_is_a_ceiling(before, turns);
    guarantees::law_denials_are_bounded(before, turns, m);
    lemma_play_account(before, turns);
}

/// A run that goes on has counted every turn, and went on after each.
proof fn lemma_run_goes_on(s: SessionView, turns: Seq<Turn>, j: int)
    requires
        orchestrator::play(orchestrator::run_start(s), turns).1 is None,
        0 <= j <= turns.len(),
    ensures
        orchestrator::play(orchestrator::run_start(s), turns).0.steps == turns.len(),
        orchestrator::play(orchestrator::run_start(s), turns).0.session.caps == s.caps,
        orchestrator::play(orchestrator::run_start(s), turns.take(j)).1 is None,
    decreases turns.len(),
{
    let start = orchestrator::run_start(s);
    guarantees::law_run_only_adds(s, turns);
    if turns.len() > 0 {
        let front = turns.drop_last();
        let before = orchestrator::play(start, front).0;
        if j < turns.len() {
            lemma_run_goes_on(s, front, j);
            assert(front.take(j) =~= turns.take(j));
        } else {
            lemma_run_goes_on(s, front, front.len() as int);
            assert(turns.take(j) =~= turns);
        }
        if orchestrator::turn_fault(before, turns.last()) is Some {
            orchestrator::lemma_faulty_turn(before, turns.last());
        } else {
            orchestrator::lemma_turn_after_step(before, turns.last());
        }
    }
}

/// The clock is read in every turn: once before each time the model is asked,
/// and at most once more, in a turn that ends the run before the model is
/// asked.
pub proof fn law_every_turn_reads_the_clock(
    before: SessionView,
    after: SessionView,
    end: SessionEndView,
    said: Seq<Exchange>,
    done: Seq<(Approval, OutputView)>,
    times: Seq<Duration>,
)
    requires
        orchestrator::ran(before, after, end, said, done, times),
    ensures
        0 < times.len(),
        times_asked(said) <= times.len() <= times_asked(said) + 1,
{
    let turns = orchestrator::lemma_turns_of(before, after, end, said, done, times);
    let start = orchestrator::run_start(before);
    let front = turns.drop_last();
    let last = orchestrator::play(start, front).0;
    lemma_run_goes_on(before, front, 0);
    lemma_play_account(before, turns);
    if orchestrator::turn_fault(last, turns.last()) is Some {
        orchestrator::lemma_faulty_turn(last, turns.last());
    } else {
        orchestrator::lemma_turn_after_step(last, turns.last());
    }
}

/// The wall clock is watched: a reading above the limit of the bundle is the
/// last one of the run; the model is not asked after it; and the run ends with
/// the wall-clock halt.
pub proof fn law_clock_is_watched(
    before: SessionView,
    after: SessionView,
    end: SessionEndView,
    said: Seq<Exchange>,
    done: Seq<(Approval, OutputView)>,
    times: Seq<Duration>,
    i: int,
)
    requires
        orchestrator::ran(before, after, end, said, done, times),
        0 <= i < times.len(),
        clock::whole_nanos(times[i]) > before.caps.spend.max_wall_seconds * 1_000_000_000,
    ensures
        i == times.len() - 1,
        times_asked(said) == i,
        end == (SessionEndView::Halted {
            reason: "wall-clock budget exhausted ("@ + text::decimal(
                before.caps.spend.max_wall_seconds as nat,
            ) + "s)"@,
        }),
{
    let turns = orchestrator::lemma_turns_of(before, after, end, said, done, times);
    let start = orchestrator::run_start(before);
    let front = turns.drop_last();
    assert(times[i] == turns[i].elapsed);
    if i < turns.len() - 1 {
        let upto = turns.take(i + 1);
        lemma_run_goes_on(before, front, i);
        lemma_run_goes_on(before, front, i + 1);
        assert(front.take(i + 1) =~= upto);
        assert(front.take(i) =~= upto.drop_last());
        lemma_run_goes_on(before, upto.drop_last(), 0);
        guarantees::law_wall_clock_halts(
            orchestrator::play(start, upto.drop_last()).0,
            upto.last(),
        );
        assert(false);
    }
    let last = orchestrator::play(start, front).0;
    lemma_run_goes_on(before, front, 0);
    guarantees::law_wall_clock_halts(last, turns.last());
    orchestrator::lemma_faulty_turn(last, turns.last());
    lemma_play_account(before, turns);
}

/// Why a run ends, told from its records alone: the readings of the clock, the
/// exchanges with the model, and the log up to the end itself.
pub open spec fn cause_of_end(
    before: SessionView,
    log: Seq<AuditEntryView>,
    said: Seq<Exchange>,
    times: Seq<Duration>,
) -> Option<SessionEndView> {
    let spend = before.caps.spend;
    if clock::whole_nanos(times.last()) > spend.max_wall_seconds * 1_000_000_000 {
        Some(
            SessionEndView::Halted {
                reason: "wall-clock budget exhausted ("@ + text::decimal(
                    spend.max_wall_seconds as nat,
                ) + "s)"@,
            },
        )
    } else if times_asked(said) == spend.max_steps && times.len() > spend.max_steps {
        Some(
            SessionEndView::Halted {
                reason: "step budget exhausted ("@ + text::decimal(spend.max_steps as nat)
                    + " steps)"@,
            },
        )
    } else {
        match model::proposed_steps(said).last() {
            ModelStepView::Stop { answer } => Some(SessionEndView::Answer(answer)),
            ModelStepView::Call(_) => {
                let denials = guarantees::trailing_denials(log, before.audit.len());
                match log.last().event {
                    AuditEventView::Tool { decision: DecisionView::Deny { reason }, .. } => {
                        if denials >= spend.max_consecutive_denials {
                            Some(
                                SessionEndView::Halted {
                                    reason: text::decimal(denials)
                                        + " consecutive denials reached; last reason: "@ + reason,
                                },
                            )
                        } else {
                            None
                        }
                    },
                    AuditEventView::Tool {
                        decision: DecisionView::Escalate { reason },
                        ..
                    } => Some(
                        SessionEndView::Halted { reason: "escalation required: "@ + reason },
                    ),
                    _ => None,
                }
            },
        }
    }
}

/// Every end has its cause: a run ends because the wall clock or the steps are
/// exhausted, because the model stops, because too many denials came in a row,
/// or because a call was escalated; and it says which.
pub proof fn law_every_end_has_its_cause(
    before: SessionView,
    after: SessionView,
    end: SessionEndView,
    said: Seq<Exchange>,
    done: Seq<(Approval, OutputView)>,
    times: Seq<Duration>,
)
    requires
        orchestrator::ran(before, after, end, said, done, times),
    ensures
        cause_of_end(before, after.audit.drop_last(), said, times) == Some(end),
{
    let turns = orchestrator::lemma_turns_of(before, after, end, said, done, times);
    let start = orchestrator::run_start(before);
    let front = turns.drop_last();
    let t = turns.last();
    let last = orchestrator::play(start, front).0;
    let log = after.audit.drop_last();
    lemma_run_goes_on(before, front, 0);
    lemma_play_account(before, turns);
    assert(times.last() == t.elapsed);
    if orchestrator::turn_fault(last, t) is Some {
        orchestrator::lemma_faulty_turn(last, t);
    } else {
        let news = orchestrator::turn_exchanges(last, t);
        orchestrator::lemma_turn_after_step(last, t);
        model::lemma_proposed_since(orchestrator::exchanged(start, front), news);
        model::lemma_proposed_once(news);
        assert(model::proposed_steps(said).last() == t.step);
        if let ModelStepView::Call(call) = t.step {
            let judged = orchestrator::judged(last.session, t.decided_at, call);
            guarantees::law_run_only_adds(before, front);
            guarantees::law_denials_are_bounded(before, front, before.audit.len() as int);
            assert(log =~= judged.audit);
            assert(judged.audit.drop_last() =~= last.session.audit);
        }
    }
}

/// No execution claims that its output speaks for the operator.
pub open spec fn outputs_lack_authority(done: Seq<(Approval, OutputView)>) -> bool {
    forall|k: int|
        0 <= k < done.len() ==> ((#[trigger] done[k]).1.provenance_hint matches Some(p)
            ==> !p.has_authority())
}

proof fn lemma_chunks_due_lack_authority(
    s: SessionView,
    log: Seq<AuditEntryView>,
    done: Seq<(Approval, OutputView)>,
    i: int,
)
    requires
        outputs_lack_authority(done),
        allowed_calls(log).len() <= done.len(),
        0 <= i < chunks_due(s, log, done).len(),
    ensures
        !chunks_due(s, log, done)[i].provenance.has_authority(),
    decreases log.len(),
{
    if log.len() > 0 {
        let earlier = log.drop_last();
        if i < chunks_due(s, earlier, done).len() {
            lemma_chunks_due_lack_authority(s, earlier, done, i);
        }
    }
}

/// No authority arises within a run: as long as no output claims to speak for
/// the operator, no chunk that the run adds carries user authority. Pages,
/// files, outputs of tools and notices of the monitor are all among them.
pub proof fn law_no_authority_arises(
    before: SessionView,
    after: SessionView,
    end: SessionEndView,
    said: Seq<Exchange>,
    done: Seq<(Approval, OutputView)>,
    times: Seq<Duration>,
    i: int,
)
    requires
        orchestrator::ran(before, after, end, said, done, times),
        outputs_lack_authority(done),
        before.context.len() <= i < after.context.len(),
    ensures
        !after.context[i].provenance.has_authority(),
{
    law_run_is_accounted_for(before, after, end, said, done, times);
    lemma_chunks_due_lack_authority(
        before,
        new_entries(before, after),
        done,
        i - before.context.len(),
    );
}

/// The injection defence over a whole run: as long as no output claims to
/// speak for the operator, a call whose class requires user intent is executed
/// only if it cites something, and only on the strength of chunks that carried
/// user authority before the run began. Nothing that arrives during the run can
/// authorize such a call.
pub proof fn law_guarded_calls_rest_on_prior_authority(
    before: SessionView,
    after: SessionView,
    end: SessionEndView,
    said: Seq<Exchange>,
    done: Seq<(Approval, OutputView)>,
    times: Seq<Duration>,
    k: int,
    c: int,
)
    requires
        orchestrator::ran(before, after, end, said, done, times),
        outputs_lack_authority(done),
        orchestrator::ids_are_positions(before.context),
        0 <= k < done.len(),
        before.caps.require_user_intent@.contains(done[k].0.call.action.class()),
    ensures
        done[k].0.call.justification_chunks.len() > 0,
        0 <= c < done[k].0.call.justification_chunks.len() ==> {
            let id = done[k].0.call.justification_chunks[c];
            &&& id < before.context.len()
            &&& before.context[id as int].provenance.has_authority()
        },
{
    let turns = orchestrator::lemma_turns_of(before, after, end, said, done, times);
    law_run_is_accounted_for(before, after, end, said, done, times);
    let approval = done[k].0;
    monitor::law_allowed_exactly_when(
        approval.caps,
        approval.calls_made,
        approval.call,
        approval.context,
    );
    lemma_approvals_see_the_context(before, turns, k);
    if 0 <= c < approval.call.justification_chunks.len() {
        let id = approval.call.justification_chunks[c];
        let i = guarantees::lemma_found_chunk(approval.context, id);
        guarantees::lemma_prefix_index(approval.context, after.context, i);
        if i >= before.context.len() {
            law_no_authority_arises(before, after, end, said, done, times, i);
        } else {
            guarantees::lemma_prefix_index(before.context, after.context, i);
            assert(before.context[i].id == i);
        }
    }
}

/// What an approval was based on is a stage of the context.
proof fn lemma_approvals_see_the_context(s: SessionView, turns: Seq<Turn>, k: int)
    requires
        0 <= k < orchestrator::executed(orchestrator::run_start(s), turns).len(),
    ensures
        orchestrator::executed(
            orchestrator::run_start(s),
            turns,
        )[k].0.context.is_prefix_of(
            orchestrator::play(orchestrator::run_start(s), turns).0.session.context,
        ),
    decreases turns.len(),
{
    let start = orchestrator::run_start(s);
    let front = turns.drop_last();
    let t = turns.last();
    let (before, end) = orchestrator::play(start, front);
    let done = orchestrator::executed(start, front);
    if end is Some {
        lemma_approvals_see_the_context(s, front, k);
    } else {
        let after = orchestrator::turn(before, t).0;
        guarantees::lemma_turn_only_adds(before, t);
        if k < done.len() {
            lemma_approvals_see_the_context(s, front, k);
            guarantees::lemma_prefix_chain(
                done[k].0.context,
                before.session.context,
                after.session.context,
            );
        } else if orchestrator::turn_fault(before, t) is Some {
            orchestrator::lemma_faulty_turn(before, t);
        } else {
            orchestrator::lemma_turn_after_step(before, t);
        }
    }
}

/// Calls as the steps that propose them.
pub open spec fn call_steps(calls: Seq<ToolCallView>) -> Seq<ModelStepView> {
    Seq::new(calls.len(), |i: int| ModelStepView::Call(calls[i]))
}

/// The step that ended a run, if it was one of the model.
pub open spec fn final_step(end: Option<SessionEndView>) -> Seq<ModelStepView> {
    match end {
        Some(SessionEndView::Answer(answer)) => seq![ModelStepView::Stop { answer }],
        _ => Seq::empty(),
    }
}

proof fn lemma_steps_of_play(s: SessionView, turns: Seq<Turn>)
    ensures
        ({
            let start = orchestrator::run_start(s);
            let said = orchestrator::exchanged(start, turns);
            model::proposed_steps(said) == call_steps(proposed_calls(said)) + final_step(
                orchestrator::play(start, turns).1,
            )
        }),
    decreases turns.len(),
{
    let start = orchestrator::run_start(s);
    let said = orchestrator::exchanged(start, turns);
    if turns.len() > 0 {
        let front = turns.drop_last();
        let t = turns.last();
        let (before, ended) = orchestrator::play(start, front);
        let said_before = orchestrator::exchanged(start, front);
        let news = orchestrator::turn_exchanges(before, t);
        lemma_steps_of_play(s, front);
        if ended is None {
            model::lemma_proposed_since(said_before, news);
            if orchestrator::turn_fault(before, t) is Some {
                orchestrator::lemma_faulty_turn(before, t);
                assert(said =~= said_before);
            } else {
                orchestrator::lemma_turn_after_step(before, t);
                model::lemma_proposed_once(news);
                lemma_said_push(said_before, news[0]);
                let told = said_before.push(news[0]);
                if news.len() == 1 {
                    assert(said =~= told);
                } else if news.len() == 2 {
                    lemma_said_push(told, news[1]);
                    assert(said =~= told.push(news[1]));
                } else {
                    lemma_said_push(told, news[1]);
                    lemma_said_push(told.push(news[1]), news[2]);
                    assert(said =~= told.push(news[1]).push(news[2]));
                }
                assert(model::proposed_steps(said) =~= call_steps(proposed_calls(said))
                    + final_step(orchestrator::play(start, turns).1));
            }
        }
    } else {
        assert(model::proposed_steps(said) =~= call_steps(proposed_calls(said)) + final_step(
            orchestrator::play(start, turns).1,
        ));
    }
}

/// A run with a scripted model plays the script: the calls that come before
/// the monitor are those of the script, in its order and without gaps; and a
/// run that ends with an answer ends with the one that the script has next.
pub proof fn law_script_drives_the_run(
    before: SessionView,
    after: SessionView,
    end: SessionEndView,
    said: Seq<Exchange>,
    done: Seq<(Approval, OutputView)>,
    times: Seq<Duration>,
    script: Seq<ModelStepView>,
)
    requires
        orchestrator::ran(before, after, end, said, done, times),
        model::follows(script, said),
    ensures
        ({
            let calls = recorded_calls(new_entries(before, after));
            &&& forall|i: int|
                0 <= i < calls.len() ==> ModelStepView::Call(#[trigger] calls[i])
                    == model::script_step(script, i)
            &&& end matches SessionEndView::Answer(answer) ==> model::script_step(
                script,
                calls.len() as int,
            ) == (ModelStepView::Stop { answer })
        }),
{
    let turns = orchestrator::lemma_turns_of(before, after, end, said, done, times);
    let calls = recorded_calls(new_entries(before, after));
    let steps = model::proposed_steps(said);
    law_run_is_accounted_for(before, after, end, said, done, times);
    lemma_steps_of_play(before, turns);
    assert forall|i: int| 0 <= i < calls.len() implies ModelStepView::Call(#[trigger] calls[i])
        == model::script_step(script, i) by {
        model::law_script_is_followed(script, said, i);
        assert(steps[i] == call_steps(calls)[i]);
    }
    if end is Answer {
        model::law_script_is_followed(script, said, calls.len() as int);
        assert(steps[calls.len() as int] == final_step(Some(end))[0]);
    }
}

/// As long as a run goes on, every entry it added to the log has brought one
/// chunk.
proof fn lemma_one_chunk_per_entry(s: SessionView, turns: Seq<Turn>)
    requires
        orchestrator::play(orchestrator::run_start(s), turns).1 is None,
    ensures
        ({
            let after = orchestrator::play(orchestrator::run_start(s), turns).0.session;
            after.context.len() - s.context.len() == after.audit.len() - s.audit.len()
        }),
    decreases turns.len(),
{
    if turns.len() > 0 {
        let front = turns.drop_last();
        let before = orchestrator::play(orchestrator::run_start(s), front).0;
        lemma_one_chunk_per_entry(s, front);
        if orchestrator::turn_fault(before, turns.last()) is Some {
            orchestrator::lemma_faulty_turn(before, turns.last());
        } else {
            orchestrator::lemma_turn_after_step(before, turns.last());
        }
    }
}

/// The name by which the class of an action goes.
pub open spec fn class_name(action: ActionView) -> Seq<char> {
    match action {
        ActionView::FsRead { .. } => "FsRead"@,
        ActionView::FsWrite { .. } => "FsWrite"@,
        ActionView::NetGet { .. } => "NetGet"@,
        ActionView::Exec { .. } => "Exec"@,
    }
}

/// The call and the decision on record at position `j` of the new entries are
/// the monitor's on the context as it stood, and the chunk that they brought
/// is what it has to be.
pub open spec fn decided_and_brought(
    before: SessionView,
    after: SessionView,
    done: Seq<(Approval, OutputView)>,
    j: int,
    call: ToolCallView,
    decision: DecisionView,
) -> bool {
    let k = allowed_calls(new_entries(before, after).take(j)).len() as int;
    let n = before.context.len() + j;
    let chunk = after.context[n];
    let made = (before.calls_made + k) as u32;
    let seen = after.context.take(n);
    &&& n <= after.context.len()
    &&& decision == monitor::policy(before.caps, made, call, seen)
    &&& decision is Allow ==> {
        &&& n < after.context.len()
        &&& k < done.len()
        &&& done[k].0 == (Approval { caps: before.caps, calls_made: made, call, context: seen })
        &&& chunk.id == n as u64
        &&& chunk.content == done[k].1.content
        &&& match done[k].1.provenance_hint {
            Some(p) => chunk.provenance == p,
            None => chunk.provenance == (ProvenanceView::Tool {
                name: class_name(call.action),
                call_id: (before.calls_made + k) as u64,
            }),
        }
    }
    &&& decision matches DecisionView::Deny { reason } ==> {
        &&& n < after.context.len()
        &&& chunk.id == n as u64
        &&& chunk.content == "[monitor denied last call: "@ + reason + "]"@
        &&& chunk.provenance is Monitor
    }
}

proof fn lemma_entry_brings(s: SessionView, turns: Seq<Turn>, j: int)
    requires
        ({
            let after = orchestrator::play(orchestrator::run_start(s), turns).0.session;
            &&& 0 <= j < new_entries(s, after).len()
            &&& new_entries(s, after)[j].event is Tool
        }),
    ensures
        ({
            let after = orchestrator::play(orchestrator::run_start(s), turns).0.session;
            new_entries(s, after)[j].event matches AuditEventView::Tool { call, decision }
                && decided_and_brought(
                s,
                after,
                orchestrator::executed(orchestrator::run_start(s), turns),
                j,
                call,
                decision,
            )
        }),
    decreases turns.len(),
{
    let start = orchestrator::run_start(s);
    let after = orchestrator::play(start, turns).0.session;
    let log = new_entries(s, after);
    if turns.len() == 0 {
        assert(log.len() == 0);
    } else {
        let front = turns.drop_last();
        let t = turns.last();
        let (r, ended) = orchestrator::play(start, front);
        let earlier = new_entries(s, r.session);
        let done = orchestrator::executed(start, front);
        guarantees::law_run_only_adds(s, front);
        if ended is Some {
            lemma_entry_brings(s, front, j);
        } else {
            guarantees::lemma_turn_only_adds(r, t);
            lemma_play_account(s, front);
            lemma_one_chunk_per_entry(s, front);
            assert forall|i: int| 0 <= i < r.session.audit.len() implies r.session.audit[i]
                == after.audit[i] by {
                guarantees::lemma_prefix_index(r.session.audit, after.audit, i);
            }
            assert forall|i: int| 0 <= i < r.session.context.len() implies r.session.context[i]
                == after.context[i] by {
                guarantees::lemma_prefix_index(r.session.context, after.context, i);
            }
            let n = s.context.len() + j;
            if j < earlier.len() {
                lemma_entry_brings(s, front, j);
                assert(log[j] == earlier[j]);
                assert(log.take(j) =~= earlier.take(j));
                assert(r.session.context.take(n) =~= after.context.take(n));
                let k = allowed_calls(log.take(j)).len() as int;
                if k < done.len() {
                    assert((done + orchestrator::turn_executions(r, t))[k] == done[k]);
                }
            } else if orchestrator::turn_fault(r, t) is Some {
                orchestrator::lemma_faulty_turn(r, t);
            } else {
                orchestrator::lemma_turn_after_step(r, t);
                assert(j == earlier.len());
                assert(log.take(j) =~= earlier);
                assert(r.session.context =~= after.context.take(n));
                assert(allowed_calls(earlier) == executed_calls(done));
                assert(log[j] == after.audit[r.session.audit.len() as int]);
                if let ModelStepView::Call(call) = t.step {
                    let judged = orchestrator::judged(r.session, t.decided_at, call);
                    assert(after.audit[r.session.audit.len() as int] == judged.audit.last());
                    if orchestrator::decision_on(r.session, call) is Allow {
                        assert((done + orchestrator::turn_executions(r, t))[done.len() as int]
                            == orchestrator::turn_executions(r, t)[0]);
                    }
                }
            }
        }
    }
}

/// Outputs enter the context as the executor returned them. For every call
/// that a run has on record, the decision is the monitor's on the context as
/// it stood at that moment, with the calls allowed until then counted. Where it
/// is allowed, that call under exactly those circumstances is what the executor
/// was handed, and what it returned for it is the chunk that follows: the
/// content unchanged; the provenance exactly what the executor says, and only
/// where it says nothing, the tool with the name of the class and the number
/// of the call. Where it is denied, the chunk is the notice of the monitor with
/// the reason. The chunks stand in the order of the calls.
pub proof fn law_outputs_enter_as_they_are(
    before: SessionView,
    after: SessionView,
    end: SessionEndView,
    said: Seq<Exchange>,
    done: Seq<(Approval, OutputView)>,
    times: Seq<Duration>,
    j: int,
)
    requires
        orchestrator::ran(before, after, end, said, done, times),
        0 <= j < new_entries(before, after).len(),
    ensures
        new_entries(before, after)[j].event matches AuditEventView::Tool { call, decision }
            ==> decided_and_brought(before, after, done, j, call, decision),
{
    let turns = orchestrator::lemma_turns_of(before, after, end, said, done, times);
    if new_entries(before, after)[j].event is Tool {
        lemma_entry_brings(before, turns, j);
    }
}

/// For every execution of a run there is a chunk that holds its output: the
/// same content, with exactly the provenance that the executor says, or, where
/// it says nothing, with the name of the class and the number of the call.
pub proof fn law_every_output_has_its_chunk(
    before: SessionView,
    after: SessionView,
    end: SessionEndView,
    said: Seq<Exchange>,
    done: Seq<(Approval, OutputView)>,
    times: Seq<Duration>,
    k: int,
)
    requires
        orchestrator::ran(before, after, end, said, done, times),
        0 <= k < done.len(),
    ensures
        exists|n: int|
            {
                &&& before.context.len() <= n < after.context.len()
                &&& (#[trigger] after.context[n]).content == done[k].1.content
                &&& done[k].1.provenance_hint matches Some(p) ==> after.context[n].provenance == p
                &&& done[k].1.provenance_hint is None ==> after.context[n].provenance
                    == (ProvenanceView::Tool {
                    name: class_name(done[k].0.call.action),
                    call_id: (before.calls_made + k) as u64,
                })
            },
{
    let log = new_entries(before, after);
    law_run_is_accounted_for(before, after, end, said, done, times);
    assert(allowed_calls(log).len() == done.len());
    let j = lemma_kth_allowed(log, k);
    law_outputs_enter_as_they_are(before, after, end, said, done, times, j);
    let n = before.context.len() + j;
    assert(after.context[n].content == done[k].1.content);
}

/// Where the `k`-th allowed call of a log stands.
proof fn lemma_kth_allowed(log: Seq<AuditEntryView>, k: int) -> (j: int)
    requires
        0 <= k < allowed_calls(log).len(),
    ensures
        0 <= j < log.len(),
        allowed_calls(log.take(j)).len() == k,
        log[j].event matches AuditEventView::Tool { decision: DecisionView::Allow, .. },
    decreases log.len(),
{
    let front = log.drop_last();
    if k < allowed_calls(front).len() {
        let j = lemma_kth_allowed(front, k);
        assert(front.take(j) =~= log.take(j));
        j
    } else {
        assert(log.take(log.len() - 1) =~= front);
        log.len() - 1
    }
}

proof fn lemma_shown_context(s: SessionView, turns: Seq<Turn>, i: int)
    requires
        0 <= i < orchestrator::exchanged(orchestrator::run_start(s), turns).len(),
    ensures
        ({
            let said = orchestrator::exchanged(orchestrator::run_start(s), turns);
            said[i] matches Exchange::Proposed { context, .. } ==> context == s.context
                + told_chunks(said.take(i))
        }),
    decreases turns.len(),
{
    let start = orchestrator::run_start(s);
    let said = orchestrator::exchanged(start, turns);
    let front = turns.drop_last();
    let t = turns.last();
    let (r, ended) = orchestrator::play(start, front);
    let earlier = orchestrator::exchanged(start, front);
    if ended is Some {
        lemma_shown_context(s, front, i);
    } else if i < earlier.len() {
        lemma_shown_context(s, front, i);
        assert(said[i] == earlier[i]);
        assert(said.take(i) =~= earlier.take(i));
    } else {
        let news = orchestrator::turn_exchanges(r, t);
        assert(said[i] == news[i - earlier.len()]);
        if orchestrator::turn_fault(r, t) is Some {
            orchestrator::lemma_faulty_turn(r, t);
        } else {
            orchestrator::lemma_turn_after_step(r, t);
            if i == earlier.len() {
                lemma_play_account(s, front);
                guarantees::law_run_only_adds(s, front);
                assert(said.take(i) =~= earlier);
                assert forall|x: int| 0 <= x < s.context.len() implies s.context[x]
                    == r.session.context[x] by {
                    guarantees::lemma_prefix_index(s.context, r.session.context, x);
                }
                assert(r.session.context =~= s.context + r.session.context.skip(
                    s.context.len() as int,
                ));
            }
        }
    }
}

/// Whenever the model is asked it is shown everything: the context from before
/// the run, and every chunk it was told of since, in order and unchanged.
pub proof fn law_model_is_shown_everything(
    before: SessionView,
    after: SessionView,
    end: SessionEndView,
    said: Seq<Exchange>,
    done: Seq<(Approval, OutputView)>,
    times: Seq<Duration>,
    i: int,
)
    requires
        orchestrator::ran(before, after, end, said, done, times),
        0 <= i < said.len(),
    ensures
        said[i] matches Exchange::Proposed { context, .. } ==> context == before.context
            + told_chunks(said.take(i)),
{
    let turns = orchestrator::lemma_turns_of(before, after, end, said, done, times);
    lemma_shown_context(before, turns, i);
}

proof fn lemma_goes_on_after_a_chunk(s: SessionView, turns: Seq<Turn>)
    requires
        orchestrator::play(orchestrator::run_start(s), turns).1 is None,
    ensures
        ({
            let said = orchestrator::exchanged(orchestrator::run_start(s), turns);
            said.len() > 0 ==> said.last() is ToldChunk
        }),
{
    if turns.len() > 0 {
        let start = orchestrator::run_start(s);
        let r = orchestrator::play(start, turns.drop_last()).0;
        if orchestrator::turn_fault(r, turns.last()) is Some {
            orchestrator::lemma_faulty_turn(r, turns.last());
        } else {
            orchestrator::lemma_turn_after_step(r, turns.last());
        }
    }
}

/// What may stand at a place of the exchanges, given what stands before it.
pub open spec fn follows_on(said: Seq<Exchange>, i: int) -> bool {
    match said[i] {
        Exchange::Proposed { .. } => i == 0 || said[i - 1] is ToldChunk,
        Exchange::ToldDenial { call, .. } => i > 0 && (said[i - 1] matches Exchange::Proposed {
            step: ModelStepView::Call(proposed),
            ..
        } && proposed == call),
        Exchange::ToldChunk(_) => i > 0 && (said[i - 1] is ToldDenial || (said[i - 1] matches
            Exchange::Proposed { step: ModelStepView::Call(_), .. })),
    }
}

proof fn lemma_order(s: SessionView, turns: Seq<Turn>, i: int)
    requires
        0 <= i < orchestrator::exchanged(orchestrator::run_start(s), turns).len(),
    ensures
        follows_on(orchestrator::exchanged(orchestrator::run_start(s), turns), i),
    decreases turns.len(),
{
    let start = orchestrator::run_start(s);
    let said = orchestrator::exchanged(start, turns);
    let front = turns.drop_last();
    let t = turns.last();
    let (r, ended) = orchestrator::play(start, front);
    let earlier = orchestrator::exchanged(start, front);
    if ended is Some {
        lemma_order(s, front, i);
    } else if i < earlier.len() {
        lemma_order(s, front, i);
        assert(said[i] == earlier[i]);
        if i > 0 {
            assert(said[i - 1] == earlier[i - 1]);
        }
    } else {
        let news = orchestrator::turn_exchanges(r, t);
        let k = i - earlier.len();
        assert(said[i] == news[k]);
        lemma_goes_on_after_a_chunk(s, front);
        if orchestrator::turn_fault(r, t) is Some {
            orchestrator::lemma_faulty_turn(r, t);
        } else {
            orchestrator::lemma_turn_after_step(r, t);
            if k == 0 {
                if i > 0 {
                    assert(said[i - 1] == earlier.last());
                }
            } else {
                assert(said[i - 1] == news[k - 1]);
            }
        }
    }
}

/// The exchanges come in order: the model is asked first and after every
/// chunk; of a denial or an escalation it is told right after the call that it
/// proposed; and of a chunk right after that, or right after the call that
/// brought it.
pub proof fn law_exchanges_come_in_order(
    before: SessionView,
    after: SessionView,
    end: SessionEndView,
    said: Seq<Exchange>,
    done: Seq<(Approval, OutputView)>,
    times: Seq<Duration>,
    i: int,
)
    requires
        orchestrator::ran(before, after, end, said, done, times),
        0 <= i < said.len(),
    ensures
        follows_on(said, i),
{
    let turns = orchestrator::lemma_turns_of(before, after, end, said, done, times);
    lemma_order(before, turns, i);
}

} // verus!
