//! The orchestrator: the session loop that drives model, monitor and executor.
//!
//! Every model-proposed action passes through the monitor before the executor
//! sees it. Every chunk added to the context is tagged with provenance. On
//! denial the model is told and the loop continues, so that the agent can
//! propose something else. The session halts on a model `Stop`, on exhaustion
//! of a spend dimension, or on an escalation; how it ended is recorded in the
//! audit log.

use crate::audit;
use crate::audit::{AuditEntryView, AuditEventView, AuditLog};
use crate::capability::{ActionClass, Capabilities, Spend};
use crate::clock;
use crate::clock::Stopwatch;
use crate::model;
use crate::model::{Exchange, Model, ModelStep, ModelStepView};
use crate::monitor::{AllowedAction, Approval, DecisionView, Monitor, Verdict};
use crate::provenance::{Chunk, ChunkView, Provenance, ProvenanceView};
use crate::text;
use crate::tools::{Output, OutputView, ToolCall, ToolCallView, ToolExecutor};
use std::time::{Duration, Instant, SystemTime};
use vstd::prelude::*;
use vstd::string::*;

verus! {

/// How a session ended.
#[derive(Debug)]
pub enum SessionEnd {
    Answer(String),
    Halted { reason: String },
}

/// The end of a session as a mathematical value.
pub enum SessionEndView {
    Answer(Seq<char>),
    Halted { reason: Seq<char> },
}

impl View for SessionEnd {
    type V = SessionEndView;

    open spec fn view(&self) -> SessionEndView {
        match self {
            SessionEnd::Answer(text) => SessionEndView::Answer(text@),
            SessionEnd::Halted { reason } => SessionEndView::Halted { reason: reason@ },
        }
    }
}

/// The audit event that records how a session ended.
pub open spec fn end_event(end: SessionEndView) -> AuditEventView {
    match end {
        SessionEndView::Answer(text) => AuditEventView::Answer { text },
        SessionEndView::Halted { reason } => AuditEventView::Halt { reason },
    }
}

/// Everything a session keeps, apart from its model and its executor.
pub struct SessionState {
    caps: Capabilities,
    audit: AuditLog,
    context: Vec<Chunk>,
    next_chunk_id: u64,
    next_call_id: u64,
    calls_made: u32,
}

/// The state of a session as a mathematical value.
#[verifier::ext_equal]
pub struct SessionView {
    pub caps: Capabilities,
    pub audit: Seq<AuditEntryView>,
    pub context: Seq<ChunkView>,
    pub calls_made: u32,
}

impl View for SessionState {
    type V = SessionView;

    closed spec fn view(&self) -> SessionView {
        SessionView {
            caps: self.caps,
            audit: self.audit@,
            context: crate::provenance::chunks_view(self.context@),
            calls_made: self.calls_made,
        }
    }
}

/// The ids of the chunks are their positions in the context.
pub open spec fn ids_are_positions(context: Seq<ChunkView>) -> bool {
    forall|i: int| 0 <= i < context.len() ==> (#[trigger] context[i]).id == i
}

/// The state of a session before anything happened in it.
pub open spec fn fresh(caps: Capabilities, audit: Seq<AuditEntryView>) -> SessionView {
    SessionView { caps, audit, context: Seq::empty(), calls_made: 0 }
}

/// The context with one more chunk, whose id is its position.
pub open spec fn with_chunk(
    s: SessionView,
    provenance: ProvenanceView,
    content: Seq<char>,
) -> SessionView {
    SessionView {
        context: s.context.push(ChunkView { id: s.context.len() as u64, provenance, content }),
        ..s
    }
}

/// The audit log with one more event, stamped with a point of the clock.
pub open spec fn with_event(s: SessionView, at: SystemTime, event: AuditEventView) -> SessionView {
    SessionView { audit: audit::recorded(s.audit, clock::stamp_at(at), event), ..s }
}

/// What the monitor decides about `call` in state `s`.
pub open spec fn decision_on(s: SessionView, call: ToolCallView) -> DecisionView {
    crate::monitor::policy(s.caps, s.calls_made, call, s.context)
}

/// The state after the monitor decided about `call`: the decision is recorded,
/// and the spend counter advances where it allows.
pub open spec fn judged(s: SessionView, at: SystemTime, call: ToolCallView) -> SessionView {
    let decision = decision_on(s, call);
    let after = with_event(s, at, AuditEventView::Tool { call, decision });
    if decision is Allow {
        SessionView { calls_made: (s.calls_made + 1) as u32, ..after }
    } else {
        after
    }
}

/// The provenance of the output of an allowed call: what the executor says,
/// and otherwise the tool and the number of the call.
pub open spec fn output_provenance(
    class: ActionClass,
    call_id: u64,
    output: OutputView,
) -> ProvenanceView {
    match output.provenance_hint {
        Some(provenance) => provenance,
        None => ProvenanceView::Tool { name: class.name_text(), call_id },
    }
}

/// What the model is told after a denial.
pub open spec fn denial_note(reason: Seq<char>) -> Seq<char> {
    "[monitor denied last call: "@ + reason + "]"@
}

/// Which budget of a run is exhausted, if any: the wall clock or the number of
/// steps.
pub open spec fn budget_fault(spend: Spend, elapsed_nanos: u128, steps: u32) -> Option<Seq<char>> {
    if elapsed_nanos > spend.max_wall_seconds * 1_000_000_000 {
        Some(
            "wall-clock budget exhausted ("@ + text::decimal(spend.max_wall_seconds as nat)
                + "s)"@,
        )
    } else if steps >= spend.max_steps {
        Some(
            "step budget exhausted ("@ + text::decimal(spend.max_steps as nat) + " steps)"@,
        )
    } else {
        None
    }
}

/// Why a run halts after too many denials in a row.
pub open spec fn denial_limit_reason(denials: nat, reason: Seq<char>) -> Seq<char> {
    text::decimal(denials) + " consecutive denials reached; last reason: "@ + reason
}

/// Why a run halts on an escalation.
pub open spec fn escalation_reason(reason: Seq<char>) -> Seq<char> {
    "escalation required: "@ + reason
}

impl SessionState {
    /// The audit log is well formed, chunk ids are positions in the context,
    /// and calls are numbered from 0.
    pub closed spec fn wf(&self) -> bool {
        &&& self.audit.wf()
        &&& self.next_chunk_id == self.context@.len()
        &&& ids_are_positions(crate::provenance::chunks_view(self.context@))
        &&& self.next_call_id == self.calls_made
    }

    /// The lines that the sink of the audit log has been given, if there is
    /// one.
    pub closed spec fn sent(&self) -> Option<Seq<Seq<char>>> {
        self.audit.sent()
    }

    /// In a well-formed state the chain of the audit log is intact, its
    /// entries are the last lines that its sink has been given, and the ids of
    /// the chunks are their positions.
    pub proof fn lemma_wf(&self)
        requires
            self.wf(),
        ensures
            audit::chain_intact(self@.audit),
            self.sent() matches Some(lines) ==> audit::entry_forms(
                self@.audit,
            ).is_suffix_of(lines),
            ids_are_positions(self@.context),
    {
        self.audit.lemma_wf();
    }

    pub fn new(caps: Capabilities, audit: AuditLog) -> (res: SessionState)
        requires
            audit.wf(),
        ensures
            res.wf(),
            res@ == fresh(caps, audit@),
            res.sent() == audit.sent(),
    {
        let state = SessionState {
            caps,
            audit,
            context: Vec::new(),
            next_chunk_id: 0,
            next_call_id: 0,
            calls_made: 0,
        };
        assert(state@.context =~= Seq::<ChunkView>::empty());
        state
    }

    /// The bundle of the session.
    pub fn caps(&self) -> (res: &Capabilities)
        ensures
            *res == self@.caps,
    {
        &self.caps
    }

    /// The chunks of the context, oldest first.
    pub fn context(&self) -> (res: &[Chunk])
        ensures
            crate::provenance::chunks_view(res@) == self@.context,
    {
        self.context.as_slice()
    }

    /// The audit log of the session.
    pub fn audit(&self) -> (res: &AuditLog)
        ensures
            res@ == self@.audit,
            res.sent() == self.sent(),
            self.wf() ==> res.wf(),
    {
        &self.audit
    }

    /// The number of calls that were allowed so far.
    pub fn calls_made(&self) -> (res: u32)
        ensures
            res == self@.calls_made,
    {
        self.calls_made
    }

    /// Adds a chunk at the end of the context and returns its id.
    pub fn push_chunk(&mut self, provenance: Provenance, content: String) -> (res: u64)
        requires
            old(self).wf(),
            old(self)@.context.len() < u64::MAX,
        ensures
            final(self).wf(),
            res == old(self)@.context.len(),
            final(self)@ == with_chunk(old(self)@, provenance@, content@),
            final(self).sent() == old(self).sent(),
    {
        let ghost before = self@;
        let id = self.next_chunk_id;
        self.next_chunk_id = self.next_chunk_id + 1;
        self.context.push(Chunk { id, provenance, content });
        assert(self@.context =~= with_chunk(before, provenance@, content@).context);
        id
    }

    /// The chunk added last.
    pub fn last_chunk(&self) -> (res: &Chunk)
        requires
            self@.context.len() > 0,
        ensures
            res@ == self@.context.last(),
    {
        &self.context[self.context.len() - 1]
    }

    /// Which budget of a run is exhausted, if any.
    pub fn exhausted(&self, elapsed_nanos: u128, steps: u32) -> (res: Option<String>)
        ensures
            match res {
                Some(reason) => budget_fault(self@.caps.spend, elapsed_nanos, steps) == Some(
                    reason@,
                ),
                None => budget_fault(self@.caps.spend, elapsed_nanos, steps) is None,
            },
    {
        let spend = &self.caps.spend;
        if elapsed_nanos > spend.max_wall_seconds as u128 * 1_000_000_000u128 {
            let mut reason = "wall-clock budget exhausted (".to_owned();
            reason.append(text::decimal_text(spend.max_wall_seconds as u128).as_str());
            reason.append("s)");
            Some(reason)
        } else if steps >= spend.max_steps {
            let mut reason = "step budget exhausted (".to_owned();
            reason.append(text::decimal_text(spend.max_steps as u128).as_str());
            reason.append(" steps)");
            Some(reason)
        } else {
            None
        }
    }

    /// Lets the monitor decide about `call`. An allowed call gets the next
    /// number, counting from 0.
    pub fn judge(&mut self, call: &ToolCall) -> (res: Verdict)
        requires
            old(self).wf(),
            old(self)@.audit.len() < u64::MAX,
        ensures
            final(self).wf(),
            res.decision() == decision_on(old(self)@, call@),
            res matches Verdict::Allow(allowed) ==> allowed.approval() == (Approval {
                caps: old(self)@.caps,
                calls_made: old(self)@.calls_made,
                call: call@,
                context: old(self)@.context,
            }),
            exists|at: SystemTime| final(self)@ == #[trigger] judged(old(self)@, at, call@),
            final(self).sent() == audit::handed(
                old(self).sent(),
                final(self)@.audit.last(),
            ),
    {
        let ghost before = self@;
        let mut monitor = Monitor::new(&self.caps, &mut self.audit, &mut self.calls_made);
        let verdict = monitor.authorize(call, self.context.as_slice());
        proof {
            monitor.lemma_released();
        }
        if matches!(verdict, Verdict::Allow(_)) {
            self.next_call_id = self.next_call_id + 1;
        }
        proof {
            let event = AuditEventView::Tool { call: call@, decision: verdict.decision() };
            let at = choose|at: SystemTime|
                self@.audit == audit::recorded(before.audit, #[trigger] clock::stamp_at(at), event);
            assert(self@ =~= judged(before, at, call@));
        }
        verdict
    }

    /// Adds the output of allowed call number `call_id` to the context.
    pub fn accept_output(&mut self, class: ActionClass, call_id: u64, output: Output)
        requires
            old(self).wf(),
            old(self)@.context.len() < u64::MAX,
        ensures
            final(self).wf(),
            final(self)@ == with_chunk(
                old(self)@,
                output_provenance(class, call_id, output@),
                output@.content,
            ),
            final(self)@.context.last().content == output@.content,
            output@.provenance_hint matches Some(p) ==> final(self)@.context.last().provenance == p,
            output@.provenance_hint is None ==> final(self)@.context.last().provenance
                == (ProvenanceView::Tool { name: class.name_text(), call_id }),
            final(self).sent() == old(self).sent(),
    {
        let provenance = match output.provenance_hint {
            Some(provenance) => provenance,
            None => Provenance::Tool { name: class.name(), call_id },
        };
        self.push_chunk(provenance, output.content);
    }

    /// Adds the reason of a denial to the context, as a notification that
    /// carries no authority.
    pub fn note_denial(&mut self, reason: &str)
        requires
            old(self).wf(),
            old(self)@.context.len() < u64::MAX,
        ensures
            final(self).wf(),
            final(self)@ == with_chunk(
                old(self)@,
                ProvenanceView::Monitor,
                denial_note(reason@),
            ),
            final(self).sent() == old(self).sent(),
    {
        let mut note = "[monitor denied last call: ".to_owned();
        note.append(reason);
        note.append("]");
        self.push_chunk(Provenance::Monitor, note);
    }

    /// Records how the session ended.
    pub fn record_end(&mut self, end: &SessionEnd)
        requires
            old(self).wf(),
            old(self)@.audit.len() < u64::MAX,
        ensures
            final(self).wf(),
            exists|at: SystemTime|
                final(self)@ == #[trigger] with_event(old(self)@, at, end_event(end@)),
            final(self).sent() == audit::handed(
                old(self).sent(),
                final(self)@.audit.last(),
            ),
    {
        let ghost before = self@;
        match end {
            SessionEnd::Answer(text) => self.audit.record_answer(text.as_str()),
            SessionEnd::Halted { reason } => self.audit.record_halt(reason.as_str()),
        }
        proof {
            let at = choose|at: SystemTime|
                self@.audit == audit::recorded(
                    before.audit,
                    #[trigger] clock::stamp_at(at),
                    end_event(end@),
                );
            assert(self@ =~= with_event(before, at, end_event(end@)));
        }
    }
}

/// A session begins with the bundle and the log it was given, without chunks
/// and without calls.
pub proof fn law_sessions_begin_empty(caps: Capabilities, log: Seq<AuditEntryView>)
    ensures
        fresh(caps, log).caps == caps,
        fresh(caps, log).audit == log,
        fresh(caps, log).context.len() == 0,
        fresh(caps, log).calls_made == 0,
{
}

/// A budget is exhausted exactly if more time has passed than the bundle
/// permits, or as many steps were taken as it permits; and the reason names
/// the budget and its limit, the time first.
pub proof fn law_budgets_are_exhausted_exactly_when(
    state: &SessionState,
    elapsed_nanos: u128,
    steps: u32,
    res: Option<String>,
)
    requires
        call_ensures(SessionState::exhausted, (state, elapsed_nanos, steps), res),
    ensures
        ({
            let spend = state@.caps.spend;
            let late = elapsed_nanos > spend.max_wall_seconds * 1_000_000_000;
            &&& res is Some <==> late || steps >= spend.max_steps
            &&& late ==> res.unwrap()@ == "wall-clock budget exhausted ("@ + text::decimal(
                spend.max_wall_seconds as nat,
            ) + "s)"@
            &&& !late && steps >= spend.max_steps ==> res.unwrap()@ == "step budget exhausted ("@
                + text::decimal(spend.max_steps as nat) + " steps)"@
        }),
{
}

/// A chunk is added as it is, at the end: the chunks before it stay, its id is
/// its position, and neither the log nor the count nor the bundle changes.
pub proof fn law_chunks_are_added_as_they_are(
    s: SessionView,
    provenance: ProvenanceView,
    content: Seq<char>,
)
    ensures
        ({
            let after = with_chunk(s, provenance, content);
            let n = s.context.len() as int;
            &&& after.context.len() == n + 1
            &&& after.context.take(n) == s.context
            &&& after.context[n].id == n as u64
            &&& after.context[n].provenance == provenance
            &&& after.context[n].content == content
            &&& after.audit == s.audit
            &&& after.calls_made == s.calls_made
            &&& after.caps == s.caps
        }),
{
    assert(with_chunk(s, provenance, content).context.take(s.context.len() as int) =~= s.context);
}

/// What the model, the executor and the clocks contribute to one turn of a
/// run. A turn that does not get so far leaves the rest unused.
pub struct Turn {
    /// The time since the run started, at the start of the turn.
    pub elapsed: Duration,
    /// What the model proposed.
    pub step: ModelStepView,
    /// When the monitor's decision was recorded.
    pub decided_at: SystemTime,
    /// What the executor returned.
    pub output: OutputView,
    /// When the end of the session was recorded.
    pub ended_at: SystemTime,
}

/// A session in the middle of a run.
#[verifier::ext_equal]
pub struct RunView {
    pub session: SessionView,
    /// Model steps taken in this run.
    pub steps: u32,
    /// Denials since the last allowed call of this run.
    pub denials: u32,
}

/// A session at the start of a run.
pub open spec fn run_start(session: SessionView) -> RunView {
    RunView { session, steps: 0, denials: 0 }
}

/// A run that ends, with its end recorded.
pub open spec fn ended(r: RunView, at: SystemTime, end: SessionEndView) -> RunView {
    RunView { session: with_event(r.session, at, end_event(end)), ..r }
}

/// How far a run has come.
#[derive(Debug, Clone, Copy, PartialEq, Eq, Structural)]
pub struct Progress {
    /// Model steps taken in this run.
    pub steps: u32,
    /// Denials since the last allowed call of this run.
    pub denials: u32,
}

/// What follows from a step of the model.
pub enum StepOutcome {
    /// The model answered, which ends the session.
    Answered(SessionEnd),
    /// The call is allowed and gets this number.
    Execute { allowed: AllowedAction, call_id: u64 },
    /// The call is denied. Too many denials in a row end the session.
    Denied { reason: String, halt: Option<SessionEnd> },
    /// The call needs a human, which ends the session.
    Escalated { reason: String, end: SessionEnd },
}

/// What follows from a step, as a mathematical value.
pub enum StepOutcomeView {
    Answered(SessionEndView),
    Execute { approval: Approval, call_id: u64 },
    Denied { reason: Seq<char>, halt: Option<SessionEndView> },
    Escalated { reason: Seq<char>, end: SessionEndView },
}

impl View for StepOutcome {
    type V = StepOutcomeView;

    open spec fn view(&self) -> StepOutcomeView {
        match self {
            StepOutcome::Answered(end) => StepOutcomeView::Answered(end@),
            StepOutcome::Execute { allowed, call_id } => StepOutcomeView::Execute {
                approval: allowed.approval(),
                call_id: *call_id,
            },
            StepOutcome::Denied { reason, halt } => StepOutcomeView::Denied {
                reason: reason@,
                halt: match halt {
                    Some(end) => Some(end@),
                    None => None,
                },
            },
            StepOutcome::Escalated { reason, end } => StepOutcomeView::Escalated {
                reason: reason@,
                end: end@,
            },
        }
    }
}

/// A run after a step of the model and before the executor had its turn, and
/// what follows from the step.
#[verifier::opaque]
pub open spec fn stepped(
    r: RunView,
    step: ModelStepView,
    decided_at: SystemTime,
    ended_at: SystemTime,
) -> (RunView, StepOutcomeView) {
    match step {
        ModelStepView::Stop { answer } => {
            let end = SessionEndView::Answer(answer);
            (ended(r, ended_at, end), StepOutcomeView::Answered(end))
        },
        ModelStepView::Call(call) => {
            let after = judged(r.session, decided_at, call);
            match decision_on(r.session, call) {
                DecisionView::Allow => (
                    RunView { session: after, denials: 0, ..r },
                    StepOutcomeView::Execute {
                        approval: Approval {
                            caps: r.session.caps,
                            calls_made: r.session.calls_made,
                            call,
                            context: r.session.context,
                        },
                        call_id: r.session.calls_made as u64,
                    },
                ),
                DecisionView::Deny { reason } => {
                    let told = RunView {
                        session: with_chunk(after, ProvenanceView::Monitor, denial_note(reason)),
                        denials: (r.denials + 1) as u32,
                        ..r
                    };
                    if told.denials >= r.session.caps.spend.max_consecutive_denials {
                        let end = SessionEndView::Halted {
                            reason: denial_limit_reason(told.denials as nat, reason),
                        };
                        (
                            ended(told, ended_at, end),
                            StepOutcomeView::Denied { reason, halt: Some(end) },
                        )
                    } else {
                        (told, StepOutcomeView::Denied { reason, halt: None })
                    }
                },
                DecisionView::Escalate { reason } => {
                    let end = SessionEndView::Halted { reason: escalation_reason(reason) };
                    (
                        ended(RunView { session: after, ..r }, ended_at, end),
                        StepOutcomeView::Escalated { reason, end },
                    )
                },
            }
        },
    }
}

/// A run at the start of a turn whose step counts.
pub open spec fn counted(r: RunView) -> RunView {
    RunView { steps: (r.steps + 1) as u32, ..r }
}

/// The budget that is exhausted at the start of a turn, if any.
pub open spec fn turn_fault(r: RunView, t: Turn) -> Option<Seq<char>> {
    budget_fault(r.session.caps.spend, clock::whole_nanos(t.elapsed), r.steps)
}

/// What follows from the step of the model in a turn that gets so far.
pub open spec fn turn_step(r: RunView, t: Turn) -> (RunView, StepOutcomeView) {
    stepped(counted(r), t.step, t.decided_at, t.ended_at)
}

/// One turn of a run: the state after it, and how the session ended, if it
/// did. The output of an allowed call is added to the context.
#[verifier::opaque]
pub open spec fn turn(r: RunView, t: Turn) -> (RunView, Option<SessionEndView>) {
    match turn_fault(r, t) {
        Some(reason) => {
            let end = SessionEndView::Halted { reason };
            (ended(r, t.ended_at, end), Some(end))
        },
        None => {
            let (after, outcome) = turn_step(r, t);
            match outcome {
                StepOutcomeView::Answered(end) => (after, Some(end)),
                StepOutcomeView::Execute { approval, call_id } => (
                    RunView {
                        session: with_chunk(
                            after.session,
                            output_provenance(approval.call.action.class(), call_id, t.output),
                            t.output.content,
                        ),
                        ..after
                    },
                    None,
                ),
                StepOutcomeView::Denied { halt, .. } => (after, halt),
                StepOutcomeView::Escalated { end, .. } => (after, Some(end)),
            }
        },
    }
}

/// What the session and its model say to each other in one turn: the model is
/// shown the context and proposes a step; it is told of a denial or an
/// escalation, and of the chunk that the turn adds.
#[verifier::opaque]
pub open spec fn turn_exchanges(r: RunView, t: Turn) -> Seq<Exchange> {
    if turn_fault(r, t) is Some {
        Seq::empty()
    } else {
        let asked = Exchange::Proposed { context: r.session.context, step: t.step };
        let told = Exchange::ToldChunk(turn(r, t).0.session.context.last());
        match turn_step(r, t).1 {
            StepOutcomeView::Answered(_) => seq![asked],
            StepOutcomeView::Execute { .. } => seq![asked, told],
            StepOutcomeView::Denied { reason, .. } => seq![
                asked,
                Exchange::ToldDenial { call: t.step->Call_0, reason },
                told,
            ],
            StepOutcomeView::Escalated { reason, .. } => seq![
                asked,
                Exchange::ToldDenial { call: t.step->Call_0, reason },
            ],
        }
    }
}

/// What the executor carries out in one turn: the call, if it is allowed.
#[verifier::opaque]
pub open spec fn turn_executions(r: RunView, t: Turn) -> Seq<(Approval, OutputView)> {
    if turn_fault(r, t) is Some {
        Seq::empty()
    } else {
        match turn_step(r, t).1 {
            StepOutcomeView::Execute { approval, .. } => seq![(approval, t.output)],
            _ => Seq::empty(),
        }
    }
}

impl SessionState {
    /// The state in the middle of a run.
    pub open spec fn in_run(&self, progress: Progress) -> RunView {
        RunView { session: self@, steps: progress.steps, denials: progress.denials }
    }

    /// Begins a turn, given the time since the run started. An exhausted
    /// budget ends the session; otherwise the step counts.
    pub fn begin_turn(&mut self, progress: &mut Progress, elapsed_nanos: u128) -> (res: Option<
        SessionEnd,
    >)
        requires
            old(self).wf(),
            old(self)@.audit.len() < u64::MAX,
        ensures
            final(self).wf(),
            final(self).sent() == audit::handed_since(
                old(self).sent(),
                old(self)@.audit,
                final(self)@.audit,
            ),
            match budget_fault(old(self)@.caps.spend, elapsed_nanos, old(progress).steps) {
                Some(reason) => {
                    &&& res matches Some(end) && end@ == (SessionEndView::Halted { reason })
                    &&& *final(progress) == *old(progress)
                    &&& exists|at: SystemTime|
                        final(self)@ == #[trigger] with_event(
                            old(self)@,
                            at,
                            end_event(SessionEndView::Halted { reason }),
                        )
                },
                None => {
                    &&& res is None
                    &&& *final(progress) == (Progress {
                        steps: (old(progress).steps + 1) as u32,
                        ..*old(progress)
                    })
                    &&& final(self)@ == old(self)@
                },
            },
    {
        let ghost before = self@.audit;
        let ghost sent = self.sent();
        proof {
            audit::lemma_handed(sent, before, arbitrary(), arbitrary());
        }
        match self.exhausted(elapsed_nanos, progress.steps) {
            Some(reason) => {
                let end = SessionEnd::Halted { reason };
                self.record_end(&end);
                proof {
                    audit::lemma_handed(sent, before, self@.audit.last(), arbitrary());
                }
                Some(end)
            },
            None => {
                progress.steps = progress.steps + 1;
                None
            },
        }
    }

    /// Takes a step of the model. Nothing is executed here: where the outcome
    /// is to execute, the output is to be handed to
    /// [`SessionState::accept_output`].
    pub fn take_step(&mut self, progress: &mut Progress, step: &ModelStep) -> (res: StepOutcome)
        requires
            old(self).wf(),
            old(self)@.audit.len() + 1 < u64::MAX,
            old(self)@.context.len() < u64::MAX,
            old(progress).denials < u32::MAX,
        ensures
            final(self).wf(),
            final(self).sent() == audit::handed_since(
                old(self).sent(),
                old(self)@.audit,
                final(self)@.audit,
            ),
            exists|decided_at: SystemTime, ended_at: SystemTime|
                (final(self).in_run(*final(progress)), res@) == #[trigger] stepped(
                    old(self).in_run(*old(progress)),
                    step@,
                    decided_at,
                    ended_at,
                ),
    {
        let ghost before = self.in_run(*progress);
        let ghost log = self@.audit;
        let ghost sent = self.sent();
        proof {
            reveal(stepped);
        }
        match step {
            ModelStep::Stop { answer } => {
                let end = SessionEnd::Answer(answer.clone());
                self.record_end(&end);
                proof {
                    let at = choose|at: SystemTime|
                        self@ == #[trigger] with_event(before.session, at, end_event(end@));
                    audit::lemma_handed(sent, log, self@.audit.last(), arbitrary());
                    assert(self.in_run(*progress) == stepped(before, step@, at, at).0);
                }
                StepOutcome::Answered(end)
            },
            ModelStep::Call(call) => {
                let call_id = self.calls_made as u64;
                let verdict = self.judge(call);
                let ghost after = self@;
                let ghost decided_at = choose|at: SystemTime|
                    after == #[trigger] judged(before.session, at, call@);
                proof {
                    audit::lemma_handed(sent, log, after.audit.last(), arbitrary());
                }
                match verdict {
                    Verdict::Allow(allowed) => {
                        progress.denials = 0;
                        assert(self.in_run(*progress) == stepped(
                            before,
                            step@,
                            decided_at,
                            decided_at,
                        ).0);
                        StepOutcome::Execute { allowed, call_id }
                    },
                    Verdict::Deny { reason } => {
                        progress.denials = progress.denials + 1;
                        self.note_denial(reason.as_str());
                        if progress.denials >= self.caps.spend.max_consecutive_denials {
                            let ghost told = self@;
                            let mut limit = text::decimal_text(progress.denials as u128);
                            limit.append(" consecutive denials reached; last reason: ");
                            limit.append(reason.as_str());
                            let end = SessionEnd::Halted { reason: limit };
                            self.record_end(&end);
                            proof {
                                let at = choose|at: SystemTime|
                                    self@ == #[trigger] with_event(told, at, end_event(end@));
                                audit::lemma_handed(
                                    sent,
                                    log,
                                    after.audit.last(),
                                    self@.audit.last(),
                                );
                                assert(self.in_run(*progress) == stepped(
                                    before,
                                    step@,
                                    decided_at,
                                    at,
                                ).0);
                            }
                            StepOutcome::Denied { reason, halt: Some(end) }
                        } else {
                            assert(self.in_run(*progress) == stepped(
                                before,
                                step@,
                                decided_at,
                                decided_at,
                            ).0);
                            StepOutcome::Denied { reason, halt: None }
                        }
                    },
                    Verdict::Escalate { reason } => {
                        let mut escalation = "escalation required: ".to_owned();
                        escalation.append(reason.as_str());
                        let end = SessionEnd::Halted { reason: escalation };
                        self.record_end(&end);
                        proof {
                            let at = choose|at: SystemTime|
                                self@ == #[trigger] with_event(after, at, end_event(end@));
                            audit::lemma_handed(
                                sent,
                                log,
                                after.audit.last(),
                                self@.audit.last(),
                            );
                            assert(self.in_run(*progress) == stepped(
                                before,
                                step@,
                                decided_at,
                                at,
                            ).0);
                        }
                        StepOutcome::Escalated { reason, end }
                    },
                }
            },
        }
    }
}

/// Outcomes are viewed whole.
pub proof fn law_outcomes_are_viewed_whole(outcome: StepOutcome)
    ensures
        match outcome {
            StepOutcome::Answered(end) => outcome@ == StepOutcomeView::Answered(end@),
            StepOutcome::Execute { allowed, call_id } => outcome@ == (StepOutcomeView::Execute {
                approval: allowed.approval(),
                call_id,
            }),
            StepOutcome::Denied { reason, halt } => outcome@ == (StepOutcomeView::Denied {
                reason: reason@,
                halt: shown_end(halt),
            }),
            StepOutcome::Escalated { reason, end } => outcome@ == (StepOutcomeView::Escalated {
                reason: reason@,
                end: end@,
            }),
        },
{
}

/// A run: turn after turn until the session ends.
pub open spec fn play(r: RunView, turns: Seq<Turn>) -> (RunView, Option<SessionEndView>)
    decreases turns.len(),
{
    if turns.len() == 0 {
        (r, None)
    } else {
        let (before, end) = play(r, turns.drop_last());
        match end {
            Some(_) => (before, end),
            None => turn(before, turns.last()),
        }
    }
}

/// What the session and its model say to each other in a run.
pub open spec fn exchanged(r: RunView, turns: Seq<Turn>) -> Seq<Exchange>
    decreases turns.len(),
{
    if turns.len() == 0 {
        Seq::empty()
    } else {
        let (before, end) = play(r, turns.drop_last());
        match end {
            Some(_) => exchanged(r, turns.drop_last()),
            None => exchanged(r, turns.drop_last()) + turn_exchanges(before, turns.last()),
        }
    }
}

/// What the executor carries out in a run.
pub open spec fn executed(r: RunView, turns: Seq<Turn>) -> Seq<(Approval, OutputView)>
    decreases turns.len(),
{
    if turns.len() == 0 {
        Seq::empty()
    } else {
        let (before, end) = play(r, turns.drop_last());
        match end {
            Some(_) => executed(r, turns.drop_last()),
            None => executed(r, turns.drop_last()) + turn_executions(before, turns.last()),
        }
    }
}

/// The times since the run started, at the start of each turn.
pub open spec fn times_of(turns: Seq<Turn>) -> Seq<Duration> {
    Seq::new(turns.len(), |i: int| turns[i].elapsed)
}

/// These turns make up a run that leads from `before` to `after` and ends with
/// `end` in the last of them.
pub open spec fn run_of(
    before: SessionView,
    turns: Seq<Turn>,
    after: SessionView,
    end: SessionEndView,
) -> bool {
    &&& 0 < turns.len() <= before.caps.spend.max_steps + 1
    &&& play(run_start(before), turns.drop_last()).1 is None
    &&& play(run_start(before), turns).0.session == after
    &&& play(run_start(before), turns).1 == Some(end)
}

/// A run leads from `before` to `after` and ends with `end`, where `said` is
/// what the session and its model said to each other, `done` is what the
/// executor carried out, and `times` holds the time since the run started at
/// the start of each turn.
pub open spec fn ran(
    before: SessionView,
    after: SessionView,
    end: SessionEndView,
    said: Seq<Exchange>,
    done: Seq<(Approval, OutputView)>,
    times: Seq<Duration>,
) -> bool {
    exists|turns: Seq<Turn>|
        {
            &&& #[trigger] run_of(before, turns, after, end)
            &&& said == exchanged(run_start(before), turns)
            &&& done == executed(run_start(before), turns)
            &&& times == times_of(turns)
        }
}

/// The turns of a run.
pub proof fn lemma_turns_of(
    before: SessionView,
    after: SessionView,
    end: SessionEndView,
    said: Seq<Exchange>,
    done: Seq<(Approval, OutputView)>,
    times: Seq<Duration>,
) -> (turns: Seq<Turn>)
    requires
        ran(before, after, end, said, done, times),
    ensures
        run_of(before, turns, after, end),
        exchanged(run_start(before), turns) == said,
        executed(run_start(before), turns) == done,
        times_of(turns) == times,
{
    choose|turns: Seq<Turn>|
        {
            &&& #[trigger] run_of(before, turns, after, end)
            &&& said == exchanged(run_start(before), turns)
            &&& done == executed(run_start(before), turns)
            &&& times == times_of(turns)
        }
}

/// A session: a model, an executor, a stopwatch, and the state between them.
pub struct Session<M: Model, E: ToolExecutor> {
    model: M,
    executor: E,
    watch: Stopwatch,
    state: SessionState,
}

impl<M: Model, E: ToolExecutor> Session<M, E> {
    /// The state of the session.
    pub closed spec fn state(&self) -> SessionState {
        self.state
    }

    /// The model of the session.
    pub closed spec fn model(&self) -> M {
        self.model
    }

    /// The readings of the stopwatch of the session.
    pub closed spec fn readings(&self) -> Seq<(Instant, Duration)> {
        self.watch.readings()
    }

    /// The exchanges the model of the session has taken part in.
    pub closed spec fn exchanges(&self) -> Seq<Exchange> {
        self.model.exchanges()
    }

    /// What the executor of the session has carried out.
    pub closed spec fn carried_out(&self) -> Seq<(Approval, OutputView)> {
        self.executor.carried_out()
    }

    pub fn new(model: M, executor: E, caps: Capabilities) -> (res: Session<M, E>)
        ensures
            res.state().wf(),
            res.state()@ == fresh(caps, Seq::empty()),
            res.state().sent() is None,
            res.model() == model,
            res.readings() == Seq::<(Instant, Duration)>::empty(),
            res.exchanges() == model.exchanges(),
            res.carried_out() == executor.carried_out(),
    {
        Session::with_audit(model, executor, caps, AuditLog::new())
    }

    /// A session that records in the given log.
    pub fn with_audit(model: M, executor: E, caps: Capabilities, audit: AuditLog) -> (res: Session<
        M,
        E,
    >)
        requires
            audit.wf(),
        ensures
            res.state().wf(),
            res.state()@ == fresh(caps, audit@),
            res.state().sent() == audit.sent(),
            res.model() == model,
            res.readings() == Seq::<(Instant, Duration)>::empty(),
            res.exchanges() == model.exchanges(),
            res.carried_out() == executor.carried_out(),
    {
        let watch = Stopwatch::new();
        Session { model, executor, watch, state: SessionState::new(caps, audit) }
    }

    /// Adds an instruction of the operator to the context and returns the id
    /// of its chunk.
    pub fn add_user_input(&mut self, content: &str) -> (res: u64)
        requires
            old(self).state().wf(),
            old(self).state()@.context.len() < u64::MAX,
        ensures
            final(self).state().wf(),
            res == old(self).state()@.context.len(),
            final(self).state()@ == with_chunk(
                old(self).state()@,
                ProvenanceView::User,
                content@,
            ),
            final(self).state().sent() == old(self).state().sent(),
            final(self).exchanges() == old(self).exchanges().push(
                Exchange::ToldChunk(final(self).state()@.context.last()),
            ),
            model::leads_to(
                old(self).model(),
                final(self).model(),
                seq![Exchange::ToldChunk(final(self).state()@.context.last())],
            ),
            final(self).readings() == old(self).readings(),
            final(self).carried_out() == old(self).carried_out(),
    {
        self.push_chunk(Provenance::User, content.to_owned())
    }

    /// Adds a system prompt to the context and returns the id of its chunk.
    pub fn add_system_prompt(&mut self, content: &str) -> (res: u64)
        requires
            old(self).state().wf(),
            old(self).state()@.context.len() < u64::MAX,
        ensures
            final(self).state().wf(),
            res == old(self).state()@.context.len(),
            final(self).state()@ == with_chunk(
                old(self).state()@,
                ProvenanceView::System,
                content@,
            ),
            final(self).state().sent() == old(self).state().sent(),
            final(self).exchanges() == old(self).exchanges().push(
                Exchange::ToldChunk(final(self).state()@.context.last()),
            ),
            model::leads_to(
                old(self).model(),
                final(self).model(),
                seq![Exchange::ToldChunk(final(self).state()@.context.last())],
            ),
            final(self).readings() == old(self).readings(),
            final(self).carried_out() == old(self).carried_out(),
    {
        self.push_chunk(Provenance::System, content.to_owned())
    }

    /// The chunks of the context, oldest first.
    pub fn context(&self) -> (res: &[Chunk])
        ensures
            crate::provenance::chunks_view(res@) == self.state()@.context,
    {
        self.state.context()
    }

    /// The audit log of the session.
    pub fn audit(&self) -> (res: &AuditLog)
        ensures
            res@ == self.state()@.audit,
            res.sent() == self.state().sent(),
            self.state().wf() ==> res.wf(),
    {
        self.state.audit()
    }

    fn push_chunk(&mut self, provenance: Provenance, content: String) -> (res: u64)
        requires
            old(self).state().wf(),
            old(self).state()@.context.len() < u64::MAX,
        ensures
            final(self).state().wf(),
            res == old(self).state()@.context.len(),
            final(self).state()@ == with_chunk(old(self).state()@, provenance@, content@),
            final(self).state().sent() == old(self).state().sent(),
            final(self).exchanges() == old(self).exchanges().push(
                Exchange::ToldChunk(final(self).state()@.context.last()),
            ),
            model::leads_to(
                old(self).model(),
                final(self).model(),
                seq![Exchange::ToldChunk(final(self).state()@.context.last())],
            ),
            final(self).readings() == old(self).readings(),
            final(self).carried_out() == old(self).carried_out(),
    {
        let id = self.state.push_chunk(provenance, content);
        self.model.notify_chunk(self.state.last_chunk());
        id
    }

    /// Drives the session until it ends. Whatever the model proposes, whatever
    /// the executor returns and whatever the clocks show, the outcome is that
    /// of [`play`] on what the model did propose, what the executor did return
    /// and what the stopwatch did read; and the model and the executor are
    /// asked and told what the run calls for, in its order, and nothing else.
    /// The stopwatch is started once, and read once in every turn.
    pub fn run(&mut self) -> (res: SessionEnd)
        requires
            old(self).state().wf(),
            old(self).state()@.context.len() + old(self).state()@.caps.spend.max_steps
                <= u64::MAX,
            old(self).state()@.audit.len() + old(self).state()@.caps.spend.max_steps < u64::MAX,
        ensures
            final(self).state().wf(),
            final(self).state().sent() == audit::handed_since(
                old(self).state().sent(),
                old(self).state()@.audit,
                final(self).state()@.audit,
            ),
            old(self).exchanges().is_prefix_of(final(self).exchanges()),
            old(self).carried_out().is_prefix_of(final(self).carried_out()),
            old(self).readings().is_prefix_of(final(self).readings()),
            clock::from_one_start(
                final(self).readings().skip(old(self).readings().len() as int),
            ),
            ran(
                old(self).state()@,
                final(self).state()@,
                res@,
                final(self).exchanges().skip(old(self).exchanges().len() as int),
                final(self).carried_out().skip(old(self).carried_out().len() as int),
                clock::times_read(
                    final(self).readings().skip(old(self).readings().len() as int),
                ),
            ),
            model::leads_to(
                old(self).model(),
                final(self).model(),
                final(self).exchanges().skip(old(self).exchanges().len() as int),
            ),
    {
        let ghost start = run_start(self.state@);
        let ghost sent = self.state.sent();
        let ghost told = self.model.exchanges();
        let ghost done = self.executor.carried_out();
        let ghost asked = self.model;
        let ghost readings = self.watch.readings();
        let ghost mut turns: Seq<Turn> = Seq::empty();
        let started = self.watch.start();
        let mut progress = Progress { steps: 0, denials: 0 };
        proof {
            audit::lemma_handed(sent, start.session.audit, arbitrary(), arbitrary());
            assert(told + exchanged(start, turns) =~= told);
            assert(done + executed(start, turns) =~= done);
            assert(readings + clock::all_from(started, times_of(turns)) =~= readings);
            model::lemma_leads_nowhere(asked);
        }
        loop
            invariant
                self.state.wf(),
                self.state.sent() == audit::handed_since(
                    sent,
                    start.session.audit,
                    self.state@.audit,
                ),
                start.session.audit.is_prefix_of(self.state@.audit),
                self.model.exchanges() == told + exchanged(start, turns),
                self.executor.carried_out() == done + executed(start, turns),
                model::leads_to(asked, self.model, exchanged(start, turns)),
                self.watch.readings() == readings + clock::all_from(started, times_of(turns)),
                clock::measured_from(started, times_of(turns)),
                play(start, turns) == (self.state.in_run(progress), None::<SessionEndView>),
                turns.len() == progress.steps,
                progress.denials <= progress.steps <= start.session.caps.spend.max_steps,
                self.state@.caps == start.session.caps,
                self.state@.context.len() <= start.session.context.len() + progress.steps,
                self.state@.audit.len() <= start.session.audit.len() + progress.steps,
                start == run_start(old(self).state()@),
                sent == old(self).state().sent(),
                told == old(self).exchanges(),
                done == old(self).carried_out(),
                asked == old(self).model(),
                readings == old(self).readings(),
                start.session.context.len() + start.session.caps.spend.max_steps <= u64::MAX,
                start.session.audit.len() + start.session.caps.spend.max_steps < u64::MAX,
            decreases start.session.caps.spend.max_steps - progress.steps,
        {
            let ghost now = self.state.in_run(progress);
            let ghost spoken = self.model;
            let elapsed = self.watch.read(&started);
            let end = self.take_turn(&mut progress, elapsed);
            proof {
                let t = choose|t: Turn|
                    {
                        &&& t.elapsed == elapsed
                        &&& (self.state.in_run(progress), shown_end(end)) == #[trigger] turn(now, t)
                        &&& self.model.exchanges() == told + exchanged(start, turns)
                            + turn_exchanges(now, t)
                        &&& self.executor.carried_out() == done + executed(start, turns)
                            + turn_executions(now, t)
                        &&& model::leads_to(spoken, self.model, turn_exchanges(now, t))
                    };
                lemma_one_more_turn(start, turns, now, t);
                model::lemma_leads_on(
                    asked,
                    spoken,
                    self.model,
                    exchanged(start, turns),
                    turn_exchanges(now, t),
                );
                assert(turns.push(t).drop_last() =~= turns);
                assert(times_of(turns.push(t)) =~= times_of(turns).push(elapsed));
                lemma_turn_grows(now, t);
                lemma_handed_on(sent, start.session.audit, now.session.audit, self.state@.audit);
                turns = turns.push(t);
                assert(self.model.exchanges() =~= told + exchanged(start, turns));
                assert(self.executor.carried_out() =~= done + executed(start, turns));
                assert(self.watch.readings() =~= readings + clock::all_from(
                    started,
                    times_of(turns),
                ));
            }
            if let Some(end) = end {
                proof {
                    lemma_run_over(
                        start.session,
                        turns,
                        told,
                        self.model.exchanges(),
                        done,
                        self.executor.carried_out(),
                    );
                    clock::lemma_all_from(started, times_of(turns));
                    assert(readings =~= self.watch.readings().subrange(0, readings.len() as int));
                    assert(self.watch.readings().skip(readings.len() as int) =~= clock::all_from(
                        started,
                        times_of(turns),
                    ));
                    assert(self.model.exchanges().skip(told.len() as int) =~= exchanged(
                        start,
                        turns,
                    ));
                }
                return end;
            }
        }
    }

    /// Takes one turn, given the time since the run started. Returns how the
    /// session ended, if it did.
    #[verifier::spinoff_prover]
    #[verifier::rlimit(30)]
    fn take_turn(&mut self, progress: &mut Progress, elapsed: Duration) -> (res: Option<SessionEnd>)
        requires
            old(self).state().wf(),
            old(self).state()@.context.len() < u64::MAX || old(progress).steps >= old(
                self,
            ).state()@.caps.spend.max_steps,
            old(self).state()@.audit.len() + 1 < u64::MAX || old(progress).steps >= old(
                self,
            ).state()@.caps.spend.max_steps,
            old(self).state()@.audit.len() < u64::MAX,
            old(progress).denials <= old(progress).steps,
        ensures
            final(self).state().wf(),
            final(self).state().sent() == audit::handed_since(
                old(self).state().sent(),
                old(self).state()@.audit,
                final(self).state()@.audit,
            ),
            exists|t: Turn|
                {
                    &&& t.elapsed == elapsed
                    &&& (final(self).state().in_run(*final(progress)), shown_end(res))
                        == #[trigger] turn(old(self).state().in_run(*old(progress)), t)
                    &&& final(self).exchanges() == old(self).exchanges() + turn_exchanges(
                        old(self).state().in_run(*old(progress)),
                        t,
                    )
                    &&& final(self).carried_out() == old(self).carried_out() + turn_executions(
                        old(self).state().in_run(*old(progress)),
                        t,
                    )
                    &&& model::leads_to(
                        old(self).model(),
                        final(self).model(),
                        turn_exchanges(old(self).state().in_run(*old(progress)), t),
                    )
                },
            final(self).readings() == old(self).readings(),
    {
        let ghost now = self.state.in_run(*progress);
        let ghost asked = self.model.exchanges();
        let ghost carried = self.executor.carried_out();
        let ghost silent = self.model;
        let ghost blank = Turn {
            elapsed,
            step: arbitrary(),
            decided_at: arbitrary(),
            output: arbitrary(),
            ended_at: arbitrary(),
        };
        if let Some(end) = self.state.begin_turn(progress, elapsed.as_nanos()) {
            proof {
                let at = choose|at: SystemTime|
                    self.state@ == #[trigger] with_event(now.session, at, end_event(end@));
                let last = Turn { ended_at: at, ..blank };
                lemma_faulty_turn(now, last);
                assert((self.state.in_run(*progress), Some(end@)) == turn(now, last));
                assert(asked =~= asked + turn_exchanges(now, last));
                assert(carried =~= carried + turn_executions(now, last));
                model::lemma_leads_nowhere(silent);
                assert(turn_exchanges(now, last) =~= Seq::<Exchange>::empty());
            }
            return Some(end);
        }
        let step = self.model.next_step(self.state.context());
        let ghost proposed = Exchange::Proposed { context: now.session.context, step: step@ };
        let ghost asked_once = self.model;
        assert(model::leads_to(silent, asked_once, seq![proposed]));
        let outcome = self.state.take_step(progress, &step);
        let ghost (decided_at, ended_at) = choose|decided_at: SystemTime, ended_at: SystemTime|
            (self.state.in_run(*progress), outcome@) == #[trigger] stepped(
                counted(now),
                step@,
                decided_at,
                ended_at,
            );
        let ghost heard = Turn { step: step@, decided_at, ended_at, ..blank };
        let ghost after = self.state.in_run(*progress);
        let ghost follows = outcome@;
        proof {
            lemma_turn_from_outcome(now, heard, after, follows);
        }
        match (outcome, step) {
            (StepOutcome::Execute { allowed, call_id }, ModelStep::Call(call)) => {
                let output = self.executor.execute(&allowed);
                let ghost last = Turn { output: output@, ..heard };
                self.state.accept_output(call.action_class(), call_id, output);
                self.model.notify_chunk(self.state.last_chunk());
                proof {
                    lemma_turn_from_outcome(now, last, after, follows);
                    assert((self.state.in_run(*progress), None::<SessionEndView>) == turn(
                        now,
                        last,
                    ));
                    assert(self.model.exchanges() =~= asked + turn_exchanges(now, last));
                    assert(self.executor.carried_out() =~= carried + turn_executions(now, last));
                    let told = Exchange::ToldChunk(self.state@.context.last());
                    assert(model::leads_to(asked_once, self.model, seq![told]));
                    model::lemma_leads_on(
                        silent,
                        asked_once,
                        self.model,
                        seq![proposed],
                        seq![told],
                    );
                    assert(turn_exchanges(now, last) =~= seq![proposed] + seq![told]);
                }
                None
            },
            (StepOutcome::Denied { reason, halt }, ModelStep::Call(call)) => {
                self.model.notify_denial(&call, reason.as_str());
                let ghost denied = self.model;
                let ghost notice = Exchange::ToldDenial { call: call@, reason: reason@ };
                self.model.notify_chunk(self.state.last_chunk());
                proof {
                    let told = Exchange::ToldChunk(self.state@.context.last());
                    assert(model::leads_to(asked_once, denied, seq![notice]));
                    assert(model::leads_to(denied, self.model, seq![told]));
                    model::lemma_leads_on(
                        silent,
                        asked_once,
                        denied,
                        seq![proposed],
                        seq![notice],
                    );
                    model::lemma_leads_on(
                        silent,
                        denied,
                        self.model,
                        seq![proposed] + seq![notice],
                        seq![told],
                    );
                    assert(turn_exchanges(now, heard) =~= seq![proposed] + seq![notice]
                        + seq![told]);
                    assert((self.state.in_run(*progress), shown_end(halt)) == turn(now, heard));
                    assert(self.model.exchanges() =~= asked + turn_exchanges(now, heard));
                    assert(carried =~= carried + turn_executions(now, heard));
                }
                halt
            },
            (StepOutcome::Escalated { reason, end }, ModelStep::Call(call)) => {
                self.model.notify_denial(&call, reason.as_str());
                proof {
                    let notice = Exchange::ToldDenial { call: call@, reason: reason@ };
                    assert(model::leads_to(asked_once, self.model, seq![notice]));
                    model::lemma_leads_on(
                        silent,
                        asked_once,
                        self.model,
                        seq![proposed],
                        seq![notice],
                    );
                    assert(turn_exchanges(now, heard) =~= seq![proposed] + seq![notice]);
                    assert((self.state.in_run(*progress), Some(end@)) == turn(now, heard));
                    assert(self.model.exchanges() =~= asked + turn_exchanges(now, heard));
                    assert(carried =~= carried + turn_executions(now, heard));
                }
                Some(end)
            },
            (StepOutcome::Answered(end), _) => {
                proof {
                    assert(turn_exchanges(now, heard) =~= seq![proposed]);
                    assert((self.state.in_run(*progress), Some(end@)) == turn(now, heard));
                    assert(self.model.exchanges() =~= asked + turn_exchanges(now, heard));
                    assert(carried =~= carried + turn_executions(now, heard));
                }
                Some(end)
            },
            // Only a call has any of the other outcomes.
            (_, ModelStep::Stop { answer }) => Some(SessionEnd::Answer(answer)),
        }
    }
}

/// The view of how a session ended, if it did.
pub open spec fn shown_end(end: Option<SessionEnd>) -> Option<SessionEndView> {
    match end {
        Some(end) => Some(end@),
        None => None,
    }
}

/// A turn that ends for want of a budget: the model is not asked.
pub proof fn lemma_faulty_turn(r: RunView, t: Turn)
    requires
        turn_fault(r, t) is Some,
    ensures
        ({
            let end = SessionEndView::Halted { reason: turn_fault(r, t).unwrap() };
            turn(r, t) == (ended(r, t.ended_at, end), Some(end))
        }),
        turn_exchanges(r, t) == Seq::<Exchange>::empty(),
        turn_executions(r, t) == Seq::<(Approval, OutputView)>::empty(),
{
    reveal(turn);
    reveal(turn_exchanges);
    reveal(turn_executions);
}

/// What follows in a turn from the step of the model.
pub proof fn lemma_turn_after_step(r: RunView, t: Turn)
    requires
        turn_fault(r, t) is None,
    ensures
        ({
            let (after, outcome) = turn_step(r, t);
            let asked = Exchange::Proposed { context: r.session.context, step: t.step };
            match t.step {
                ModelStepView::Stop { answer } => {
                    let end = SessionEndView::Answer(answer);
                    &&& outcome == StepOutcomeView::Answered(end)
                    &&& after == ended(counted(r), t.ended_at, end)
                    &&& turn(r, t) == (after, Some(end))
                    &&& turn_exchanges(r, t) == seq![asked]
                    &&& turn_executions(r, t) == Seq::<(Approval, OutputView)>::empty()
                },
                ModelStepView::Call(call) => {
                    let judged = RunView {
                        session: judged(r.session, t.decided_at, call),
                        ..counted(r)
                    };
                    match decision_on(r.session, call) {
                        DecisionView::Allow => {
                            let approval = Approval {
                                caps: r.session.caps,
                                calls_made: r.session.calls_made,
                                call,
                                context: r.session.context,
                            };
                            let call_id = r.session.calls_made as u64;
                            let next = RunView {
                                session: with_chunk(
                                    judged.session,
                                    output_provenance(call.action.class(), call_id, t.output),
                                    t.output.content,
                                ),
                                denials: 0,
                                ..judged
                            };
                            &&& outcome == StepOutcomeView::Execute { approval, call_id }
                            &&& after == (RunView { denials: 0, ..judged })
                            &&& turn(r, t) == (next, None::<SessionEndView>)
                            &&& turn_exchanges(r, t) == seq![
                                asked,
                                Exchange::ToldChunk(next.session.context.last()),
                            ]
                            &&& turn_executions(r, t) == seq![(approval, t.output)]
                        },
                        DecisionView::Deny { reason } => {
                            let told = RunView {
                                session: with_chunk(
                                    judged.session,
                                    ProvenanceView::Monitor,
                                    denial_note(reason),
                                ),
                                denials: (r.denials + 1) as u32,
                                ..judged
                            };
                            let end = SessionEndView::Halted {
                                reason: denial_limit_reason(told.denials as nat, reason),
                            };
                            let halt = if told.denials
                                >= r.session.caps.spend.max_consecutive_denials {
                                Some(end)
                            } else {
                                None
                            };
                            &&& outcome == (StepOutcomeView::Denied { reason, halt })
                            &&& after == if halt is Some {
                                ended(told, t.ended_at, end)
                            } else {
                                told
                            }
                            &&& turn(r, t) == (after, halt)
                            &&& turn_exchanges(r, t) == seq![
                                asked,
                                Exchange::ToldDenial { call, reason },
                                Exchange::ToldChunk(told.session.context.last()),
                            ]
                            &&& turn_executions(r, t) == Seq::<(Approval, OutputView)>::empty()
                        },
                        DecisionView::Escalate { reason } => {
                            let end = SessionEndView::Halted { reason: escalation_reason(reason) };
                            &&& outcome == (StepOutcomeView::Escalated { reason, end })
                            &&& after == ended(judged, t.ended_at, end)
                            &&& turn(r, t) == (after, Some(end))
                            &&& turn_exchanges(r, t) == seq![
                                asked,
                                Exchange::ToldDenial { call, reason },
                            ]
                            &&& turn_executions(r, t) == Seq::<(Approval, OutputView)>::empty()
                        },
                    }
                },
            }
        }),
{
    reveal(turn);
    reveal(turn_exchanges);
    reveal(turn_executions);
    reveal(stepped);
}

/// What follows in a turn from the outcome of the step.
proof fn lemma_turn_from_outcome(r: RunView, t: Turn, after: RunView, outcome: StepOutcomeView)
    requires
        turn_fault(r, t) is None,
        turn_step(r, t) == (after, outcome),
    ensures
        outcome is Answered <==> t.step is Stop,
        ({
            let asked = Exchange::Proposed { context: r.session.context, step: t.step };
            match outcome {
                StepOutcomeView::Answered(end) => {
                    &&& turn(r, t) == (after, Some(end))
                    &&& turn_exchanges(r, t) == seq![asked]
                    &&& turn_executions(r, t).len() == 0
                },
                StepOutcomeView::Execute { approval, call_id } => {
                    let next = RunView {
                        session: with_chunk(
                            after.session,
                            output_provenance(t.step->Call_0.action.class(), call_id, t.output),
                            t.output.content,
                        ),
                        ..after
                    };
                    &&& after.session.context == r.session.context
                    &&& turn(r, t) == (next, None::<SessionEndView>)
                    &&& turn_exchanges(r, t) == seq![
                        asked,
                        Exchange::ToldChunk(next.session.context.last()),
                    ]
                    &&& turn_executions(r, t) == seq![(approval, t.output)]
                },
                StepOutcomeView::Denied { reason, halt } => {
                    &&& after.session.context.len() == r.session.context.len() + 1
                    &&& turn(r, t) == (after, halt)
                    &&& turn_exchanges(r, t) == seq![
                        asked,
                        Exchange::ToldDenial { call: t.step->Call_0, reason },
                        Exchange::ToldChunk(after.session.context.last()),
                    ]
                    &&& turn_executions(r, t).len() == 0
                },
                StepOutcomeView::Escalated { reason, end } => {
                    &&& turn(r, t) == (after, Some(end))
                    &&& turn_exchanges(r, t) == seq![
                        asked,
                        Exchange::ToldDenial { call: t.step->Call_0, reason },
                    ]
                    &&& turn_executions(r, t).len() == 0
                },
            }
        }),
{
    reveal(turn);
    reveal(turn_exchanges);
    reveal(turn_executions);
    reveal(stepped);
}

/// A turn keeps the bundle, only adds to the log, and goes on only after it
/// counted a step and recorded one decision.
proof fn lemma_turn_grows(r: RunView, t: Turn)
    requires
        r.denials <= r.steps,
    ensures
        ({
            let (after, end) = turn(r, t);
            &&& after.session.caps == r.session.caps
            &&& r.session.audit.is_prefix_of(after.session.audit)
            &&& end is None ==> {
                &&& r.steps < r.session.caps.spend.max_steps
                &&& after.steps == r.steps + 1
                &&& after.denials <= r.denials + 1
                &&& after.session.audit.len() == r.session.audit.len() + 1
                &&& after.session.context.len() == r.session.context.len() + 1
            }
        }),
{
    reveal(turn);
    reveal(stepped);
    let after = turn(r, t).0;
    assert(r.session.audit =~= after.session.audit.subrange(0, r.session.audit.len() as int));
}

/// One more turn of a run that has not ended.
proof fn lemma_one_more_turn(r: RunView, turns: Seq<Turn>, now: RunView, t: Turn)
    requires
        play(r, turns) == (now, None::<SessionEndView>),
    ensures
        play(r, turns.push(t)) == turn(now, t),
        exchanged(r, turns.push(t)) == exchanged(r, turns) + turn_exchanges(now, t),
        executed(r, turns.push(t)) == executed(r, turns) + turn_executions(now, t),
{
    assert(turns.push(t).drop_last() =~= turns);
}

/// What was handed to the sink so far and in this turn.
proof fn lemma_handed_on(
    sent: Option<Seq<Seq<char>>>,
    start: Seq<AuditEntryView>,
    now: Seq<AuditEntryView>,
    next: Seq<AuditEntryView>,
)
    requires
        start.is_prefix_of(now),
        now.is_prefix_of(next),
    ensures
        start.is_prefix_of(next),
        audit::handed_since(audit::handed_since(sent, start, now), now, next)
            == audit::handed_since(sent, start, next),
{
    audit::lemma_handed_twice(sent, start, now, next);
    assert(start =~= next.subrange(0, start.len() as int)) by {
        assert forall|i: int| 0 <= i < start.len() implies start[i] == next[i] by {
            assert(now.subrange(0, start.len() as int)[i] == now[i]);
            assert(next.subrange(0, now.len() as int)[i] == next[i]);
        }
    }
}

/// A run that has ended, with the histories of its model and its executor.
proof fn lemma_run_over(
    s: SessionView,
    turns: Seq<Turn>,
    told: Seq<Exchange>,
    exchanges: Seq<Exchange>,
    done: Seq<(Approval, OutputView)>,
    carried: Seq<(Approval, OutputView)>,
)
    requires
        run_of(
            s,
            turns,
            play(run_start(s), turns).0.session,
            play(run_start(s), turns).1.unwrap(),
        ),
        exchanges == told + exchanged(run_start(s), turns),
        carried == done + executed(run_start(s), turns),
    ensures
        told.is_prefix_of(exchanges),
        done.is_prefix_of(carried),
        ran(
            s,
            play(run_start(s), turns).0.session,
            play(run_start(s), turns).1.unwrap(),
            exchanges.skip(told.len() as int),
            carried.skip(done.len() as int),
            times_of(turns),
        ),
{
    assert(told =~= exchanges.subrange(0, told.len() as int));
    assert(done =~= carried.subrange(0, done.len() as int));
    assert(exchanges.skip(told.len() as int) =~= exchanged(run_start(s), turns));
    assert(carried.skip(done.len() as int) =~= executed(run_start(s), turns));
}

} // verus!
