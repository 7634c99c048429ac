//! The model interface.
//!
//! A real integration plugs a language model behind [`Model`].
//! [`ScriptedModel`] plays back pre-canned steps, so that sessions are
//! reproducible without one.
//!
//! The trait includes notification hooks. Stateless models ignore them;
//! stateful models use them to keep their conversation history in step.

use crate::provenance;
use crate::provenance::{Chunk, ChunkView};
use crate::tools::{ToolCall, ToolCallView};
use std::collections::VecDeque;
use vstd::prelude::*;

verus! {

/// What a model proposes to do next.
#[derive(Debug)]
pub enum ModelStep {
    Call(ToolCall),
    Stop { answer: String },
}

/// A model step as a mathematical value.
pub enum ModelStepView {
    Call(ToolCallView),
    Stop { answer: Seq<char> },
}

impl View for ModelStep {
    type V = ModelStepView;

    open spec fn view(&self) -> ModelStepView {
        match self {
            ModelStep::Call(call) => ModelStepView::Call(call@),
            ModelStep::Stop { answer } => ModelStepView::Stop { answer: answer@ },
        }
    }
}

impl Clone for ModelStep {
    fn clone(&self) -> (res: ModelStep)
        ensures
            res@ == self@,
    {
        match self {
            ModelStep::Call(call) => ModelStep::Call(call.clone()),
            ModelStep::Stop { answer } => ModelStep::Stop { answer: answer.clone() },
        }
    }
}

/// One exchange between a session and its model.
pub enum Exchange {
    /// The model was shown the context and proposed a step.
    Proposed { context: Seq<ChunkView>, step: ModelStepView },
    /// The model was told of a chunk that was added to the context.
    ToldChunk(ChunkView),
    /// The model was told that its call was denied or escalated, and why.
    ToldDenial { call: ToolCallView, reason: Seq<char> },
}

/// A model that drives a session.
pub trait Model {
    /// The exchanges the model has taken part in, oldest first.
    closed spec fn exchanges(&self) -> Seq<Exchange> {
        arbitrary()
    }

    /// Whether these exchanges may come next, as far as the model can tell
    /// from where it stands. A model that promises nothing leaves this as it
    /// is.
    open spec fn may_go_on(&self, said: Seq<Exchange>) -> bool {
        true
    }

    /// Proposes the next step given the current context.
    fn next_step(&mut self, context: &[Chunk]) -> (res: ModelStep)
        ensures
            final(self).exchanges() == old(self).exchanges().push(
                Exchange::Proposed {
                    context: provenance::chunks_view(context@),
                    step: res@,
                },
            ),
            forall|rest: Seq<Exchange>| #[trigger]
                final(self).may_go_on(rest) ==> old(self).may_go_on(
                    seq![
                        Exchange::Proposed {
                            context: provenance::chunks_view(context@),
                            step: res@,
                        },
                    ] + rest,
                ),
    ;

    /// Tells the model that a chunk has been added to the context. Stateful
    /// models use this to keep their own history fresh; others ignore it.
    fn notify_chunk(&mut self, chunk: &Chunk)
        ensures
            final(self).exchanges() == old(self).exchanges().push(Exchange::ToldChunk(chunk@)),
            forall|rest: Seq<Exchange>| #[trigger]
                final(self).may_go_on(rest) ==> old(self).may_go_on(
                    seq![Exchange::ToldChunk(chunk@)] + rest,
                ),
    ;

    /// Tells the model that its most recently proposed call was denied or
    /// escalated by the monitor.
    fn notify_denial(&mut self, call: &ToolCall, reason: &str)
        ensures
            final(self).exchanges() == old(self).exchanges().push(
                Exchange::ToldDenial { call: call@, reason: reason@ },
            ),
            forall|rest: Seq<Exchange>| #[trigger]
                final(self).may_go_on(rest) ==> old(self).may_go_on(
                    seq![Exchange::ToldDenial { call: call@, reason: reason@ }] + rest,
                ),
    ;
}

/// These exchanges lead a model from `before` to `after`: whatever may come
/// next then, could come after them before.
pub open spec fn leads_to<M: Model>(before: M, after: M, said: Seq<Exchange>) -> bool {
    forall|rest: Seq<Exchange>| #[trigger]
        after.may_go_on(rest) ==> before.may_go_on(said + rest)
}

/// A model to which nothing is said.
pub proof fn lemma_leads_nowhere<M: Model>(model: M)
    ensures
        leads_to(model, model, Seq::empty()),
{
    assert forall|rest: Seq<Exchange>| #[trigger] model.may_go_on(rest) implies model.may_go_on(
        Seq::<Exchange>::empty() + rest,
    ) by {
        assert(Seq::<Exchange>::empty() + rest =~= rest);
    }
}

/// Exchanges that follow on each other.
pub proof fn lemma_leads_on<M: Model>(
    a: M,
    b: M,
    c: M,
    said: Seq<Exchange>,
    more: Seq<Exchange>,
)
    requires
        leads_to(a, b, said),
        leads_to(b, c, more),
    ensures
        leads_to(a, c, said + more),
{
    assert forall|rest: Seq<Exchange>| #[trigger] c.may_go_on(rest) implies a.may_go_on(
        said + more + rest,
    ) by {
        assert(b.may_go_on(more + rest));
        assert(said + more + rest =~= said + (more + rest));
    }
}

/// Whatever a model may go on with after some exchanges, it could go on with
/// before them, after those exchanges.
pub proof fn law_exchanges_lead_on<M: Model>(
    before: M,
    after: M,
    said: Seq<Exchange>,
    rest: Seq<Exchange>,
)
    requires
        leads_to(before, after, said),
        after.may_go_on(rest),
    ensures
        before.may_go_on(said + rest),
{
}

/// The views of the steps of a script.
pub open spec fn step_views(v: Seq<ModelStep>) -> Seq<ModelStepView> {
    Seq::new(v.len(), |i: int| v[i]@)
}

/// The step that a script has at position `i`. Once it is played, it stops.
pub open spec fn script_step(script: Seq<ModelStepView>, i: int) -> ModelStepView {
    if i < script.len() {
        script[i]
    } else {
        ModelStepView::Stop { answer: "(script exhausted)"@ }
    }
}

/// What remains of a script after the next step.
pub open spec fn script_rest(script: Seq<ModelStepView>) -> Seq<ModelStepView> {
    if script.len() > 0 {
        script.drop_first()
    } else {
        script
    }
}

/// The exchanges follow the script: whatever is told in between, each step that
/// is proposed is the next one of the script.
pub open spec fn follows(script: Seq<ModelStepView>, said: Seq<Exchange>) -> bool
    decreases said.len(),
{
    if said.len() == 0 {
        true
    } else {
        match said[0] {
            Exchange::Proposed { step, .. } => step == script_step(script, 0) && follows(
                script_rest(script),
                said.drop_first(),
            ),
            _ => follows(script, said.drop_first()),
        }
    }
}

/// A model that follows a hard-coded script of steps.
pub struct ScriptedModel {
    steps: VecDeque<ModelStep>,
    history: Ghost<Seq<Exchange>>,
}

impl ScriptedModel {
    /// The steps that are still to be played.
    pub closed spec fn script(&self) -> Seq<ModelStep> {
        self.steps@
    }

    pub fn new(steps: Vec<ModelStep>) -> (res: ScriptedModel)
        ensures
            res.script() == steps@,
            res.exchanges() == Seq::<Exchange>::empty(),
    {
        let ghost all = steps@;
        let mut queue: VecDeque<ModelStep> = VecDeque::new();
        for step in it: steps.into_iter()
            invariant
                it.seq() == all,
                queue@ == all.take(it.index() as int),
        {
            queue.push_back(step);
        }
        assert(all.take(all.len() as int) =~= all);
        ScriptedModel { steps: queue, history: Ghost(Seq::empty()) }
    }
}

impl Model for ScriptedModel {
    closed spec fn exchanges(&self) -> Seq<Exchange> {
        self.history@
    }

    open spec fn may_go_on(&self, said: Seq<Exchange>) -> bool {
        follows(step_views(self.script()), said)
    }

    /// Plays the next step of the script, and stops with `(script exhausted)`
    /// once there is none left. The context has no influence.
    fn next_step(&mut self, context: &[Chunk]) -> (res: ModelStep)
        ensures
            old(self).script().len() > 0 ==> {
                &&& res == old(self).script()[0]
                &&& final(self).script() == old(self).script().drop_first()
            },
            old(self).script().len() == 0 ==> {
                &&& res@ == (ModelStepView::Stop { answer: "(script exhausted)"@ })
                &&& final(self).script() == old(self).script()
            },
    {
        let ghost script = step_views(self.script());
        let step = match self.steps.pop_front() {
            Some(step) => step,
            None => ModelStep::Stop { answer: "(script exhausted)".to_owned() },
        };
        self.history = Ghost(
            self.history@.push(
                Exchange::Proposed { context: provenance::chunks_view(context@), step: step@ },
            ),
        );
        proof {
            assert(step_views(self.script()) =~= script_rest(script));
            lemma_first(
                Exchange::Proposed { context: provenance::chunks_view(context@), step: step@ },
            );
        }
        step
    }

    /// The script plays on unchanged.
    fn notify_chunk(&mut self, chunk: &Chunk)
        ensures
            final(self).script() == old(self).script(),
    {
        self.history = Ghost(self.history@.push(Exchange::ToldChunk(chunk@)));
        proof {
            lemma_first(Exchange::ToldChunk(chunk@));
        }
    }

    /// The script plays on unchanged.
    fn notify_denial(&mut self, call: &ToolCall, reason: &str)
        ensures
            final(self).script() == old(self).script(),
    {
        self.history = Ghost(
            self.history@.push(Exchange::ToldDenial { call: call@, reason: reason@ }),
        );
        proof {
            lemma_first(Exchange::ToldDenial { call: call@, reason: reason@ });
        }
    }
}

proof fn lemma_first(x: Exchange)
    ensures
        forall|rest: Seq<Exchange>|
            #![trigger seq![x] + rest]
            (seq![x] + rest)[0] == x && (seq![x] + rest).drop_first() == rest,
{
    assert forall|rest: Seq<Exchange>|
        #![trigger seq![x] + rest]
        (seq![x] + rest)[0] == x && (seq![x] + rest).drop_first() == rest by {
        assert((seq![x] + rest).drop_first() =~= rest);
    }
}

/// The steps that were proposed, in order.
pub open spec fn proposed_steps(said: Seq<Exchange>) -> Seq<ModelStepView>
    decreases said.len(),
{
    if said.len() == 0 {
        Seq::empty()
    } else {
        match said[0] {
            Exchange::Proposed { step, .. } => seq![step] + proposed_steps(said.drop_first()),
            _ => proposed_steps(said.drop_first()),
        }
    }
}

/// The steps that were proposed earlier, and those that were proposed since.
pub proof fn lemma_proposed_since(said: Seq<Exchange>, more: Seq<Exchange>)
    ensures
        proposed_steps(said + more) == proposed_steps(said) + proposed_steps(more),
    decreases said.len(),
{
    if said.len() > 0 {
        lemma_proposed_since(said.drop_first(), more);
        assert((said + more).drop_first() =~= said.drop_first() + more);
    } else {
        assert(said + more =~= more);
    }
    assert(proposed_steps(said + more) =~= proposed_steps(said) + proposed_steps(more));
}

/// Where nothing is proposed after the first exchange.
pub proof fn lemma_proposed_once(said: Seq<Exchange>)
    requires
        forall|i: int| 1 <= i < said.len() ==> !(#[trigger] said[i] is Proposed),
    ensures
        proposed_steps(said) == match said.first() {
            Exchange::Proposed { step, .. } if said.len() > 0 => seq![step],
            _ => Seq::empty(),
        },
    decreases said.len(),
{
    if said.len() > 0 {
        let rest = said.drop_first();
        assert forall|i: int| 0 <= i < rest.len() implies !(#[trigger] rest[i] is Proposed) by {
            assert(rest[i] == said[i + 1]);
        }
        lemma_proposed_once(rest);
    }
    assert(proposed_steps(said) =~= match said.first() {
        Exchange::Proposed { step, .. } if said.len() > 0 => seq![step],
        _ => Seq::empty(),
    });
}

/// A script is played in order and without gaps, and then the model stops with
/// `(script exhausted)`, whatever it is told in between and whatever context it
/// is shown.
pub proof fn law_script_is_followed(script: Seq<ModelStepView>, said: Seq<Exchange>, i: int)
    requires
        follows(script, said),
        0 <= i < proposed_steps(said).len(),
    ensures
        proposed_steps(said)[i] == script_step(script, i),
    decreases said.len(),
{
    match said[0] {
        Exchange::Proposed { step, .. } => {
            if i > 0 {
                law_script_is_followed(script_rest(script), said.drop_first(), i - 1);
            }
        },
        _ => {
            law_script_is_followed(script, said.drop_first(), i);
        },
    }
}

} // verus!
