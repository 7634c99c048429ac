//! Tools: the actions a model may propose and the results of running them.
//!
//! What a tool does is separate from how it runs. This module holds the
//! actions, the calls that propose them, and the interface of an executor. An
//! executor accepts only an [`AllowedAction`], which only the monitor makes.

use crate::capability::ActionClass;
pub use crate::executor::{ExecutorLimits, SandboxedExecutor};
pub use crate::monitor::AllowedAction;
use crate::monitor::Approval;
use crate::provenance::Provenance;
use vstd::prelude::*;

verus! {

/// A structured action that a model may propose.
#[derive(Debug)]
pub enum Action {
    FsRead { path: String },
    FsWrite { path: String, content: String },
    NetGet { url: String },
    Exec { cmd: String },
}

/// An action as a mathematical value.
pub enum ActionView {
    FsRead { path: Seq<char> },
    FsWrite { path: Seq<char>, content: Seq<char> },
    NetGet { url: Seq<char> },
    Exec { cmd: Seq<char> },
}

impl View for Action {
    type V = ActionView;

    open spec fn view(&self) -> ActionView {
        match self {
            Action::FsRead { path } => ActionView::FsRead { path: path@ },
            Action::FsWrite { path, content } => ActionView::FsWrite {
                path: path@,
                content: content@,
            },
            Action::NetGet { url } => ActionView::NetGet { url: url@ },
            Action::Exec { cmd } => ActionView::Exec { cmd: cmd@ },
        }
    }
}

impl ActionView {
    /// The class an action belongs to.
    pub open spec fn class(self) -> ActionClass {
        match self {
            ActionView::FsRead { .. } => ActionClass::FsRead,
            ActionView::FsWrite { .. } => ActionClass::FsWrite,
            ActionView::NetGet { .. } => ActionClass::NetGet,
            ActionView::Exec { .. } => ActionClass::Exec,
        }
    }
}

impl Clone for Action {
    fn clone(&self) -> (res: Action)
        ensures
            res@ == self@,
    {
        match self {
            Action::FsRead { path } => Action::FsRead { path: path.clone() },
            Action::FsWrite { path, content } => Action::FsWrite {
                path: path.clone(),
                content: content.clone(),
            },
            Action::NetGet { url } => Action::NetGet { url: url.clone() },
            Action::Exec { cmd } => Action::Exec { cmd: cmd.clone() },
        }
    }
}

/// A proposed action together with the ids of the context chunks that the
/// model cites as its justification.
#[derive(Debug)]
pub struct ToolCall {
    pub action: Action,
    pub justification_chunks: Vec<u64>,
}

/// A tool call as a mathematical value.
pub struct ToolCallView {
    pub action: ActionView,
    pub justification_chunks: Seq<u64>,
}

impl View for ToolCall {
    type V = ToolCallView;

    open spec fn view(&self) -> ToolCallView {
        ToolCallView {
            action: self.action@,
            justification_chunks: self.justification_chunks@,
        }
    }
}

impl Clone for ToolCall {
    fn clone(&self) -> (res: ToolCall)
        ensures
            res@ == self@,
    {
        let justification_chunks = self.justification_chunks.clone();
        assert(justification_chunks@ =~= self.justification_chunks@);
        ToolCall { action: self.action.clone(), justification_chunks }
    }
}

impl ToolCall {
    /// The class of the proposed action.
    pub fn action_class(&self) -> (res: ActionClass)
        ensures
            res == self@.action.class(),
    {
        match &self.action {
            Action::FsRead { .. } => ActionClass::FsRead,
            Action::FsWrite { .. } => ActionClass::FsWrite,
            Action::NetGet { .. } => ActionClass::NetGet,
            Action::Exec { .. } => ActionClass::Exec,
        }
    }
}

/// The result of executing an allowed action. `provenance_hint`, when present,
/// tells the orchestrator how to tag the resulting chunk.
#[derive(Debug)]
pub struct Output {
    pub content: String,
    pub provenance_hint: Option<Provenance>,
}

/// An output as a mathematical value.
pub struct OutputView {
    pub content: Seq<char>,
    pub provenance_hint: Option<crate::provenance::ProvenanceView>,
}

impl View for Output {
    type V = OutputView;

    open spec fn view(&self) -> OutputView {
        OutputView {
            content: self.content@,
            provenance_hint: match self.provenance_hint {
                Some(p) => Some(p@),
                None => None,
            },
        }
    }
}

impl Clone for Output {
    fn clone(&self) -> (res: Output)
        ensures
            res@ == self@,
    {
        Output {
            content: self.content.clone(),
            provenance_hint: match &self.provenance_hint {
                Some(p) => Some(p.clone()),
                None => None,
            },
        }
    }
}

/// Something that can carry out the actions that the monitor allowed.
pub trait ToolExecutor {
    /// What the executor has carried out, oldest first: the approval it was
    /// handed, and what it returned.
    closed spec fn carried_out(&self) -> Seq<(Approval, OutputView)> {
        arbitrary()
    }

    /// Carries out an allowed action and returns its output.
    fn execute(&mut self, allowed: &AllowedAction) -> (res: Output)
        ensures
            final(self).carried_out() == old(self).carried_out().push((allowed.approval(), res@)),
    ;
}

/// The class of a call is that of its action, whatever the call cites.
pub proof fn law_class_is_that_of_the_action(call: &ToolCall, res: ActionClass)
    requires
        call_ensures(ToolCall::action_class, (call,), res),
    ensures
        call.action is FsRead <==> res is FsRead,
        call.action is FsWrite <==> res is FsWrite,
        call.action is NetGet <==> res is NetGet,
        call.action is Exec <==> res is Exec,
{
}

} // verus!
