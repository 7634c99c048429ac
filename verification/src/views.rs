//! What the views of values hold: everything that the values do.
//!
//! The contracts of this crate speak of values by their views. The laws here
//! say that no view leaves out, changes or makes up anything.

use crate::audit;
use crate::audit::{AuditEntry, AuditEntryView, AuditEvent, AuditEventView};
use crate::executor::{ExecReply, ExecReplyView, NetReply, NetReplyView, Task, TaskView};
use crate::model;
use crate::model::{ModelStep, ModelStepView};
use crate::monitor::{Decision, DecisionView};
use crate::openai;
use crate::openai::{Message, MessageView, Reply, ReplyView, ToolCallRequest, ToolCallRequestView};
use crate::orchestrator::{SessionEnd, SessionEndView};
use crate::path;
use crate::path::{Component, ComponentView};
use crate::provenance;
use crate::provenance::{Chunk, Provenance, ProvenanceView};
use crate::sandbox::CommandLine;
use crate::text;
use crate::tools::{Action, ActionView, Output, ToolCall};
use crate::walk;
use crate::walk::{LocateFault, LocateFaultView, PathGrant, WalkPlan};
use vstd::prelude::*;

verus! {

/// Actions, calls and outputs are viewed whole.
pub proof fn law_calls_are_viewed_whole(action: Action, call: ToolCall, output: Output)
    ensures
        match action {
            Action::FsRead { path } => action@ == (ActionView::FsRead { path: path@ }),
            Action::FsWrite { path, content } => action@ == (ActionView::FsWrite {
                path: path@,
                content: content@,
            }),
            Action::NetGet { url } => action@ == (ActionView::NetGet { url: url@ }),
            Action::Exec { cmd } => action@ == (ActionView::Exec { cmd: cmd@ }),
        },
        call@.action == call.action@,
        call@.justification_chunks == call.justification_chunks@,
        output@.content == output.content@,
        output.provenance_hint matches Some(p) ==> output@.provenance_hint == Some(p@),
        output.provenance_hint is None ==> output@.provenance_hint is None,
{
}

/// Chunks and their provenance are viewed whole, and a context chunk by chunk.
pub proof fn law_context_is_viewed_whole(
    provenance: Provenance,
    chunk: Chunk,
    context: Seq<Chunk>,
    i: int,
)
    ensures
        match provenance {
            Provenance::User => provenance@ == ProvenanceView::User,
            Provenance::System => provenance@ == ProvenanceView::System,
            Provenance::Monitor => provenance@ == ProvenanceView::Monitor,
            Provenance::Tool { name, call_id } => provenance@ == (ProvenanceView::Tool {
                name: name@,
                call_id,
            }),
            Provenance::Web { url } => provenance@ == (ProvenanceView::Web { url: url@ }),
            Provenance::File { path } => provenance@ == (ProvenanceView::File { path: path@ }),
        },
        chunk@.id == chunk.id,
        chunk@.provenance == chunk.provenance@,
        chunk@.content == chunk.content@,
        provenance::chunks_view(context).len() == context.len(),
        0 <= i < context.len() ==> provenance::chunks_view(context)[i] == context[i]@,
{
}

/// Decisions, steps and ends are viewed whole.
pub proof fn law_outcomes_are_viewed_whole(
    decision: Decision,
    step: ModelStep,
    end: SessionEnd,
    steps: Seq<ModelStep>,
    i: int,
)
    ensures
        match decision {
            Decision::Allow => decision@ == DecisionView::Allow,
            Decision::Deny { reason } => decision@ == (DecisionView::Deny { reason: reason@ }),
            Decision::Escalate { reason } => decision@ == (DecisionView::Escalate {
                reason: reason@,
            }),
        },
        match step {
            ModelStep::Call(call) => step@ == ModelStepView::Call(call@),
            ModelStep::Stop { answer } => step@ == (ModelStepView::Stop { answer: answer@ }),
        },
        match end {
            SessionEnd::Answer(answer) => end@ == SessionEndView::Answer(answer@),
            SessionEnd::Halted { reason } => end@ == (SessionEndView::Halted { reason: reason@ }),
        },
        model::step_views(steps).len() == steps.len(),
        0 <= i < steps.len() ==> model::step_views(steps)[i] == steps[i]@,
{
}

/// Events and entries are viewed whole, and a log entry by entry.
pub proof fn law_log_is_viewed_whole(
    event: AuditEvent,
    entry: AuditEntry,
    entries: Seq<AuditEntry>,
    i: int,
)
    ensures
        match event {
            AuditEvent::Tool { call, decision } => event@ == (AuditEventView::Tool {
                call: call@,
                decision: decision@,
            }),
            AuditEvent::Answer { text } => event@ == (AuditEventView::Answer { text: text@ }),
            AuditEvent::Halt { reason } => event@ == (AuditEventView::Halt { reason: reason@ }),
        },
        entry@ == (AuditEntryView {
            seq: entry.seq,
            ts_millis: entry.ts_millis,
            event: entry.event@,
            prev_hash: entry.prev_hash@,
            hash: entry.hash@,
        }),
        audit::entries_view(entries).len() == entries.len(),
        0 <= i < entries.len() ==> audit::entries_view(entries)[i] == entries[i]@,
{
}

/// Tasks and what came of them are viewed whole.
pub proof fn law_tasks_are_viewed_whole(task: Task, net: NetReply, exec: ExecReply)
    ensures
        match task {
            Task::Answer(output) => task@ == TaskView::Answer(output@),
            Task::Read { path, directory } => task@ == (TaskView::Read {
                path: path@,
                directory: directory@,
            }),
            Task::Write { path, content, directory } => task@ == (TaskView::Write {
                path: path@,
                content: content@,
                directory: directory@,
            }),
            Task::Fetch { url, cap } => task@ == (TaskView::Fetch { url: url@, cap }),
            Task::Run { words } => task@ == (TaskView::Run { words: text::texts(words@) }),
        },
        match net {
            NetReply::Failed(fault) => net@ == NetReplyView::Failed(fault@),
            NetReply::TimedOut => net@ == NetReplyView::TimedOut,
            NetReply::StreamFailed(fault) => net@ == NetReplyView::StreamFailed(fault@),
            NetReply::Answered { status, body } => net@ == (NetReplyView::Answered {
                status: status@,
                body: body@,
            }),
        },
        match exec {
            ExecReply::SpawnFailed(fault) => exec@ == ExecReplyView::SpawnFailed(fault@),
            ExecReply::WaitFailed(fault) => exec@ == ExecReplyView::WaitFailed(fault@),
            ExecReply::TimedOut => exec@ == ExecReplyView::TimedOut,
            ExecReply::Exited { stdout, success, status } => exec@ == (ExecReplyView::Exited {
                stdout: stdout@,
                success,
                status: status@,
            }),
        },
{
}

/// Messages, replies and the calls in them are viewed whole, one by one.
pub proof fn law_conversation_is_viewed_whole(
    request: ToolCallRequest,
    message: Message,
    reply: Reply,
    text: Option<String>,
    requests: Seq<ToolCallRequest>,
    messages: Seq<Message>,
    i: int,
)
    ensures
        request@ == (ToolCallRequestView {
            id: request.id@,
            name: request.name@,
            arguments: request.arguments@,
        }),
        match message {
            Message::System { content } => message@ == (MessageView::System { content: content@ }),
            Message::User { content } => message@ == (MessageView::User { content: content@ }),
            Message::Assistant { content, tool_calls } => message@ == (MessageView::Assistant {
                content: openai::optional_text(content),
                tool_calls: openai::optional_calls(tool_calls),
            }),
            Message::Tool { tool_call_id, content } => message@ == (MessageView::Tool {
                tool_call_id: tool_call_id@,
                content: content@,
            }),
        },
        match reply {
            Reply::BuildFailed(fault) => reply@ == ReplyView::BuildFailed(fault@),
            Reply::ApiFailed(fault) => reply@ == ReplyView::ApiFailed(fault@),
            Reply::NoChoices => reply@ == ReplyView::NoChoices,
            Reply::Message { content, tool_calls } => reply@ == (ReplyView::Message {
                content: openai::optional_text(content),
                tool_calls: openai::optional_calls(tool_calls),
            }),
        },
        match text {
            Some(s) => openai::optional_text(text) == Some(s@),
            None => openai::optional_text(text) is None,
        },
        openai::request_views(requests).len() == requests.len(),
        0 <= i < requests.len() ==> openai::request_views(requests)[i] == requests[i]@,
        openai::message_views(messages).len() == messages.len(),
        0 <= i < messages.len() ==> openai::message_views(messages)[i] == messages[i]@,
{
}

/// Grants, walks and command lines are viewed whole, and lists of strings one
/// by one.
pub proof fn law_plans_are_viewed_whole(
    grant: PathGrant,
    plan: WalkPlan,
    fault: LocateFault,
    command: CommandLine,
    component: Component,
    strings: Seq<String>,
    names: Seq<Vec<u8>>,
    grants: Seq<PathGrant>,
    i: int,
)
    ensures
        grant@.root == grant.root@,
        grant@.subtree == grant.subtree,
        plan@.root == plan.root@,
        plan@.directories == path::byte_views(plan.directories@),
        plan@.leaf == plan.leaf@,
        plan@.target == plan.target@,
        match fault {
            LocateFault::Unnamed => fault@ == LocateFaultView::Unnamed,
            LocateFault::Outside { target } => fault@ == (LocateFaultView::Outside {
                target: target@,
            }),
            LocateFault::Blocked { target, reason } => fault@ == (LocateFaultView::Blocked {
                target: target@,
                reason: reason@,
            }),
        },
        command@.program == command.program@,
        command@.args == text::texts(command.args@),
        match component {
            Component::RootDir => component@ == ComponentView::RootDir,
            Component::CurDir => component@ == ComponentView::CurDir,
            Component::ParentDir => component@ == ComponentView::ParentDir,
            Component::Normal(name) => component@ == ComponentView::Normal(name@),
        },
        text::texts(strings).len() == strings.len(),
        0 <= i < strings.len() ==> text::texts(strings)[i] == strings[i]@,
        path::byte_views(names).len() == names.len(),
        0 <= i < names.len() ==> path::byte_views(names)[i] == names[i]@,
        walk::grant_views(grants).len() == grants.len(),
        0 <= i < grants.len() ==> walk::grant_views(grants)[i] == grants[i]@,
{
}

} // verus!
