//! The reference monitor: the security kernel of the harness.
//!
//! The monitor is tamper-proof: it consumes only structured [`ToolCall`] values
//! and a typed [`Capabilities`] bundle, and has no policy that model output
//! could rewrite. It is always invoked: an executor accepts only an
//! [`AllowedAction`], and this module is the only one that makes them. It is
//! small: [`policy`] is all of it.

use crate::audit::{AuditEntryView, AuditEventView, AuditLog};
use crate::capability;
use crate::capability::{contains_class, ActionClass, Capabilities};
use crate::provenance::{Chunk, ChunkView};
use crate::text;
use crate::tools::{Action, ActionView, ToolCall, ToolCallView};
use std::time::SystemTime;
use vstd::prelude::*;
use vstd::string::*;

verus! {

/// What the monitor decided about a proposed call.
#[derive(Debug)]
pub enum Decision {
    Allow,
    Deny { reason: String },
    Escalate { reason: String },
}

/// A decision as a mathematical value.
pub enum DecisionView {
    Allow,
    Deny { reason: Seq<char> },
    Escalate { reason: Seq<char> },
}

impl View for Decision {
    type V = DecisionView;

    open spec fn view(&self) -> DecisionView {
        match self {
            Decision::Allow => DecisionView::Allow,
            Decision::Deny { reason } => DecisionView::Deny { reason: reason@ },
            Decision::Escalate { reason } => DecisionView::Escalate { reason: reason@ },
        }
    }
}

impl Clone for Decision {
    fn clone(&self) -> (res: Decision)
        ensures
            res@ == self@,
    {
        match self {
            Decision::Allow => Decision::Allow,
            Decision::Deny { reason } => Decision::Deny { reason: reason.clone() },
            Decision::Escalate { reason } => Decision::Escalate { reason: reason.clone() },
        }
    }
}

/// Whether the target of an action is within the bundle.
pub open spec fn in_bundle(caps: Capabilities, action: ActionView) -> bool {
    match action {
        ActionView::FsRead { path } => caps.allows_fs_read(path),
        ActionView::FsWrite { path, .. } => caps.allows_fs_write(path),
        ActionView::NetGet { url } => caps.allows_net_get(url),
        ActionView::Exec { cmd } => caps.allows_exec(cmd),
    }
}

/// The first chunk of the context with the given id.
pub open spec fn find_chunk(context: Seq<ChunkView>, id: u64) -> Option<ChunkView>
    decreases context.len(),
{
    if context.len() == 0 {
        None
    } else if context[0].id == id {
        Some(context[0])
    } else {
        find_chunk(context.drop_first(), id)
    }
}

/// The cited ids that no chunk of the context has, in the order of citation.
pub open spec fn missing_ids(context: Seq<ChunkView>, ids: Seq<u64>) -> Seq<u64>
    decreases ids.len(),
{
    if ids.len() == 0 {
        Seq::empty()
    } else if find_chunk(context, ids.last()) is None {
        missing_ids(context, ids.drop_last()).push(ids.last())
    } else {
        missing_ids(context, ids.drop_last())
    }
}

/// The cited ids of chunks without user authority, in the order of citation.
pub open spec fn untrusted_ids(context: Seq<ChunkView>, ids: Seq<u64>) -> Seq<u64>
    decreases ids.len(),
{
    if ids.len() == 0 {
        Seq::empty()
    } else if find_chunk(context, ids.last()) matches Some(chunk)
        && !chunk.provenance.has_authority() {
        untrusted_ids(context, ids.drop_last()).push(ids.last())
    } else {
        untrusted_ids(context, ids.drop_last())
    }
}

/// What is wrong with the justification of a call whose class requires user
/// intent, if anything: nothing is cited, a cited chunk does not exist, or a
/// cited chunk does not carry user authority.
pub open spec fn intent_fault(context: Seq<ChunkView>, call: ToolCallView) -> Option<Seq<char>> {
    let name = call.action.class().name_text();
    let missing = missing_ids(context, call.justification_chunks);
    let untrusted = untrusted_ids(context, call.justification_chunks);
    if call.justification_chunks.len() == 0 {
        Some(name + " requires user-provenance justification; no chunks were cited"@)
    } else if missing.len() > 0 {
        Some(name + " cited nonexistent chunk(s) "@ + text::bracketed_ids(missing))
    } else if untrusted.len() > 0 {
        Some(
            name + " requires every cited chunk to carry user authority; chunk(s) "@
                + text::bracketed_ids(untrusted) + " are untrusted as intent"@,
        )
    } else {
        None
    }
}

/// The whole policy of the monitor, in order: the spend ceiling, the
/// capability allow-lists, the provenance of the justification, and human
/// confirmation.
pub open spec fn policy(
    caps: Capabilities,
    calls_made: u32,
    call: ToolCallView,
    context: Seq<ChunkView>,
) -> DecisionView {
    let class = call.action.class();
    if calls_made >= caps.spend.max_tool_calls {
        DecisionView::Deny {
            reason: "tool-call budget exhausted ("@ + text::decimal(
                caps.spend.max_tool_calls as nat,
            ) + " used)"@,
        }
    } else if !in_bundle(caps, call.action) {
        DecisionView::Deny { reason: class.name_text() + " target outside capability bundle"@ }
    } else if caps.require_user_intent@.contains(class) && intent_fault(context, call) is Some {
        DecisionView::Deny { reason: intent_fault(context, call).unwrap() }
    } else if caps.require_confirm@.contains(class) {
        DecisionView::Escalate { reason: class.name_text() + " requires human confirmation"@ }
    } else {
        DecisionView::Allow
    }
}

/// The circumstances under which the monitor decided on a call.
pub struct Approval {
    pub caps: Capabilities,
    pub calls_made: u32,
    pub call: ToolCallView,
    pub context: Seq<ChunkView>,
}

impl Approval {
    /// The policy allows the call under these circumstances.
    pub open spec fn granted(self) -> bool {
        policy(self.caps, self.calls_made, self.call, self.context) is Allow
    }
}

/// An action that the monitor has allowed. Only the monitor makes these, so
/// whoever holds one knows that the policy allowed it.
pub struct AllowedAction {
    action: Action,
    max_response_bytes: usize,
    approval: Ghost<Approval>,
}

impl AllowedAction {
    #[verifier::type_invariant]
    spec fn approved(self) -> bool {
        &&& self.approval@.granted()
        &&& self.action@ == self.approval@.call.action
        &&& self.max_response_bytes == self.approval@.caps.spend.max_response_bytes
    }

    /// The circumstances under which the monitor allowed the action.
    pub closed spec fn approval(&self) -> Approval {
        self.approval@
    }

    /// The allowed action.
    pub fn action(&self) -> (res: &Action)
        ensures
            res@ == self.approval().call.action,
            self.approval().granted(),
    {
        proof {
            use_type_invariant(self);
        }
        &self.action
    }

    /// The most bytes of a network response that the bundle permits.
    pub fn max_response_bytes(&self) -> (res: usize)
        ensures
            res == self.approval().caps.spend.max_response_bytes,
    {
        proof {
            use_type_invariant(self);
        }
        self.max_response_bytes
    }
}

/// A decision that carries the permission to execute where it allows.
pub enum Verdict {
    Allow(AllowedAction),
    Deny { reason: String },
    Escalate { reason: String },
}

impl Verdict {
    /// The decision that the verdict states.
    pub open spec fn decision(&self) -> DecisionView {
        match self {
            Verdict::Allow(_) => DecisionView::Allow,
            Verdict::Deny { reason } => DecisionView::Deny { reason: reason@ },
            Verdict::Escalate { reason } => DecisionView::Escalate { reason: reason@ },
        }
    }
}

/// The monitor of a session: it reads the bundle, and it alone advances the
/// spend counter and records decisions.
pub struct Monitor<'a> {
    caps: &'a Capabilities,
    audit: &'a mut AuditLog,
    calls_made: &'a mut u32,
}

impl<'a> Monitor<'a> {
    /// The bundle the monitor enforces.
    pub closed spec fn caps(&self) -> Capabilities {
        *self.caps
    }

    /// The audit log the monitor records in.
    pub closed spec fn audit(&self) -> AuditLog {
        *self.audit
    }

    /// The number of calls allowed so far.
    pub closed spec fn calls_made(&self) -> u32 {
        *self.calls_made
    }

    /// What the monitor borrows.
    pub closed spec fn borrows(&self) -> (&'a mut AuditLog, &'a mut u32) {
        (self.audit, self.calls_made)
    }

    pub fn new(caps: &'a Capabilities, audit: &'a mut AuditLog, calls_made: &'a mut u32) -> (res:
        Monitor<'a>)
        ensures
            res.caps() == *caps,
            res.audit() == *old(audit),
            res.calls_made() == *old(calls_made),
            *final(res.borrows().0) == *final(audit),
            *final(res.borrows().1) == *final(calls_made),
    {
        Monitor { caps, audit, calls_made }
    }

    /// Once the monitor is done, what it borrowed is as the monitor left it.
    pub proof fn lemma_released(self)
        requires
            has_resolved(self),
        ensures
            *final(self.borrows().0) == self.audit(),
            *final(self.borrows().1) == self.calls_made(),
    {
    }

    /// Decides whether `call` is permitted given `context`. Records the
    /// decision in the audit log either way; only on `Allow` does the spend
    /// counter advance.
    pub fn decide(&mut self, call: &ToolCall, context: &[Chunk]) -> (res: Decision)
        requires
            old(self).audit().wf(),
            old(self).audit()@.len() < u64::MAX,
        ensures
            res@ == policy(
                old(self).caps(),
                old(self).calls_made(),
                call@,
                crate::provenance::chunks_view(context@),
            ),
            final(self).caps() == old(self).caps(),
            final(self).calls_made() == old(self).calls_made() + (if res@ is Allow {
                1int
            } else {
                0
            }),
            final(self).audit().wf(),
            decision_recorded(old(self).audit()@, final(self).audit()@, call@, res@),
            final(self).audit().sent() == crate::audit::handed(
                old(self).audit().sent(),
                final(self).audit()@.last(),
            ),
            *final(final(self).borrows().0) == *final(old(self).borrows().0),
            *final(final(self).borrows().1) == *final(old(self).borrows().1),
    {
        let decision = self.decide_inner(call, context);
        self.audit.record_decision(call, &decision);
        if matches!(decision, Decision::Allow) {
            *self.calls_made = *self.calls_made + 1;
        }
        decision
    }

    /// Decides on `call` as [`Monitor::decide`] does, and hands out the
    /// permission to execute it where the decision is to allow.
    pub fn authorize(&mut self, call: &ToolCall, context: &[Chunk]) -> (res: Verdict)
        requires
            old(self).audit().wf(),
            old(self).audit()@.len() < u64::MAX,
        ensures
            res.decision() == policy(
                old(self).caps(),
                old(self).calls_made(),
                call@,
                crate::provenance::chunks_view(context@),
            ),
            res matches Verdict::Allow(allowed) ==> allowed.approval() == (Approval {
                caps: old(self).caps(),
                calls_made: old(self).calls_made(),
                call: call@,
                context: crate::provenance::chunks_view(context@),
            }),
            final(self).caps() == old(self).caps(),
            final(self).calls_made() == old(self).calls_made() + (if res is Allow {
                1int
            } else {
                0
            }),
            final(self).audit().wf(),
            decision_recorded(old(self).audit()@, final(self).audit()@, call@, res.decision()),
            final(self).audit().sent() == crate::audit::handed(
                old(self).audit().sent(),
                final(self).audit()@.last(),
            ),
            *final(final(self).borrows().0) == *final(old(self).borrows().0),
            *final(final(self).borrows().1) == *final(old(self).borrows().1),
    {
        let ghost approval = Approval {
            caps: self.caps(),
            calls_made: self.calls_made(),
            call: call@,
            context: crate::provenance::chunks_view(context@),
        };
        match self.decide(call, context) {
            Decision::Allow => Verdict::Allow(
                AllowedAction {
                    action: call.action.clone(),
                    max_response_bytes: self.caps.spend.max_response_bytes,
                    approval: Ghost(approval),
                },
            ),
            Decision::Deny { reason } => Verdict::Deny { reason },
            Decision::Escalate { reason } => Verdict::Escalate { reason },
        }
    }

    /// The decision on `call`. It is neither recorded nor counted.
    pub fn decide_inner(&self, call: &ToolCall, context: &[Chunk]) -> (res: Decision)
        ensures
            res@ == policy(
                self.caps(),
                self.calls_made(),
                call@,
                crate::provenance::chunks_view(context@),
            ),
    {
        // The spend ceiling comes first: an exhausted budget refuses every
        // call, however innocuous.
        if *self.calls_made >= self.caps.spend.max_tool_calls {
            let mut reason = "tool-call budget exhausted (".to_owned();
            reason.append(text::decimal_text(self.caps.spend.max_tool_calls as u128).as_str());
            reason.append(" used)");
            return Decision::Deny { reason };
        }
        // The target of the action has to be within the bundle.

        let class = call.action_class();
        let permitted = match &call.action {
            Action::FsRead { path } => self.caps.permits_fs_read(path.as_str()),
            Action::FsWrite { path, .. } => self.caps.permits_fs_write(path.as_str()),
            Action::NetGet { url } => self.caps.permits_net_get(url.as_str()),
            Action::Exec { cmd } => self.caps.permits_exec(cmd.as_str()),
        };
        if !permitted {
            let mut reason = class.name();
            reason.append(" target outside capability bundle");
            return Decision::Deny { reason };
        }
        // For the classes that require user intent, every cited chunk has to
        // carry user authority, and at least one has to be cited. A model that
        // acts on a web page cannot honestly justify the call without citing
        // the page, and citing the page refuses the call.

        if contains_class(&self.caps.require_user_intent, class) {
            match check_intent(class, call, context) {
                Some(reason) => {
                    return Decision::Deny { reason };
                },
                None => {},
            }
        }
        // High-impact classes escalate even when otherwise permitted.

        if contains_class(&self.caps.require_confirm, class) {
            let mut reason = class.name();
            reason.append(" requires human confirmation");
            return Decision::Escalate { reason };
        }
        Decision::Allow
    }
}

/// The log after the decision is the log before with the call and the decision
/// recorded at its end, stamped with some point of the system clock.
pub open spec fn decision_recorded(
    before: Seq<AuditEntryView>,
    after: Seq<AuditEntryView>,
    call: ToolCallView,
    decision: DecisionView,
) -> bool {
    exists|now: SystemTime|
        after == crate::audit::recorded(
            before,
            #[trigger] crate::clock::stamp_at(now),
            AuditEventView::Tool { call, decision },
        )
}

/// What is wrong with the justification of a call, if anything.
fn check_intent(class: ActionClass, call: &ToolCall, context: &[Chunk]) -> (res: Option<String>)
    requires
        class == call@.action.class(),
    ensures
        match res {
            Some(reason) => intent_fault(crate::provenance::chunks_view(context@), call@) == Some(
                reason@,
            ),
            None => intent_fault(crate::provenance::chunks_view(context@), call@) is None,
        },
{
    let ghost ctx = crate::provenance::chunks_view(context@);
    let ids = &call.justification_chunks;
    if ids.len() == 0 {
        let mut reason = class.name();
        reason.append(" requires user-provenance justification; no chunks were cited");
        return Some(reason);
    }
    let mut untrusted: Vec<u64> = Vec::new();
    let mut missing: Vec<u64> = Vec::new();
    let mut i: usize = 0;
    while i < ids.len()
        invariant
            i <= ids@.len(),
            ctx == crate::provenance::chunks_view(context@),
            missing@ == missing_ids(ctx, ids@.take(i as int)),
            untrusted@ == untrusted_ids(ctx, ids@.take(i as int)),
        decreases ids@.len() - i,
    {
        assert(ids@.take(i + 1).drop_last() =~= ids@.take(i as int));
        match lookup(context, ids[i]) {
            None => missing.push(ids[i]),
            Some(chunk) => {
                if !chunk.provenance.carries_user_authority() {
                    untrusted.push(ids[i]);
                }
            },
        }
        i = i + 1;
    }
    assert(ids@.take(ids@.len() as int) =~= ids@);
    if missing.len() > 0 {
        let mut reason = class.name();
        reason.append(" cited nonexistent chunk(s) ");
        reason.append(text::bracketed_ids_text(&missing).as_str());
        return Some(reason);
    }
    if untrusted.len() > 0 {
        let mut reason = class.name();
        reason.append(" requires every cited chunk to carry user authority; chunk(s) ");
        reason.append(text::bracketed_ids_text(&untrusted).as_str());
        reason.append(" are untrusted as intent");
        return Some(reason);
    }
    None
}

/// The first chunk of the context with the given id.
fn lookup(context: &[Chunk], id: u64) -> (res: Option<&Chunk>)
    ensures
        match res {
            Some(chunk) => find_chunk(crate::provenance::chunks_view(context@), id) == Some(chunk@),
            None => find_chunk(crate::provenance::chunks_view(context@), id) is None,
        },
{
    let ghost ctx = crate::provenance::chunks_view(context@);
    assert(ctx.skip(0) =~= ctx);
    let mut i: usize = 0;
    while i < context.len()
        invariant
            i <= context@.len(),
            ctx == crate::provenance::chunks_view(context@),
            find_chunk(ctx, id) == find_chunk(ctx.skip(i as int), id),
        decreases context@.len() - i,
    {
        assert(ctx.skip(i as int)[0] == context@[i as int]@);
        if context[i].id == id {
            return Some(&context[i]);
        }
        assert(ctx.skip(i as int).drop_first() =~= ctx.skip(i + 1));
        i = i + 1;
    }
    None
}

/// Every cited chunk exists and carries user authority.
pub open spec fn all_cited_carry_authority(context: Seq<ChunkView>, ids: Seq<u64>) -> bool {
    forall|k: int|
        #![trigger ids[k]]
        0 <= k < ids.len() ==> (find_chunk(context, ids[k]) matches Some(chunk)
            && chunk.provenance.has_authority())
}

proof fn lemma_no_faulty_ids(context: Seq<ChunkView>, ids: Seq<u64>)
    ensures
        missing_ids(context, ids).len() == 0 && untrusted_ids(context, ids).len() == 0
            <==> all_cited_carry_authority(context, ids),
    decreases ids.len(),
{
    if ids.len() > 0 {
        let front = ids.drop_last();
        lemma_no_faulty_ids(context, front);
        if all_cited_carry_authority(context, front) {
            assert forall|k: int| 0 <= k < ids.len() - 1 implies (find_chunk(
                context,
                #[trigger] ids[k],
            ) matches Some(chunk) && chunk.provenance.has_authority()) by {
                assert(front[k] == ids[k]);
            }
        }
        if all_cited_carry_authority(context, ids) {
            assert(ids[ids.len() - 1] == ids.last());
            assert forall|k: int| 0 <= k < front.len() implies (find_chunk(
                context,
                #[trigger] front[k],
            ) matches Some(chunk) && chunk.provenance.has_authority()) by {
                assert(front[k] == ids[k]);
            }
        }
    }
}

/// The monitor allows a call exactly when the budget is not exhausted, the
/// target is within the bundle, the class does not require confirmation, and,
/// where the class requires user intent, at least one chunk is cited and every
/// cited chunk exists and carries user authority.
pub proof fn law_allowed_exactly_when(
    caps: Capabilities,
    calls_made: u32,
    call: ToolCallView,
    context: Seq<ChunkView>,
)
    ensures
        policy(caps, calls_made, call, context) is Allow <==> {
            &&& calls_made < caps.spend.max_tool_calls
            &&& in_bundle(caps, call.action)
            &&& !caps.require_confirm@.contains(call.action.class())
            &&& caps.require_user_intent@.contains(call.action.class()) ==> {
                &&& call.justification_chunks.len() > 0
                &&& all_cited_carry_authority(context, call.justification_chunks)
            }
        },
{
    lemma_no_faulty_ids(context, call.justification_chunks);
}

/// The injection defence: a call of a class that requires user intent is
/// denied as soon as one of the cited chunks does not carry user authority,
/// whatever else is cited.
pub proof fn law_untrusted_citation_is_denied(
    caps: Capabilities,
    calls_made: u32,
    call: ToolCallView,
    context: Seq<ChunkView>,
    k: int,
)
    requires
        caps.require_user_intent@.contains(call.action.class()),
        0 <= k < call.justification_chunks.len(),
        !(find_chunk(context, call.justification_chunks[k]) matches Some(chunk)
            && chunk.provenance.has_authority()),
    ensures
        policy(caps, calls_made, call, context) is Deny,
{
    lemma_no_faulty_ids(context, call.justification_chunks);
}

/// A call of a class that requires user intent is denied where nothing is
/// cited.
pub proof fn law_uncited_call_is_denied(
    caps: Capabilities,
    calls_made: u32,
    call: ToolCallView,
    context: Seq<ChunkView>,
)
    requires
        caps.require_user_intent@.contains(call.action.class()),
        call.justification_chunks.len() == 0,
    ensures
        policy(caps, calls_made, call, context) is Deny,
{
}

/// An exhausted budget denies every call, and a target outside the bundle is
/// denied whatever is cited.
pub proof fn law_bundle_bounds_every_call(
    caps: Capabilities,
    calls_made: u32,
    call: ToolCallView,
    context: Seq<ChunkView>,
)
    requires
        calls_made >= caps.spend.max_tool_calls || !in_bundle(caps, call.action),
    ensures
        policy(caps, calls_made, call, context) is Deny,
{
}

/// A class that requires confirmation is never allowed without a human.
pub proof fn law_confirmation_is_never_skipped(
    caps: Capabilities,
    calls_made: u32,
    call: ToolCallView,
    context: Seq<ChunkView>,
)
    requires
        caps.require_confirm@.contains(call.action.class()),
    ensures
        !(policy(caps, calls_made, call, context) is Allow),
{
}

/// Confirmation neither rescues a denied call nor is skipped for a permitted
/// one: where two bundles differ only in that one asks for confirmation of the
/// class of a call, it escalates exactly the calls that the other allows, and
/// denies what the other denies, for the same reason.
pub proof fn law_confirmation_holds_back_what_is_allowed(
    caps: Capabilities,
    relaxed: Capabilities,
    calls_made: u32,
    call: ToolCallView,
    context: Seq<ChunkView>,
)
    requires
        relaxed == (Capabilities { require_confirm: relaxed.require_confirm, ..caps }),
        caps.require_confirm@.contains(call.action.class()),
        !relaxed.require_confirm@.contains(call.action.class()),
    ensures
        !(policy(relaxed, calls_made, call, context) is Escalate),
        policy(relaxed, calls_made, call, context) is Allow <==> policy(
            caps,
            calls_made,
            call,
            context,
        ) == (DecisionView::Escalate {
            reason: call.action.class().name_text() + " requires human confirmation"@,
        }),
        policy(relaxed, calls_made, call, context) is Deny ==> policy(
            caps,
            calls_made,
            call,
            context,
        ) == policy(relaxed, calls_made, call, context),
{
    assert(relaxed.fs_read == caps.fs_read && relaxed.fs_write == caps.fs_write);
    assert(relaxed.net_get == caps.net_get && relaxed.exec_rules == caps.exec_rules);
    match call.action {
        ActionView::FsRead { path } => {
            assert(relaxed.allows_fs_read(path) == caps.allows_fs_read(path));
        },
        ActionView::FsWrite { path, .. } => {
            assert(relaxed.allows_fs_write(path) == caps.allows_fs_write(path));
        },
        ActionView::NetGet { url } => {
            assert(relaxed.allows_net_get(url) == caps.allows_net_get(url));
        },
        ActionView::Exec { cmd } => {
            assert(relaxed.allows_exec(cmd) == caps.allows_exec(cmd));
        },
    }
}

/// Citations matter only where user intent is required: for every other class,
/// two calls with the same action get the same decision, whatever they cite and
/// whatever the context holds.
pub proof fn law_citations_matter_only_for_guarded_classes(
    caps: Capabilities,
    calls_made: u32,
    a: ToolCallView,
    b: ToolCallView,
    c: Seq<ChunkView>,
    d: Seq<ChunkView>,
)
    requires
        a.action == b.action,
        !caps.require_user_intent@.contains(a.action.class()),
    ensures
        policy(caps, calls_made, a, c) == policy(caps, calls_made, b, d),
{
}

/// Two contexts agree in what the monitor reads of them: the ids of the chunks
/// and whether each carries user authority.
pub open spec fn same_standing(c: Seq<ChunkView>, d: Seq<ChunkView>) -> bool {
    &&& c.len() == d.len()
    &&& forall|i: int|
        #![trigger c[i]]
        #![trigger d[i]]
        0 <= i < c.len() ==> c[i].id == d[i].id && c[i].provenance.has_authority()
            == d[i].provenance.has_authority()
}

/// Two actions agree in what the monitor reads of them: everything but the
/// bytes to be written.
pub open spec fn same_target(a: ActionView, b: ActionView) -> bool {
    match (a, b) {
        (ActionView::FsWrite { path: p, .. }, ActionView::FsWrite { path: q, .. }) => p == q,
        _ => a == b,
    }
}

proof fn lemma_same_lookup(c: Seq<ChunkView>, d: Seq<ChunkView>, id: u64)
    requires
        same_standing(c, d),
    ensures
        find_chunk(c, id) is Some <==> find_chunk(d, id) is Some,
        find_chunk(c, id) is Some ==> find_chunk(c, id).unwrap().provenance.has_authority()
            == find_chunk(d, id).unwrap().provenance.has_authority(),
    decreases c.len(),
{
    if c.len() > 0 {
        assert(c[0].id == d[0].id);
        assert forall|i: int| 0 <= i < c.len() - 1 implies c.drop_first()[i].id
            == d.drop_first()[i].id && c.drop_first()[i].provenance.has_authority()
            == d.drop_first()[i].provenance.has_authority() by {
            assert(c[i + 1].id == d[i + 1].id);
        }
        lemma_same_lookup(c.drop_first(), d.drop_first(), id);
    }
}

proof fn lemma_same_faults(c: Seq<ChunkView>, d: Seq<ChunkView>, ids: Seq<u64>)
    requires
        same_standing(c, d),
    ensures
        missing_ids(c, ids) == missing_ids(d, ids),
        untrusted_ids(c, ids) == untrusted_ids(d, ids),
    decreases ids.len(),
{
    if ids.len() > 0 {
        lemma_same_faults(c, d, ids.drop_last());
        lemma_same_lookup(c, d, ids.last());
    }
}

/// No free-form text reaches the decision: what the chunks say, which pages,
/// files and tools they came from, and the bytes to be written have no
/// influence on it, nor on the reason that is given.
pub proof fn law_contents_have_no_influence(
    caps: Capabilities,
    calls_made: u32,
    a: ToolCallView,
    b: ToolCallView,
    c: Seq<ChunkView>,
    d: Seq<ChunkView>,
)
    requires
        same_target(a.action, b.action),
        a.justification_chunks == b.justification_chunks,
        same_standing(c, d),
    ensures
        policy(caps, calls_made, a, c) == policy(caps, calls_made, b, d),
{
    lemma_same_faults(c, d, a.justification_chunks);
}

/// The target of the action is listed: an entry of the list for actions of its
/// kind, wherever it stands, reaches it.
pub open spec fn target_is_listed(caps: Capabilities, action: ActionView) -> bool {
    match action {
        ActionView::FsRead { path } => exists|i: int|
            0 <= i < caps.fs_read@.len() && capability::reaches(
                #[trigger] caps.fs_read@[i]@,
                path,
            ),
        ActionView::FsWrite { path, .. } => exists|i: int|
            0 <= i < caps.fs_write@.len() && capability::reaches(
                #[trigger] caps.fs_write@[i]@,
                path,
            ),
        ActionView::NetGet { url } => exists|i: int|
            0 <= i < caps.net_get@.len() && (#[trigger] caps.net_get@[i]@).is_prefix_of(url),
        ActionView::Exec { cmd } => exists|i: int|
            0 <= i < caps.exec_rules@.len() && capability::rule_permits(
                #[trigger] caps.exec_rules@[i],
                text::words(cmd),
            ),
    }
}

proof fn lemma_listed(caps: Capabilities, action: ActionView)
    ensures
        target_is_listed(caps, action) <==> in_bundle(caps, action),
{
    match action {
        ActionView::FsRead { path } => {
            assert forall|i: int| 0 <= i < caps.fs_read@.len() implies capability::reaches(
                #[trigger] caps.fs_read@[i]@,
                path,
            ) == capability::path_matches(caps.fs_read@[i]@, path) by {
                capability::lemma_reaches(caps.fs_read@[i]@, path);
            }
        },
        ActionView::FsWrite { path, .. } => {
            assert forall|i: int| 0 <= i < caps.fs_write@.len() implies capability::reaches(
                #[trigger] caps.fs_write@[i]@,
                path,
            ) == capability::path_matches(caps.fs_write@[i]@, path) by {
                capability::lemma_reaches(caps.fs_write@[i]@, path);
            }
        },
        ActionView::NetGet { .. } => {},
        ActionView::Exec { cmd } => {
            assert forall|i: int|
                0 <= i < caps.exec_rules@.len() implies capability::rule_permits(
                #[trigger] caps.exec_rules@[i],
                text::words(cmd),
            ) == caps.exec_rules@[i].covers(text::words(cmd)) by {
                capability::lemma_rule_permits(caps.exec_rules@[i], text::words(cmd));
            }
        },
    }
}

/// No chunk of the context has the id.
pub open spec fn is_unknown(context: Seq<ChunkView>, id: u64) -> bool {
    forall|i: int| 0 <= i < context.len() ==> (#[trigger] context[i]).id != id
}

/// The first chunk of the context with the id comes neither from the operator
/// nor from the system prompt.
pub open spec fn is_untrusted(context: Seq<ChunkView>, id: u64) -> bool {
    exists|i: int|
        {
            &&& 0 <= i < context.len()
            &&& (#[trigger] context[i]).id == id
            &&& is_unknown(context.take(i), id)
            &&& !(context[i].provenance is User)
            &&& !(context[i].provenance is System)
        }
}

/// A lookup finds the first chunk with the id, and finds none only where no
/// chunk has it.
pub proof fn law_lookup_finds_the_first(context: Seq<ChunkView>, id: u64)
    ensures
        find_chunk(context, id) is None <==> is_unknown(context, id),
        forall|i: int|
            0 <= i < context.len() && (#[trigger] context[i]).id == id && is_unknown(
                context.take(i),
                id,
            ) ==> find_chunk(context, id) == Some(context[i]),
    decreases context.len(),
{
    if context.len() > 0 {
        let rest = context.drop_first();
        law_lookup_finds_the_first(rest, id);
        if context[0].id != id {
            if is_unknown(rest, id) {
                assert forall|i: int| 0 <= i < context.len() implies (#[trigger] context[i]).id
                    != id by {
                    if i > 0 {
                        assert(rest[i - 1].id != id);
                    }
                }
            }
            if is_unknown(context, id) {
                assert forall|i: int| 0 <= i < rest.len() implies (#[trigger] rest[i]).id != id by {
                    assert(context[i + 1].id != id);
                }
            }
        }
        assert forall|i: int|
            0 <= i < context.len() && (#[trigger] context[i]).id == id && is_unknown(
                context.take(i),
                id,
            ) implies find_chunk(context, id) == Some(context[i]) by {
            if i > 0 {
                assert(context.take(i)[0] == context[0]);
                assert(rest[i - 1] == context[i]);
                assert forall|x: int| 0 <= x < i - 1 implies (#[trigger] rest.take(i - 1)[x]).id
                    != id by {
                    assert(context.take(i)[x + 1].id != id);
                }
            }
        }
    }
}

proof fn lemma_untrusted(context: Seq<ChunkView>, id: u64)
    ensures
        is_untrusted(context, id) <==> (find_chunk(context, id) matches Some(chunk)
            && !chunk.provenance.has_authority()),
{
    law_lookup_finds_the_first(context, id);
    if find_chunk(context, id) is Some {
        let i = lemma_first_index(context, id);
        assert(context[i].id == id);
    }
}

proof fn lemma_first_index(context: Seq<ChunkView>, id: u64) -> (i: int)
    requires
        find_chunk(context, id) is Some,
    ensures
        0 <= i < context.len(),
        context[i].id == id,
        is_unknown(context.take(i), id),
        find_chunk(context, id) == Some(context[i]),
    decreases context.len(),
{
    if context[0].id == id {
        0
    } else {
        let k = lemma_first_index(context.drop_first(), id);
        assert forall|x: int| 0 <= x < k + 1 implies (#[trigger] context.take(k + 1)[x]).id != id by {
            if x > 0 {
                assert(context.drop_first().take(k)[x - 1].id != id);
            }
        }
        assert(context.drop_first()[k] == context[k + 1]);
        k + 1
    }
}

proof fn lemma_faulty_ids(context: Seq<ChunkView>, ids: Seq<u64>)
    ensures
        missing_ids(context, ids) == ids.filter(|id: u64| is_unknown(context, id)),
        untrusted_ids(context, ids) == ids.filter(|id: u64| is_untrusted(context, id)),
    decreases ids.len(),
{
    reveal(Seq::filter);
    if ids.len() > 0 {
        lemma_faulty_ids(context, ids.drop_last());
        law_lookup_finds_the_first(context, ids.last());
        lemma_untrusted(context, ids.last());
    } else {
        assert(missing_ids(context, ids) =~= ids);
        assert(untrusted_ids(context, ids) =~= ids);
    }
}

/// Every decision follows from the bundle, the count, the call and the context
/// in a fixed order: an exhausted budget; a target that no entry of its list
/// reaches; for a guarded class, no citation, then citations of chunks that do
/// not exist, then citations of chunks that do not come from the operator, each
/// with the ids at fault in the order of citation; a class that a human has to
/// confirm; and otherwise the call is allowed. The reason says which it was.
pub proof fn law_decision_follows_from_its_inputs(
    monitor: &Monitor,
    call: &ToolCall,
    context: &[Chunk],
    decision: Decision,
)
    requires
        call_ensures(Monitor::decide_inner, (monitor, call, context), decision),
    ensures
        ({
            let caps = monitor.caps();
            let chunks = crate::provenance::chunks_view(context@);
            let ids = call.justification_chunks@;
            let class = call@.action.class();
            let name = class.name_text();
            let guarded = caps.require_user_intent@.contains(class);
            let unknown = ids.filter(|id: u64| is_unknown(chunks, id));
            let untrusted = ids.filter(|id: u64| is_untrusted(chunks, id));
            decision@ == if monitor.calls_made() >= caps.spend.max_tool_calls {
                DecisionView::Deny {
                    reason: "tool-call budget exhausted ("@ + text::decimal(
                        caps.spend.max_tool_calls as nat,
                    ) + " used)"@,
                }
            } else if !target_is_listed(caps, call@.action) {
                DecisionView::Deny { reason: name + " target outside capability bundle"@ }
            } else if guarded && ids.len() == 0 {
                DecisionView::Deny {
                    reason: name
                        + " requires user-provenance justification; no chunks were cited"@,
                }
            } else if guarded && unknown.len() > 0 {
                DecisionView::Deny {
                    reason: name + " cited nonexistent chunk(s) "@ + ("["@ + text::id_list(
                        unknown,
                        ", "@,
                    ) + "]"@),
                }
            } else if guarded && untrusted.len() > 0 {
                DecisionView::Deny {
                    reason: name + " requires every cited chunk to carry user authority; chunk(s) "@
                        + ("["@ + text::id_list(untrusted, ", "@) + "]"@)
                        + " are untrusted as intent"@,
                }
            } else if caps.require_confirm@.contains(class) {
                DecisionView::Escalate { reason: name + " requires human confirmation"@ }
            } else {
                DecisionView::Allow
            }
        }),
{
    lemma_listed(monitor.caps(), call@.action);
    lemma_faulty_ids(
        crate::provenance::chunks_view(context@),
        call.justification_chunks@,
    );
}

/// A listed target is enough where nothing else stands in the way: as long as
/// the budget lasts, a call of a class that is neither guarded nor to be
/// confirmed is allowed exactly if some entry of its list reaches its target,
/// wherever in the list that entry stands.
pub proof fn law_listed_targets_are_allowed(
    caps: Capabilities,
    calls_made: u32,
    call: ToolCallView,
    context: Seq<ChunkView>,
)
    requires
        calls_made < caps.spend.max_tool_calls,
        !caps.require_user_intent@.contains(call.action.class()),
        !caps.require_confirm@.contains(call.action.class()),
    ensures
        policy(caps, calls_made, call, context) is Allow <==> target_is_listed(caps, call.action),
{
    lemma_listed(caps, call.action);
}

/// A decision is on record as it was made: one entry more, at the end, with
/// the call and the decision, and all others as they were.
pub proof fn law_decisions_are_on_record(
    before: Seq<AuditEntryView>,
    after: Seq<AuditEntryView>,
    call: ToolCallView,
    decision: DecisionView,
)
    requires
        decision_recorded(before, after, call, decision),
    ensures
        after.len() == before.len() + 1,
        after.take(before.len() as int) == before,
        after.last().event == (AuditEventView::Tool { call, decision }),
        after.last().seq == before.len() as u64,
{
    assert(after.take(before.len() as int) =~= before);
}

/// Permission is the policy's to give: an approval is granted exactly if the
/// policy allows its call, and a verdict states the decision it stands for.
pub proof fn law_permission_is_the_policys(approval: Approval, verdict: Verdict)
    ensures
        approval.granted() <==> policy(
            approval.caps,
            approval.calls_made,
            approval.call,
            approval.context,
        ) == DecisionView::Allow,
        match verdict {
            Verdict::Allow(_) => verdict.decision() == DecisionView::Allow,
            Verdict::Deny { reason } => verdict.decision() == (DecisionView::Deny {
                reason: reason@,
            }),
            Verdict::Escalate { reason } => verdict.decision() == (DecisionView::Escalate {
                reason: reason@,
            }),
        },
{
}

} // verus!
