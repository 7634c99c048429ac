//! Provenance tags for every piece of context the model sees.
//!
//! The monitor has to know which *source of intent* is asking: the operator, a
//! tool's own output, a fetched page, or a file on disk. Without that
//! distinction an instruction the user gave cannot be told from an instruction
//! that a hostile page inserted into the context.

use crate::text;
use vstd::prelude::*;
use vstd::string::*;

verus! {

/// The source of a piece of context shown to the model.
#[derive(Debug, PartialEq, Eq)]
pub enum Provenance {
    /// A direct instruction from the human operator running the session.
    User,
    /// The harness's own system prompt, set by the trusted operator.
    System,
    /// A notification emitted by the orchestrator or the monitor, such as the
    /// reason of a denial. Informational only: citing one as justification for
    /// a guarded action is rejected, so a denial message cannot be turned into
    /// the authority required to retry the denied action.
    Monitor,
    /// Output returned by a tool the agent invoked.
    Tool { name: String, call_id: u64 },
    /// Content fetched from the network.
    Web { url: String },
    /// Content read from the filesystem.
    File { path: String },
}

/// A provenance as a mathematical value.
pub enum ProvenanceView {
    User,
    System,
    Monitor,
    Tool { name: Seq<char>, call_id: u64 },
    Web { url: Seq<char> },
    File { path: Seq<char> },
}

impl View for Provenance {
    type V = ProvenanceView;

    open spec fn view(&self) -> ProvenanceView {
        match self {
            Provenance::User => ProvenanceView::User,
            Provenance::System => ProvenanceView::System,
            Provenance::Monitor => ProvenanceView::Monitor,
            Provenance::Tool { name, call_id } => ProvenanceView::Tool {
                name: name@,
                call_id: *call_id,
            },
            Provenance::Web { url } => ProvenanceView::Web { url: url@ },
            Provenance::File { path } => ProvenanceView::File { path: path@ },
        }
    }
}

impl ProvenanceView {
    /// Only the operator and the operator's system prompt carry authority.
    pub open spec fn has_authority(self) -> bool {
        self is User || self is System
    }

    /// The label shown to the model and in human-readable output.
    pub open spec fn label_text(self) -> Seq<char> {
        match self {
            ProvenanceView::User => "USER"@,
            ProvenanceView::System => "SYSTEM"@,
            ProvenanceView::Monitor => "MONITOR"@,
            ProvenanceView::Tool { name, call_id } => "TOOL("@ + name + "#"@
                + text::decimal(call_id as nat) + ")"@,
            ProvenanceView::Web { url } => "WEB("@ + url + ")"@,
            ProvenanceView::File { path } => "FILE("@ + path + ")"@,
        }
    }
}

impl Clone for Provenance {
    fn clone(&self) -> (res: Provenance)
        ensures
            res@ == self@,
    {
        match self {
            Provenance::User => Provenance::User,
            Provenance::System => Provenance::System,
            Provenance::Monitor => Provenance::Monitor,
            Provenance::Tool { name, call_id } => Provenance::Tool {
                name: name.clone(),
                call_id: *call_id,
            },
            Provenance::Web { url } => Provenance::Web { url: url.clone() },
            Provenance::File { path } => Provenance::File { path: path.clone() },
        }
    }
}

impl Provenance {
    /// True iff this provenance is treated as carrying operator authority.
    ///
    /// Only `User` and `System` qualify. Monitor notifications, tool output,
    /// web content and file content may inform the model's reasoning, but they
    /// cannot authorize an action the operator did not request.
    pub fn carries_user_authority(&self) -> (res: bool)
        ensures
            res == self@.has_authority(),
    {
        matches!(self, Provenance::User | Provenance::System)
    }

    /// Short label used in human-readable output.
    pub fn label(&self) -> (res: String)
        ensures
            res@ == self@.label_text(),
    {
        match self {
            Provenance::User => "USER".to_owned(),
            Provenance::System => "SYSTEM".to_owned(),
            Provenance::Monitor => "MONITOR".to_owned(),
            Provenance::Tool { name, call_id } => {
                let mut s = "TOOL(".to_owned();
                s.append(name.as_str());
                s.append("#");
                s.append(text::decimal_text(*call_id as u128).as_str());
                s.append(")");
                s
            },
            Provenance::Web { url } => {
                let mut s = "WEB(".to_owned();
                s.append(url.as_str());
                s.append(")");
                s
            },
            Provenance::File { path } => {
                let mut s = "FILE(".to_owned();
                s.append(path.as_str());
                s.append(")");
                s
            },
        }
    }
}

/// A piece of context shown to the model, with its provenance attached.
///
/// `id` is the handle the model uses when it cites a chunk as justification
/// for a tool call.
#[derive(Debug)]
pub struct Chunk {
    pub id: u64,
    pub provenance: Provenance,
    pub content: String,
}

/// A chunk as a mathematical value.
pub struct ChunkView {
    pub id: u64,
    pub provenance: ProvenanceView,
    pub content: Seq<char>,
}

impl View for Chunk {
    type V = ChunkView;

    open spec fn view(&self) -> ChunkView {
        ChunkView { id: self.id, provenance: self.provenance@, content: self.content@ }
    }
}

/// The chunks of a context as mathematical values.
pub open spec fn chunks_view(context: Seq<Chunk>) -> Seq<ChunkView> {
    Seq::new(context.len(), |i: int| context[i]@)
}

impl Clone for Chunk {
    fn clone(&self) -> (res: Chunk)
        ensures
            res@ == self@,
    {
        Chunk {
            id: self.id,
            provenance: self.provenance.clone(),
            content: self.content.clone(),
        }
    }
}

/// Only what the operator said, in person or in the system prompt, carries
/// authority.
pub proof fn law_only_the_operator_has_authority(provenance: &Provenance, res: bool)
    requires
        call_ensures(Provenance::carries_user_authority, (provenance,), res),
    ensures
        res <==> *provenance is User || *provenance is System,
{
}

/// A label says which kind of source it is and, for a tool, a page or a file,
/// which one: the name and the number of the call, the whole URL, the whole
/// path.
pub proof fn law_labels_name_the_source(provenance: &Provenance, res: String)
    requires
        call_ensures(Provenance::label, (provenance,), res),
    ensures
        match *provenance {
            Provenance::User => res@ == "USER"@,
            Provenance::System => res@ == "SYSTEM"@,
            Provenance::Monitor => res@ == "MONITOR"@,
            Provenance::Tool { name, call_id } => res@ == "TOOL("@ + name@ + "#"@ + text::decimal(
                call_id as nat,
            ) + ")"@,
            Provenance::Web { url } => res@ == "WEB("@ + url@ + ")"@,
            Provenance::File { path } => res@ == "FILE("@ + path@ + ")"@,
        },
{
}

} // verus!
