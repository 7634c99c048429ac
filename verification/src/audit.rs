//! Hash-chained audit log.
//!
//! Each entry carries the SHA-256 of `(seq, ts, event, prev_hash)`, so an edit
//! of a single entry breaks the chain and [`AuditLog::verify_chain`] rejects
//! it. The chain covers the monitor's decisions and the session's terminal
//! state.

use crate::clock;
use crate::json;
use crate::monitor::{Decision, DecisionView};
use crate::text;
use crate::tools::{ToolCall, ToolCallView};
use crate::wire;
use sha2::Digest;
use std::time::SystemTime;
use vstd::prelude::*;
use vstd::string::*;

verus! {

/// The time stamp of the point at which the system clock stands. Nothing is
/// claimed of where it stands.
fn now_millis() -> (res: u128)
    ensures
        exists|now: SystemTime| res == #[trigger] clock::stamp_at(now),
{
    let now = SystemTime::now();
    clock::millis_at(&now)
}

/// The SHA-256 digest of a message.
pub uninterp spec fn sha256(message: Seq<u8>) -> Seq<u8>;

/// `sha2::Sha256::digest` computes the SHA-256 digest of a message: 32 bytes
/// that depend on the message alone.
#[verifier::external_body]
fn sha256_digest(message: &[u8]) -> (res: Vec<u8>)
    ensures
        res@ == sha256(message@),
        res@.len() == 32,
{
    sha2::Sha256::digest(message).to_vec()
}

/// One event in the audit chain.
#[derive(Debug)]
pub enum AuditEvent {
    /// A monitor decision on a model-proposed tool call.
    Tool { call: ToolCall, decision: Decision },
    /// The session ended normally with this answer.
    Answer { text: String },
    /// The session halted (spend exhausted, escalation, etc.).
    Halt { reason: String },
}

/// An audit event as a mathematical value.
pub enum AuditEventView {
    Tool { call: ToolCallView, decision: DecisionView },
    Answer { text: Seq<char> },
    Halt { reason: Seq<char> },
}

impl View for AuditEvent {
    type V = AuditEventView;

    open spec fn view(&self) -> AuditEventView {
        match self {
            AuditEvent::Tool { call, decision } => AuditEventView::Tool {
                call: call@,
                decision: decision@,
            },
            AuditEvent::Answer { text } => AuditEventView::Answer { text: text@ },
            AuditEvent::Halt { reason } => AuditEventView::Halt { reason: reason@ },
        }
    }
}

impl Clone for AuditEvent {
    fn clone(&self) -> (res: AuditEvent)
        ensures
            res@ == self@,
    {
        match self {
            AuditEvent::Tool { call, decision } => AuditEvent::Tool {
                call: call.clone(),
                decision: decision.clone(),
            },
            AuditEvent::Answer { text } => AuditEvent::Answer { text: text.clone() },
            AuditEvent::Halt { reason } => AuditEvent::Halt { reason: reason.clone() },
        }
    }
}

#[derive(Debug)]
pub struct AuditEntry {
    pub seq: u64,
    pub ts_millis: u128,
    pub event: AuditEvent,
    /// The previous entry's `hash`. Empty for the first entry.
    pub prev_hash: String,
    /// Hex SHA-256 of `(seq, ts_millis, event, prev_hash)` in canonical JSON form.
    pub hash: String,
}

/// An audit entry as a mathematical value.
pub struct AuditEntryView {
    pub seq: u64,
    pub ts_millis: u128,
    pub event: AuditEventView,
    pub prev_hash: Seq<char>,
    pub hash: Seq<char>,
}

impl View for AuditEntry {
    type V = AuditEntryView;

    open spec fn view(&self) -> AuditEntryView {
        AuditEntryView {
            seq: self.seq,
            ts_millis: self.ts_millis,
            event: self.event@,
            prev_hash: self.prev_hash@,
            hash: self.hash@,
        }
    }
}

impl Clone for AuditEntry {
    fn clone(&self) -> (res: AuditEntry)
        ensures
            res@ == self@,
    {
        AuditEntry {
            seq: self.seq,
            ts_millis: self.ts_millis,
            event: self.event.clone(),
            prev_hash: self.prev_hash.clone(),
            hash: self.hash.clone(),
        }
    }
}

impl AuditEntry {
    /// The call and the decision, where the entry records one.
    pub fn as_tool_decision(&self) -> (res: Option<(&ToolCall, &Decision)>)
        ensures
            match self@.event {
                AuditEventView::Tool { call, decision } => {
                    &&& res is Some
                    &&& res.unwrap().0@ == call
                    &&& res.unwrap().1@ == decision
                },
                _ => res is None,
            },
    {
        match &self.event {
            AuditEvent::Tool { call, decision } => Some((call, decision)),
            _ => None,
        }
    }

    /// Writes the entry as one JSON object.
    pub fn to_json(&self) -> (res: String)
        ensures
            res@ == entry_form(self@),
    {
        let mut s = "{\"seq\":".to_owned();
        s.append(text::decimal_text(self.seq as u128).as_str());
        s.append(",\"ts_millis\":");
        s.append(text::decimal_text(self.ts_millis).as_str());
        s.append(",\"event\":");
        s.append(event_json(&self.event).as_str());
        s.append(",\"prev_hash\":");
        s.append(json::json_string(self.prev_hash.as_str()).as_str());
        s.append(",\"hash\":");
        s.append(json::json_string(self.hash.as_str()).as_str());
        s.append("}");
        s
    }
}

/// The entries of a log as mathematical values.
pub open spec fn entries_view(entries: Seq<AuditEntry>) -> Seq<AuditEntryView> {
    Seq::new(entries.len(), |i: int| entries[i]@)
}

/// The JSON form of an event.
pub open spec fn event_form(event: AuditEventView) -> Seq<char> {
    match event {
        AuditEventView::Tool { call, decision } => "{\"kind\":\"tool\",\"call\":"@
            + wire::call_form(call) + ",\"decision\":"@ + wire::decision_form(decision) + "}"@,
        AuditEventView::Answer { text } => "{\"kind\":\"answer\",\"text\":"@ + json::json_text(text)
            + "}"@,
        AuditEventView::Halt { reason } => "{\"kind\":\"halt\",\"reason\":"@ + json::json_text(
            reason,
        ) + "}"@,
    }
}

/// Writes the JSON form of an event.
pub fn event_json(event: &AuditEvent) -> (res: String)
    ensures
        res@ == event_form(event@),
{
    match event {
        AuditEvent::Tool { call, decision } => {
            let mut s = "{\"kind\":\"tool\",\"call\":".to_owned();
            s.append(wire::call_json(call).as_str());
            s.append(",\"decision\":");
            s.append(wire::decision_json(decision).as_str());
            s.append("}");
            s
        },
        AuditEvent::Answer { text } => {
            let mut s = "{\"kind\":\"answer\",\"text\":".to_owned();
            s.append(json::json_string(text.as_str()).as_str());
            s.append("}");
            s
        },
        AuditEvent::Halt { reason } => {
            let mut s = "{\"kind\":\"halt\",\"reason\":".to_owned();
            s.append(json::json_string(reason.as_str()).as_str());
            s.append("}");
            s
        },
    }
}

/// The JSON form of an entry.
pub open spec fn entry_form(entry: AuditEntryView) -> Seq<char> {
    "{\"seq\":"@ + text::decimal(entry.seq as nat) + ",\"ts_millis\":"@ + text::decimal(
        entry.ts_millis as nat,
    ) + ",\"event\":"@ + event_form(entry.event) + ",\"prev_hash\":"@ + json::json_text(
        entry.prev_hash,
    ) + ",\"hash\":"@ + json::json_text(entry.hash) + "}"@
}

/// The canonical text that the hash of an entry covers: a JSON array of the
/// sequence number, the time stamp, the event and the previous hash.
pub open spec fn canonical_form(
    seq: u64,
    ts_millis: u128,
    event: AuditEventView,
    prev_hash: Seq<char>,
) -> Seq<char> {
    "["@ + text::decimal(seq as nat) + ","@ + text::decimal(ts_millis as nat) + ","@ + event_form(
        event,
    ) + ","@ + json::json_text(prev_hash) + "]"@
}

/// The bytes that the hash of an entry covers.
pub open spec fn hashed_bytes(entry: AuditEntryView) -> Seq<u8> {
    vstd::utf8::encode_utf8(
        canonical_form(entry.seq, entry.ts_millis, entry.event, entry.prev_hash),
    )
}

/// The hash an entry ought to carry.
pub open spec fn entry_hash(
    seq: u64,
    ts_millis: u128,
    event: AuditEventView,
    prev_hash: Seq<char>,
) -> Seq<char> {
    text::hex(sha256(vstd::utf8::encode_utf8(canonical_form(seq, ts_millis, event, prev_hash))))
}

/// Computes the hash of an entry.
pub fn compute_entry_hash(seq: u64, ts_millis: u128, event: &AuditEvent, prev_hash: &str) -> (res:
    String)
    ensures
        res@ == entry_hash(seq, ts_millis, event@, prev_hash@),
{
    let mut canonical = "[".to_owned();
    canonical.append(text::decimal_text(seq as u128).as_str());
    canonical.append(",");
    canonical.append(text::decimal_text(ts_millis).as_str());
    canonical.append(",");
    canonical.append(event_json(event).as_str());
    canonical.append(",");
    canonical.append(json::json_string(prev_hash).as_str());
    canonical.append("]");
    let digest = sha256_digest(canonical.as_str().as_bytes());
    text::hex_encode(digest.as_slice())
}

/// The hash that the next entry of a log has to link to.
pub open spec fn chain_tip(log: Seq<AuditEntryView>) -> Seq<char> {
    if log.len() == 0 {
        Seq::empty()
    } else {
        log.last().hash
    }
}

/// The entry that records `event` at the end of `log`.
pub open spec fn next_entry(
    log: Seq<AuditEntryView>,
    ts_millis: u128,
    event: AuditEventView,
) -> AuditEntryView {
    AuditEntryView {
        seq: log.len() as u64,
        ts_millis,
        event,
        prev_hash: chain_tip(log),
        hash: entry_hash(log.len() as u64, ts_millis, event, chain_tip(log)),
    }
}

/// `log` with `event` recorded at its end.
pub open spec fn recorded(
    log: Seq<AuditEntryView>,
    ts_millis: u128,
    event: AuditEventView,
) -> Seq<AuditEntryView> {
    log.push(next_entry(log, ts_millis, event))
}

/// What is wrong with entry `i` of a log, if anything: its sequence number is
/// not its position, it does not link to the entry before it, or its hash is
/// not the hash of its content. The first of these is reported.
pub open spec fn link_fault(log: Seq<AuditEntryView>, i: int) -> Option<Seq<char>> {
    let entry = log[i];
    let at = text::decimal(i as nat);
    if entry.seq != i {
        Some("entry "@ + at + ": seq "@ + text::decimal(entry.seq as nat) + " (expected "@ + at
            + ")"@)
    } else if entry.prev_hash != chain_tip(log.take(i)) {
        Some("entry "@ + at + ": prev_hash does not chain"@)
    } else if entry.hash != entry_hash(
        entry.seq,
        entry.ts_millis,
        entry.event,
        entry.prev_hash,
    ) {
        Some("entry "@ + at + ": hash does not match content"@)
    } else {
        None
    }
}

/// Every link of the chain is intact.
pub open spec fn chain_intact(log: Seq<AuditEntryView>) -> bool {
    forall|i: int| 0 <= i < log.len() ==> (#[trigger] link_fault(log, i)) is None
}

/// Walks a chain of entries and confirms every link is intact. Returns `Err`
/// on the first entry whose `seq`, `prev_hash` or `hash` does not line up.
pub fn verify_entries(entries: &[AuditEntry]) -> (res: Result<(), String>)
    ensures
        res is Ok <==> chain_intact(entries_view(entries@)),
        res matches Err(message) ==> exists|i: int|
            #![trigger link_fault(entries_view(entries@), i)]
            {
                &&& 0 <= i < entries@.len()
                &&& link_fault(entries_view(entries@), i) == Some(message@)
                &&& forall|j: int|
                    0 <= j < i ==> (#[trigger] link_fault(entries_view(entries@), j)) is None
            },
{
    let ghost log = entries_view(entries@);
    let mut prev = String::new();
    let mut i: usize = 0;
    while i < entries.len()
        invariant
            i <= entries@.len(),
            log == entries_view(entries@),
            prev@ == chain_tip(log.take(i as int)),
            forall|j: int| 0 <= j < i ==> (#[trigger] link_fault(log, j)) is None,
        decreases entries@.len() - i,
    {
        let entry = &entries[i];
        assert(log[i as int] == entry@);
        let at = text::decimal_text(i as u128);
        if entry.seq != i as u64 {
            let mut message = "entry ".to_owned();
            message.append(at.as_str());
            message.append(": seq ");
            message.append(text::decimal_text(entry.seq as u128).as_str());
            message.append(" (expected ");
            message.append(at.as_str());
            message.append(")");
            assert(link_fault(log, i as int) == Some(message@));
            return Err(message);
        }
        if entry.prev_hash != prev {
            let mut message = "entry ".to_owned();
            message.append(at.as_str());
            message.append(": prev_hash does not chain");
            assert(link_fault(log, i as int) == Some(message@));
            return Err(message);
        }
        let expected = compute_entry_hash(
            entry.seq,
            entry.ts_millis,
            &entry.event,
            entry.prev_hash.as_str(),
        );
        if entry.hash != expected {
            let mut message = "entry ".to_owned();
            message.append(at.as_str());
            message.append(": hash does not match content");
            assert(link_fault(log, i as int) == Some(message@));
            return Err(message);
        }
        prev = entry.hash.clone();
        assert(log.take(i + 1).last() == entry@);
        i = i + 1;
    }
    Ok(())
}

/// Where every entry of a log goes as one JSON line, besides the log itself.
pub trait AuditSink {
    /// The lines the sink has been given so far.
    closed spec fn lines(&self) -> Seq<Seq<char>> {
        arbitrary()
    }

    /// Takes `line`, the JSON form of `entry`. A sink that keeps lines on disk
    /// makes this one durable before it returns.
    fn write(&mut self, entry: &AuditEntry, line: &str)
        requires
            line@ == entry_form(entry@),
        ensures
            final(self).lines() == old(self).lines().push(line@),
    ;
}

/// A sink that keeps its lines in memory.
pub struct MemorySink {
    lines: Vec<String>,
}

impl MemorySink {
    /// A sink without lines.
    pub fn new() -> (res: MemorySink)
        ensures
            res.lines() == Seq::<Seq<char>>::empty(),
    {
        let sink = MemorySink { lines: Vec::new() };
        assert(sink.lines() =~= Seq::<Seq<char>>::empty());
        sink
    }

    /// The lines the sink has been given, oldest first.
    pub fn kept(&self) -> (res: &Vec<String>)
        ensures
            text::texts(res@) == self.lines(),
    {
        &self.lines
    }
}

impl AuditSink for MemorySink {
    closed spec fn lines(&self) -> Seq<Seq<char>> {
        text::texts(self.lines@)
    }

    fn write(&mut self, _entry: &AuditEntry, line: &str) {
        let ghost before = self.lines();
        self.lines.push(line.to_owned());
        assert(self.lines() =~= before.push(line@));
    }
}

/// The JSON forms of the entries.
pub open spec fn entry_forms(log: Seq<AuditEntryView>) -> Seq<Seq<char>> {
    Seq::new(log.len(), |i: int| entry_form(log[i]))
}

/// The lines of a sink after it has been given `entry`, if there is a sink.
pub open spec fn handed(sent: Option<Seq<Seq<char>>>, entry: AuditEntryView) -> Option<
    Seq<Seq<char>>,
> {
    match sent {
        Some(lines) => Some(lines.push(entry_form(entry))),
        None => None,
    }
}

/// The lines of a sink after it has been given the entries by which `after` is
/// longer than `before`, if there is a sink.
pub open spec fn handed_since(
    sent: Option<Seq<Seq<char>>>,
    before: Seq<AuditEntryView>,
    after: Seq<AuditEntryView>,
) -> Option<Seq<Seq<char>>> {
    match sent {
        Some(lines) => Some(lines + entry_forms(after.skip(before.len() as int))),
        None => None,
    }
}

/// Nothing recorded means nothing handed over; entries recorded one by one are
/// handed over one by one.
pub proof fn lemma_handed(
    sent: Option<Seq<Seq<char>>>,
    log: Seq<AuditEntryView>,
    x: AuditEntryView,
    y: AuditEntryView,
)
    ensures
        handed_since(sent, log, log) == sent,
        handed_since(sent, log, log.push(x)) == handed(sent, x),
        handed_since(sent, log, log.push(x).push(y)) == handed(handed(sent, x), y),
{
    if let Some(lines) = sent {
        let n = log.len() as int;
        assert(lines + entry_forms(log.skip(n)) =~= lines);
        assert(lines + entry_forms(log.push(x).skip(n)) =~= lines.push(entry_form(x)));
        assert(lines + entry_forms(log.push(x).push(y).skip(n)) =~= lines.push(entry_form(x)).push(
            entry_form(y),
        ));
    }
}

/// What is handed over in two stages is handed over.
pub proof fn lemma_handed_twice(
    sent: Option<Seq<Seq<char>>>,
    a: Seq<AuditEntryView>,
    b: Seq<AuditEntryView>,
    c: Seq<AuditEntryView>,
)
    requires
        a.is_prefix_of(b),
        b.is_prefix_of(c),
    ensures
        handed_since(handed_since(sent, a, b), b, c) == handed_since(sent, a, c),
{
    if let Some(lines) = sent {
        assert forall|i: int| a.len() <= i < b.len() implies b[i] == c[i] by {
            assert(c.subrange(0, b.len() as int)[i] == c[i]);
        }
        assert(lines + entry_forms(b.skip(a.len() as int)) + entry_forms(c.skip(b.len() as int))
            =~= lines + entry_forms(c.skip(a.len() as int)));
    }
}

/// An append-only log of audit entries.
pub struct AuditLog {
    entries: Vec<AuditEntry>,
    next_seq: u64,
    last_hash: String,
    sink: Option<Box<dyn AuditSink>>,
}

impl View for AuditLog {
    type V = Seq<AuditEntryView>;

    closed spec fn view(&self) -> Seq<AuditEntryView> {
        entries_view(self.entries@)
    }
}

impl Default for AuditLog {
    fn default() -> (res: AuditLog)
        ensures
            res.wf(),
            res@ == Seq::<AuditEntryView>::empty(),
            res.sent() is None,
    {
        AuditLog::new()
    }
}

impl AuditLog {
    /// The chain is intact and the log knows where it ends.
    pub closed spec fn wf(&self) -> bool {
        &&& chain_intact(self@)
        &&& self.next_seq == self@.len()
        &&& self.last_hash@ == chain_tip(self@)
        &&& self.sent() matches Some(lines) ==> entry_forms(self@).is_suffix_of(lines)
    }

    /// The lines that the sink of the log has been given, if it has one.
    pub closed spec fn sent(&self) -> Option<Seq<Seq<char>>> {
        match self.sink {
            Some(sink) => Some(sink.lines()),
            None => None,
        }
    }

    /// The chain of a well-formed log is intact, and the last lines that its
    /// sink has been given are the entries of the log.
    pub proof fn lemma_wf(&self)
        requires
            self.wf(),
        ensures
            chain_intact(self@),
            self.sent() matches Some(lines) ==> entry_forms(self@).is_suffix_of(lines),
    {
    }

    pub fn new() -> (res: AuditLog)
        ensures
            res.wf(),
            res@ == Seq::<AuditEntryView>::empty(),
            res.sent() is None,
    {
        let log = AuditLog {
            entries: Vec::new(),
            next_seq: 0,
            last_hash: String::new(),
            sink: None,
        };
        assert(log@ =~= Seq::<AuditEntryView>::empty());
        log
    }

    /// A log that also hands every entry to `sink`.
    pub fn with_sink(sink: Box<dyn AuditSink>) -> (res: AuditLog)
        ensures
            res.wf(),
            res@ == Seq::<AuditEntryView>::empty(),
            res.sent() == Some(sink.lines()),
    {
        let held = Some(sink);
        let log = AuditLog {
            entries: Vec::new(),
            next_seq: 0,
            last_hash: String::new(),
            sink: held,
        };
        assert(log@ =~= Seq::<AuditEntryView>::empty());
        log
    }

    /// Records a decision of the monitor, stamped with the current time.
    pub fn record_decision(&mut self, call: &ToolCall, decision: &Decision)
        requires
            old(self).wf(),
            old(self)@.len() < u64::MAX,
        ensures
            final(self).wf(),
            exists|now: SystemTime|
                final(self)@ == recorded(
                    old(self)@,
                    #[trigger] clock::stamp_at(now),
                    AuditEventView::Tool { call: call@, decision: decision@ },
                ),
            final(self).sent() == handed(old(self).sent(), final(self)@.last()),
    {
        self.record_event(AuditEvent::Tool { call: call.clone(), decision: decision.clone() });
    }

    /// Records the final answer of a session, stamped with the current time.
    pub fn record_answer(&mut self, text: &str)
        requires
            old(self).wf(),
            old(self)@.len() < u64::MAX,
        ensures
            final(self).wf(),
            exists|now: SystemTime|
                final(self)@ == recorded(
                    old(self)@,
                    #[trigger] clock::stamp_at(now),
                    AuditEventView::Answer { text: text@ },
                ),
            final(self).sent() == handed(old(self).sent(), final(self)@.last()),
    {
        self.record_event(AuditEvent::Answer { text: text.to_owned() });
    }

    /// Records why a session halted, stamped with the current time.
    pub fn record_halt(&mut self, reason: &str)
        requires
            old(self).wf(),
            old(self)@.len() < u64::MAX,
        ensures
            final(self).wf(),
            exists|now: SystemTime|
                final(self)@ == recorded(
                    old(self)@,
                    #[trigger] clock::stamp_at(now),
                    AuditEventView::Halt { reason: reason@ },
                ),
            final(self).sent() == handed(old(self).sent(), final(self)@.last()),
    {
        self.record_event(AuditEvent::Halt { reason: reason.to_owned() });
    }

    /// Records `event`, stamped with the current time.
    fn record_event(&mut self, event: AuditEvent)
        requires
            old(self).wf(),
            old(self)@.len() < u64::MAX,
        ensures
            final(self).wf(),
            exists|now: SystemTime|
                final(self)@ == recorded(old(self)@, #[trigger] clock::stamp_at(now), event@),
            final(self).sent() == handed(old(self).sent(), final(self)@.last()),
    {
        let ts_millis = now_millis();
        self.record_event_at(ts_millis, event);
    }

    /// Records `event` with the time stamp `ts_millis`. Entries recorded
    /// before stay as they are.
    pub fn record_event_at(&mut self, ts_millis: u128, event: AuditEvent)
        requires
            old(self).wf(),
            old(self)@.len() < u64::MAX,
        ensures
            final(self).wf(),
            final(self)@ == recorded(old(self)@, ts_millis, event@),
            final(self).sent() == handed(old(self).sent(), final(self)@.last()),
    {
        let ghost before = self@;
        let ghost sent = self.sent();
        let seq = self.next_seq;
        self.next_seq = self.next_seq + 1;
        let prev_hash = self.last_hash.clone();
        let hash = compute_entry_hash(seq, ts_millis, &event, prev_hash.as_str());
        self.last_hash = hash.clone();
        let entry = AuditEntry { seq, ts_millis, event, prev_hash, hash };
        if let Some(sink) = self.sink.as_mut() {
            let line = entry.to_json();
            sink.write(&entry, line.as_str());
        }
        self.entries.push(entry);
        proof {
            assert(self@ =~= recorded(before, ts_millis, event@));
            assert(self.sent() == handed(sent, self@.last()));
            assert(entry_forms(self@) =~= entry_forms(before).push(entry_form(self@.last())));
            law_recording_keeps_the_chain(before, ts_millis, event@);
        }
    }

    /// The entries recorded so far, oldest first.
    pub fn entries(&self) -> (res: &[AuditEntry])
        ensures
            entries_view(res@) == self@,
    {
        self.entries.as_slice()
    }

    /// Walks the chain and confirms every link is intact. Returns `Err` on the
    /// first entry whose `seq`, `prev_hash` or `hash` does not line up.
    pub fn verify_chain(&self) -> (res: Result<(), String>)
        ensures
            self.wf() ==> res is Ok,
            res is Ok <==> chain_intact(self@),
            res matches Err(message) ==> exists|i: int|
                #![trigger link_fault(self@, i)]
                {
                    &&& 0 <= i < self@.len()
                    &&& link_fault(self@, i) == Some(message@)
                    &&& forall|j: int| 0 <= j < i ==> (#[trigger] link_fault(self@, j)) is None
                },
    {
        verify_entries(self.entries.as_slice())
    }

    /// One JSON object per line.
    pub fn to_jsonl(&self) -> (res: String)
        ensures
            res@ == jsonl_form(self@),
    {
        let ghost log = self@;
        let mut s = String::new();
        let mut i: usize = 0;
        while i < self.entries.len()
            invariant
                i <= self.entries@.len(),
                log == entries_view(self.entries@),
                s@ == jsonl_form(log.take(i as int)),
            decreases self.entries@.len() - i,
        {
            let line = self.entries[i].to_json();
            if i > 0 {
                s.append("\n");
            }
            s.append(line.as_str());
            assert(log.take(i + 1).drop_last() =~= log.take(i as int));
            assert(log.take(i + 1).last() == self.entries@[i as int]@);
            assert(i == 0 ==> s@ =~= line@);
            i = i + 1;
        }
        assert(log.take(log.len() as int) =~= log);
        s
    }
}

/// The JSON forms of the entries with a line feed between neighbours.
pub open spec fn jsonl_form(log: Seq<AuditEntryView>) -> Seq<char>
    decreases log.len(),
{
    if log.len() == 0 {
        Seq::empty()
    } else if log.len() == 1 {
        entry_form(log[0])
    } else {
        jsonl_form(log.drop_last()) + "\n"@ + entry_form(log.last())
    }
}

/// Recording an event at the end of an intact chain gives an intact chain.
pub proof fn law_recording_keeps_the_chain(
    log: Seq<AuditEntryView>,
    ts_millis: u128,
    event: AuditEventView,
)
    requires
        chain_intact(log),
        log.len() < u64::MAX,
    ensures
        chain_intact(recorded(log, ts_millis, event)),
{
    let longer = recorded(log, ts_millis, event);
    assert forall|i: int| 0 <= i < longer.len() implies (#[trigger] link_fault(longer, i)) is None by {
        assert(longer.take(i) =~= log.take(i));
        if i < log.len() {
            assert(link_fault(log, i) is None);
        } else {
            assert(log.take(i) =~= log);
        }
    }
}

/// Two different messages with the same SHA-256 digest.
pub open spec fn collision(a: Seq<u8>, b: Seq<u8>) -> bool {
    a != b && sha256(a) == sha256(b)
}

/// The form of an event tells which event it is, whatever follows.
#[verifier::spinoff_prover]
#[verifier::rlimit(40)]
pub proof fn law_event_form_unique(
    a: AuditEventView,
    b: AuditEventView,
    x: Seq<char>,
    y: Seq<char>,
)
    requires
        event_form(a) + x == event_form(b) + y,
    ensures
        a == b,
        x == y,
{
    let tool = "{\"kind\":\"tool\",\"call\":"@;
    let answer = "{\"kind\":\"answer\",\"text\":"@;
    let halt = "{\"kind\":\"halt\",\"reason\":"@;
    let mid = ",\"decision\":"@;
    reveal_strlit("{\"kind\":\"tool\",\"call\":");
    reveal_strlit("{\"kind\":\"answer\",\"text\":");
    reveal_strlit("{\"kind\":\"halt\",\"reason\":");
    let head_a = match a {
        AuditEventView::Tool { .. } => tool,
        AuditEventView::Answer { .. } => answer,
        AuditEventView::Halt { .. } => halt,
    };
    let head_b = match b {
        AuditEventView::Tool { .. } => tool,
        AuditEventView::Answer { .. } => answer,
        AuditEventView::Halt { .. } => halt,
    };
    let rest_a = match a {
        AuditEventView::Tool { call, decision } => wire::call_form(call) + (mid + (
        wire::decision_form(decision) + ("}"@ + x))),
        AuditEventView::Answer { text } => json::json_text(text) + "}"@ + x,
        AuditEventView::Halt { reason } => json::json_text(reason) + "}"@ + x,
    };
    let rest_b = match b {
        AuditEventView::Tool { call, decision } => wire::call_form(call) + (mid + (
        wire::decision_form(decision) + ("}"@ + y))),
        AuditEventView::Answer { text } => json::json_text(text) + "}"@ + y,
        AuditEventView::Halt { reason } => json::json_text(reason) + "}"@ + y,
    };
    assert(event_form(a) + x =~= head_a + rest_a);
    assert(event_form(b) + y =~= head_b + rest_b);
    if head_a[9] != head_b[9] {
        wire::lemma_different_heads(head_a, rest_a, head_b, rest_b, 9);
    }
    match (a, b) {
        (
            AuditEventView::Tool { call: c, decision: d },
            AuditEventView::Tool { call: f, decision: g },
        ) => {
            wire::lemma_common_head(tool, rest_a, rest_b);
            let after_a = wire::decision_form(d) + ("}"@ + x);
            let after_b = wire::decision_form(g) + ("}"@ + y);
            wire::law_call_form_unique(c, f, mid + after_a, mid + after_b);
            wire::lemma_common_head(mid, after_a, after_b);
            wire::law_decision_form_unique(d, g, "}"@ + x, "}"@ + y);
            wire::lemma_common_head("}"@, x, y);
        },
        (AuditEventView::Answer { text: p }, AuditEventView::Answer { text: q }) => {
            wire::lemma_framed_text(answer, p, q, "}"@, x, y);
        },
        (AuditEventView::Halt { reason: p }, AuditEventView::Halt { reason: q }) => {
            wire::lemma_framed_text(halt, p, q, "}"@, x, y);
        },
        _ => {},
    }
}

/// The canonical text, read from its front.
proof fn lemma_canonical_nesting(
    seq: Seq<char>,
    time: Seq<char>,
    event: Seq<char>,
    link: Seq<char>,
)
    ensures
        "["@ + seq + ","@ + time + ","@ + event + ","@ + link + "]"@ == "["@ + (seq + (","@ + (time
            + (","@ + (event + (","@ + (link + ("]"@ + Seq::<char>::empty())))))))),
{
    assert("["@ + seq + ","@ + time + ","@ + event + ","@ + link + "]"@ =~= "["@ + (seq + (","@ + (
    time + (","@ + (event + (","@ + (link + ("]"@ + Seq::<char>::empty())))))))));
}

/// The canonical text tells the sequence number, the time stamp, the event and
/// the previous hash apart: two entries with the same canonical text agree in
/// all of them.
pub proof fn law_canonical_form_unique(a: AuditEntryView, b: AuditEntryView)
    requires
        canonical_form(a.seq, a.ts_millis, a.event, a.prev_hash) == canonical_form(
            b.seq,
            b.ts_millis,
            b.event,
            b.prev_hash,
        ),
    ensures
        a.seq == b.seq,
        a.ts_millis == b.ts_millis,
        a.event == b.event,
        a.prev_hash == b.prev_hash,
{
    reveal_strlit(",");
    let none = Seq::<char>::empty();
    let link_a = json::json_text(a.prev_hash) + ("]"@ + none);
    let link_b = json::json_text(b.prev_hash) + ("]"@ + none);
    let event_a = event_form(a.event) + (","@ + link_a);
    let event_b = event_form(b.event) + (","@ + link_b);
    let time_a = text::decimal(a.ts_millis as nat) + (","@ + event_a);
    let time_b = text::decimal(b.ts_millis as nat) + (","@ + event_b);
    let seq_a = text::decimal(a.seq as nat) + (","@ + time_a);
    let seq_b = text::decimal(b.seq as nat) + (","@ + time_b);
    lemma_canonical_nesting(
        text::decimal(a.seq as nat),
        text::decimal(a.ts_millis as nat),
        event_form(a.event),
        json::json_text(a.prev_hash),
    );
    lemma_canonical_nesting(
        text::decimal(b.seq as nat),
        text::decimal(b.ts_millis as nat),
        event_form(b.event),
        json::json_text(b.prev_hash),
    );
    wire::lemma_common_head("["@, seq_a, seq_b);
    wire::lemma_decimal_unique(a.seq as nat, b.seq as nat, ","@ + time_a, ","@ + time_b);
    wire::lemma_common_head(","@, time_a, time_b);
    wire::lemma_decimal_unique(
        a.ts_millis as nat,
        b.ts_millis as nat,
        ","@ + event_a,
        ","@ + event_b,
    );
    wire::lemma_common_head(","@, event_a, event_b);
    law_event_form_unique(a.event, b.event, ","@ + link_a, ","@ + link_b);
    wire::lemma_common_head(","@, link_a, link_b);
    json::law_json_text_unique(a.prev_hash, b.prev_hash, "]"@ + none, "]"@ + none);
}

/// Different byte sequences have different hexadecimal forms.
pub proof fn lemma_hex_injective(a: Seq<u8>, b: Seq<u8>)
    requires
        text::hex(a) == text::hex(b),
    ensures
        a == b,
    decreases a.len(),
{
    let s = text::hex(a);
    if a.len() > 0 && b.len() > 0 {
        assert(s[s.len() - 1] == text::hex_digit((a.last() % 16) as nat));
        assert(s[s.len() - 1] == text::hex_digit((b.last() % 16) as nat));
        assert(s[s.len() - 2] == text::hex_digit((a.last() / 16) as nat));
        assert(s[s.len() - 2] == text::hex_digit((b.last() / 16) as nat));
        assert(text::hex(a.drop_last()) =~= s.take(s.len() - 2));
        assert(text::hex(b.drop_last()) =~= s.take(s.len() - 2));
        lemma_hex_injective(a.drop_last(), b.drop_last());
        assert(a =~= a.drop_last().push(a.last()));
        assert(b =~= b.drop_last().push(b.last()));
    } else if a.len() > 0 {
        assert(s.len() >= 2);
    } else if b.len() > 0 {
        assert(text::hex(b).len() >= 2);
    } else {
        assert(a =~= b);
    }
}

/// Two entries that carry the hashes of their contents and carry the same hash
/// are the same entry, or their contents are a collision of SHA-256.
pub proof fn law_same_hash_same_entry(a: AuditEntryView, b: AuditEntryView)
    requires
        a.hash == entry_hash(a.seq, a.ts_millis, a.event, a.prev_hash),
        b.hash == entry_hash(b.seq, b.ts_millis, b.event, b.prev_hash),
        a.hash == b.hash,
    ensures
        a == b || collision(hashed_bytes(a), hashed_bytes(b)),
{
    lemma_hex_injective(sha256(hashed_bytes(a)), sha256(hashed_bytes(b)));
    if hashed_bytes(a) == hashed_bytes(b) {
        broadcast use vstd::utf8::encode_utf8_decode_utf8;

        let text_a = canonical_form(a.seq, a.ts_millis, a.event, a.prev_hash);
        let text_b = canonical_form(b.seq, b.ts_millis, b.event, b.prev_hash);
        assert(vstd::utf8::decode_utf8(hashed_bytes(a)) == text_a);
        assert(vstd::utf8::decode_utf8(hashed_bytes(b)) == text_b);
        law_canonical_form_unique(a, b);
    }
}

/// Editing a single entry of an intact chain breaks the chain, unless the edit
/// is a collision of SHA-256. This holds for every entry whose hash is left as
/// it was, and, where another entry follows, for every edit.
pub proof fn law_single_edit_breaks_the_chain(
    log: Seq<AuditEntryView>,
    i: int,
    forged: AuditEntryView,
)
    requires
        chain_intact(log),
        0 <= i < log.len(),
        forged != log[i],
        forged.hash == log[i].hash || i + 1 < log.len(),
    ensures
        chain_intact(log.update(i, forged)) ==> collision(
            hashed_bytes(log[i]),
            hashed_bytes(forged),
        ),
{
    let edited = log.update(i, forged);
    if chain_intact(edited) {
        assert(link_fault(log, i) is None);
        assert(link_fault(edited, i) is None);
        if i + 1 < log.len() {
            assert(link_fault(log, i + 1) is None);
            assert(link_fault(edited, i + 1) is None);
            assert(log.take(i + 1).last() == log[i]);
            assert(edited.take(i + 1).last() == forged);
        }
        law_same_hash_same_entry(log[i], forged);
    }
}

/// Two intact chains of the same length that end in the same hash record the
/// same history, or they hold a collision of SHA-256 at some position.
pub proof fn law_same_tip_same_history(a: Seq<AuditEntryView>, b: Seq<AuditEntryView>)
    requires
        chain_intact(a),
        chain_intact(b),
        a.len() == b.len(),
        chain_tip(a) == chain_tip(b),
    ensures
        a == b || exists|i: int|
            0 <= i < a.len() && collision(
                #[trigger] hashed_bytes(a[i]),
                #[trigger] hashed_bytes(b[i]),
            ),
    decreases a.len(),
{
    if a.len() == 0 {
        assert(a =~= b);
    } else {
        let last = a.len() - 1;
        assert(link_fault(a, last) is None);
        assert(link_fault(b, last) is None);
        law_same_hash_same_entry(a[last], b[last]);
        if a[last] == b[last] {
            let c = a.drop_last();
            let d = b.drop_last();
            assert forall|i: int| 0 <= i < c.len() implies (#[trigger] link_fault(c, i)) is None by {
                assert(link_fault(a, i) is None);
                assert(c.take(i) =~= a.take(i));
            }
            assert forall|i: int| 0 <= i < d.len() implies (#[trigger] link_fault(d, i)) is None by {
                assert(link_fault(b, i) is None);
                assert(d.take(i) =~= b.take(i));
            }
            assert(c =~= a.take(last));
            assert(d =~= b.take(last));
            law_same_tip_same_history(c, d);
            if c == d {
                assert(a =~= c.push(a[last]));
                assert(b =~= d.push(b[last]));
            } else {
                let i = choose|i: int|
                    0 <= i < c.len() && collision(
                        #[trigger] hashed_bytes(c[i]),
                        #[trigger] hashed_bytes(d[i]),
                    );
                assert(c[i] == a[i] && d[i] == b[i]);
            }
        } else {
            assert(collision(hashed_bytes(a[last]), hashed_bytes(b[last])));
        }
    }
}

/// Recording adds one entry at the end and leaves the others as they are. Its
/// number is its position, its event and its time stamp are those given, and
/// it links to the hash of the entry before it, or to nothing if it is the
/// first.
pub proof fn law_recording_adds_one_entry(
    log: Seq<AuditEntryView>,
    ts_millis: u128,
    event: AuditEventView,
)
    ensures
        ({
            let after = recorded(log, ts_millis, event);
            let n = log.len() as int;
            let entry = after[n];
            &&& after.len() == n + 1
            &&& after.take(n) == log
            &&& entry.seq == n as u64
            &&& entry.ts_millis == ts_millis
            &&& entry.event == event
            &&& n == 0 ==> entry.prev_hash == Seq::<char>::empty()
            &&& n > 0 ==> entry.prev_hash == log[n - 1].hash
            &&& entry.hash == entry_hash(entry.seq, ts_millis, event, entry.prev_hash)
        }),
{
    assert(recorded(log, ts_millis, event).take(log.len() as int) =~= log);
}

/// The hash of an entry is the hexadecimal form of the SHA-256 digest of the
/// JSON array of its number, its time stamp, its event and the hash it links
/// to, all of them whole and in that order.
pub proof fn law_hash_covers_the_entry(
    seq: u64,
    ts_millis: u128,
    event: &AuditEvent,
    prev_hash: &str,
    hash: String,
)
    requires
        call_ensures(compute_entry_hash, (seq, ts_millis, event, prev_hash), hash),
    ensures
        hash@ == text::hex(
            sha256(
                vstd::utf8::encode_utf8(
                    "["@ + text::decimal(seq as nat) + ","@ + text::decimal(ts_millis as nat)
                        + ","@ + event_form(event@) + ","@ + json::json_text(prev_hash@) + "]"@,
                ),
            ),
        ),
{
}

/// The link at position `i` is as it ought to be: the entry has its position
/// as its number, links to the hash of the entry before it, or to nothing if
/// it is the first, and carries the hash of its own contents.
pub open spec fn well_linked(log: Seq<AuditEntryView>, i: int) -> bool {
    &&& log[i].seq == i
    &&& i == 0 ==> log[i].prev_hash.len() == 0
    &&& i > 0 ==> log[i].prev_hash == log[i - 1].hash
    &&& log[i].hash == entry_hash(
        log[i].seq,
        log[i].ts_millis,
        log[i].event,
        log[i].prev_hash,
    )
}

proof fn lemma_well_linked(log: Seq<AuditEntryView>, i: int)
    requires
        0 <= i < log.len(),
    ensures
        well_linked(log, i) <==> link_fault(log, i) is None,
{
    if i == 0 {
        assert(log[0].prev_hash =~= Seq::<char>::empty() <==> log[0].prev_hash.len() == 0);
    } else {
        assert(log.take(i).last() == log[i - 1]);
    }
}

/// A chain passes exactly if every one of its links is as it ought to be.
/// Otherwise the first entry that is not is reported, by its position: a number
/// that is not the position first, then a link that does not lead to the entry
/// before, then a hash that is not that of the contents.
pub proof fn law_the_first_bad_link_is_reported(
    entries: &[AuditEntry],
    res: Result<(), String>,
    i: int,
)
    requires
        call_ensures(verify_entries, (entries,), res),
    ensures
        ({
            let log = entries_view(entries@);
            let at = text::decimal(i as nat);
            &&& res is Ok <==> forall|k: int| 0 <= k < log.len() ==> #[trigger] well_linked(log, k)
            &&& {
                &&& 0 <= i < log.len()
                &&& !well_linked(log, i)
                &&& forall|k: int| 0 <= k < i ==> #[trigger] well_linked(log, k)
            } ==> {
                &&& res is Err
                &&& log[i].seq != i ==> res->Err_0@ == "entry "@ + at + ": seq "@ + text::decimal(
                    log[i].seq as nat,
                ) + " (expected "@ + at + ")"@
                &&& log[i].seq == i && log[i].prev_hash != (if i == 0 {
                    Seq::empty()
                } else {
                    log[i - 1].hash
                }) ==> res->Err_0@ == "entry "@ + at + ": prev_hash does not chain"@
                &&& log[i].seq == i && log[i].prev_hash == (if i == 0 {
                    Seq::empty()
                } else {
                    log[i - 1].hash
                }) ==> res->Err_0@ == "entry "@ + at + ": hash does not match content"@
            }
        }),
{
    let log = entries_view(entries@);
    assert forall|k: int| 0 <= k < log.len() implies #[trigger] well_linked(log, k) == (link_fault(
        log,
        k,
    ) is None) by {
        lemma_well_linked(log, k);
    }
    if res is Ok {
        assert forall|k: int| 0 <= k < log.len() implies #[trigger] well_linked(log, k) by {
            assert(link_fault(log, k) is None);
        }
    }
    if forall|k: int| 0 <= k < log.len() ==> #[trigger] well_linked(log, k) {
        assert forall|k: int| 0 <= k < log.len() implies (#[trigger] link_fault(log, k)) is None by {
            assert(well_linked(log, k));
        }
    }
    if 0 <= i < log.len() && !well_linked(log, i) && (forall|k: int|
        0 <= k < i ==> #[trigger] well_linked(log, k)) {
        let x = choose|x: int|
            #![trigger link_fault(log, x)]
            {
                &&& 0 <= x < log.len()
                &&& link_fault(log, x) == Some(res->Err_0@)
                &&& forall|j: int| 0 <= j < x ==> (#[trigger] link_fault(log, j)) is None
            };
        if i < x {
            assert(link_fault(log, i) is None);
        }
        if x < i {
            assert(well_linked(log, x));
        }
        assert(x == i);
        if i > 0 {
            assert(log.take(i).last() == log[i - 1]);
        }
    }
}

/// A sink is given the JSON form of every entry that is recorded, in order,
/// after what it was given before; and a log without a sink gives nothing.
pub proof fn law_sink_gets_every_entry(
    sent: Option<Seq<Seq<char>>>,
    before: Seq<AuditEntryView>,
    after: Seq<AuditEntryView>,
    i: int,
)
    requires
        before.is_prefix_of(after),
    ensures
        sent is None ==> handed_since(sent, before, after) is None,
        sent matches Some(lines) ==> {
            let now = handed_since(sent, before, after).unwrap();
            &&& handed_since(sent, before, after) is Some
            &&& now.len() == lines.len() + (after.len() - before.len())
            &&& now.take(lines.len() as int) == lines
            &&& before.len() <= i < after.len() ==> now[lines.len() + (i - before.len())]
                == entry_form(after[i])
        },
        after.len() == before.len() + 1 ==> handed_since(sent, before, after) == handed(
            sent,
            after.last(),
        ),
{
    if let Some(lines) = sent {
        let now = handed_since(sent, before, after).unwrap();
        assert(now.take(lines.len() as int) =~= lines);
        if after.len() == before.len() + 1 {
            assert(now =~= lines.push(entry_form(after.last())));
        }
    }
}

/// An entry is written with all that it holds: its number, its time stamp, its
/// event, the hash it links to and its own.
pub proof fn law_entries_are_written_whole(entry: &AuditEntry, line: String)
    requires
        call_ensures(AuditEntry::to_json, (entry,), line),
    ensures
        line@ == "{\"seq\":"@ + text::decimal(entry.seq as nat) + ",\"ts_millis\":"@ + text::decimal(
            entry.ts_millis as nat,
        ) + ",\"event\":"@ + event_form(entry.event@) + ",\"prev_hash\":"@ + json::json_text(
            entry.prev_hash@,
        ) + ",\"hash\":"@ + json::json_text(entry.hash@) + "}"@,
{
}

/// An event is written with all that it holds: the call and the decision on
/// it, the answer, or the reason of the halt.
pub proof fn law_events_are_written_whole(event: &AuditEvent, form: String)
    requires
        call_ensures(event_json, (event,), form),
    ensures
        match *event {
            AuditEvent::Tool { call, decision } => form@ == "{\"kind\":\"tool\",\"call\":"@
                + wire::call_form(call@) + ",\"decision\":"@ + wire::decision_form(decision@) + "}"@,
            AuditEvent::Answer { text } => form@ == "{\"kind\":\"answer\",\"text\":"@
                + json::json_text(text@) + "}"@,
            AuditEvent::Halt { reason } => form@ == "{\"kind\":\"halt\",\"reason\":"@
                + json::json_text(reason@) + "}"@,
        },
{
}

} // verus!
