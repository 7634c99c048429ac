//! The sandboxed executor: what each allowed action asks of the host, and what
//! the session is told about the outcome.
//!
//! The executor itself touches neither files nor network nor processes. It
//! says what to do next, and it turns what came back into an [`Output`].

use crate::clock;
use crate::monitor::AllowedAction;
use crate::path;
use crate::provenance::{Provenance, ProvenanceView};
use crate::sandbox;
use crate::sandbox::{CommandLine, CommandLineView, Platform};
use crate::text;
use crate::tools::{Action, ActionView, Output, OutputView};
use crate::walk;
use crate::walk::{GrantView, LocateFault, LocateFaultView, PathGrant, WalkPlan, WalkView};
use std::time::Duration;
use vstd::prelude::*;
use vstd::string::*;

verus! {

/// Bounds on time and size for every kind of action.
#[derive(Debug, Clone, Copy, PartialEq, Eq)]
pub struct ExecutorLimits {
    pub exec_timeout: Duration,
    pub exec_stdout_max_bytes: usize,
    pub http_timeout: Duration,
    pub http_max_bytes: usize,
    pub fs_max_read_bytes: usize,
}

impl Default for ExecutorLimits {
    fn default() -> (res: ExecutorLimits)
        ensures
            clock::whole_nanos(res.exec_timeout) == 15_000_000_000,
            res.exec_stdout_max_bytes == 65_536,
            clock::whole_nanos(res.http_timeout) == 10_000_000_000,
            res.http_max_bytes == 262_144,
            res.fs_max_read_bytes == 262_144,
    {
        ExecutorLimits {
            exec_timeout: Duration::from_secs(15),
            exec_stdout_max_bytes: 64 * 1024,
            http_timeout: Duration::from_secs(10),
            http_max_bytes: 256 * 1024,
            fs_max_read_bytes: 256 * 1024,
        }
    }
}

/// The output that reports an error.
pub open spec fn error_output(message: Seq<char>) -> OutputView {
    OutputView { content: "error: "@ + message, provenance_hint: None }
}

fn err(message: &str) -> (res: Output)
    ensures
        res@ == error_output(message@),
{
    let mut content = "error: ".to_owned();
    content.append(message);
    Output { content, provenance_hint: None }
}

/// The first `cap` of the bytes, or all of them where there are fewer.
pub open spec fn capped(bytes: Seq<u8>, cap: usize) -> Seq<u8> {
    if bytes.len() > cap {
        bytes.take(cap as int)
    } else {
        bytes
    }
}

/// The text of the first `cap` bytes at most.
fn capped_text(bytes: &[u8], cap: usize) -> (res: String)
    ensures
        res@ == text::lossy_text(capped(bytes@, cap)),
        vstd::utf8::valid_utf8(capped(bytes@, cap)) ==> res@ == vstd::utf8::decode_utf8(
            capped(bytes@, cap),
        ),
{
    if bytes.len() > cap {
        let mut shown: Vec<u8> = Vec::new();
        path::append_bytes(&mut shown, bytes, cap);
        assert(shown@ =~= bytes@.take(cap as int));
        text::utf8_lossy(shown.as_slice())
    } else {
        text::utf8_lossy(bytes)
    }
}

/// The executor of a session, with the limits and grants it works under.
pub struct SandboxedExecutor {
    limits: ExecutorLimits,
    fs_read: Vec<PathGrant>,
    fs_write: Vec<PathGrant>,
    web_overrides: Vec<(String, String)>,
}

/// An executor as a mathematical value.
#[verifier::ext_equal]
pub struct ExecutorView {
    pub limits: ExecutorLimits,
    pub fs_read: Seq<GrantView>,
    pub fs_write: Seq<GrantView>,
    pub web_overrides: Seq<(Seq<char>, Seq<char>)>,
}

/// The views of URLs and the bodies that stand for them.
pub open spec fn override_views(v: Seq<(String, String)>) -> Seq<(Seq<char>, Seq<char>)> {
    Seq::new(v.len(), |i: int| (v[i].0@, v[i].1@))
}

impl View for SandboxedExecutor {
    type V = ExecutorView;

    closed spec fn view(&self) -> ExecutorView {
        ExecutorView {
            limits: self.limits,
            fs_read: walk::grant_views(self.fs_read@),
            fs_write: walk::grant_views(self.fs_write@),
            web_overrides: override_views(self.web_overrides@),
        }
    }
}

/// The first canned body for `url`, from position `from` on.
pub open spec fn canned_body(
    overrides: Seq<(Seq<char>, Seq<char>)>,
    url: Seq<char>,
    from: int,
) -> Option<Seq<char>>
    decreases overrides.len() - from,
{
    if from < 0 || from >= overrides.len() {
        None
    } else if overrides[from].0 == url {
        Some(overrides[from].1)
    } else {
        canned_body(overrides, url, from + 1)
    }
}

/// What an allowed action asks of the host.
pub enum Task {
    /// Nothing: the output is known.
    Answer(Output),
    /// Resolve `directory`, then plan the read of `path`.
    Read { path: String, directory: Vec<u8> },
    /// Resolve `directory`, then plan the write to `path`.
    Write { path: String, content: String, directory: Vec<u8> },
    /// Fetch `url`, without following redirects, and keep `cap` bytes at most.
    Fetch { url: String, cap: usize },
    /// Run the words as a program, inside the sandbox.
    Run { words: Vec<String> },
}

/// A task as a mathematical value.
pub enum TaskView {
    Answer(OutputView),
    Read { path: Seq<char>, directory: Seq<u8> },
    Write { path: Seq<char>, content: Seq<char>, directory: Seq<u8> },
    Fetch { url: Seq<char>, cap: usize },
    Run { words: Seq<Seq<char>> },
}

impl View for Task {
    type V = TaskView;

    open spec fn view(&self) -> TaskView {
        match self {
            Task::Answer(output) => TaskView::Answer(output@),
            Task::Read { path, directory } => TaskView::Read {
                path: path@,
                directory: directory@,
            },
            Task::Write { path, content, directory } => TaskView::Write {
                path: path@,
                content: content@,
                directory: directory@,
            },
            Task::Fetch { url, cap } => TaskView::Fetch { url: url@, cap: *cap },
            Task::Run { words } => TaskView::Run { words: text::texts(words@) },
        }
    }
}

/// The directory that holds the file that `path` names.
pub open spec fn holder(path: Seq<char>) -> Seq<u8> {
    path::directory_of(vstd::utf8::encode_utf8(path))
}

/// What an action asks of the host. `max_response_bytes` is what the bundle
/// permits of a response.
pub open spec fn first_task(
    executor: ExecutorView,
    action: ActionView,
    max_response_bytes: usize,
) -> TaskView {
    match action {
        ActionView::FsRead { path } => TaskView::Read { path, directory: holder(path) },
        ActionView::FsWrite { path, content } => TaskView::Write {
            path,
            content,
            directory: holder(path),
        },
        ActionView::NetGet { url } => match canned_body(executor.web_overrides, url, 0) {
            Some(body) => TaskView::Answer(
                OutputView {
                    content: body,
                    provenance_hint: Some(ProvenanceView::Web { url }),
                },
            ),
            None => TaskView::Fetch {
                url,
                cap: if max_response_bytes < executor.limits.http_max_bytes {
                    max_response_bytes
                } else {
                    executor.limits.http_max_bytes
                },
            },
        },
        ActionView::Exec { cmd } => if text::words(cmd).len() == 0 {
            TaskView::Answer(error_output("exec: empty command"@))
        } else {
            TaskView::Run { words: text::words(cmd) }
        },
    }
}

impl SandboxedExecutor {
    /// An executor with the grants of the bundle. The grants have to come from
    /// the same patterns as `Capabilities::fs_read` and `fs_write`.
    pub fn new(fs_read: Vec<PathGrant>, fs_write: Vec<PathGrant>, limits: ExecutorLimits) -> (res:
        SandboxedExecutor)
        ensures
            res@ == (ExecutorView {
                limits,
                fs_read: walk::grant_views(fs_read@),
                fs_write: walk::grant_views(fs_write@),
                web_overrides: Seq::empty(),
            }),
    {
        let res = SandboxedExecutor { limits, fs_read, fs_write, web_overrides: Vec::new() };
        assert(res@.web_overrides =~= Seq::empty());
        res
    }

    /// Installs a canned response for a URL. Where a URL has several, the
    /// first one installed answers.
    pub fn with_web_override(self, url: &str, body: &str) -> (res: SandboxedExecutor)
        ensures
            res@ == (ExecutorView {
                web_overrides: self@.web_overrides.push((url@, body@)),
                ..self@
            }),
    {
        let ghost before = self@;
        let mut res = self;
        res.web_overrides.push((url.to_owned(), body.to_owned()));
        assert(res@.web_overrides =~= before.web_overrides.push((url@, body@)));
        res
    }

    /// The limits the executor works under.
    pub fn limits(&self) -> (res: ExecutorLimits)
        ensures
            res == self@.limits,
    {
        self.limits
    }

    /// What an allowed action asks of the host.
    pub fn task(&self, allowed: &AllowedAction) -> (res: Task)
        ensures
            res@ == first_task(
                self@,
                allowed.approval().call.action,
                allowed.approval().caps.spend.max_response_bytes,
            ),
    {
        let max_response_bytes = allowed.max_response_bytes();
        match allowed.action() {
            Action::FsRead { path } => Task::Read {
                path: path.clone(),
                directory: path::directory(path.as_str().as_bytes()),
            },
            Action::FsWrite { path, content } => Task::Write {
                path: path.clone(),
                content: content.clone(),
                directory: path::directory(path.as_str().as_bytes()),
            },
            Action::NetGet { url } => match self.canned(url) {
                Some(output) => Task::Answer(output),
                None => Task::Fetch {
                    url: url.clone(),
                    cap: if max_response_bytes < self.limits.http_max_bytes {
                        max_response_bytes
                    } else {
                        self.limits.http_max_bytes
                    },
                },
            },
            Action::Exec { cmd } => {
                let words = text::split_whitespace(cmd.as_str());
                assert(text::texts(words@).len() == words@.len());
                if words.len() == 0 {
                    Task::Answer(err("exec: empty command"))
                } else {
                    Task::Run { words }
                }
            },
        }
    }

    /// The canned output for `url`, if there is one.
    fn canned(&self, url: &String) -> (res: Option<Output>)
        ensures
            match res {
                Some(output) => canned_body(self@.web_overrides, url@, 0) == Some(
                    output@.content,
                ) && output@.provenance_hint == Some(ProvenanceView::Web { url: url@ }),
                None => canned_body(self@.web_overrides, url@, 0) is None,
            },
    {
        let mut i: usize = 0;
        while i < self.web_overrides.len()
            invariant
                i <= self.web_overrides@.len(),
                canned_body(self@.web_overrides, url@, 0) == canned_body(
                    self@.web_overrides,
                    url@,
                    i as int,
                ),
            decreases self.web_overrides@.len() - i,
        {
            let (known, body) = &self.web_overrides[i];
            assert(self@.web_overrides[i as int] == (known@, body@));
            if *known == *url {
                return Some(
                    Output {
                        content: body.clone(),
                        provenance_hint: Some(Provenance::Web { url: url.clone() }),
                    },
                );
            }
            i = i + 1;
        }
        None
    }
}

/// The text of a path as it is shown.
pub open spec fn shown_path(target: Seq<u8>) -> Seq<char> {
    text::lossy_text(target)
}

/// The walk to a file to read, or what the session is told instead. Nothing it
/// is told depends on where the path leads. `parent` is the canonical form of
/// the directory that holds the file, if it has one.
pub open spec fn read_plan(
    executor: ExecutorView,
    path: Seq<char>,
    parent: Option<Seq<u8>>,
) -> Result<WalkView, OutputView> {
    match parent {
        None => Err(error_output("fs_read denied: target outside the bundle"@)),
        Some(parent) => match walk::located(
            executor.fs_read,
            vstd::utf8::encode_utf8(path),
            parent,
        ) {
            Ok(plan) => Ok(plan),
            Err(LocateFaultView::Unnamed) => Err(error_output("fs_read: empty file name"@)),
            Err(LocateFaultView::Outside { .. }) => Err(
                error_output("fs_read denied: target outside the bundle"@),
            ),
            Err(LocateFaultView::Blocked { .. }) => Err(
                error_output("fs_read denied: open failed"@),
            ),
        },
    }
}

/// The walk to a file to write, or what the session is told instead. `parent`
/// is the canonical form of the directory that holds the file, or why it has
/// none.
pub open spec fn write_plan(
    executor: ExecutorView,
    path: Seq<char>,
    parent: Result<Seq<u8>, Seq<char>>,
) -> Result<WalkView, OutputView> {
    match parent {
        Err(fault) => Err(
            error_output(
                "canonicalize parent "@ + shown_path(holder(path)) + ": "@ + fault,
            ),
        ),
        Ok(parent) => match walk::located_beneath(
            executor.fs_write,
            vstd::utf8::encode_utf8(path),
            parent,
        ) {
            Ok(plan) => Ok(plan),
            Err(LocateFaultView::Unnamed) => Err(error_output("fs_write: empty file name"@)),
            Err(LocateFaultView::Outside { target }) => Err(
                error_output(
                    "fs_write denied: canonical path "@ + shown_path(target)
                        + " escapes the bundle"@,
                ),
            ),
            Err(LocateFaultView::Blocked { target, reason }) => Err(
                write_fault(target, reason),
            ),
        },
    }
}

/// What is said about a write that failed.
pub open spec fn write_fault(target: Seq<u8>, fault: Seq<char>) -> OutputView {
    error_output("fs_write "@ + shown_path(target) + ": "@ + fault)
}

/// Why a file could not be read.
#[derive(Debug, Clone, Copy, PartialEq, Eq, Structural)]
pub enum ReadFault {
    /// A step of the walk, or the file itself, did not open.
    Open,
    /// The file opened, but reading it failed.
    Read,
}

/// The output of a read: the text, a mark if it was cut off, and the path.
pub open spec fn file_output(text: Seq<char>, truncated: bool, path: Seq<char>) -> OutputView {
    OutputView {
        content: if truncated {
            text + "\n... [truncated at byte cap]"@
        } else {
            text
        },
        provenance_hint: Some(ProvenanceView::File { path }),
    }
}

/// The output of a read: the text, a mark if it was cut off, and the path.
pub fn read_output(text: String, truncated: bool, path: String) -> (res: Output)
    ensures
        res@ == file_output(text@, truncated, path@),
{
    let mut content = text;
    if truncated {
        content.append("\n... [truncated at byte cap]");
    }
    Output { content, provenance_hint: Some(Provenance::File { path }) }
}

/// What the session is told after a read, given the bytes that were read from
/// the beginning of the file.
pub open spec fn read_result(
    limits: ExecutorLimits,
    target: Seq<u8>,
    outcome: Result<Seq<u8>, ReadFault>,
) -> OutputView {
    match outcome {
        Ok(bytes) => file_output(
            text::lossy_text(capped(bytes, limits.fs_max_read_bytes)),
            bytes.len() > limits.fs_max_read_bytes,
            shown_path(target),
        ),
        Err(ReadFault::Open) => error_output("fs_read denied: open failed"@),
        Err(ReadFault::Read) => error_output("fs_read: read failed"@),
    }
}

/// What the session is told after a write.
pub open spec fn write_result(
    target: Seq<u8>,
    content: Seq<char>,
    outcome: Result<(), Seq<char>>,
) -> OutputView {
    match outcome {
        Ok(_) => OutputView {
            content: "wrote "@ + text::decimal(vstd::utf8::encode_utf8(content).len())
                + " bytes to "@ + shown_path(target),
            provenance_hint: None,
        },
        Err(fault) => write_fault(target, fault),
    }
}

impl SandboxedExecutor {
    /// Plans the read of `path`. `parent` is the canonical form of the
    /// directory that holds the file, if it has one.
    pub fn plan_fs_read(&self, path: &str, parent: Option<Vec<u8>>) -> (res: Result<
        WalkPlan,
        Output,
    >)
        ensures
            match res {
                Ok(plan) => read_plan(
                    self@,
                    path@,
                    match parent {
                        Some(parent) => Some(parent@),
                        None => None,
                    },
                ) == Ok::<WalkView, OutputView>(plan@),
                Err(output) => read_plan(
                    self@,
                    path@,
                    match parent {
                        Some(parent) => Some(parent@),
                        None => None,
                    },
                ) == Err::<WalkView, OutputView>(output@),
            },
    {
        match parent {
            None => Err(err("fs_read denied: target outside the bundle")),
            Some(parent) => match walk::locate(
                &self.fs_read,
                path.as_bytes(),
                parent.as_slice(),
            ) {
                Ok(plan) => Ok(plan),
                Err(LocateFault::Unnamed) => Err(err("fs_read: empty file name")),
                Err(LocateFault::Outside { .. }) => Err(
                    err("fs_read denied: target outside the bundle"),
                ),
                Err(LocateFault::Blocked { .. }) => Err(err("fs_read denied: open failed")),
            },
        }
    }

    /// How many bytes of a file to read: one more than is shown, so that a
    /// longer file can be told from one that just fits.
    pub fn read_limit(&self) -> (res: u64)
        requires
            self@.limits.fs_max_read_bytes < u64::MAX,
        ensures
            res == self@.limits.fs_max_read_bytes + 1,
    {
        self.limits.fs_max_read_bytes as u64 + 1
    }

    /// What the session is told after a read along `plan`.
    pub fn finish_fs_read(&self, plan: &WalkPlan, outcome: Result<Vec<u8>, ReadFault>) -> (res:
        Output)
        ensures
            res@ == read_result(
                self@.limits,
                plan@.target,
                match outcome {
                    Ok(bytes) => Ok(bytes@),
                    Err(fault) => Err(fault),
                },
            ),
            outcome matches Ok(bytes) ==> {
                let cap = self@.limits.fs_max_read_bytes;
                let shown = bytes@.take(vstd::math::min(bytes@.len() as int, cap as int));
                &&& vstd::utf8::valid_utf8(shown) ==> res@.content == vstd::utf8::decode_utf8(shown)
                    + (if bytes@.len() > cap {
                    "\n... [truncated at byte cap]"@
                } else {
                    Seq::empty()
                })
                &&& vstd::utf8::valid_utf8(plan@.target) ==> res@.provenance_hint == Some(
                    ProvenanceView::File { path: vstd::utf8::decode_utf8(plan@.target) },
                )
            },
    {
        match outcome {
            Ok(bytes) => {
                let cap = self.limits.fs_max_read_bytes;
                let text = capped_text(bytes.as_slice(), cap);
                proof {
                    assert(bytes@.take(vstd::math::min(bytes@.len() as int, cap as int))
                        =~= capped(bytes@, cap));
                    assert(text@ + Seq::<char>::empty() =~= text@);
                }
                read_output(text, bytes.len() > cap, text::utf8_lossy(plan.target.as_slice()))
            },
            Err(ReadFault::Open) => err("fs_read denied: open failed"),
            Err(ReadFault::Read) => err("fs_read: read failed"),
        }
    }

    /// Plans the write to `path`. `parent` is the canonical form of the
    /// directory that holds the file, or why it has none.
    pub fn plan_fs_write(&self, path: &str, parent: Result<Vec<u8>, String>) -> (res: Result<
        WalkPlan,
        Output,
    >)
        ensures
            match res {
                Ok(plan) => write_plan(
                    self@,
                    path@,
                    match parent {
                        Ok(parent) => Ok(parent@),
                        Err(fault) => Err(fault@),
                    },
                ) == Ok::<WalkView, OutputView>(plan@),
                Err(output) => write_plan(
                    self@,
                    path@,
                    match parent {
                        Ok(parent) => Ok(parent@),
                        Err(fault) => Err(fault@),
                    },
                ) == Err::<WalkView, OutputView>(output@),
            },
    {
        match parent {
            Err(fault) => {
                let directory = path::directory(path.as_bytes());
                let mut message = "canonicalize parent ".to_owned();
                message.append(text::utf8_lossy(directory.as_slice()).as_str());
                message.append(": ");
                message.append(fault.as_str());
                Err(err(message.as_str()))
            },
            Ok(parent) => match walk::locate_beneath(
                &self.fs_write,
                path.as_bytes(),
                parent.as_slice(),
            ) {
                Ok(plan) => Ok(plan),
                Err(LocateFault::Unnamed) => Err(err("fs_write: empty file name")),
                Err(LocateFault::Outside { target }) => {
                    let mut message = "fs_write denied: canonical path ".to_owned();
                    message.append(text::utf8_lossy(target.as_slice()).as_str());
                    message.append(" escapes the bundle");
                    Err(err(message.as_str()))
                },
                Err(LocateFault::Blocked { target, reason }) => Err(
                    write_error(target.as_slice(), reason.as_str()),
                ),
            },
        }
    }

    /// What the session is told after a write of `content` along `plan`.
    pub fn finish_fs_write(&self, plan: &WalkPlan, content: &str, outcome: Result<(), String>) -> (
    res: Output)
        ensures
            res@ == write_result(
                plan@.target,
                content@,
                match outcome {
                    Ok(_) => Ok(()),
                    Err(fault) => Err(fault@),
                },
            ),
    {
        match outcome {
            Ok(_) => {
                let mut message = "wrote ".to_owned();
                message.append(text::decimal_text(content.as_bytes().len() as u128).as_str());
                message.append(" bytes to ");
                message.append(text::utf8_lossy(plan.target.as_slice()).as_str());
                Output { content: message, provenance_hint: None }
            },
            Err(fault) => write_error(plan.target.as_slice(), fault.as_str()),
        }
    }
}

/// What is said about a write that failed.
fn write_error(target: &[u8], fault: &str) -> (res: Output)
    ensures
        res@ == write_fault(target@, fault@),
{
    let mut message = "fs_write ".to_owned();
    message.append(text::utf8_lossy(target).as_str());
    message.append(": ");
    message.append(fault);
    err(message.as_str())
}

/// What is written at the end of a response that was cut off.
pub const RESPONSE_MARK: &'static str = "\n... [response truncated at byte cap]";

/// A response body as it arrives in pieces. It keeps `cap` bytes at most; when
/// a piece arrives after that, a mark is put at the end and the body closes.
pub struct ResponseBody {
    bytes: Vec<u8>,
    cap: usize,
    closed: bool,
}

/// A response body as a mathematical value.
#[verifier::ext_equal]
pub struct BodyView {
    pub bytes: Seq<u8>,
    pub cap: usize,
    pub closed: bool,
}

impl View for ResponseBody {
    type V = BodyView;

    closed spec fn view(&self) -> BodyView {
        BodyView { bytes: self.bytes@, cap: self.cap, closed: self.closed }
    }
}

/// The body before the first piece.
pub open spec fn no_body(cap: usize) -> BodyView {
    BodyView { bytes: Seq::empty(), cap, closed: false }
}

/// The body after one more piece.
pub open spec fn body_after(body: BodyView, piece: Seq<u8>) -> BodyView {
    if body.closed {
        body
    } else if body.bytes.len() >= body.cap {
        BodyView {
            bytes: body.bytes + vstd::utf8::encode_utf8(RESPONSE_MARK@),
            closed: true,
            ..body
        }
    } else {
        let room = body.cap - body.bytes.len();
        BodyView {
            bytes: body.bytes + (if piece.len() > room {
                piece.take(room)
            } else {
                piece
            }),
            ..body
        }
    }
}

impl ResponseBody {
    /// An empty body that keeps `cap` bytes at most.
    pub fn new(cap: usize) -> (res: ResponseBody)
        ensures
            res@ == no_body(cap),
    {
        let res = ResponseBody { bytes: Vec::new(), cap, closed: false };
        assert(res@.bytes =~= Seq::empty());
        res
    }

    /// Takes in the next piece. Returns whether more pieces are wanted.
    pub fn take_in(&mut self, piece: &[u8]) -> (res: bool)
        ensures
            final(self)@ == body_after(old(self)@, piece@),
            res == !final(self)@.closed,
    {
        if self.closed {
            return false;
        }
        if self.bytes.len() >= self.cap {
            let mark = RESPONSE_MARK.as_bytes();
            path::append_bytes(&mut self.bytes, mark, mark.len());
            assert(mark@.take(mark@.len() as int) =~= mark@);
            self.closed = true;
            return false;
        }
        let room: usize = self.cap - self.bytes.len();
        let taken: usize = if piece.len() > room {
            room
        } else {
            piece.len()
        };
        path::append_bytes(&mut self.bytes, piece, taken);
        assert(piece@.take(piece@.len() as int) =~= piece@);
        true
    }

    /// The bytes that were kept.
    pub fn into_bytes(self) -> (res: Vec<u8>)
        ensures
            res@ == self@.bytes,
    {
        self.bytes
    }
}

/// What came of a request.
pub enum NetReply {
    /// The request failed.
    Failed(String),
    /// No answer came in time.
    TimedOut,
    /// An answer came, but its body broke off.
    StreamFailed(String),
    /// An answer with its status and what was kept of its body.
    Answered { status: String, body: Vec<u8> },
}

/// What came of a request, as a mathematical value.
pub enum NetReplyView {
    Failed(Seq<char>),
    TimedOut,
    StreamFailed(Seq<char>),
    Answered { status: Seq<char>, body: Seq<u8> },
}

impl View for NetReply {
    type V = NetReplyView;

    open spec fn view(&self) -> NetReplyView {
        match self {
            NetReply::Failed(fault) => NetReplyView::Failed(fault@),
            NetReply::TimedOut => NetReplyView::TimedOut,
            NetReply::StreamFailed(fault) => NetReplyView::StreamFailed(fault@),
            NetReply::Answered { status, body } => NetReplyView::Answered {
                status: status@,
                body: body@,
            },
        }
    }
}

/// The output of a response.
pub open spec fn page_output(url: Seq<char>, status: Seq<char>, body: Seq<char>) -> OutputView {
    OutputView {
        content: "HTTP "@ + status + "\n\n"@ + body,
        provenance_hint: Some(ProvenanceView::Web { url }),
    }
}

/// The output of a response.
pub fn response_output(url: &str, status: &str, body: &str) -> (res: Output)
    ensures
        res@ == page_output(url@, status@, body@),
{
    let mut content = "HTTP ".to_owned();
    content.append(status);
    content.append("\n\n");
    content.append(body);
    Output { content, provenance_hint: Some(Provenance::Web { url: url.to_owned() }) }
}

/// What the session is told after a request.
pub open spec fn net_result(url: Seq<char>, reply: NetReplyView) -> OutputView {
    match reply {
        NetReplyView::Failed(fault) => error_output("net_get "@ + url + ": "@ + fault),
        NetReplyView::TimedOut => error_output("net_get "@ + url + ": timed out"@),
        NetReplyView::StreamFailed(fault) => error_output(
            "net_get "@ + url + " stream: "@ + fault,
        ),
        NetReplyView::Answered { status, body } => page_output(
            url,
            status,
            text::lossy_text(body),
        ),
    }
}

/// What came of a program.
pub enum ExecReply {
    /// It could not be started.
    SpawnFailed(String),
    /// It was started, but waiting for it failed.
    WaitFailed(String),
    /// It did not end in time.
    TimedOut,
    /// It ended.
    Exited { stdout: Vec<u8>, success: bool, status: String },
}

/// What came of a program, as a mathematical value.
pub enum ExecReplyView {
    SpawnFailed(Seq<char>),
    WaitFailed(Seq<char>),
    TimedOut,
    Exited { stdout: Seq<u8>, success: bool, status: Seq<char> },
}

impl View for ExecReply {
    type V = ExecReplyView;

    open spec fn view(&self) -> ExecReplyView {
        match self {
            ExecReply::SpawnFailed(fault) => ExecReplyView::SpawnFailed(fault@),
            ExecReply::WaitFailed(fault) => ExecReplyView::WaitFailed(fault@),
            ExecReply::TimedOut => ExecReplyView::TimedOut,
            ExecReply::Exited { stdout, success, status } => ExecReplyView::Exited {
                stdout: stdout@,
                success: *success,
                status: status@,
            },
        }
    }
}

/// The output of a program: its text, a mark if the text was cut off at `cap`
/// of `total` bytes, and its exit status if that is a failure.
pub open spec fn program_output(
    text: Seq<char>,
    total: nat,
    cap: usize,
    failure: Option<Seq<char>>,
) -> OutputView {
    let shown = if total > cap {
        text + "\n... [stdout truncated, "@ + text::decimal(total) + " bytes total]"@
    } else {
        text
    };
    OutputView {
        content: match failure {
            Some(status) => shown + "\n[exit status: "@ + status + "]"@,
            None => shown,
        },
        provenance_hint: None,
    }
}

/// The output of a program: its text, a mark if the text was cut off at `cap`
/// of `total` bytes, and its exit status if that is a failure.
pub fn exec_output(text: String, total: usize, cap: usize, failure: Option<&str>) -> (res: Output)
    ensures
        res@ == program_output(
            text@,
            total as nat,
            cap,
            match failure {
                Some(status) => Some(status@),
                None => None,
            },
        ),
{
    let mut content = text;
    if total > cap {
        content.append("\n... [stdout truncated, ");
        content.append(text::decimal_text(total as u128).as_str());
        content.append(" bytes total]");
    }
    if let Some(status) = failure {
        content.append("\n[exit status: ");
        content.append(status);
        content.append("]");
    }
    Output { content, provenance_hint: None }
}

/// What the session is told after a program.
pub open spec fn exec_result(limits: ExecutorLimits, reply: ExecReplyView) -> OutputView {
    match reply {
        ExecReplyView::SpawnFailed(fault) => error_output("exec spawn: "@ + fault),
        ExecReplyView::WaitFailed(fault) => error_output("exec wait: "@ + fault),
        ExecReplyView::TimedOut => error_output("exec: timed out"@),
        ExecReplyView::Exited { stdout, success, status } => program_output(
            text::lossy_text(capped(stdout, limits.exec_stdout_max_bytes)),
            stdout.len(),
            limits.exec_stdout_max_bytes,
            if success {
                None
            } else {
                Some(status)
            },
        ),
    }
}

/// The command line that runs the words of a program, or what the session is
/// told where there is no sandbox to run it in.
pub open spec fn exec_plan(
    platform: Platform,
    bwrap: Option<Seq<char>>,
    words: Seq<Seq<char>>,
) -> Result<CommandLineView, OutputView> {
    match sandbox::sandboxed(platform, bwrap, words) {
        Ok(command) => Ok(command),
        Err(reason) => Err(error_output("exec sandbox unavailable: "@ + reason)),
    }
}

impl SandboxedExecutor {
    /// What the session is told after a request for `url`.
    pub fn finish_net_get(&self, url: &str, reply: &NetReply) -> (res: Output)
        ensures
            res@ == net_result(url@, reply@),
            reply matches NetReply::Answered { status, body } ==> vstd::utf8::valid_utf8(body@)
                ==> res@.content == "HTTP "@ + status@ + "\n\n"@ + vstd::utf8::decode_utf8(body@),
    {
        let mut message = "net_get ".to_owned();
        message.append(url);
        match reply {
            NetReply::Failed(fault) => {
                message.append(": ");
                message.append(fault.as_str());
                err(message.as_str())
            },
            NetReply::TimedOut => {
                message.append(": timed out");
                err(message.as_str())
            },
            NetReply::StreamFailed(fault) => {
                message.append(" stream: ");
                message.append(fault.as_str());
                err(message.as_str())
            },
            NetReply::Answered { status, body } => {
                let text = text::utf8_lossy(body.as_slice());
                response_output(url, status.as_str(), text.as_str())
            },
        }
    }

    /// The command line that runs the words of a program in the sandbox.
    pub fn plan_exec(&self, platform: Platform, bwrap: Option<String>, words: &Vec<String>) -> (res:
        Result<CommandLine, Output>)
        ensures
            match res {
                Ok(command) => exec_plan(
                    platform,
                    match bwrap {
                        Some(program) => Some(program@),
                        None => None,
                    },
                    text::texts(words@),
                ) == Ok::<CommandLineView, OutputView>(command@),
                Err(output) => exec_plan(
                    platform,
                    match bwrap {
                        Some(program) => Some(program@),
                        None => None,
                    },
                    text::texts(words@),
                ) == Err::<CommandLineView, OutputView>(output@),
            },
    {
        match sandbox::build_sandboxed_command(platform, bwrap, words) {
            Ok(command) => Ok(command),
            Err(reason) => {
                let mut message = "exec sandbox unavailable: ".to_owned();
                message.append(reason.as_str());
                Err(err(message.as_str()))
            },
        }
    }

    /// What the session is told after a program.
    pub fn finish_exec(&self, reply: &ExecReply) -> (res: Output)
        ensures
            res@ == exec_result(self@.limits, reply@),
            reply matches ExecReply::Exited { stdout, success, status } ==> {
                let cap = self@.limits.exec_stdout_max_bytes;
                let shown = stdout@.take(vstd::math::min(stdout@.len() as int, cap as int));
                vstd::utf8::valid_utf8(shown) ==> res@.content == vstd::utf8::decode_utf8(shown) + (
                if stdout@.len() > cap {
                    "\n... [stdout truncated, "@ + text::decimal(stdout@.len())
                        + " bytes total]"@
                } else {
                    Seq::empty()
                }) + (if *success {
                    Seq::empty()
                } else {
                    "\n[exit status: "@ + status@ + "]"@
                })
            },
    {
        match reply {
            ExecReply::SpawnFailed(fault) => {
                let mut message = "exec spawn: ".to_owned();
                message.append(fault.as_str());
                err(message.as_str())
            },
            ExecReply::WaitFailed(fault) => {
                let mut message = "exec wait: ".to_owned();
                message.append(fault.as_str());
                err(message.as_str())
            },
            ExecReply::TimedOut => err("exec: timed out"),
            ExecReply::Exited { stdout, success, status } => {
                let cap = self.limits.exec_stdout_max_bytes;
                let text = capped_text(stdout.as_slice(), cap);
                let failure = if *success {
                    None
                } else {
                    Some(status.as_str())
                };
                proof {
                    let shown = text@;
                    let mark = "\n... [stdout truncated, "@ + text::decimal(stdout@.len())
                        + " bytes total]"@;
                    let exit = "\n[exit status: "@ + status@ + "]"@;
                    assert(stdout@.take(vstd::math::min(stdout@.len() as int, cap as int))
                        =~= capped(stdout@, cap));
                    assert(shown + Seq::<char>::empty() =~= shown);
                    assert(shown + mark + Seq::<char>::empty() =~= shown
                        + "\n... [stdout truncated, "@ + text::decimal(stdout@.len())
                        + " bytes total]"@);
                    assert(shown + mark + exit =~= shown + "\n... [stdout truncated, "@
                        + text::decimal(stdout@.len()) + " bytes total]"@ + "\n[exit status: "@
                        + status@ + "]"@);
                    assert(shown + exit =~= shown + "\n[exit status: "@ + status@ + "]"@);
                }
                exec_output(text, stdout.len(), cap, failure)
            },
        }
    }
}

/// The output carries no operator authority.
pub open spec fn without_authority(output: OutputView) -> bool {
    output.provenance_hint matches Some(hint) ==> !hint.has_authority()
}

/// Nothing that the executor reports carries operator authority, whatever the
/// host answered: the output of an action can never justify a guarded one.
pub proof fn law_outputs_carry_no_authority(
    executor: ExecutorView,
    action: ActionView,
    max_response_bytes: usize,
    path: Seq<char>,
    target: Seq<u8>,
    url: Seq<char>,
)
    ensures
        first_task(executor, action, max_response_bytes) matches TaskView::Answer(output)
            ==> without_authority(output),
        forall|parent: Option<Seq<u8>>|
            (#[trigger] read_plan(executor, path, parent)) matches Err(output)
                ==> without_authority(output),
        forall|parent: Result<Seq<u8>, Seq<char>>|
            (#[trigger] write_plan(executor, path, parent)) matches Err(output)
                ==> without_authority(output),
        forall|outcome: Result<Seq<u8>, ReadFault>|
            without_authority(#[trigger] read_result(executor.limits, target, outcome)),
        forall|content: Seq<char>, outcome: Result<(), Seq<char>>|
            without_authority(#[trigger] write_result(target, content, outcome)),
        forall|reply: NetReplyView| without_authority(#[trigger] net_result(url, reply)),
        forall|reply: ExecReplyView|
            without_authority(#[trigger] exec_result(executor.limits, reply)),
        forall|platform: Platform, bwrap: Option<Seq<char>>, words: Seq<Seq<char>>|
            (#[trigger] exec_plan(platform, bwrap, words)) matches Err(output)
                ==> without_authority(output),
{
}

/// A refused read says nothing about where the path leads: there are three
/// fixed refusals, and which one comes does not depend on the resolved target
/// beyond whether a grant covers it and whether a walk leads there.
pub proof fn law_read_refusals_are_fixed(
    executor: ExecutorView,
    path: Seq<char>,
    parent: Option<Seq<u8>>,
)
    requires
        read_plan(executor, path, parent) is Err,
    ensures
        ({
            let output = read_plan(executor, path, parent)->Err_0;
            ||| output == error_output("fs_read denied: target outside the bundle"@)
            ||| output == error_output("fs_read: empty file name"@)
            ||| output == error_output("fs_read denied: open failed"@)
        }),
{
}

/// A fetch keeps no more than the bundle permits and no more than the executor
/// permits.
pub proof fn law_fetch_obeys_both_caps(
    executor: ExecutorView,
    url: Seq<char>,
    max_response_bytes: usize,
)
    ensures
        first_task(executor, ActionView::NetGet { url }, max_response_bytes) matches TaskView::Fetch {
            url: fetched,
            cap,
        } ==> fetched == url && cap <= max_response_bytes && cap <= executor.limits.http_max_bytes,
{
}

/// What is shown of a file or of a program's output never exceeds the cap: it
/// is the beginning of the bytes, all of them where they fit, and as many as
/// the cap permits where they do not.
pub proof fn law_shown_bytes_are_capped(bytes: Seq<u8>, cap: usize)
    ensures
        capped(bytes, cap).len() <= cap,
        capped(bytes, cap).len() == vstd::math::min(bytes.len() as int, cap as int),
        capped(bytes, cap).is_prefix_of(bytes),
        bytes.len() <= cap ==> capped(bytes, cap) == bytes,
{
    assert(capped(bytes, cap) =~= bytes.subrange(0, capped(bytes, cap).len() as int));
}

/// The pieces of a response one after another.
pub open spec fn all_bytes(pieces: Seq<Seq<u8>>) -> Seq<u8>
    decreases pieces.len(),
{
    if pieces.len() == 0 {
        Seq::empty()
    } else {
        all_bytes(pieces.drop_last()) + pieces.last()
    }
}

/// The body after all the pieces.
pub open spec fn gathered(cap: usize, pieces: Seq<Seq<u8>>) -> BodyView
    decreases pieces.len(),
{
    if pieces.len() == 0 {
        no_body(cap)
    } else {
        body_after(gathered(cap, pieces.drop_last()), pieces.last())
    }
}

/// However a response is cut into pieces, what is kept is its beginning, `cap`
/// bytes at most. The mark follows, once, exactly if a piece arrived when the
/// pieces before it had filled the cap.
pub proof fn law_response_is_capped(cap: usize, pieces: Seq<Seq<u8>>)
    ensures
        ({
            let body = gathered(cap, pieces);
            let all = all_bytes(pieces);
            &&& body.cap == cap
            &&& body.closed ==> all.len() >= cap && body.bytes == all.take(cap as int)
                + vstd::utf8::encode_utf8(RESPONSE_MARK@)
            &&& !body.closed ==> body.bytes == capped(all, cap)
            &&& !body.closed ==> body.bytes == all.take(
                vstd::math::min(all.len() as int, cap as int),
            )
            &&& body.closed <==> pieces.len() > 0 && all_bytes(pieces.drop_last()).len() >= cap
        }),
    decreases pieces.len(),
{
    if pieces.len() > 0 {
        let front = pieces.drop_last();
        let piece = pieces.last();
        let before = gathered(cap, front);
        let all = all_bytes(pieces);
        law_response_is_capped(cap, front);
        if front.len() > 0 {
            assert(all_bytes(front).len() >= all_bytes(front.drop_last()).len());
        }
        if before.closed {
            assert(all.take(cap as int) =~= all_bytes(front).take(cap as int));
        } else if before.bytes.len() >= cap {
            assert(before.bytes =~= all.take(cap as int));
        } else {
            assert(before.bytes =~= all_bytes(front));
            assert(gathered(cap, pieces).bytes =~= capped(all, cap));
            assert(gathered(cap, pieces).bytes =~= all.take(
                vstd::math::min(all.len() as int, cap as int),
            ));
        }
    }
}

/// The host is handed the action as it is. A read has the path of the action;
/// a write has its path and all of its content; a program has all the words of
/// its command, in order. A page for which there is a canned body is answered
/// with the first one installed, tagged with its URL; any other is fetched
/// under its URL, with as many bytes as both the bundle and the executor
/// permit. Only a command without words is answered with an error instead.
pub proof fn law_tasks_hand_the_action_on(
    executor: &SandboxedExecutor,
    allowed: &AllowedAction,
    task: Task,
)
    requires
        call_ensures(SandboxedExecutor::task, (executor, allowed), task),
    ensures
        ({
            let overrides = executor@.web_overrides;
            let most = allowed.approval().caps.spend.max_response_bytes;
            match allowed.approval().call.action {
                ActionView::FsRead { path } => {
                    task matches Task::Read { path: p, directory } && p@ == path && directory@
                        == holder(path)
                },
                ActionView::FsWrite { path, content } => {
                    task matches Task::Write { path: p, content: c, directory } && p@ == path && c@
                        == content && directory@ == holder(path)
                },
                ActionView::NetGet { url } => {
                    &&& (forall|i: int|
                        0 <= i < overrides.len() ==> (#[trigger] overrides[i]).0 != url)
                        ==> (task matches Task::Fetch { url: u, cap } && u@ == url && cap
                        == vstd::math::min(
                        most as int,
                        executor@.limits.http_max_bytes as int,
                    ))
                    &&& forall|i: int|
                        {
                            &&& 0 <= i < overrides.len()
                            &&& (#[trigger] overrides[i]).0 == url
                            &&& forall|j: int|
                                0 <= j < i ==> (#[trigger] overrides[j]).0 != url
                        } ==> (task matches Task::Answer(output) && output@.content
                            == overrides[i].1 && output@.provenance_hint == Some(
                            ProvenanceView::Web { url },
                        ))
                },
                ActionView::Exec { cmd } => {
                    &&& text::words(cmd).len() > 0 ==> (task matches Task::Run { words }
                        && text::texts(words@) == text::words(cmd))
                    &&& text::words(cmd).len() == 0 ==> (task matches Task::Answer(output)
                        && output@.content == "error: exec: empty command"@
                        && output@.provenance_hint is None)
                },
            }
        }),
{
    let overrides = executor@.web_overrides;
    match allowed.approval().call.action {
        ActionView::NetGet { url } => {
            if forall|i: int| 0 <= i < overrides.len() ==> (#[trigger] overrides[i]).0 != url {
                lemma_no_canned_body(overrides, url, 0);
            }
            assert forall|i: int|
                {
                    &&& 0 <= i < overrides.len()
                    &&& (#[trigger] overrides[i]).0 == url
                    &&& forall|j: int| 0 <= j < i ==> (#[trigger] overrides[j]).0 != url
                } implies canned_body(overrides, url, 0) == Some(overrides[i].1) by {
                lemma_canned_body(overrides, url, 0, i);
            }
        },
        ActionView::Exec { cmd } => {
            reveal_strlit("error: ");
            reveal_strlit("exec: empty command");
            reveal_strlit("error: exec: empty command");
            assert("error: "@ + "exec: empty command"@ =~= "error: exec: empty command"@);
        },
        _ => {},
    }
}

proof fn lemma_no_canned_body(
    overrides: Seq<(Seq<char>, Seq<char>)>,
    url: Seq<char>,
    from: int,
)
    requires
        0 <= from,
        forall|i: int| 0 <= i < overrides.len() ==> (#[trigger] overrides[i]).0 != url,
    ensures
        canned_body(overrides, url, from) is None,
    decreases overrides.len() - from,
{
    if from < overrides.len() {
        assert(overrides[from].0 != url);
        lemma_no_canned_body(overrides, url, from + 1);
    }
}

proof fn lemma_canned_body(
    overrides: Seq<(Seq<char>, Seq<char>)>,
    url: Seq<char>,
    from: int,
    i: int,
)
    requires
        0 <= from <= i < overrides.len(),
        overrides[i].0 == url,
        forall|j: int| 0 <= j < i ==> (#[trigger] overrides[j]).0 != url,
    ensures
        canned_body(overrides, url, from) == Some(overrides[i].1),
    decreases i - from,
{
    if from < i {
        assert(overrides[from].0 != url);
        lemma_canned_body(overrides, url, from + 1, i);
    }
}

/// All that a program printed is shown, up to the cap. Where the output is
/// longer, a mark with the number of all its bytes follows what is shown, and
/// where the program failed, its exit status follows that; nothing else does.
/// What is shown is the text of the bytes, which for valid UTF-8 is what they
/// decode to. A program that did not start, could not be waited for or did not
/// end in time leaves the error that says so.
pub proof fn law_program_output_is_shown(
    executor: &SandboxedExecutor,
    reply: &ExecReply,
    output: Output,
)
    requires
        call_ensures(SandboxedExecutor::finish_exec, (executor, reply), output),
    ensures
        output@.provenance_hint is None,
        match *reply {
            ExecReply::SpawnFailed(fault) => output@.content == "error: "@ + ("exec spawn: "@
                + fault@),
            ExecReply::WaitFailed(fault) => output@.content == "error: "@ + ("exec wait: "@
                + fault@),
            ExecReply::TimedOut => output@.content == "error: "@ + "exec: timed out"@,
            ExecReply::Exited { stdout, success, status } => {
                let cap = executor@.limits.exec_stdout_max_bytes;
                let shown = stdout@.take(vstd::math::min(stdout@.len() as int, cap as int));
                let text = text::lossy_text(shown);
                let exit = "\n[exit status: "@ + status@ + "]"@;
                let mark = "\n... [stdout truncated, "@ + text::decimal(stdout@.len())
                    + " bytes total]"@;
                &&& stdout@.len() <= cap && success ==> output@.content == text
                &&& stdout@.len() <= cap && !success ==> output@.content == text + exit
                &&& stdout@.len() > cap && success ==> output@.content == text + mark
                &&& stdout@.len() > cap && !success ==> output@.content == text + mark + exit
                &&& stdout@.len() <= cap ==> shown == stdout@
                &&& vstd::utf8::valid_utf8(shown) ==> text == vstd::utf8::decode_utf8(shown)
            },
        },
{
    if let ExecReply::Exited { stdout, success, status } = reply {
        let cap = executor@.limits.exec_stdout_max_bytes;
        let shown = stdout@.take(vstd::math::min(stdout@.len() as int, cap as int));
        let text = text::lossy_text(shown);
        let exit = "\n[exit status: "@ + status@ + "]"@;
        let mark = "\n... [stdout truncated, "@ + text::decimal(stdout@.len()) + " bytes total]"@;
        assert(shown =~= capped(stdout@, cap));
        assert(text + exit =~= text + "\n[exit status: "@ + status@ + "]"@);
        assert(text + mark =~= text + "\n... [stdout truncated, "@ + text::decimal(stdout@.len())
            + " bytes total]"@);
        assert(text + mark + exit =~= text + mark + "\n[exit status: "@ + status@ + "]"@);
        if vstd::utf8::valid_utf8(shown) {
            let decoded = vstd::utf8::decode_utf8(shown);
            let n = text.len() as int;
            let ending = output@.content.skip(n);
            let after = (if stdout@.len() > cap {
                mark
            } else {
                Seq::empty()
            }) + (if *success {
                Seq::empty()
            } else {
                exit
            });
            assert(output@.content =~= text + after);
            assert(output@.content =~= decoded + after);
            assert(text =~= output@.content.take(output@.content.len() - after.len()));
            assert(decoded =~= output@.content.take(output@.content.len() - after.len()));
        }
    }
}

/// All of a file is shown, up to the cap, and a mark follows exactly where the
/// file is longer. The chunk is tagged with the path that was reached. What is
/// shown is the text of the bytes, which for valid UTF-8 is what they decode
/// to. Otherwise the error says whether it did not open or could not be read.
pub proof fn law_file_content_is_shown(
    executor: &SandboxedExecutor,
    plan: &WalkPlan,
    outcome: Result<Vec<u8>, ReadFault>,
    output: Output,
)
    requires
        call_ensures(SandboxedExecutor::finish_fs_read, (executor, plan, outcome), output),
    ensures
        match outcome {
            Ok(bytes) => {
                let cap = executor@.limits.fs_max_read_bytes;
                let shown = bytes@.take(vstd::math::min(bytes@.len() as int, cap as int));
                let text = text::lossy_text(shown);
                &&& bytes@.len() <= cap ==> output@.content == text && shown == bytes@
                &&& bytes@.len() > cap ==> output@.content == text
                    + "\n... [truncated at byte cap]"@
                &&& vstd::utf8::valid_utf8(shown) ==> text == vstd::utf8::decode_utf8(shown)
                &&& output@.provenance_hint == Some(
                    ProvenanceView::File { path: text::lossy_text(plan@.target) },
                )
                &&& vstd::utf8::valid_utf8(plan@.target) ==> text::lossy_text(plan@.target)
                    == vstd::utf8::decode_utf8(plan@.target)
            },
            Err(ReadFault::Open) => output@.content == "error: "@ + "fs_read denied: open failed"@
                && output@.provenance_hint is None,
            Err(ReadFault::Read) => output@.content == "error: "@ + "fs_read: read failed"@
                && output@.provenance_hint is None,
        },
{
    if let Ok(bytes) = outcome {
        let cap = executor@.limits.fs_max_read_bytes;
        let shown = bytes@.take(vstd::math::min(bytes@.len() as int, cap as int));
        let text = text::lossy_text(shown);
        assert(shown =~= capped(bytes@, cap));
        if vstd::utf8::valid_utf8(shown) {
            let decoded = vstd::utf8::decode_utf8(shown);
            let after: Seq<char> = if bytes@.len() > cap {
                "\n... [truncated at byte cap]"@
            } else {
                Seq::empty()
            };
            assert(output@.content =~= text + after);
            assert(text =~= output@.content.take(output@.content.len() - after.len()));
            assert(decoded =~= output@.content.take(output@.content.len() - after.len()));
        }
    }
}

/// A write that succeeded is reported with the number of bytes of the content
/// and the path that was reached; one that failed with that path and the
/// fault.
pub proof fn law_writes_are_reported(
    executor: &SandboxedExecutor,
    plan: &WalkPlan,
    content: &str,
    outcome: Result<(), String>,
    output: Output,
)
    requires
        call_ensures(
            SandboxedExecutor::finish_fs_write,
            (executor, plan, content, outcome),
            output,
        ),
    ensures
        output@.provenance_hint is None,
        outcome is Ok ==> output@.content == "wrote "@ + text::decimal(
            vstd::utf8::encode_utf8(content@).len(),
        ) + " bytes to "@ + text::lossy_text(plan@.target),
        outcome matches Err(fault) ==> output@.content == "error: "@ + ("fs_write "@
            + text::lossy_text(plan@.target) + ": "@ + fault@),
{
}

/// A page is shown with its status and all that was kept of its body, tagged
/// with its URL. What is shown of the body is the text of the bytes, which for
/// valid UTF-8 is what they decode to. A request that failed leaves the error
/// that says how, with the URL.
pub proof fn law_pages_are_shown(
    executor: &SandboxedExecutor,
    url: &str,
    reply: &NetReply,
    output: Output,
)
    requires
        call_ensures(SandboxedExecutor::finish_net_get, (executor, url, reply), output),
    ensures
        match *reply {
            NetReply::Failed(fault) => output@.content == "error: "@ + ("net_get "@ + url@ + ": "@
                + fault@) && output@.provenance_hint is None,
            NetReply::TimedOut => output@.content == "error: "@ + ("net_get "@ + url@
                + ": timed out"@) && output@.provenance_hint is None,
            NetReply::StreamFailed(fault) => output@.content == "error: "@ + ("net_get "@ + url@
                + " stream: "@ + fault@) && output@.provenance_hint is None,
            NetReply::Answered { status, body } => {
                let text = text::lossy_text(body@);
                &&& output@.content == "HTTP "@ + status@ + "\n\n"@ + text
                &&& output@.provenance_hint == Some(ProvenanceView::Web { url: url@ })
                &&& vstd::utf8::valid_utf8(body@) ==> text == vstd::utf8::decode_utf8(body@)
            },
        },
{
    if let NetReply::Answered { status, body } = reply {
        if vstd::utf8::valid_utf8(body@) {
            let head = "HTTP "@ + status@ + "\n\n"@;
            let decoded = vstd::utf8::decode_utf8(body@);
            assert(output@.content == head + decoded);
            assert(text::lossy_text(body@) =~= output@.content.skip(head.len() as int));
            assert(decoded =~= output@.content.skip(head.len() as int));
        }
    }
}

/// A piece of a response is taken in from its beginning, as far as there is
/// room, and more is asked for until the mark has been put; after that nothing
/// changes any more.
pub proof fn law_pieces_are_taken_in(body: BodyView, piece: Seq<u8>)
    ensures
        ({
            let after = body_after(body, piece);
            &&& after.cap == body.cap
            &&& body.closed ==> after == body
            &&& !body.closed ==> (after.closed <==> body.bytes.len() >= body.cap)
            &&& !body.closed && body.bytes.len() >= body.cap ==> after.bytes == body.bytes
                + vstd::utf8::encode_utf8("\n... [response truncated at byte cap]"@)
            &&& !body.closed && body.bytes.len() < body.cap ==> after.bytes == body.bytes
                + piece.take(
                vstd::math::min(piece.len() as int, body.cap - body.bytes.len()),
            )
        }),
{
    assert(piece.take(piece.len() as int) =~= piece);
}

/// A file to read is walked to exactly where the read list leads to it, and
/// what is said otherwise is one of three things, which tell nothing of where
/// the path leads.
pub proof fn law_reads_follow_the_walk(
    executor: &SandboxedExecutor,
    path: &str,
    parent: Option<Vec<u8>>,
    res: Result<WalkPlan, Output>,
)
    requires
        call_ensures(SandboxedExecutor::plan_fs_read, (executor, path, parent), res),
    ensures
        res matches Err(output) ==> output@.provenance_hint is None,
        match parent {
            None => res matches Err(output) && output@.content == "error: "@
                + "fs_read denied: target outside the bundle"@,
            Some(parent) => {
                match walk::located_in(
                    executor@.fs_read,
                    vstd::utf8::encode_utf8(path@),
                    parent@,
                    true,
                ) {
                    Ok(walk) => res matches Ok(plan) && plan@ == walk,
                    Err(LocateFaultView::Unnamed) => res matches Err(output) && output@.content
                        == "error: "@ + "fs_read: empty file name"@,
                    Err(LocateFaultView::Outside { .. }) => res matches Err(output)
                        && output@.content == "error: "@
                        + "fs_read denied: target outside the bundle"@,
                    Err(LocateFaultView::Blocked { .. }) => res matches Err(output)
                        && output@.content == "error: "@ + "fs_read denied: open failed"@,
                }
            },
        },
{
}

/// A file to write is walked to exactly where the write list leads to it from
/// above, and what is said otherwise names the path and what is wrong with it.
pub proof fn law_writes_follow_the_walk(
    executor: &SandboxedExecutor,
    path: &str,
    parent: Result<Vec<u8>, String>,
    res: Result<WalkPlan, Output>,
)
    requires
        call_ensures(SandboxedExecutor::plan_fs_write, (executor, path, parent), res),
    ensures
        res matches Err(output) ==> output@.provenance_hint is None,
        match parent {
            Err(fault) => res matches Err(output) && output@.content == "error: "@ + (
            "canonicalize parent "@ + text::lossy_text(
                path::directory_of(vstd::utf8::encode_utf8(path@)),
            ) + ": "@ + fault@),
            Ok(parent) => {
                match walk::located_in(
                    executor@.fs_write,
                    vstd::utf8::encode_utf8(path@),
                    parent@,
                    false,
                ) {
                    Ok(walk) => res matches Ok(plan) && plan@ == walk,
                    Err(LocateFaultView::Unnamed) => res matches Err(output) && output@.content
                        == "error: "@ + "fs_write: empty file name"@,
                    Err(LocateFaultView::Outside { target }) => res matches Err(output)
                        && output@.content == "error: "@ + ("fs_write denied: canonical path "@
                        + text::lossy_text(target) + " escapes the bundle"@),
                    Err(LocateFaultView::Blocked { target, reason }) => res matches Err(output)
                        && output@.content == "error: "@ + ("fs_write "@ + text::lossy_text(target)
                        + ": "@ + reason),
                }
            },
        },
{
}

/// A program is run by the command line that its sandbox asks for, and where
/// there is none, what is said is why.
pub proof fn law_programs_follow_the_sandbox(
    executor: &SandboxedExecutor,
    platform: Platform,
    bwrap: Option<String>,
    words: &Vec<String>,
    res: Result<CommandLine, Output>,
)
    requires
        call_ensures(SandboxedExecutor::plan_exec, (executor, platform, bwrap, words), res),
    ensures
        match sandbox::sandboxed(
            platform,
            match bwrap {
                Some(program) => Some(program@),
                None => None,
            },
            text::texts(words@),
        ) {
            Ok(command) => res matches Ok(line) && line@ == command,
            Err(reason) => res matches Err(output) && output@.content == "error: "@ + (
            "exec sandbox unavailable: "@ + reason) && output@.provenance_hint is None,
        },
{
}

/// The directory in which the host has to look for a file is that of its path.
pub proof fn law_holder_is_the_directory(path: Seq<char>)
    ensures
        ({
            let bytes = vstd::utf8::encode_utf8(path);
            let all = path::components(bytes);
            if all.len() > 1 {
                path::components(holder(path)) == all.drop_last() && holder(path).is_prefix_of(
                    bytes,
                )
            } else {
                holder(path) == seq![path::DOT]
            }
        }),
{
    path::law_directory_has_the_other_components(vstd::utf8::encode_utf8(path));
}

} // verus!
