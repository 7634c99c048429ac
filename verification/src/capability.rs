//! Capability bundles: finite, declarative grants of authority.
//!
//! Every action class the agent might attempt is enumerated up front, narrowly
//! scoped, and enforced by a monitor that the model cannot influence. The
//! bundle also bounds time and rate, not just targets.

use crate::text;
use vstd::prelude::*;
use vstd::string::*;

verus! {

/// All authority an agent session is permitted to exercise.
///
/// All target lists are allow-lists: anything not listed is forbidden.
/// `require_user_intent` names action classes that may only fire when every
/// cited justification chunk carries user authority. `spend` is a hard ceiling
/// on every dimension a session can consume.
#[derive(Debug, Clone)]
pub struct Capabilities {
    pub fs_read: Vec<String>,
    pub fs_write: Vec<String>,
    pub net_get: Vec<String>,
    pub exec_rules: Vec<ExecRule>,
    pub spend: Spend,
    pub require_confirm: Vec<ActionClass>,
    pub require_user_intent: Vec<ActionClass>,
}

#[derive(Debug, Clone, Copy)]
pub struct Spend {
    /// Maximum number of *allowed* tool calls in the session.
    pub max_tool_calls: u32,
    /// Maximum number of model `next_step` invocations.
    pub max_steps: u32,
    /// Maximum wall-clock time the session may run.
    pub max_wall_seconds: u64,
    /// Maximum number of consecutive denials before the session halts.
    pub max_consecutive_denials: u32,
    /// Maximum response size from `net_get`, in bytes.
    pub max_response_bytes: usize,
}

impl Spend {
    /// A small budget for short, supervised sessions.
    pub fn restrictive() -> (res: Spend)
        ensures
            res.max_tool_calls == 8,
            res.max_steps == 16,
            res.max_wall_seconds == 30,
            res.max_consecutive_denials == 3,
            res.max_response_bytes == 65536,
    {
        Spend {
            max_tool_calls: 8,
            max_steps: 16,
            max_wall_seconds: 30,
            max_consecutive_denials: 3,
            max_response_bytes: 65536,
        }
    }
}

#[derive(Debug, Clone, Copy, PartialEq, Eq, Hash, Structural)]
pub enum ActionClass {
    FsRead,
    FsWrite,
    NetGet,
    Exec,
}

impl ActionClass {
    /// The name of the class as it appears in messages.
    pub open spec fn name_text(self) -> Seq<char> {
        match self {
            ActionClass::FsRead => "FsRead"@,
            ActionClass::FsWrite => "FsWrite"@,
            ActionClass::NetGet => "NetGet"@,
            ActionClass::Exec => "Exec"@,
        }
    }

    /// The name of the class as it appears in messages.
    pub fn name(&self) -> (res: String)
        ensures
            res@ == self.name_text(),
    {
        match self {
            ActionClass::FsRead => "FsRead".to_owned(),
            ActionClass::FsWrite => "FsWrite".to_owned(),
            ActionClass::NetGet => "NetGet".to_owned(),
            ActionClass::Exec => "Exec".to_owned(),
        }
    }
}

/// What one argument of a permitted command may look like: it begins with
/// `prefix`.
#[derive(Debug, Clone)]
pub struct ArgPattern {
    pub prefix: String,
}

impl ArgPattern {
    /// The pattern of the arguments that begin with `prefix`.
    pub fn prefix(prefix: &str) -> (res: ArgPattern)
        ensures
            res.prefix@ == prefix@,
    {
        ArgPattern { prefix: prefix.to_owned() }
    }
}

/// Permission to run one program: with any arguments where `args` is `None`,
/// and otherwise with as many arguments as there are patterns, each matching
/// the pattern at its position.
#[derive(Debug, Clone)]
pub struct ExecRule {
    pub program: String,
    pub args: Option<Vec<ArgPattern>>,
}

impl ExecRule {
    /// Permission to run `program` with the arguments that `args` describes.
    pub fn new(program: &str, args: Vec<ArgPattern>) -> (res: ExecRule)
        ensures
            res.program@ == program@,
            res.args == Some(args),
    {
        ExecRule { program: program.to_owned(), args: Some(args) }
    }

    /// Permission to run `program` with any arguments.
    pub fn any_args(program: &str) -> (res: ExecRule)
        ensures
            res.program@ == program@,
            res.args is None,
    {
        ExecRule { program: program.to_owned(), args: None }
    }

    /// Whether the rule permits the command line made of `words`. A command
    /// line without words is the empty program without arguments.
    pub open spec fn covers(self, words: Seq<Seq<char>>) -> bool {
        &&& self.program@ == program_of(words)
        &&& self.args matches Some(patterns) ==> args_match(patterns@, args_of(words))
    }

    /// Whether the rule permits the command line made of `words`.
    pub fn permits(&self, words: &Vec<String>) -> (res: bool)
        ensures
            res == self.covers(text::texts(words@)),
    {
        let ghost all = text::texts(words@);
        if words.len() == 0 {
            if !text::same_text(self.program.as_str(), "") {
                assert(""@ =~= Seq::<char>::empty()) by {
                    reveal_strlit("");
                }
                return false;
            }
            assert(""@ =~= Seq::<char>::empty()) by {
                reveal_strlit("");
            }
            return match &self.args {
                None => true,
                Some(patterns) => patterns.len() == 0,
            };
        }
        if !text::same_text(self.program.as_str(), words[0].as_str()) {
            return false;
        }
        match &self.args {
            None => true,
            Some(patterns) => {
                if patterns.len() != words.len() - 1 {
                    return false;
                }
                let mut i: usize = 0;
                while i < patterns.len()
                    invariant
                        i <= patterns@.len(),
                        patterns.len() == words.len() - 1,
                        all == text::texts(words@),
                        self.args == Some(*patterns),
                        forall|k: int|
                            #![trigger patterns@[k]]
                            0 <= k < i ==> patterns@[k].prefix@.is_prefix_of(args_of(all)[k]),
                    decreases patterns@.len() - i,
                {
                    assert(args_of(all)[i as int] == words@[i + 1]@);
                    if !text::starts_with(words[i + 1].as_str(), patterns[i].prefix.as_str()) {
                        return false;
                    }
                    i = i + 1;
                }
                true
            },
        }
    }
}

/// A program name alone permits the program with any arguments.
impl From<&str> for ExecRule {
    fn from(program: &str) -> (res: ExecRule)
        ensures
            res.program@ == program@,
            res.args is None,
    {
        ExecRule::any_args(program)
    }
}

impl vstd::std_specs::convert::FromSpecImpl<&str> for ExecRule {
    open spec fn obeys_from_spec() -> bool {
        false
    }

    open spec fn from_spec(program: &str) -> ExecRule {
        arbitrary()
    }
}

/// The first word of a command line, or nothing.
pub open spec fn program_of(words: Seq<Seq<char>>) -> Seq<char> {
    if words.len() > 0 {
        words[0]
    } else {
        Seq::empty()
    }
}

/// The words of a command line after the first.
pub open spec fn args_of(words: Seq<Seq<char>>) -> Seq<Seq<char>> {
    if words.len() > 0 {
        words.drop_first()
    } else {
        Seq::empty()
    }
}

/// As many arguments as patterns, each with the prefix its pattern asks for.
pub open spec fn args_match(patterns: Seq<ArgPattern>, args: Seq<Seq<char>>) -> bool {
    &&& args.len() == patterns.len()
    &&& forall|k: int|
        #![trigger patterns[k]]
        0 <= k < patterns.len() ==> patterns[k].prefix@.is_prefix_of(args[k])
}

/// A trailing `/**` means "this prefix or anything under it"; a pattern
/// without it matches itself only.
pub open spec fn path_matches(pattern: Seq<char>, path: Seq<char>) -> bool {
    match text::without_suffix(pattern, "/**"@) {
        Some(prefix) => path == prefix || (prefix + "/"@).is_prefix_of(path),
        None => path == pattern,
    }
}

/// Smallest-possible glob: a trailing `/**` means "this prefix or anything
/// under it"; otherwise exact match.
pub fn matches_path(pattern: &str, path: &str) -> (res: bool)
    ensures
        res == path_matches(pattern@, path@),
{
    match text::strip_suffix(pattern, "/**") {
        Some(prefix) => {
            if text::same_text(path, prefix.as_str()) {
                return true;
            }
            let mut directory = prefix;
            directory.append("/");
            text::starts_with(path, directory.as_str())
        },
        None => text::same_text(path, pattern),
    }
}

impl Capabilities {
    /// `path` matches an entry of the read list.
    pub open spec fn allows_fs_read(self, path: Seq<char>) -> bool {
        exists|i: int|
            0 <= i < self.fs_read@.len() && path_matches(#[trigger] self.fs_read@[i]@, path)
    }

    /// `path` matches an entry of the write list.
    pub open spec fn allows_fs_write(self, path: Seq<char>) -> bool {
        exists|i: int|
            0 <= i < self.fs_write@.len() && path_matches(#[trigger] self.fs_write@[i]@, path)
    }

    /// `url` begins with an entry of the network list.
    pub open spec fn allows_net_get(self, url: Seq<char>) -> bool {
        exists|i: int|
            0 <= i < self.net_get@.len() && (#[trigger] self.net_get@[i]@).is_prefix_of(url)
    }

    /// A rule of the program list covers the words of `cmd`.
    pub open spec fn allows_exec(self, cmd: Seq<char>) -> bool {
        exists|i: int|
            0 <= i < self.exec_rules@.len() && (#[trigger] self.exec_rules@[i]).covers(text::words(cmd))
    }

    pub fn permits_fs_read(&self, path: &str) -> (res: bool)
        ensures
            res == self.allows_fs_read(path@),
    {
        any_matches(&self.fs_read, path)
    }

    pub fn permits_fs_write(&self, path: &str) -> (res: bool)
        ensures
            res == self.allows_fs_write(path@),
    {
        any_matches(&self.fs_write, path)
    }

    pub fn permits_net_get(&self, url: &str) -> (res: bool)
        ensures
            res == self.allows_net_get(url@),
    {
        let mut i: usize = 0;
        while i < self.net_get.len()
            invariant
                i <= self.net_get@.len(),
                forall|k: int|
                    0 <= k < i ==> !(#[trigger] self.net_get@[k]@).is_prefix_of(url@),
            decreases self.net_get@.len() - i,
        {
            if text::starts_with(url, self.net_get[i].as_str()) {
                return true;
            }
            i = i + 1;
        }
        false
    }

    pub fn permits_exec(&self, cmd: &str) -> (res: bool)
        ensures
            res == self.allows_exec(cmd@),
    {
        let parts = text::split_whitespace(cmd);
        let mut i: usize = 0;
        while i < self.exec_rules.len()
            invariant
                i <= self.exec_rules@.len(),
                text::texts(parts@) == text::words(cmd@),
                forall|k: int|
                    0 <= k < i ==> !(#[trigger] self.exec_rules@[k]).covers(text::words(cmd@)),
            decreases self.exec_rules@.len() - i,
        {
            if self.exec_rules[i].permits(&parts) {
                return true;
            }
            i = i + 1;
        }
        false
    }
}

/// Whether any of `patterns` matches `path`.
fn any_matches(patterns: &Vec<String>, path: &str) -> (res: bool)
    ensures
        res == exists|i: int|
            0 <= i < patterns@.len() && path_matches(#[trigger] patterns@[i]@, path@),
{
    let mut i: usize = 0;
    while i < patterns.len()
        invariant
            i <= patterns@.len(),
            forall|k: int| 0 <= k < i ==> !path_matches(#[trigger] patterns@[k]@, path@),
        decreases patterns@.len() - i,
    {
        if matches_path(patterns[i].as_str(), path) {
            return true;
        }
        i = i + 1;
    }
    false
}

/// Whether `class` is among `classes`.
pub fn contains_class(classes: &Vec<ActionClass>, class: ActionClass) -> (res: bool)
    ensures
        res == classes@.contains(class),
{
    let mut i: usize = 0;
    while i < classes.len()
        invariant
            i <= classes@.len(),
            forall|k: int| 0 <= k < i ==> classes@[k] != class,
        decreases classes@.len() - i,
    {
        if classes[i] == class {
            return true;
        }
        i = i + 1;
    }
    false
}

/// A pattern `directory/**` matches the directory itself and every path below
/// it, and nothing else. In particular it does not match a sibling whose name
/// merely begins with the directory's name.
pub proof fn law_subtree_pattern(directory: Seq<char>, path: Seq<char>)
    ensures
        path_matches(directory + "/**"@, path) <==> (path == directory || exists|rest: Seq<char>|
            path == #[trigger] (directory + "/"@ + rest)),
{
    let pattern = directory + "/**"@;
    let under = directory + "/"@;
    assert(pattern.subrange(pattern.len() - "/**"@.len(), pattern.len() as int) =~= "/**"@);
    assert(pattern.take(pattern.len() - "/**"@.len()) =~= directory);
    if under.is_prefix_of(path) {
        let rest = path.skip(under.len() as int);
        assert(path =~= under + rest);
    }
    if exists|rest: Seq<char>| path == #[trigger] (under + rest) {
        let rest = choose|rest: Seq<char>| path == #[trigger] (under + rest);
        assert(under =~= (under + rest).subrange(0, under.len() as int));
    }
}

/// A pattern that does not end in `/**` matches itself and nothing else.
pub proof fn law_exact_pattern(pattern: Seq<char>, path: Seq<char>)
    requires
        !"/**"@.is_suffix_of(pattern),
    ensures
        path_matches(pattern, path) <==> path == pattern,
{
}

/// Anything not listed is forbidden: a bundle whose target lists are empty
/// permits no action on any target.
pub proof fn law_empty_bundle_forbids_everything(caps: Capabilities, target: Seq<char>)
    requires
        caps.fs_read@.len() == 0,
        caps.fs_write@.len() == 0,
        caps.net_get@.len() == 0,
        caps.exec_rules@.len() == 0,
    ensures
        !caps.allows_fs_read(target),
        !caps.allows_fs_write(target),
        !caps.allows_net_get(target),
        !caps.allows_exec(target),
{
}

/// The pattern reaches the path: it ends in `/**` and the path is what comes
/// before that or lies below it, or it does not end so and is the path.
pub open spec fn reaches(pattern: Seq<char>, path: Seq<char>) -> bool {
    ||| pattern == path && !"/**"@.is_suffix_of(pattern)
    ||| exists|directory: Seq<char>|
        {
            &&& pattern == #[trigger] (directory + "/**"@)
            &&& path == directory || (directory + "/"@).is_prefix_of(path)
        }
}

/// What a pattern reaches is what it matches.
pub proof fn lemma_reaches(pattern: Seq<char>, path: Seq<char>)
    ensures
        reaches(pattern, path) <==> path_matches(pattern, path),
{
    match text::without_suffix(pattern, "/**"@) {
        Some(directory) => {
            text::law_suffix_comes_off(pattern, "/**"@, directory);
            assert(pattern == directory + "/**"@);
            if reaches(pattern, path) {
                let d = choose|d: Seq<char>|
                    {
                        &&& pattern == #[trigger] (d + "/**"@)
                        &&& path == d || (d + "/"@).is_prefix_of(path)
                    };
                text::law_suffix_comes_off(pattern, "/**"@, d);
            }
        },
        None => {
            if reaches(pattern, path) && pattern != path {
                let d = choose|d: Seq<char>| pattern == #[trigger] (d + "/**"@);
                text::law_suffix_comes_off(pattern, "/**"@, d);
            }
        },
    }
}

/// A path may be read exactly if some entry of the read list, wherever it
/// stands, reaches it.
pub proof fn law_reading_follows_the_list(caps: &Capabilities, path: &str, res: bool)
    requires
        call_ensures(Capabilities::permits_fs_read, (caps, path), res),
    ensures
        forall|i: int|
            0 <= i < caps.fs_read@.len() && reaches(#[trigger] caps.fs_read@[i]@, path@) ==> res,
        res ==> exists|i: int|
            0 <= i < caps.fs_read@.len() && reaches(#[trigger] caps.fs_read@[i]@, path@),
{
    assert forall|i: int| 0 <= i < caps.fs_read@.len() implies reaches(
        #[trigger] caps.fs_read@[i]@,
        path@,
    ) == path_matches(caps.fs_read@[i]@, path@) by {
        lemma_reaches(caps.fs_read@[i]@, path@);
    }
}

/// A path may be written exactly if some entry of the write list, wherever it
/// stands, reaches it.
pub proof fn law_writing_follows_the_list(caps: &Capabilities, path: &str, res: bool)
    requires
        call_ensures(Capabilities::permits_fs_write, (caps, path), res),
    ensures
        forall|i: int|
            0 <= i < caps.fs_write@.len() && reaches(#[trigger] caps.fs_write@[i]@, path@) ==> res,
        res ==> exists|i: int|
            0 <= i < caps.fs_write@.len() && reaches(#[trigger] caps.fs_write@[i]@, path@),
{
    assert forall|i: int| 0 <= i < caps.fs_write@.len() implies reaches(
        #[trigger] caps.fs_write@[i]@,
        path@,
    ) == path_matches(caps.fs_write@[i]@, path@) by {
        lemma_reaches(caps.fs_write@[i]@, path@);
    }
}

/// A URL may be fetched exactly if it goes on from some entry of the network
/// list, wherever that stands.
pub proof fn law_fetching_follows_the_list(caps: &Capabilities, url: &str, rest: Seq<char>, res: bool)
    requires
        call_ensures(Capabilities::permits_net_get, (caps, url), res),
    ensures
        forall|i: int|
            0 <= i < caps.net_get@.len() && url@ == (#[trigger] caps.net_get@[i])@ + rest ==> res,
        res ==> exists|i: int|
            {
                &&& 0 <= i < caps.net_get@.len()
                &&& url@ == (#[trigger] caps.net_get@[i])@ + url@.skip(
                    caps.net_get@[i]@.len() as int,
                )
            },
{
    assert forall|i: int|
        0 <= i < caps.net_get@.len() && url@ == (#[trigger] caps.net_get@[i])@ + rest implies res by {
        let entry = caps.net_get@[i]@;
        assert(entry =~= url@.subrange(0, entry.len() as int));
        assert(caps.net_get@[i]@.is_prefix_of(url@));
    }
    if res {
        let i = choose|i: int|
            0 <= i < caps.net_get@.len() && (#[trigger] caps.net_get@[i]@).is_prefix_of(url@);
        let entry = caps.net_get@[i];
        assert(url@ =~= entry@ + url@.skip(entry@.len() as int));
    }
}

/// The rule permits a command line: its program is the first word, and where
/// it has patterns there are as many further words, each of which begins with
/// what the pattern at its place asks for. A command line without words has
/// the empty program and no further words.
pub open spec fn rule_permits(rule: ExecRule, line: Seq<Seq<char>>) -> bool {
    if line.len() == 0 {
        rule.program@.len() == 0 && (rule.args matches Some(patterns) ==> patterns@.len() == 0)
    } else {
        &&& rule.program@ == line[0]
        &&& rule.args matches Some(patterns) ==> {
            &&& line.len() == patterns@.len() + 1
            &&& forall|k: int|
                0 <= k < patterns@.len() ==> (#[trigger] patterns@[k]).prefix@.is_prefix_of(
                    line[k + 1],
                )
        }
    }
}

/// What a rule permits is what it covers.
pub proof fn lemma_rule_permits(rule: ExecRule, line: Seq<Seq<char>>)
    ensures
        rule_permits(rule, line) <==> rule.covers(line),
{
    if line.len() == 0 {
        assert(rule.program@ =~= Seq::<char>::empty() <==> rule.program@.len() == 0);
    } else if let Some(patterns) = rule.args {
        assert forall|k: int| 0 <= k < patterns@.len() && line.len() == patterns@.len() + 1 implies (
        #[trigger] patterns@[k]).prefix@.is_prefix_of(line[k + 1])
            == patterns@[k].prefix@.is_prefix_of(args_of(line)[k]) by {
            assert(args_of(line)[k] == line[k + 1]);
        }
    }
}

/// A command may run exactly if some rule of the program list, wherever it
/// stands, permits its words.
pub proof fn law_running_follows_the_list(caps: &Capabilities, cmd: &str, res: bool)
    requires
        call_ensures(Capabilities::permits_exec, (caps, cmd), res),
    ensures
        forall|i: int|
            0 <= i < caps.exec_rules@.len() && rule_permits(
                #[trigger] caps.exec_rules@[i],
                text::words(cmd@),
            ) ==> res,
        res ==> exists|i: int|
            0 <= i < caps.exec_rules@.len() && rule_permits(
                #[trigger] caps.exec_rules@[i],
                text::words(cmd@),
            ),
{
    assert forall|i: int| 0 <= i < caps.exec_rules@.len() implies rule_permits(
        #[trigger] caps.exec_rules@[i],
        text::words(cmd@),
    ) == caps.exec_rules@[i].covers(text::words(cmd@)) by {
        lemma_rule_permits(caps.exec_rules@[i], text::words(cmd@));
    }
}

/// Every class goes by its own name.
pub proof fn law_classes_go_by_their_names(class: &ActionClass, res: String)
    requires
        call_ensures(ActionClass::name, (class,), res),
    ensures
        class is FsRead ==> res@ == "FsRead"@,
        class is FsWrite ==> res@ == "FsWrite"@,
        class is NetGet ==> res@ == "NetGet"@,
        class is Exec ==> res@ == "Exec"@,
{
}

} // verus!
