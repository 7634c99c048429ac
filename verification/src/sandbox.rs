//! The command lines that run an untrusted program inside the sandbox of the
//! platform.
//!
//! On macOS that is `sandbox-exec` with a profile that denies by default. On
//! Linux it is `bwrap` without network and with read-only system directories.
//! Everywhere else there is no sandbox, and nothing runs.

use crate::text;
use vstd::prelude::*;
use vstd::string::*;

verus! {

/// The platforms that differ in their sandbox.
#[derive(Debug, Clone, Copy, PartialEq, Eq, Structural)]
pub enum Platform {
    MacOs,
    Linux,
    Other,
}

/// A program and its arguments.
#[derive(Debug)]
pub struct CommandLine {
    pub program: String,
    pub args: Vec<String>,
}

/// A command line as a mathematical value.
pub struct CommandLineView {
    pub program: Seq<char>,
    pub args: Seq<Seq<char>>,
}

impl View for CommandLine {
    type V = CommandLineView;

    open spec fn view(&self) -> CommandLineView {
        CommandLineView { program: self.program@, args: text::texts(self.args@) }
    }
}

/// The only variable in the environment of a sandboxed program is `PATH`, with
/// this value.
pub const SANDBOX_PATH: &'static str = "/usr/bin:/bin";

/// The profile that `sandbox-exec` enforces.
///
/// `(deny default)` covers every path that is not allowed below. Mach services
/// are limited to those that a program needs at startup, and no rule allows
/// the network.
pub const SANDBOX_PROFILE: &'static str =
    r#"(version 1)
(deny default)
(allow process-exec)
(allow process-fork)
(allow signal (target self))
(allow ipc-posix-shm)
(allow sysctl-read)
; Bootstrap Mach services a Rust binary needs at startup. Deliberately
; narrow: tccd / securityd / keychain agent / pasteboard are NOT here.
(allow mach-lookup
    (global-name "com.apple.system.notification_center")
    (global-name "com.apple.system.opendirectoryd.libinfo")
    (global-name "com.apple.system.opendirectoryd.api"))
; dyld + system libraries (required for any binary to load).
(allow file-read* (subpath "/usr/lib"))
(allow file-read* (subpath "/usr/share"))
(allow file-read* (subpath "/System"))
; Binaries (kernel must read these to exec them).
(allow file-read* (subpath "/usr/bin"))
(allow file-read* (subpath "/bin"))
(allow file-read* (subpath "/sbin"))
; Minimal /etc entries libc reads at startup.
(allow file-read* (literal "/private/etc/services"))
(allow file-read* (literal "/private/etc/protocols"))
(allow file-read* (literal "/private/etc/localtime"))
(allow file-read* (literal "/private/etc/nsswitch.conf"))
; Writes only to scratch directories.
(allow file-write* (subpath "/tmp"))
(allow file-write* (subpath "/private/tmp"))
(allow file-write* (subpath "/private/var/tmp"))
"#;

/// The arguments that set up the sandbox of macOS.
pub open spec fn macos_args() -> Seq<Seq<char>> {
    seq!["-p"@, SANDBOX_PROFILE@, "--"@]
}

/// The arguments that set up the sandbox of Linux. `--ro-bind-try` skips a
/// directory that the distribution does not have.
pub open spec fn linux_args() -> Seq<Seq<char>> {
    seq![
        "--ro-bind"@,
        "/usr"@,
        "/usr"@,
        "--ro-bind-try"@,
        "/lib"@,
        "/lib"@,
        "--ro-bind-try"@,
        "/lib64"@,
        "/lib64"@,
        "--ro-bind-try"@,
        "/bin"@,
        "/bin"@,
        "--ro-bind-try"@,
        "/sbin"@,
        "/sbin"@,
        "--tmpfs"@,
        "/tmp"@,
        "--proc"@,
        "/proc"@,
        "--dev"@,
        "/dev"@,
        "--unshare-net"@,
        "--unshare-user"@,
        "--unshare-ipc"@,
        "--unshare-pid"@,
        "--die-with-parent"@,
        "--"@,
    ]
}

/// The command line that runs `parts` in the sandbox of the platform, or why
/// there is none. `bwrap` is where that program was found.
pub open spec fn sandboxed(
    platform: Platform,
    bwrap: Option<Seq<char>>,
    parts: Seq<Seq<char>>,
) -> Result<CommandLineView, Seq<char>> {
    match platform {
        Platform::MacOs => Ok(
            CommandLineView { program: "/usr/bin/sandbox-exec"@, args: macos_args() + parts },
        ),
        Platform::Linux => match bwrap {
            Some(program) => Ok(CommandLineView { program, args: linux_args() + parts }),
            None => Err("bwrap not found on PATH or in usual locations"@),
        },
        Platform::Other => Err("no sandbox implementation for this platform"@),
    }
}

/// The views of string slices.
pub open spec fn str_views(v: Seq<&str>) -> Seq<Seq<char>> {
    Seq::new(v.len(), |i: int| v[i]@)
}

/// Appends `items` as strings of their own.
fn push_each(out: &mut Vec<String>, items: &[&str])
    ensures
        text::texts(final(out)@) == text::texts(old(out)@) + str_views(items@),
{
    let ghost before = text::texts(out@);
    let mut i: usize = 0;
    assert(before + str_views(items@).take(0) =~= before);
    while i < items.len()
        invariant
            i <= items@.len(),
            text::texts(out@) == before + str_views(items@).take(i as int),
        decreases items@.len() - i,
    {
        let ghost current = text::texts(out@);
        let item = items[i].to_owned();
        out.push(item);
        i = i + 1;
        proof {
            let views = str_views(items@);
            assert(text::texts(out@) =~= current.push(views[i - 1]));
            assert(views.take(i as int) =~= views.take(i - 1).push(views[i - 1]));
            assert(text::texts(out@) =~= before + views.take(i as int));
        }
    }
    assert(str_views(items@).take(items@.len() as int) =~= str_views(items@));
}

/// Appends copies of `items`.
fn push_copies(out: &mut Vec<String>, items: &Vec<String>)
    ensures
        text::texts(final(out)@) == text::texts(old(out)@) + text::texts(items@),
{
    let ghost before = text::texts(out@);
    let mut i: usize = 0;
    assert(before + text::texts(items@).take(0) =~= before);
    while i < items.len()
        invariant
            i <= items@.len(),
            text::texts(out@) == before + text::texts(items@).take(i as int),
        decreases items@.len() - i,
    {
        let ghost current = text::texts(out@);
        out.push(items[i].clone());
        i = i + 1;
        proof {
            let views = text::texts(items@);
            assert(text::texts(out@) =~= current.push(views[i - 1]));
            assert(views.take(i as int) =~= views.take(i - 1).push(views[i - 1]));
            assert(text::texts(out@) =~= before + views.take(i as int));
        }
    }
    assert(text::texts(items@).take(items@.len() as int) =~= text::texts(items@));
}

/// The command line that runs `parts` in the sandbox of the platform. It fails
/// closed: without a sandbox there is no command line.
pub fn build_sandboxed_command(platform: Platform, bwrap: Option<String>, parts: &Vec<String>) -> (
res: Result<CommandLine, String>)
    ensures
        match res {
            Ok(command) => sandboxed(
                platform,
                match bwrap {
                    Some(program) => Some(program@),
                    None => None,
                },
                text::texts(parts@),
            ) == Ok::<CommandLineView, Seq<char>>(command@),
            Err(reason) => sandboxed(
                platform,
                match bwrap {
                    Some(program) => Some(program@),
                    None => None,
                },
                text::texts(parts@),
            ) == Err::<CommandLineView, Seq<char>>(reason@),
        },
{
    let mut args: Vec<String> = Vec::new();
    match platform {
        Platform::MacOs => {
            let fixed: [&str; 3] = ["-p", SANDBOX_PROFILE, "--"];
            push_each(&mut args, fixed.as_slice());
            assert(text::texts(args@) =~= macos_args());
            push_copies(&mut args, parts);
            Ok(CommandLine { program: "/usr/bin/sandbox-exec".to_owned(), args })
        },
        Platform::Linux => match bwrap {
            Some(program) => {
                let fixed: [&str; 27] = [
                    "--ro-bind",
                    "/usr",
                    "/usr",
                    "--ro-bind-try",
                    "/lib",
                    "/lib",
                    "--ro-bind-try",
                    "/lib64",
                    "/lib64",
                    "--ro-bind-try",
                    "/bin",
                    "/bin",
                    "--ro-bind-try",
                    "/sbin",
                    "/sbin",
                    "--tmpfs",
                    "/tmp",
                    "--proc",
                    "/proc",
                    "--dev",
                    "/dev",
                    "--unshare-net",
                    "--unshare-user",
                    "--unshare-ipc",
                    "--unshare-pid",
                    "--die-with-parent",
                    "--",
                ];
                push_each(&mut args, fixed.as_slice());
                assert(text::texts(args@) =~= linux_args());
                push_copies(&mut args, parts);
                Ok(CommandLine { program, args })
            },
            None => Err("bwrap not found on PATH or in usual locations".to_owned()),
        },
        Platform::Other => Err("no sandbox implementation for this platform".to_owned()),
    }
}

/// The path of `bwrap` in a directory.
pub open spec fn bwrap_in(directory: Seq<char>) -> Seq<char> {
    if directory.len() > 0 && directory.last() != '/' {
        directory + "/bwrap"@
    } else {
        directory + "bwrap"@
    }
}

/// Where `bwrap` may be: the usual places first, then every directory of the
/// `PATH` variable in its order.
pub open spec fn bwrap_places(path: Option<Seq<char>>) -> Seq<Seq<char>> {
    let usual = seq![
        "/usr/bin/bwrap"@,
        "/bin/bwrap"@,
        "/usr/local/bin/bwrap"@,
        "/run/current-system/sw/bin/bwrap"@,
    ];
    match path {
        Some(path) => {
            let directories = text::pieces(path, ':');
            usual + Seq::new(directories.len(), |i: int| bwrap_in(directories[i]))
        },
        None => usual,
    }
}

/// Where `bwrap` may be, in the order in which to look.
pub fn bwrap_candidates(path: Option<&str>) -> (res: Vec<String>)
    ensures
        text::texts(res@) == bwrap_places(
            match path {
                Some(path) => Some(path@),
                None => None,
            },
        ),
{
    let mut out: Vec<String> = Vec::new();
    let fixed: [&str; 4] = [
        "/usr/bin/bwrap",
        "/bin/bwrap",
        "/usr/local/bin/bwrap",
        "/run/current-system/sw/bin/bwrap",
    ];
    push_each(&mut out, fixed.as_slice());
    let ghost usual = bwrap_places(None);
    assert(text::texts(out@) =~= usual);
    if let Some(path) = path {
        let directories = text::split_at_char(path, ':');
        let ghost pieces = text::pieces(path@, ':');
        let ghost places = bwrap_places(Some(path@));
        let mut i: usize = 0;
        assert(places.take(4) =~= usual);
        while i < directories.len()
            invariant
                i <= directories@.len(),
                pieces == text::texts(directories@),
                places.len() == 4 + pieces.len(),
                forall|k: int|
                    0 <= k < pieces.len() ==> #[trigger] places[4 + k] == bwrap_in(pieces[k]),
                text::texts(out@) == places.take(4 + i),
            decreases directories@.len() - i,
        {
            let ghost before = text::texts(out@);
            let place = place_in(directories[i].as_str());
            out.push(place);
            i = i + 1;
            proof {
                assert(pieces[i - 1] == directories@[i - 1]@);
                assert(places[4 + (i - 1)] == bwrap_in(pieces[i - 1]));
                assert(text::texts(out@) =~= before.push(place@));
                assert(places.take(4 + i) =~= places.take(4 + i - 1).push(places[4 + (i - 1)]));
            }
        }
        assert(places.take(places.len() as int) =~= places);
    }
    out
}

/// The path of `bwrap` in a directory.
fn place_in(directory: &str) -> (res: String)
    ensures
        res@ == bwrap_in(directory@),
{
    let chars = text::chars_of(directory);
    let mut place = directory.to_owned();
    if chars.len() > 0 && chars[chars.len() - 1] != '/' {
        place.append("/bwrap");
    } else {
        place.append("bwrap");
    }
    place
}

/// The first of the candidates that `is_file` accepts.
pub fn find_bwrap<F: Fn(&String) -> bool>(candidates: &Vec<String>, is_file: F) -> (res: Option<
    String,
>)
    requires
        forall|place: String| #[trigger] call_requires(is_file, (&place,)),
    ensures
        match res {
            Some(found) => exists|k: int|
                {
                    &&& 0 <= k < candidates@.len()
                    &&& found@ == (#[trigger] candidates@[k])@
                    &&& call_ensures(is_file, (&candidates@[k],), true)
                    &&& forall|j: int|
                        0 <= j < k ==> call_ensures(
                            is_file,
                            (&#[trigger] candidates@[j],),
                            false,
                        )
                },
            None => forall|j: int|
                0 <= j < candidates@.len() ==> call_ensures(
                    is_file,
                    (&#[trigger] candidates@[j],),
                    false,
                ),
        },
{
    let mut i: usize = 0;
    while i < candidates.len()
        invariant
            i <= candidates@.len(),
            forall|place: String| #[trigger] call_requires(is_file, (&place,)),
            forall|j: int|
                0 <= j < i ==> call_ensures(is_file, (&#[trigger] candidates@[j],), false),
        decreases candidates@.len() - i,
    {
        if is_file(&candidates[i]) {
            assert(call_ensures(is_file, (&candidates@[i as int],), true));
            return Some(candidates[i].clone());
        }
        i = i + 1;
    }
    None
}

/// A program runs only inside a sandbox: the command line starts the sandbox
/// program, the words of the program follow a `--` unchanged, and what comes
/// before the `--` does not depend on them. On Linux the network is cut off.
pub proof fn law_program_runs_sandboxed(
    platform: Platform,
    bwrap: Option<Seq<char>>,
    parts: Seq<Seq<char>>,
)
    ensures
        match sandboxed(platform, bwrap, parts) {
            Ok(command) => {
                let fixed = if platform == Platform::MacOs {
                    macos_args()
                } else {
                    linux_args()
                };
                &&& command.args == fixed + parts
                &&& fixed.last() == "--"@
                &&& platform == Platform::MacOs ==> command.program == "/usr/bin/sandbox-exec"@
                    && command.args[1] == SANDBOX_PROFILE@
                &&& platform == Platform::Linux ==> bwrap == Some(command.program)
                    && fixed.contains("--unshare-net"@)
                &&& platform != Platform::Other
            },
            Err(_) => platform == Platform::Other || platform == Platform::Linux && bwrap is None,
        },
{
    assert(linux_args()[21] == "--unshare-net"@);
}

/// The arguments mount a directory in its own place, under the given flag.
pub open spec fn mounts(args: Seq<Seq<char>>, flag: Seq<char>, place: Seq<char>) -> bool {
    exists|i: int|
        0 <= i < args.len() - 2 && #[trigger] args[i] == flag && args[i + 1] == place && args[i + 2]
            == place
}

/// The arguments set up something at a place, under the given flag.
pub open spec fn sets_up(args: Seq<Seq<char>>, flag: Seq<char>, place: Seq<char>) -> bool {
    exists|i: int| 0 <= i < args.len() - 1 && #[trigger] args[i] == flag && args[i + 1] == place
}

/// On Linux a program sees the system directories for reading only, scratch
/// space and devices of its own, and nothing else; it shares neither the
/// network nor users, queues or processes with the host, and does not outlive
/// its parent. Its words come last, after a `--`, all of them and unchanged.
pub proof fn law_linux_sandbox_isolates(bwrap: Seq<char>, parts: Seq<Seq<char>>)
    ensures
        ({
            let command = sandboxed(Platform::Linux, Some(bwrap), parts)->Ok_0;
            let fixed = command.args.take(27);
            &&& sandboxed(Platform::Linux, Some(bwrap), parts) is Ok
            &&& command.program == bwrap
            &&& command.args == fixed + parts
            &&& fixed[26] == "--"@
            &&& mounts(fixed, "--ro-bind"@, "/usr"@)
            &&& mounts(fixed, "--ro-bind-try"@, "/lib"@)
            &&& mounts(fixed, "--ro-bind-try"@, "/lib64"@)
            &&& mounts(fixed, "--ro-bind-try"@, "/bin"@)
            &&& mounts(fixed, "--ro-bind-try"@, "/sbin"@)
            &&& sets_up(fixed, "--tmpfs"@, "/tmp"@)
            &&& sets_up(fixed, "--proc"@, "/proc"@)
            &&& sets_up(fixed, "--dev"@, "/dev"@)
            &&& fixed.contains("--unshare-net"@)
            &&& fixed.contains("--unshare-user"@)
            &&& fixed.contains("--unshare-ipc"@)
            &&& fixed.contains("--unshare-pid"@)
            &&& fixed.contains("--die-with-parent"@)
        }),
{
    let args = linux_args() + parts;
    let fixed = args.take(27);
    assert(fixed =~= linux_args());
    assert(args =~= fixed + parts);
    assert(fixed[0] == "--ro-bind"@ && fixed[1] == "/usr"@ && fixed[2] == "/usr"@);
    assert(fixed[3] == "--ro-bind-try"@ && fixed[4] == "/lib"@ && fixed[5] == "/lib"@);
    assert(fixed[6] == "--ro-bind-try"@ && fixed[7] == "/lib64"@ && fixed[8] == "/lib64"@);
    assert(fixed[9] == "--ro-bind-try"@ && fixed[10] == "/bin"@ && fixed[11] == "/bin"@);
    assert(fixed[12] == "--ro-bind-try"@ && fixed[13] == "/sbin"@ && fixed[14] == "/sbin"@);
    assert(fixed[15] == "--tmpfs"@ && fixed[16] == "/tmp"@);
    assert(fixed[17] == "--proc"@ && fixed[18] == "/proc"@);
    assert(fixed[19] == "--dev"@ && fixed[20] == "/dev"@);
    assert(fixed[21] == "--unshare-net"@);
    assert(fixed[22] == "--unshare-user"@);
    assert(fixed[23] == "--unshare-ipc"@);
    assert(fixed[24] == "--unshare-pid"@);
    assert(fixed[25] == "--die-with-parent"@);
}

/// On macOS a program runs under the profile, and its words come last, after a
/// `--`, all of them and unchanged. Without a sandbox there is no command line,
/// and the reason says which sandbox is missing.
pub proof fn law_macos_sandbox_or_none(bwrap: Option<Seq<char>>, parts: Seq<Seq<char>>)
    ensures
        ({
            let command = sandboxed(Platform::MacOs, bwrap, parts)->Ok_0;
            &&& sandboxed(Platform::MacOs, bwrap, parts) is Ok
            &&& command.program == "/usr/bin/sandbox-exec"@
            &&& command.args.len() == parts.len() + 3
            &&& command.args[0] == "-p"@
            &&& command.args[1] == SANDBOX_PROFILE@
            &&& command.args[2] == "--"@
            &&& command.args.skip(3) == parts
        }),
        sandboxed(Platform::Linux, None, parts) == Err::<CommandLineView, Seq<char>>(
            "bwrap not found on PATH or in usual locations"@,
        ),
        sandboxed(Platform::Other, bwrap, parts) == Err::<CommandLineView, Seq<char>>(
            "no sandbox implementation for this platform"@,
        ),
{
    assert((macos_args() + parts).skip(3) =~= parts);
}

/// `bwrap` is looked for in four usual places, and then in every directory of
/// the `PATH` variable, none of them left out, in their order.
pub proof fn law_bwrap_is_looked_for_everywhere(
    path: Option<&str>,
    places: Vec<String>,
    k: int,
)
    requires
        call_ensures(bwrap_candidates, (path,), places),
    ensures
        places@.len() >= 4,
        places@[0]@ == "/usr/bin/bwrap"@,
        places@[1]@ == "/bin/bwrap"@,
        places@[2]@ == "/usr/local/bin/bwrap"@,
        places@[3]@ == "/run/current-system/sw/bin/bwrap"@,
        path is None ==> places@.len() == 4,
        path matches Some(path) ==> {
            let directories = text::pieces(path@, ':');
            &&& places@.len() == 4 + directories.len()
            &&& 0 <= k < directories.len() ==> places@[4 + k]@ == directories[k] + (
            if directories[k].len() > 0 && directories[k].last() != '/' {
                "/bwrap"@
            } else {
                "bwrap"@
            })
        },
{
    let views = text::texts(places@);
    assert(views.len() == places@.len());
    assert(views[0] == places@[0]@);
    assert(views[1] == places@[1]@);
    assert(views[2] == places@[2]@);
    assert(views[3] == places@[3]@);
    if let Some(path) = path {
        if 0 <= k < text::pieces(path@, ':').len() {
            assert(views[4 + k] == places@[4 + k]@);
        }
    }
}

} // verus!
