//! The command line: the TUI itself, and the helper modes the Lua side runs.
use vstd::prelude::*;

use crate::text::str_eq;

verus! {

/// What the command line asks for. Paths are the arguments as given; the
/// program resolves them against the current directory.
#[derive(Clone, Debug, PartialEq, Eq)]
pub enum CliCommand {
    Run { snapshot_path: String },
    CreateRuntime,
    CleanupRuntime { runtime_dir: String },
    ReplaceFile { source: String, destination: String },
    Help,
}

/// The usage text.
pub const HELP: &'static str = "wezterm-ssh-manager Rust TUI\n\nUsage:\n  sshmgr-tui --snapshot <runtime/snapshot.json>\n  sshmgr-tui --create-runtime\n  sshmgr-tui --cleanup-runtime <runtime-dir>\n  sshmgr-tui --replace-file <source> <destination>\n";

/// `i` is the first position of `flag` in `argv`.
pub open spec fn flag_at(argv: Seq<Seq<char>>, flag: Seq<char>, i: int) -> bool {
    0 <= i < argv.len() && argv[i] == flag && forall|j: int| 0 <= j < i ==> argv[j] != flag
}

/// The first position of `flag`.
pub open spec fn flag_index(argv: Seq<Seq<char>>, flag: Seq<char>) -> Option<int> {
    if exists|i: int| flag_at(argv, flag, i) {
        Some(choose|i: int| flag_at(argv, flag, i))
    } else {
        None
    }
}

/// The argument `k` places after the first `flag`, when there is one.
pub open spec fn after_flag(argv: Seq<Seq<char>>, flag: Seq<char>, k: int) -> Option<Seq<char>> {
    match flag_index(argv, flag) {
        Some(i) => if i + k < argv.len() {
            Some(argv[i + k])
        } else {
            None
        },
        None => None,
    }
}

pub enum CommandView {
    Run { snapshot_path: Seq<char> },
    CreateRuntime,
    CleanupRuntime { runtime_dir: Seq<char> },
    ReplaceFile { source: Seq<char>, destination: Seq<char> },
    Help,
}

impl View for CliCommand {
    type V = CommandView;

    open spec fn view(&self) -> CommandView {
        match self {
            CliCommand::Run { snapshot_path } => CommandView::Run { snapshot_path: snapshot_path@ },
            CliCommand::CreateRuntime => CommandView::CreateRuntime,
            CliCommand::CleanupRuntime { runtime_dir } => CommandView::CleanupRuntime {
                runtime_dir: runtime_dir@,
            },
            CliCommand::ReplaceFile { source, destination } => CommandView::ReplaceFile {
                source: source@,
                destination: destination@,
            },
            CliCommand::Help => CommandView::Help,
        }
    }
}

/// The command an argument list asks for, checked in this order:
/// `--create-runtime` anywhere; `--cleanup-runtime <dir>`;
/// `--replace-file <source> <destination>`; `--snapshot <path>`; else help.
pub open spec fn command_of(argv: Seq<Seq<char>>) -> CommandView {
    if flag_index(argv, "--create-runtime"@) is Some {
        CommandView::CreateRuntime
    } else if after_flag(argv, "--cleanup-runtime"@, 1) is Some {
        CommandView::CleanupRuntime { runtime_dir: after_flag(argv, "--cleanup-runtime"@, 1)->0 }
    } else if after_flag(argv, "--replace-file"@, 1) is Some && after_flag(
        argv,
        "--replace-file"@,
        2,
    ) is Some {
        CommandView::ReplaceFile {
            source: after_flag(argv, "--replace-file"@, 1)->0,
            destination: after_flag(argv, "--replace-file"@, 2)->0,
        }
    } else if after_flag(argv, "--snapshot"@, 1) is Some {
        CommandView::Run { snapshot_path: after_flag(argv, "--snapshot"@, 1)->0 }
    } else {
        CommandView::Help
    }
}

fn position(argv: &Vec<String>, flag: &str) -> (r: Option<usize>)
    ensures
        match r {
            Some(i) => flag_index(argv@.map_values(|s: String| s@), flag@) == Some(i as int) && i
                < argv.len(),
            None => flag_index(argv@.map_values(|s: String| s@), flag@) is None,
        },
{
    let ghost av = argv@.map_values(|s: String| s@);
    let mut i: usize = 0;
    while i < argv.len()
        invariant
            i <= argv.len(),
            av == argv@.map_values(|s: String| s@),
            forall|j: int| 0 <= j < i ==> av[j] != flag@,
        decreases argv.len() - i,
    {
        if str_eq(argv[i].as_str(), flag) {
            proof {
                assert(flag_at(av, flag@, i as int));
                let c = choose|c: int| flag_at(av, flag@, c);
                if c < i {
                    assert(av[c] != flag@);
                }
                if i < c {
                    assert(av[i as int] == flag@);
                }
            }
            return Some(i);
        }
        assert(av[i as int] == argv@[i as int]@);
        i += 1;
    }
    proof {
        if exists|c: int| flag_at(av, flag@, c) {
            let c = choose|c: int| flag_at(av, flag@, c);
            assert(av[c] == flag@);
        }
    }
    None
}

/// The argument `k` places after the first `flag`.
fn argument_after(argv: &Vec<String>, flag: &str, k: usize) -> (r: Option<String>)
    requires
        k <= 2,
    ensures
        crate::types::opt_str(r) == after_flag(argv@.map_values(|s: String| s@), flag@, k as int),
{
    match position(argv, flag) {
        Some(i) => {
            if k < argv.len() - i {
                Some(argv[i + k].clone())
            } else {
                None
            }
        },
        None => None,
    }
}

pub fn parse_args(argv: &Vec<String>) -> (r: CliCommand)
    ensures
        r@ == command_of(argv@.map_values(|s: String| s@)),
{
    if position(argv, "--create-runtime").is_some() {
        return CliCommand::CreateRuntime;
    }
    match argument_after(argv, "--cleanup-runtime", 1) {
        Some(runtime_dir) => {
            return CliCommand::CleanupRuntime { runtime_dir };
        },
        None => {},
    }
    match (argument_after(argv, "--replace-file", 1), argument_after(argv, "--replace-file", 2)) {
        (Some(source), Some(destination)) => {
            return CliCommand::ReplaceFile { source, destination };
        },
        _ => {},
    }
    match argument_after(argv, "--snapshot", 1) {
        Some(snapshot_path) => CliCommand::Run { snapshot_path },
        None => CliCommand::Help,
    }
}

/// With `--replace-file` first standing at `i`, two arguments after it, and
/// neither `--create-runtime` nor `--cleanup-runtime` on the command line,
/// the command replaces a file: its source is the argument right after the
/// flag and its destination the one after that.
pub proof fn lemma_replace_file_arguments(argv: Seq<Seq<char>>, i: int)
    requires
        0 <= i,
        i + 2 < argv.len(),
        argv[i] == "--replace-file"@,
        forall|j: int| 0 <= j < i ==> argv[j] != "--replace-file"@,
        forall|j: int|
            0 <= j < argv.len() ==> argv[j] != "--create-runtime"@ && argv[j]
                != "--cleanup-runtime"@,
    ensures
        command_of(argv) == (CommandView::ReplaceFile { source: argv[i + 1], destination: argv[i + 2] }),
{
    lemma_first_flag(argv, "--replace-file"@, i);
    lemma_no_flag(argv, "--create-runtime"@);
    lemma_no_flag(argv, "--cleanup-runtime"@);
}

proof fn lemma_first_flag(argv: Seq<Seq<char>>, flag: Seq<char>, i: int)
    requires
        flag_at(argv, flag, i),
    ensures
        flag_index(argv, flag) == Some(i),
{
    let k = choose|k: int| flag_at(argv, flag, k);
    assert(flag_at(argv, flag, k));
    if k < i {
        assert(argv[k] != flag);
    }
    if k > i {
        assert(argv[i] != flag);
    }
}

proof fn lemma_no_flag(argv: Seq<Seq<char>>, flag: Seq<char>)
    requires
        forall|j: int| 0 <= j < argv.len() ==> argv[j] != flag,
    ensures
        flag_index(argv, flag) is None,
{
    assert(!exists|j: int| flag_at(argv, flag, j));
}

/// What each flag asks for, first match winning: `--create-runtime`
/// anywhere; else `--cleanup-runtime` with the directory right after it;
/// else (after `--replace-file`) `--snapshot` with the path right after it;
/// and help when none of the flags is given.
pub proof fn lemma_command_line(argv: Seq<Seq<char>>, i: int)
    ensures
        flag_at(argv, "--create-runtime"@, i) ==> command_of(argv) == CommandView::CreateRuntime,
        flag_at(argv, "--cleanup-runtime"@, i) && i + 1 < argv.len() && (forall|j: int|
            0 <= j < argv.len() ==> argv[j] != "--create-runtime"@) ==> command_of(argv) == (
        CommandView::CleanupRuntime { runtime_dir: argv[i + 1] }),
        flag_at(argv, "--snapshot"@, i) && i + 1 < argv.len() && (forall|j: int|
            0 <= j < argv.len() ==> argv[j] != "--create-runtime"@ && argv[j]
                != "--cleanup-runtime"@ && argv[j] != "--replace-file"@) ==> command_of(argv) == (
        CommandView::Run { snapshot_path: argv[i + 1] }),
        (forall|j: int|
            0 <= j < argv.len() ==> argv[j] != "--create-runtime"@ && argv[j]
                != "--cleanup-runtime"@ && argv[j] != "--replace-file"@ && argv[j]
                != "--snapshot"@) ==> command_of(argv) == CommandView::Help,
{
    let cr = "--create-runtime"@;
    let cu = "--cleanup-runtime"@;
    let rf = "--replace-file"@;
    let sn = "--snapshot"@;
    if flag_at(argv, cr, i) {
        lemma_first_flag(argv, cr, i);
    }
    if forall|j: int| 0 <= j < argv.len() ==> argv[j] != cr {
        lemma_no_flag(argv, cr);
        if flag_at(argv, cu, i) {
            lemma_first_flag(argv, cu, i);
        }
        if forall|j: int| 0 <= j < argv.len() ==> argv[j] != cu {
            lemma_no_flag(argv, cu);
            if forall|j: int| 0 <= j < argv.len() ==> argv[j] != rf {
                lemma_no_flag(argv, rf);
                if flag_at(argv, sn, i) {
                    lemma_first_flag(argv, sn, i);
                }
                if forall|j: int| 0 <= j < argv.len() ==> argv[j] != sn {
                    lemma_no_flag(argv, sn);
                }
            }
        }
    }
}

} // verus!
