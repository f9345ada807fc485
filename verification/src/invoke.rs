//! What the program is asked to do.

use crate::report;
use crate::report::{Report, Said};
use crate::text;
use vstd::prelude::*;

verus! {

/// How the program is used.
pub const HELP: &'static str = "trash — move files and directories to the system trash

USAGE:
    trash [OPTIONS] <path>...
    trash list [--older <age>] [--project] [--json]
    trash size [--bytes]
    trash empty [--older <age>] [--yes]
    trash restore <pattern> [--to <path>]

OPTIONS:
    -n, --dry-run   Show what would be trashed without doing it
    -v, --verbose   Print each path as it is trashed
    -f, --force     Ignore missing files (no error)
    -r              Accepted for rm compatibility (directories always work)
    -h, --help      Show this help
    -V, --version   Show version

SUBCOMMANDS:
    list            List items in trash
      --older <age>   Filter to items older than age (e.g. 7d, 2w, 1M)
      --project       Only items originally under current directory
      --json          Output as JSON array

    size            Show total trash size
      --bytes         Show exact byte count

    empty           Empty the trash
      --older <age>   Only remove items older than age
      --yes, -y       Skip confirmation prompt

    restore         Restore item from trash
      <pattern>       Match against original path or trash filename
      --to <path>     Restore to specific path (required if no metadata)

AGE UNITS:
    s=seconds  m=minutes  h=hours  d=days  w=weeks  M=months  y=years

EXAMPLES:
    trash file.txt                  # trash a file
    trash -v src/old/ tmp/*.log     # trash dir + glob, verbose
    trash -nf build/ dist/          # dry-run, skip missing
    trash -- -weird-filename        # path starting with dash
    trash list                      # show trashed items
    trash list --older 30d          # items older than 30 days
    trash size                      # human-readable trash size
    trash empty --older 7d --yes    # delete items older than 7 days
    trash restore myfile.rs         # restore matching item
    trash restore src/ --to ./old/  # restore to specific location

PLATFORMS:
    macOS    Finder Trash (with metadata tracking)
    Windows  Recycle Bin (subcommands not yet supported)
    Linux    freedesktop.org trash spec (~/.local/share/Trash)

https://github.com/quantum-encoding/ai-trash\n";

/// What the program is asked to do.
#[derive(Clone, Copy, PartialEq, Eq, Structural)]
pub enum Invocation {
    /// Nothing, so it tells how it is used.
    Nothing,
    /// Tell how it is used.
    Help,
    /// Tell its version.
    Version,
    /// One of the commands, with the arguments behind its name.
    Command(Command),
    /// Move paths to the trash.
    Delete,
}

/// The commands by name.
#[derive(Clone, Copy, PartialEq, Eq, Structural)]
pub enum Command {
    List,
    Size,
    Empty,
    Restore,
}

/// The name of a command.
pub open spec fn command_name(c: Command) -> Seq<char> {
    match c {
        Command::List => "list"@,
        Command::Size => "size"@,
        Command::Empty => "empty"@,
        Command::Restore => "restore"@,
    }
}

/// What some arguments ask for. The first one decides.
pub open spec fn invocation(args: Seq<Seq<char>>) -> Invocation {
    if args.len() == 0 {
        Invocation::Nothing
    } else if args[0] == "-h"@ || args[0] == "--help"@ {
        Invocation::Help
    } else if args[0] == "--version"@ || args[0] == "-V"@ {
        Invocation::Version
    } else if args[0] == command_name(Command::List) {
        Invocation::Command(Command::List)
    } else if args[0] == command_name(Command::Size) {
        Invocation::Command(Command::Size)
    } else if args[0] == command_name(Command::Empty) {
        Invocation::Command(Command::Empty)
    } else if args[0] == command_name(Command::Restore) {
        Invocation::Command(Command::Restore)
    } else {
        Invocation::Delete
    }
}

impl Command {
    /// The name of the command.
    pub fn name(&self) -> (s: String)
        ensures
            s@ == command_name(*self),
    {
        match self {
            Command::List => "list".to_owned(),
            Command::Size => "size".to_owned(),
            Command::Empty => "empty".to_owned(),
            Command::Restore => "restore".to_owned(),
        }
    }
}

/// What some arguments ask for.
pub fn read_invocation(args: &[String]) -> (r: Invocation)
    ensures
        r == invocation(text::texts(args@)),
{
    if args.len() == 0 {
        return Invocation::Nothing;
    }
    let first = args[0].as_str();
    if text::str_eq(first, "-h") || text::str_eq(first, "--help") {
        Invocation::Help
    } else if text::str_eq(first, "--version") || text::str_eq(first, "-V") {
        Invocation::Version
    } else if text::str_eq(first, "list") {
        Invocation::Command(Command::List)
    } else if text::str_eq(first, "size") {
        Invocation::Command(Command::Size)
    } else if text::str_eq(first, "empty") {
        Invocation::Command(Command::Empty)
    } else if text::str_eq(first, "restore") {
        Invocation::Command(Command::Restore)
    } else {
        Invocation::Delete
    }
}

/// How the program tells how it is used. That is a failure where nothing was
/// asked for.
pub fn print_help(asked: bool) -> (r: Report)
    ensures
        r@ == (Said {
            out: HELP@,
            err: seq![],
            code: if asked {
                0
            } else {
                1
            },
        }),
{
    let code: u8 = if asked {
        0
    } else {
        1
    };
    Report { out: HELP.to_owned(), err: String::new(), code }
}

/// How the program tells its version.
pub fn version_report(version: &str) -> (r: Report)
    ensures
        r@ == report::success("trash "@ + version@ + "\n"@),
{
    let mut s = "trash ".to_owned();
    s.append(version);
    s.append("\n");
    Report::success(s)
}

/// How a command is refused where the trash is not a pair of directories.
pub fn unsupported_report(c: Command) -> (r: Report)
    ensures
        r@ == report::failure(
            "trash "@ + command_name(c) + ": subcommand not yet supported on Windows\n"@,
        ),
{
    let mut s = "trash ".to_owned();
    s.append(c.name().as_str());
    s.append(": subcommand not yet supported on Windows\n");
    Report::failure(s)
}

/// How a command is refused where no home directory is known: a trash in a
/// directory that is open to everybody is none to rely on.
pub fn homeless_report() -> (r: Report)
    ensures
        r@ == report::refusal("trash: HOME is not set to an absolute path"@),
{
    Report::refusal("trash: HOME is not set to an absolute path".to_owned())
}

/// A path that starts with a dot or a slash names no command, nor does what
/// stands behind `--`: such paths are moved to the trash.
pub proof fn law_written_out_paths_are_deleted(args: Seq<Seq<char>>)
    requires
        args.len() > 0,
        args[0] == "--"@ || args[0].len() > 0 && (args[0][0] == '.' || args[0][0] == '/'),
    ensures
        invocation(args) == Invocation::Delete,
{
    reveal_strlit("--");
    reveal_strlit("-h");
    reveal_strlit("--help");
    reveal_strlit("--version");
    reveal_strlit("-V");
    reveal_strlit("list");
    reveal_strlit("size");
    reveal_strlit("empty");
    reveal_strlit("restore");
    assert("--"@.len() == 2 && "--"@[0] == '-' && "--"@[1] == '-');
    assert("-h"@[0] == '-' && "-h"@[1] == 'h' && "-V"@[0] == '-' && "-V"@[1] == 'V');
    assert("--help"@.len() == 6 && "--help"@[0] == '-');
    assert("--version"@.len() == 9 && "--version"@[0] == '-');
    assert("list"@[0] == 'l' && "size"@[0] == 's' && "empty"@[0] == 'e' && "restore"@[0] == 'r');
}

/// The first argument alone decides, and only eight words are not paths or flags
/// of paths.
pub proof fn law_first_word_decides(args: Seq<Seq<char>>)
    ensures
        args.len() == 0 <==> invocation(args) == Invocation::Nothing,
        args.len() > 0 ==> {
            &&& invocation(args) == Invocation::Help <==> args[0] == "-h"@ || args[0] == "--help"@
            &&& invocation(args) == Invocation::Version <==> args[0] == "--version"@ || args[0]
                == "-V"@
            &&& invocation(args) == Invocation::Command(Command::List) <==> args[0] == "list"@
            &&& invocation(args) == Invocation::Command(Command::Size) <==> args[0] == "size"@
            &&& invocation(args) == Invocation::Command(Command::Empty) <==> args[0] == "empty"@
            &&& invocation(args) == Invocation::Command(Command::Restore) <==> args[0]
                == "restore"@
        },
{
    reveal_strlit("-h");
    reveal_strlit("--help");
    reveal_strlit("--version");
    reveal_strlit("-V");
    reveal_strlit("list");
    reveal_strlit("size");
    reveal_strlit("empty");
    reveal_strlit("restore");
    assert("-h"@.len() == 2 && "-h"@[0] == '-' && "-h"@[1] == 'h');
    assert("-V"@.len() == 2 && "-V"@[0] == '-' && "-V"@[1] == 'V');
    assert("--help"@.len() == 6 && "--help"@[0] == '-');
    assert("--version"@.len() == 9 && "--version"@[0] == '-');
    assert("list"@.len() == 4 && "list"@[0] == 'l');
    assert("size"@.len() == 4 && "size"@[0] == 's');
    assert("empty"@.len() == 5 && "empty"@[0] == 'e');
    assert("restore"@.len() == 7 && "restore"@[0] == 'r');
}

/// Commands are called by their own names.
pub proof fn law_names_of_commands()
    ensures
        command_name(Command::List) == "list"@,
        command_name(Command::Size) == "size"@,
        command_name(Command::Empty) == "empty"@,
        command_name(Command::Restore) == "restore"@,
{
}

} // verus!
