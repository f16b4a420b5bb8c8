use vstd::prelude::*;
use vstd::string::*;
use crate::text::{text_is, views};

verus! {

/// The options of a PlistBuddy command line.
pub struct BuddyArgs {
    pub commands: Vec<String>,
    pub xml_output: bool,
    pub no_follow_symlinks: bool,
    pub show_help: bool,
    pub file_path: Option<String>,
}

/// The options as read so far.
pub struct Scan {
    pub commands: Seq<Seq<char>>,
    pub xml_output: bool,
    pub no_follow_symlinks: bool,
    pub show_help: bool,
    pub file_path: Option<Seq<char>>,
}

pub open spec fn scan_start() -> Scan {
    Scan {
        commands: Seq::empty(),
        xml_output: false,
        no_follow_symlinks: false,
        show_help: false,
        file_path: None,
    }
}

/// Reads the arguments from position `i` on; none when `-c` ends the line.
pub open spec fn scan(args: Seq<Seq<char>>, i: int, acc: Scan) -> Option<Scan>
    decreases args.len() - i,
{
    if i < 0 || i >= args.len() {
        Some(acc)
    } else if args[i] == "-c"@ {
        if i + 1 >= args.len() {
            None
        } else {
            scan(args, i + 2, Scan { commands: acc.commands.push(args[i + 1]), ..acc })
        }
    } else if args[i] == "-x"@ {
        scan(args, i + 1, Scan { xml_output: true, ..acc })
    } else if args[i] == "-l"@ {
        scan(args, i + 1, Scan { no_follow_symlinks: true, ..acc })
    } else if args[i] == "-h"@ {
        scan(args, i + 1, Scan { show_help: true, ..acc })
    } else {
        scan(
            args,
            i + 1,
            Scan {
                file_path: if acc.file_path is None {
                    Some(args[i])
                } else {
                    acc.file_path
                },
                ..acc
            },
        )
    }
}

/// The number of arguments from position `j` on that are neither flags nor
/// the command after `-c`.
pub open spec fn positional_count(args: Seq<Seq<char>>, j: int) -> nat
    decreases args.len() - j,
{
    if j < 0 || j >= args.len() {
        0
    } else if args[j] == "-c"@ {
        if j + 1 >= args.len() {
            0
        } else {
            positional_count(args, j + 2)
        }
    } else if args[j] == "-x"@ || args[j] == "-l"@ || args[j] == "-h"@ {
        positional_count(args, j + 1)
    } else {
        1 + positional_count(args, j + 1)
    }
}

/// What to do with a PlistBuddy command line.
pub enum Launch {
    /// `-c` ends the line: print the usage and fail without a message.
    MissingCommand,
    /// More than one file: print `Invalid Arguments` (after noting a file
    /// that does not exist) and fail.
    ExtraArguments,
    /// `-h` without a file: print the guide and fail.
    HelpOnly,
    /// No file: print the usage and fail.
    Usage,
    /// `-h` with a file: print the guide and succeed.
    HelpWithFile,
    /// Load the file and run the commands, or read them interactively.
    Run,
}

pub open spec fn launch_of(args: Seq<Seq<char>>) -> (Option<Scan>, Launch) {
    match scan(args, 0, scan_start()) {
        None => (None, Launch::MissingCommand),
        Some(sc) => (
            Some(sc),
            if positional_count(args, 0) > 1 {
                Launch::ExtraArguments
            } else if sc.show_help && sc.file_path is None {
                Launch::HelpOnly
            } else if sc.file_path is None {
                Launch::Usage
            } else if sc.show_help {
                Launch::HelpWithFile
            } else {
                Launch::Run
            },
        ),
    }
}

/// A command line with two or more arguments that are neither the flags
/// `-x`, `-l`, `-h` nor the command after a `-c` (and with no `-c` left
/// without its command) launches as `ExtraArguments`, whatever else it
/// holds: no command is run and no file is read.
pub proof fn law_extra_arguments(args: Seq<Seq<char>>)
    requires
        scan(args, 0, scan_start()) is Some,
        positional_count(args, 0) >= 2,
    ensures
        launch_of(args).1 is ExtraArguments,
{
}

pub open spec fn scan_of(a: BuddyArgs) -> Scan {
    Scan {
        commands: views(a.commands@),
        xml_output: a.xml_output,
        no_follow_symlinks: a.no_follow_symlinks,
        show_help: a.show_help,
        file_path: match a.file_path {
            Some(p) => Some(p@),
            None => None,
        },
    }
}

fn lit_eq(s: &String, lit: &str) -> (b: bool)
    ensures
        b == (s@ == lit@),
{
    text_is(s.as_str(), lit)
}

/// Reads a PlistBuddy command line (without the program name).
pub fn parse_args(args: &[String]) -> (r: (BuddyArgs, Launch))
    ensures
        ({
            let (sc, l) = launch_of(views(args@));
            &&& r.1 == l
            &&& sc matches Some(s) ==> scan_of(r.0) == s
        }),
{
    let ghost a = views(args@);
    let mut out = BuddyArgs {
        commands: Vec::new(),
        xml_output: false,
        no_follow_symlinks: false,
        show_help: false,
        file_path: None,
    };
    assert(scan_of(out) == scan_start()) by {
        assert(views(out.commands@) =~= Seq::<Seq<char>>::empty());
    }
    let mut i: usize = 0;
    while i < args.len()
        invariant
            0 <= i <= args@.len(),
            a == views(args@),
            scan(a, 0, scan_start()) == scan(a, i as int, scan_of(out)),
        decreases args@.len() - i,
    {
        let ghost before = scan_of(out);
        if lit_eq(&args[i], "-c") {
            if i + 1 >= args.len() {
                return (out, Launch::MissingCommand);
            }
            out.commands.push(args[i + 1].clone());
            assert(views(out.commands@) =~= before.commands.push(a[i + 1]));
            i += 2;
        } else if lit_eq(&args[i], "-x") {
            out.xml_output = true;
            i += 1;
        } else if lit_eq(&args[i], "-l") {
            out.no_follow_symlinks = true;
            i += 1;
        } else if lit_eq(&args[i], "-h") {
            out.show_help = true;
            i += 1;
        } else {
            if out.file_path.is_none() {
                out.file_path = Some(args[i].clone());
            }
            i += 1;
        }
    }
    let mut count: usize = 0;
    let mut j: usize = 0;
    while j < args.len()
        invariant
            a == views(args@),
            args@.len() == a.len(),
            j <= args@.len(),
            count + positional_count(a, j as int) == positional_count(a, 0),
            count <= j,
        decreases args@.len() - j,
    {
        if lit_eq(&args[j], "-c") {
            if j + 1 >= args.len() {
                j = args.len();
            } else {
                j += 2;
            }
        } else if lit_eq(&args[j], "-x") || lit_eq(&args[j], "-l") || lit_eq(&args[j], "-h") {
            j += 1;
        } else {
            count += 1;
            j += 1;
        }
    }
    let launch = if count > 1 {
        Launch::ExtraArguments
    } else if out.show_help && out.file_path.is_none() {
        Launch::HelpOnly
    } else if out.file_path.is_none() {
        Launch::Usage
    } else if out.show_help {
        Launch::HelpWithFile
    } else {
        Launch::Run
    };
    (out, launch)
}

} // verus!
