use vstd::prelude::*;
use vstd::string::*;
use crate::text::{cat2, chars_of, first_where, lemma_first_where, string_between, text_is, views};

verus! {

/// An output format that plutil names.
#[derive(PartialEq, Eq, Structural)]
pub enum Format {
    Xml1,
    Binary1,
    Json,
    Raw,
    Swift,
    Objc,
}

pub open spec fn format_named(s: Seq<char>) -> Option<Format> {
    if s == "xml1"@ {
        Some(Format::Xml1)
    } else if s == "binary1"@ {
        Some(Format::Binary1)
    } else if s == "json"@ {
        Some(Format::Json)
    } else if s == "raw"@ {
        Some(Format::Raw)
    } else if s == "swift"@ {
        Some(Format::Swift)
    } else if s == "objc"@ {
        Some(Format::Objc)
    } else {
        None
    }
}

pub open spec fn unknown_format(s: Seq<char>) -> Seq<char> {
    "Unknown format specifier: "@ + s
}

pub fn parse_format(s: &str) -> (r: Result<Format, String>)
    ensures
        match format_named(s@) {
            Some(f) => r == Ok::<Format, String>(f),
            None => r is Err && r->Err_0@ == unknown_format(s@),
        },
{
    if text_is(s, "xml1") {
        Ok(Format::Xml1)
    } else if text_is(s, "binary1") {
        Ok(Format::Binary1)
    } else if text_is(s, "json") {
        Ok(Format::Json)
    } else if text_is(s, "raw") {
        Ok(Format::Raw)
    } else if text_is(s, "swift") {
        Ok(Format::Swift)
    } else if text_is(s, "objc") {
        Ok(Format::Objc)
    } else {
        Err(cat2("Unknown format specifier: ", s))
    }
}


/// What plutil is asked to do.
pub enum Command {
    Help,
    Lint,
    Print,
    Convert { format: Format },
    Extract { keypath: String, format: Format, expect: Option<String> },
    Insert { keypath: String, value_type: String, value: Option<String>, append: bool },
    Replace { keypath: String, value_type: String, value: Option<String> },
    Remove { keypath: String },
    Type { keypath: String, expect: Option<String> },
    Create { format: Format },
}

pub enum Cmd {
    Help,
    Lint,
    Print,
    Convert { format: Format },
    Extract { keypath: Seq<char>, format: Format, expect: Option<Seq<char>> },
    Insert { keypath: Seq<char>, value_type: Seq<char>, value: Option<Seq<char>>, append: bool },
    Replace { keypath: Seq<char>, value_type: Seq<char>, value: Option<Seq<char>> },
    Remove { keypath: Seq<char> },
    Type { keypath: Seq<char>, expect: Option<Seq<char>> },
    Create { format: Format },
}

pub open spec fn opt_view(o: Option<String>) -> Option<Seq<char>> {
    match o {
        Some(s) => Some(s@),
        None => None,
    }
}

impl View for Command {
    type V = Cmd;

    open spec fn view(&self) -> Cmd {
        match self {
            Command::Help => Cmd::Help,
            Command::Lint => Cmd::Lint,
            Command::Print => Cmd::Print,
            Command::Convert { format } => Cmd::Convert { format: *format },
            Command::Extract { keypath, format, expect } => Cmd::Extract {
                keypath: keypath@,
                format: *format,
                expect: opt_view(*expect),
            },
            Command::Insert { keypath, value_type, value, append } => Cmd::Insert {
                keypath: keypath@,
                value_type: value_type@,
                value: opt_view(*value),
                append: *append,
            },
            Command::Replace { keypath, value_type, value } => Cmd::Replace {
                keypath: keypath@,
                value_type: value_type@,
                value: opt_view(*value),
            },
            Command::Remove { keypath } => Cmd::Remove { keypath: keypath@ },
            Command::Type { keypath, expect } => Cmd::Type {
                keypath: keypath@,
                expect: opt_view(*expect),
            },
            Command::Create { format } => Cmd::Create { format: *format },
        }
    }
}

/// The options of a plutil command line.
pub struct Options {
    pub command: Command,
    pub files: Vec<String>,
    pub silent: bool,
    pub output_path: Option<String>,
    pub extension: Option<String>,
    pub readable: bool,
    pub no_newline: bool,
    pub header: bool,
}

/// The options as read so far.
pub struct Opts {
    pub command: Option<Cmd>,
    pub files: Seq<Seq<char>>,
    pub silent: bool,
    pub output_path: Option<Seq<char>>,
    pub extension: Option<Seq<char>>,
    pub readable: bool,
    pub no_newline: bool,
    pub header: bool,
    pub end_of_options: bool,
}

pub open spec fn opts_start() -> Opts {
    Opts {
        command: None,
        files: Seq::empty(),
        silent: false,
        output_path: None,
        extension: None,
        readable: false,
        no_newline: false,
        header: false,
        end_of_options: false,
    }
}

pub open spec fn dashed(a: Seq<char>) -> bool {
    a.len() > 0 && a[0] == '-'
}

pub open spec fn non_dash() -> spec_fn(char) -> bool {
    |c: char| c != '-'
}

/// The text without its leading dashes.
pub open spec fn strip_dashes(a: Seq<char>) -> Seq<char> {
    match first_where(a, non_dash()) {
        Some(k) => a.skip(k as int),
        None => Seq::empty(),
    }
}

/// `-expect <type>` after position `i`: the position of the last argument
/// used and the type, or an error.
pub open spec fn expect_after(args: Seq<Seq<char>>, i: int) -> Result<(int, Option<Seq<char>>), Seq<char>> {
    if i + 1 < args.len() && args[i + 1] == "-expect"@ {
        if i + 2 >= args.len() {
            Err("Missing type for -expect"@)
        } else {
            Ok((i + 2, Some(args[i + 2])))
        }
    } else {
        Ok((i, None))
    }
}

pub open spec fn dup(acc: Opts, flag: Seq<char>) -> bool {
    acc.command is Some
}

pub open spec fn unrecognized(flag: Seq<char>) -> Seq<char> {
    "unrecognized option: "@ + flag
}

pub open spec fn need_insert() -> Seq<char> {
    "'Insert' and 'Replace' require a key path, a type, and a value."@
}

pub open spec fn need_extract() -> Seq<char> {
    "'Extract' requires a key path and a plist format."@
}

/// The options that a dashed argument can name.
#[derive(Clone, Copy, PartialEq, Eq, Structural)]
pub enum Flag {
    EndOfOptions,
    Help,
    Lint,
    Print,
    Header,
    Silent,
    Readable,
    NoNewline,
    Output,
    Extension,
    Convert,
    Create,
    Extract,
    Type,
    Insert,
    Replace,
    Remove,
    Unknown,
}

pub open spec fn flag_of(a: Seq<char>) -> Flag {
    if a == "--"@ {
        Flag::EndOfOptions
    } else if a == "-help"@ {
        Flag::Help
    } else if a == "-lint"@ {
        Flag::Lint
    } else if a == "-p"@ {
        Flag::Print
    } else if a == "-header"@ {
        Flag::Header
    } else if a == "-s"@ {
        Flag::Silent
    } else if a == "-r"@ {
        Flag::Readable
    } else if a == "-n"@ {
        Flag::NoNewline
    } else if a == "-o"@ {
        Flag::Output
    } else if a == "-e"@ {
        Flag::Extension
    } else if a == "-convert"@ {
        Flag::Convert
    } else if a == "-create"@ {
        Flag::Create
    } else if a == "-extract"@ {
        Flag::Extract
    } else if a == "-type"@ {
        Flag::Type
    } else if a == "-insert"@ {
        Flag::Insert
    } else if a == "-replace"@ {
        Flag::Replace
    } else if a == "-remove"@ {
        Flag::Remove
    } else {
        Flag::Unknown
    }
}

/// Names the option that an argument spells.
pub fn flag(a: &str) -> (f: Flag)
    ensures
        f == flag_of(a@),
{
    if text_is(a, "--") {
        Flag::EndOfOptions
    } else if text_is(a, "-help") {
        Flag::Help
    } else if text_is(a, "-lint") {
        Flag::Lint
    } else if text_is(a, "-p") {
        Flag::Print
    } else if text_is(a, "-header") {
        Flag::Header
    } else if text_is(a, "-s") {
        Flag::Silent
    } else if text_is(a, "-r") {
        Flag::Readable
    } else if text_is(a, "-n") {
        Flag::NoNewline
    } else if text_is(a, "-o") {
        Flag::Output
    } else if text_is(a, "-e") {
        Flag::Extension
    } else if text_is(a, "-convert") {
        Flag::Convert
    } else if text_is(a, "-create") {
        Flag::Create
    } else if text_is(a, "-extract") {
        Flag::Extract
    } else if text_is(a, "-type") {
        Flag::Type
    } else if text_is(a, "-insert") {
        Flag::Insert
    } else if text_is(a, "-replace") {
        Flag::Replace
    } else if text_is(a, "-remove") {
        Flag::Remove
    } else {
        Flag::Unknown
    }
}

/// Whether the option names a command (of which a command line has at most one).
pub open spec fn names_command(f: Flag) -> bool {
    match f {
        Flag::Help | Flag::Lint | Flag::Print | Flag::Convert | Flag::Create | Flag::Extract
        | Flag::Type | Flag::Insert | Flag::Replace | Flag::Remove => true,
        _ => false,
    }
}

/// The value of `-insert`/`-replace` and where it ends: the type is at `k`.
pub open spec fn insert_value(args: Seq<Seq<char>>, k: int, insert: bool) -> (Option<Seq<char>>, int) {
    let t = strip_dashes(args[k]);
    let takes = t != "dictionary"@ && t != "array"@ && k + 1 < args.len() && (!dashed(args[k + 1])
        || (insert && args[k + 1] != "-append"@ && args[k + 1] != "-s"@ && args[k + 1]
        != "-o"@));
    if takes {
        (Some(args[k + 1]), k + 1)
    } else {
        (None, k)
    }
}

/// The command that the option at `i` names, read with its operands, and the
/// position of its last operand; or the message it is refused with.
pub open spec fn command_at(args: Seq<Seq<char>>, i: int, f: Flag) -> Result<(Cmd, int), Seq<char>> {
    match f {
        Flag::Help => Ok((Cmd::Help, i)),
        Flag::Lint => Ok((Cmd::Lint, i)),
        Flag::Print => Ok((Cmd::Print, i)),
        Flag::Convert | Flag::Create => if i + 1 >= args.len() {
            Err(
                if f is Convert {
                    "Missing format specifier for command."@
                } else {
                    "'Create' requires a plist format."@
                },
            )
        } else {
            match format_named(args[i + 1]) {
                None => Err(unknown_format(args[i + 1])),
                Some(fm) => Ok(
                    (
                        if f is Convert {
                            Cmd::Convert { format: fm }
                        } else {
                            Cmd::Create { format: fm }
                        },
                        i + 1,
                    ),
                ),
            }
        },
        Flag::Extract => if i + 2 >= args.len() {
            Err(need_extract())
        } else {
            match format_named(args[i + 2]) {
                None => Err(unknown_format(args[i + 2])),
                Some(fm) => match expect_after(args, i + 2) {
                    Err(m) => Err(m),
                    Ok((j, ex)) => Ok(
                        (Cmd::Extract { keypath: args[i + 1], format: fm, expect: ex }, j),
                    ),
                },
            }
        },
        Flag::Type => if i + 1 >= args.len() {
            Err(need_extract())
        } else {
            match expect_after(args, i + 1) {
                Err(m) => Err(m),
                Ok((j, ex)) => Ok((Cmd::Type { keypath: args[i + 1], expect: ex }, j)),
            }
        },
        Flag::Insert => if i + 2 >= args.len() {
            Err(need_insert())
        } else {
            let (value, k2) = insert_value(args, i + 2, true);
            let append = k2 + 1 < args.len() && args[k2 + 1] == "-append"@;
            Ok(
                (
                    Cmd::Insert {
                        keypath: args[i + 1],
                        value_type: strip_dashes(args[i + 2]),
                        value,
                        append,
                    },
                    if append {
                        k2 + 1
                    } else {
                        k2
                    },
                ),
            )
        },
        Flag::Replace => if i + 2 >= args.len() {
            Err(need_insert())
        } else {
            let (value, k2) = insert_value(args, i + 2, false);
            Ok(
                (
                    Cmd::Replace {
                        keypath: args[i + 1],
                        value_type: strip_dashes(args[i + 2]),
                        value,
                    },
                    k2,
                ),
            )
        },
        Flag::Remove => if i + 1 >= args.len() {
            Err("'Remove' requires a key path."@)
        } else {
            Ok((Cmd::Remove { keypath: args[i + 1] }, i + 1))
        },
        _ => Err(unrecognized(args[i])),
    }
}

/// A command's operands end at or after the option and within the arguments.
pub proof fn lemma_command_end(args: Seq<Seq<char>>, i: int, f: Flag)
    requires
        0 <= i < args.len(),
    ensures
        command_at(args, i, f) matches Ok((c, j)) ==> i <= j < args.len(),
{
}

/// Reads the arguments from position `i` on.
pub open spec fn scan_opts(args: Seq<Seq<char>>, i: int, acc: Opts) -> Result<Opts, Seq<char>>
    decreases args.len() - i,
{
    if i < 0 || i >= args.len() {
        Ok(acc)
    } else {
        let a = args[i];
        let f = flag_of(a);
        if acc.end_of_options || !dashed(a) || a == "-"@ {
            scan_opts(args, i + 1, Opts { files: acc.files.push(a), ..acc })
        } else if names_command(f) {
            if acc.command is Some {
                Err(unrecognized(a))
            } else {
                match command_at(args, i, f) {
                    Err(m) => Err(m),
                    Ok((c, j)) => {
                        proof {
                            lemma_command_end(args, i, f);
                        }
                        scan_opts(args, j + 1, Opts { command: Some(c), ..acc })
                    },
                }
            }
        } else {
            match f {
                Flag::EndOfOptions => scan_opts(args, i + 1, Opts { end_of_options: true, ..acc }),
                Flag::Header => scan_opts(args, i + 1, Opts { header: true, ..acc }),
                Flag::Silent => scan_opts(args, i + 1, Opts { silent: true, ..acc }),
                Flag::Readable => scan_opts(args, i + 1, Opts { readable: true, ..acc }),
                Flag::NoNewline => scan_opts(args, i + 1, Opts { no_newline: true, ..acc }),
                Flag::Output => if i + 1 >= args.len() {
                    Err("Missing path for -o"@)
                } else {
                    scan_opts(args, i + 2, Opts { output_path: Some(args[i + 1]), ..acc })
                },
                Flag::Extension => if i + 1 >= args.len() {
                    Err("Missing extension for -e"@)
                } else {
                    scan_opts(args, i + 2, Opts { extension: Some(args[i + 1]), ..acc })
                },
                _ => Err(unrecognized(a)),
            }
        }
    }
}

/// `str::trim_start_matches('-')`.
pub fn strip_leading_dashes(a: &str) -> (r: String)
    ensures
        r@ == strip_dashes(a@),
{
    let v = chars_of(a);
    let mut k: usize = 0;
    while k < v.len() && v[k] == '-'
        invariant
            0 <= k <= v@.len(),
            v@ == a@,
            forall|j: int| 0 <= j < k ==> !non_dash()(#[trigger] v@[j]),
        decreases v@.len() - k,
    {
        k += 1;
    }
    proof {
        lemma_first_where(v@, non_dash(), k as int);
    }
    assert(v@.subrange(k as int, v@.len() as int) =~= v@.skip(k as int));
    string_between(&v, k, v.len())
}

fn is_dashed(a: &String) -> (b: bool)
    ensures
        b == dashed(a@),
{
    let v = chars_of(a.as_str());
    v.len() > 0 && v[0] == '-'
}

fn arg_is(a: &String, lit: &str) -> (b: bool)
    ensures
        b == (a@ == lit@),
{
    text_is(a.as_str(), lit)
}

/// The options read so far, while reading them.
struct Scanner {
    command: Option<Command>,
    files: Vec<String>,
    silent: bool,
    output_path: Option<String>,
    extension: Option<String>,
    readable: bool,
    no_newline: bool,
    header: bool,
    end_of_options: bool,
}

impl View for Scanner {
    type V = Opts;

    closed spec fn view(&self) -> Opts {
        Opts {
            command: match self.command {
                Some(c) => Some(c@),
                None => None,
            },
            files: views(self.files@),
            silent: self.silent,
            output_path: opt_view(self.output_path),
            extension: opt_view(self.extension),
            readable: self.readable,
            no_newline: self.no_newline,
            header: self.header,
            end_of_options: self.end_of_options,
        }
    }
}

/// The options a command line ends with: the command defaults to `-lint`.
pub open spec fn finished_opts(o: Opts) -> Opts {
    Opts {
        command: Some(
            match o.command {
                Some(c) => c,
                None => Cmd::Lint,
            },
        ),
        ..o
    }
}

pub open spec fn options_view(o: Options) -> Opts {
    Opts {
        command: Some(o.command@),
        files: views(o.files@),
        silent: o.silent,
        output_path: opt_view(o.output_path),
        extension: opt_view(o.extension),
        readable: o.readable,
        no_newline: o.no_newline,
        header: o.header,
        end_of_options: false,
    }
}

fn names_cmd(f: Flag) -> (b: bool)
    ensures
        b == names_command(f),
{
    match f {
        Flag::Help | Flag::Lint | Flag::Print | Flag::Convert | Flag::Create | Flag::Extract
        | Flag::Type | Flag::Insert | Flag::Replace | Flag::Remove => true,
        _ => false,
    }
}

/// `-expect <type>` after position `i`.
fn read_expect(args: &[String], i: usize) -> (r: Result<(usize, Option<String>), String>)
    requires
        i < args@.len(),
    ensures
        match expect_after(views(args@), i as int) {
            Ok((j, ex)) => r is Ok && r->Ok_0.0 == j && opt_view(r->Ok_0.1) == ex,
            Err(m) => r is Err && r->Err_0@ == m,
        },
{
    let n = args.len();
    if i + 1 < n && arg_is(&args[i + 1], "-expect") {
        if i + 2 >= n {
            return Err(String::from_str("Missing type for -expect"));
        }
        Ok((i + 2, Some(args[i + 2].clone())))
    } else {
        Ok((i, None))
    }
}

/// The value operand of `-insert`/`-replace`, whose type is at `k`.
fn read_insert_value(args: &[String], k: usize, value_type: &String, insert: bool) -> (r: (
    Option<String>,
    usize,
))
    requires
        k < args@.len(),
        value_type@ == strip_dashes(args@[k as int]@),
    ensures
        (opt_view(r.0), r.1 as int) == insert_value(views(args@), k as int, insert),
{
    let n = args.len();
    if !text_is(value_type.as_str(), "dictionary") && !text_is(value_type.as_str(), "array") && k
        + 1 < n {
        let next = &args[k + 1];
        if !is_dashed(next) || (insert && !arg_is(next, "-append") && !arg_is(next, "-s")
            && !arg_is(next, "-o")) {
            return (Some(next.clone()), k + 1);
        }
    }
    (None, k)
}

/// Reads the command named at position `i` with its operands.
fn read_command(args: &[String], i: usize, f: Flag) -> (r: Result<(Command, usize), String>)
    requires
        i < args@.len(),
        names_command(f),
    ensures
        match command_at(views(args@), i as int, f) {
            Ok((c, j)) => r is Ok && r->Ok_0.0@ == c && r->Ok_0.1 == j,
            Err(m) => r is Err && r->Err_0@ == m,
        },
{
    let n = args.len();
    match f {
        Flag::Help => Ok((Command::Help, i)),
        Flag::Lint => Ok((Command::Lint, i)),
        Flag::Print => Ok((Command::Print, i)),
        Flag::Convert | Flag::Create => {
            if i + 1 >= n {
                return Err(
                    match f {
                        Flag::Convert => String::from_str("Missing format specifier for command."),
                        _ => String::from_str("'Create' requires a plist format."),
                    },
                );
            }
            let fmt = match parse_format(args[i + 1].as_str()) {
                Ok(x) => x,
                Err(e) => {
                    return Err(e);
                },
            };
            let c = match f {
                Flag::Convert => Command::Convert { format: fmt },
                _ => Command::Create { format: fmt },
            };
            Ok((c, i + 1))
        },
        Flag::Extract => {
            if n - i <= 2 {
                return Err(String::from_str("'Extract' requires a key path and a plist format."));
            }
            let fmt = match parse_format(args[i + 2].as_str()) {
                Ok(x) => x,
                Err(e) => {
                    return Err(e);
                },
            };
            match read_expect(args, i + 2) {
                Ok((j, expect)) => Ok(
                    (Command::Extract { keypath: args[i + 1].clone(), format: fmt, expect }, j),
                ),
                Err(m) => Err(m),
            }
        },
        Flag::Type => {
            if i + 1 >= n {
                return Err(String::from_str("'Extract' requires a key path and a plist format."));
            }
            match read_expect(args, i + 1) {
                Ok((j, expect)) => Ok((Command::Type { keypath: args[i + 1].clone(), expect }, j)),
                Err(m) => Err(m),
            }
        },
        Flag::Insert | Flag::Replace => {
            if n - i <= 2 {
                return Err(
                    String::from_str(
                        "'Insert' and 'Replace' require a key path, a type, and a value.",
                    ),
                );
            }
            let insert = match f {
                Flag::Insert => true,
                _ => false,
            };
            let keypath = args[i + 1].clone();
            let value_type = strip_leading_dashes(args[i + 2].as_str());
            let (value, k2) = read_insert_value(args, i + 2, &value_type, insert);
            if insert {
                let append = k2 + 1 < n && arg_is(&args[k2 + 1], "-append");
                let end = if append {
                    k2 + 1
                } else {
                    k2
                };
                Ok((Command::Insert { keypath, value_type, value, append }, end))
            } else {
                Ok((Command::Replace { keypath, value_type, value }, k2))
            }
        },
        _ => {
            if i + 1 >= n {
                return Err(String::from_str("'Remove' requires a key path."));
            }
            Ok((Command::Remove { keypath: args[i + 1].clone() }, i + 1))
        },
    }
}

/// Reads a plutil command line (without the program name).
pub fn parse_args(args: &[String]) -> (r: Result<Options, String>)
    ensures
        match scan_opts(views(args@), 0, opts_start()) {
            Ok(o) => r is Ok && options_view(r->Ok_0) == Opts {
                end_of_options: false,
                ..finished_opts(o)
            },
            Err(m) => r is Err && r->Err_0@ == m,
        },
{
    let ghost a = views(args@);
    let n = args.len();
    let mut sc = Scanner {
        command: None,
        files: Vec::new(),
        silent: false,
        output_path: None,
        extension: None,
        readable: false,
        no_newline: false,
        header: false,
        end_of_options: false,
    };
    assert(sc@ == opts_start()) by {
        assert(views(sc.files@) =~= Seq::<Seq<char>>::empty());
    }
    let mut i: usize = 0;
    while i < n
        invariant
            0 <= i <= n,
            n == args@.len(),
            a == views(args@),
            a.len() == n,
            scan_opts(a, 0, opts_start()) == scan_opts(a, i as int, sc@),
        decreases n - i,
    {
        let ghost before = sc@;
        let arg = &args[i];
        assert(arg@ == a[i as int]);
        if sc.end_of_options || !is_dashed(arg) || arg_is(arg, "-") {
            sc.files.push(arg.clone());
            assert(views(sc.files@) =~= before.files.push(a[i as int]));
            i += 1;
            continue ;
        }
        let f = flag(arg.as_str());
        if names_cmd(f) {
            if sc.command.is_some() {
                return Err(cat2("unrecognized option: ", arg.as_str()));
            }
            match read_command(args, i, f) {
                Ok((c, j)) => {
                    proof {
                        lemma_command_end(a, i as int, f);
                    }
                    sc.command = Some(c);
                    i = j;
                },
                Err(m) => {
                    return Err(m);
                },
            }
        } else {
            match f {
                Flag::EndOfOptions => {
                    sc.end_of_options = true;
                },
                Flag::Header => {
                    sc.header = true;
                },
                Flag::Silent => {
                    sc.silent = true;
                },
                Flag::Readable => {
                    sc.readable = true;
                },
                Flag::NoNewline => {
                    sc.no_newline = true;
                },
                Flag::Output => {
                    i += 1;
                    if i >= n {
                        return Err(String::from_str("Missing path for -o"));
                    }
                    sc.output_path = Some(args[i].clone());
                },
                Flag::Extension => {
                    i += 1;
                    if i >= n {
                        return Err(String::from_str("Missing extension for -e"));
                    }
                    sc.extension = Some(args[i].clone());
                },
                _ => {
                    return Err(cat2("unrecognized option: ", arg.as_str()));
                },
            }
        }
        i += 1;
    }
    let command = match sc.command {
        Some(c) => c,
        None => Command::Lint,
    };
    Ok(
        Options {
            command,
            files: sc.files,
            silent: sc.silent,
            output_path: sc.output_path,
            extension: sc.extension,
            readable: sc.readable,
            no_newline: sc.no_newline,
            header: sc.header,
        },
    )
}

} // verus!
