use vstd::prelude::*;
use vstd::string::*;

use crate::output::{outs, Out, Piece};
use crate::plutil::args::{opt_view, Cmd, Command, Format, Options};
use crate::plutil::codegen::{
    objc_header, objc_source, swift_source, value_contains_objc_invalid, value_to_objc,
    value_to_objc_header, value_to_swift,
};
use crate::plutil::json_write::{
    is_json_invalid, json_compact, json_invalid, json_invalid_nested, json_readable, spaces,
    value_to_json_compact, value_to_json_readable,
};
use crate::plutil::keypath::{
    insert_at_keypath, inserted, remove_at_keypath, removed, replace_at_keypath, replaced,
};
use crate::plutil::paths::{
    file_name, name_of, output_path, output_path_allowed, output_path_ok, path_with_extension, resolve_output_path, var_name, var_name_from_path,
    with_extension,
};
use crate::plutil::run::{extract_target, extracted, lint_lines, lint_report};
use crate::plutil::show::{
    format_raw, key_list, kind_label, lines_of, pretty_print, raw_scalar, shown, text_sorted,
    type_label,
};
use crate::text::{chars_of, string_between, text_is, trim, trim_bounds};
use crate::value::{model, Dictionary, Node, Value};

verus! {

/// How the reals and dates among some pieces are written out.
#[derive(Clone, Copy, PartialEq, Eq, Structural)]
pub enum Style {
    /// As JSON numbers.
    Json,
    /// As Swift source: reals as `%.6f`, dates as seconds since 2001.
    Swift,
    /// As Objective-C source: reals as `%.6f`.
    Objc,
    /// As `-extract ... raw` prints them: reals as `%.6f`, dates in RFC 3339.
    Raw,
    /// As `-p` shows them.
    Shown,
}

/// One thing to write for a file.
pub enum Output {
    /// These pieces, at the path (`-` is standard output), in the style,
    /// followed by a newline where the flag is set.
    Pieces(String, Vec<Piece>, Style, bool),
    /// The value as an XML property list, at the path.
    Xml(String, Value),
    /// The value as a binary property list, at the path.
    Binary(String, Value),
}

/// The mathematical form of an `Output`.
pub enum Written {
    Pieces(Seq<char>, Seq<Out>, Style, bool),
    Xml(Seq<char>, Node),
    Binary(Seq<char>, Node),
}

impl View for Output {
    type V = Written;

    open spec fn view(&self) -> Written {
        match self {
            Output::Pieces(p, ps, s, nl) => Written::Pieces(p@, outs(ps@), *s, *nl),
            Output::Xml(p, v) => Written::Xml(p@, model(*v)),
            Output::Binary(p, v) => Written::Binary(p@, model(*v)),
        }
    }
}

pub open spec fn writes(v: Seq<Output>) -> Seq<Written> {
    Seq::new(v.len(), |i: int| v[i]@)
}

/// What writing a value at `path` in `format` amounts to: a property list
/// for XML and binary; JSON (readable with `-r`), refused where JSON cannot
/// hold the value; Swift source naming `source`.  Objective-C and raw
/// output are made elsewhere and refused here.
pub open spec fn written(
    n: Node,
    path: Seq<char>,
    format: Format,
    readable: bool,
    source: Seq<char>,
) -> Result<Seq<Written>, Seq<char>> {
    match format {
        Format::Xml1 => Ok(seq![Written::Xml(path, n)]),
        Format::Binary1 => Ok(seq![Written::Binary(path, n)]),
        Format::Json => if json_invalid(n) {
            Err("Invalid object in plist for JSON format"@)
        } else {
            Ok(
                seq![
                    Written::Pieces(
                        path,
                        if readable {
                            json_readable(n, Seq::empty())
                        } else {
                            json_compact(n)
                        },
                        Style::Json,
                        false,
                    ),
                ],
            )
        },
        Format::Swift => Ok(seq![Written::Pieces(path, swift_source(n, source), Style::Swift, false)]),
        Format::Objc => Err("use process_file for objc format"@),
        Format::Raw => Err("raw format is only valid for -extract"@),
    }
}

/// The views of a result of outputs.
pub open spec fn result_view(r: Result<Vec<Output>, String>) -> Result<Seq<Written>, Seq<char>> {
    match r {
        Ok(v) => Ok(writes(v@)),
        Err(m) => Err(m@),
    }
}

fn one(o: Output) -> (r: Vec<Output>)
    ensures
        writes(r@) == seq![o@],
{
    let mut v: Vec<Output> = Vec::new();
    v.push(o);
    assert(writes(v@) =~= seq![o@]);
    v
}

/// What writing `value` at `path` in `format` amounts to (see `written`).
pub fn write_value_as_format(
    value: Value,
    path: &str,
    format: &Format,
    readable: bool,
    source_name: &str,
) -> (r: Result<Vec<Output>, String>)
    ensures
        result_view(r) == written(model(value), path@, *format, readable, source_name@),
{
    let p = String::from_str(path);
    match format {
        Format::Xml1 => Ok(one(Output::Xml(p, value))),
        Format::Binary1 => Ok(one(Output::Binary(p, value))),
        Format::Json => {
            if is_json_invalid(&value) {
                return Err(String::from_str("Invalid object in plist for JSON format"));
            }
            let pieces = if readable {
                let q = value_to_json_readable(&value, 0);
                assert(spaces(0) =~= Seq::<char>::empty());
                q
            } else {
                value_to_json_compact(&value)
            };
            Ok(one(Output::Pieces(p, pieces, Style::Json, false)))
        },
        Format::Swift => Ok(
            one(Output::Pieces(p, value_to_swift(&value, source_name), Style::Swift, false)),
        ),
        Format::Objc => Err(String::from_str("use process_file for objc format")),
        Format::Raw => Err(String::from_str("raw format is only valid for -extract")),
    }
}

/// What `-convert` writes for a value read from `file_arg`, at `out`: for
/// Objective-C, refused where a value has no literal, else the source on
/// standard output, or a header and a source file next to `out` with
/// `-header`, or the source at `out`; other formats as `written` says.
pub open spec fn converted(
    n: Node,
    file_arg: Seq<char>,
    out: Seq<char>,
    format: Format,
    readable: bool,
    header: bool,
) -> Result<Seq<Written>, Seq<char>> {
    if format is Objc {
        if json_invalid_nested(n) {
            Err("Input contains an object that cannot be represented in Obj-C literal syntax"@)
        } else if out == "-"@ {
            Ok(seq![Written::Pieces(out, objc_source(n, file_arg, false), Style::Objc, false)])
        } else if header {
            Ok(
                seq![
                    Written::Pieces(
                        with_extension(out, "h"@),
                        seq![Out::Text(objc_header(n, file_arg, var_name(file_arg)))],
                        Style::Objc,
                        false,
                    ),
                    Written::Pieces(
                        with_extension(out, "m"@),
                        objc_source(n, file_arg, true),
                        Style::Objc,
                        false,
                    ),
                ],
            )
        } else {
            Ok(seq![Written::Pieces(out, objc_source(n, file_arg, false), Style::Objc, false)])
        }
    } else {
        written(n, out, format, readable, file_arg)
    }
}

/// Whether `ps` is what `-extract ... raw` prints for `n`: a dictionary's
/// keys one per line in the order of `str`, else `raw_scalar`.
pub open spec fn raw_written(n: Node, ps: Seq<Out>) -> bool {
    match n {
        Node::Dict(es) => exists|ks: Seq<Seq<char>>|
            #![trigger text_sorted(key_list(es), ks)]
            text_sorted(key_list(es), ks) && ps == seq![Out::Text(lines_of(ks))],
        _ => ps == raw_scalar(n),
    }
}

/// A changed property list written back as XML at `out`, or the refusal.
pub open spec fn then_xml(r: Result<Node, Seq<char>>, out: Seq<char>) -> Result<
    Seq<Written>,
    Seq<char>,
> {
    match r {
        Ok(n) => Ok(seq![Written::Xml(out, n)]),
        Err(m) => Err(m),
    }
}

pub open spec fn made_view(made: Option<Value>) -> Option<Node> {
    match made {
        Some(v) => Some(model(v)),
        None => None,
    }
}

/// Whether `r` is what plutil writes for the file `file_arg`, whose
/// property list is `root`, under `opts`; `made` is the value that
/// `-insert`/`-replace` put in.  Results go where `output_path` says, but
/// `-p` and `-type`, which print, and `-create`, which writes the file.
pub open spec fn file_outputs_ok(
    opts: Options,
    root: Node,
    file_arg: Seq<char>,
    made: Option<Node>,
    r: Result<Seq<Written>, Seq<char>>,
) -> bool {
    let out = output_path(file_arg, opt_view(opts.output_path), opt_view(opts.extension));
    match opts.command@ {
        Cmd::Print => r == Ok::<Seq<Written>, Seq<char>>(
            seq![
                Written::Pieces(
                    "-"@,
                    shown(root, Seq::empty()) + seq![Out::Text("\n"@)],
                    Style::Shown,
                    false,
                ),
            ],
        ),
        Cmd::Convert { format } => r == converted(
            root,
            file_arg,
            out,
            format,
            opts.readable,
            opts.header,
        ),
        Cmd::Extract { keypath, format, expect } => match extracted(root, keypath, expect) {
            Err(m) => r == Err::<Seq<Written>, Seq<char>>(m),
            Ok(v) => if format is Raw {
                &&& r is Ok
                &&& r->Ok_0.len() == 1
                &&& r->Ok_0[0] matches Written::Pieces(p, ps, st, nl) && p == out && st
                    == Style::Raw && nl == (out == "-"@ && !opts.no_newline) && raw_written(v, ps)
            } else if format is Json && json_invalid(v) {
                r == Err::<Seq<Written>, Seq<char>>("Invalid object in plist for JSON format"@)
            } else {
                r == written(v, out, format, opts.readable, file_arg)
            },
        },
        Cmd::Type { keypath, expect } => match extracted(root, keypath, expect) {
            Err(m) => r == Err::<Seq<Written>, Seq<char>>(m),
            Ok(v) => r == Ok::<Seq<Written>, Seq<char>>(
                seq![Written::Pieces("-"@, seq![Out::Text(kind_label(v))], Style::Raw, true)],
            ),
        },
        Cmd::Insert { keypath, append, .. } => made matches Some(x) && r == then_xml(
            inserted(root, keypath, x, append),
            out,
        ),
        Cmd::Replace { keypath, .. } => made matches Some(x) && r == then_xml(
            replaced(root, keypath, x),
            out,
        ),
        Cmd::Remove { keypath } => r == then_xml(removed(root, keypath), out),
        Cmd::Create { format } => r == written(
            Node::Dict(Seq::empty()),
            file_arg,
            format,
            opts.readable,
            file_arg,
        ),
        Cmd::Help | Cmd::Lint => false,
    }
}

/// Whether plutil works out the output path for a file whose property
/// list is `root` (which `-o` or the file and `-e` give): `-convert`
/// always, `-extract` once the value is found, and the edits once they
/// are made.
pub open spec fn uses_output_path(opts: Options, root: Node, made: Option<Node>) -> bool {
    match opts.command@ {
        Cmd::Convert { .. } => true,
        Cmd::Extract { keypath, expect, .. } => extracted(root, keypath, expect) is Ok,
        Cmd::Insert { keypath, append, .. } => made matches Some(x) && inserted(
            root,
            keypath,
            x,
            append,
        ) is Ok,
        Cmd::Replace { keypath, .. } => made matches Some(x) && replaced(root, keypath, x) is Ok,
        Cmd::Remove { keypath } => removed(root, keypath) is Ok,
        _ => false,
    }
}

/// Whether plutil reaches an output path it cannot work out (an `-e`
/// extension with a path separator, which `Path::with_extension` refuses
/// by panicking) for a file whose property list is `input` (see
/// `uses_output_path`).
pub fn output_path_refused(input: &Value, opts: &Options, made: &Option<Value>) -> (b: bool)
    ensures
        b == (uses_output_path(*opts, model(*input), made_view(*made)) && !output_path_ok(
            opt_view(opts.output_path),
            opt_view(opts.extension),
        )),
{
    if output_path_allowed(opts) {
        return false;
    }
    match &opts.command {
        Command::Convert { .. } => true,
        Command::Extract { keypath, expect, .. } => {
            match extract_target(input, keypath.as_str(), expect) {
                Ok(_) => true,
                Err(_) => false,
            }
        },
        Command::Insert { keypath, append, .. } => match made {
            Some(x) => {
                let mut v = input.duplicate();
                match insert_at_keypath(&mut v, keypath.as_str(), x.duplicate(), *append) {
                    Ok(()) => true,
                    Err(_) => false,
                }
            },
            None => false,
        },
        Command::Replace { keypath, .. } => match made {
            Some(x) => {
                let mut v = input.duplicate();
                match replace_at_keypath(&mut v, keypath.as_str(), x.duplicate()) {
                    Ok(()) => true,
                    Err(_) => false,
                }
            },
            None => false,
        },
        Command::Remove { keypath } => {
            let mut v = input.duplicate();
            match remove_at_keypath(&mut v, keypath.as_str()) {
                Ok(()) => true,
                Err(_) => false,
            }
        },
        _ => false,
    }
}

/// What `-convert` writes (see `converted`).
fn convert_outputs(
    value: Value,
    file_arg: &str,
    out: String,
    format: &Format,
    readable: bool,
    header: bool,
) -> (r: Result<Vec<Output>, String>)
    ensures
        result_view(r) == converted(model(value), file_arg@, out@, *format, readable, header),
{
    match format {
        Format::Objc => {
            if value_contains_objc_invalid(&value) {
                return Err(
                    String::from_str(
                        "Input contains an object that cannot be represented in Obj-C literal syntax",
                    ),
                );
            }
            if text_is(out.as_str(), "-") {
                Ok(one(Output::Pieces(out, value_to_objc(&value, file_arg, false), Style::Objc, false)))
            } else if header {
                let var = var_name_from_path(file_arg);
                let h = value_to_objc_header(&value, file_arg, var.as_str());
                let ghost hv = h@;
                let mut hp: Vec<Piece> = Vec::new();
                hp.push(Piece::Text(h));
                assert(outs(hp@) =~= seq![Out::Text(hv)]);
                proof {
                    reveal_strlit("h");
                    reveal_strlit("m");
                }
                let first = Output::Pieces(path_with_extension(out.as_str(), "h"), hp, Style::Objc, false);
                let second = Output::Pieces(
                    path_with_extension(out.as_str(), "m"),
                    value_to_objc(&value, file_arg, true),
                    Style::Objc,
                    false,
                );
                let ghost (a, b) = (first@, second@);
                let mut v: Vec<Output> = Vec::new();
                v.push(first);
                v.push(second);
                assert(writes(v@) =~= seq![a, b]);
                Ok(v)
            } else {
                Ok(one(Output::Pieces(out, value_to_objc(&value, file_arg, false), Style::Objc, false)))
            }
        },
        _ => write_value_as_format(value, out.as_str(), format, readable, file_arg),
    }
}

/// What plutil writes for one file whose property list it has read as
/// `input` (see `file_outputs_ok`); `made` is the value `-insert` or
/// `-replace` puts in.  `-lint`, which only reads, is not handled here, nor
/// an output path that cannot be worked out (see `output_path_refused`).
pub fn process_file(input: Value, file_arg: &str, opts: &Options, made: Option<Value>) -> (r: Result<
    Vec<Output>,
    String,
>)
    requires
        !(opts.command is Help),
        !(opts.command is Lint),
        (opts.command is Insert || opts.command is Replace) ==> made is Some,
        uses_output_path(*opts, model(input), made_view(made)) ==> output_path_ok(
            opt_view(opts.output_path),
            opt_view(opts.extension),
        ),
    ensures
        file_outputs_ok(*opts, model(input), file_arg@, made_view(made), result_view(r)),
{
    match &opts.command {
        Command::Help | Command::Lint => Err(String::new()),
        Command::Print => {
            let pieces = pretty_print(&input);
            Ok(one(Output::Pieces(String::from_str("-"), pieces, Style::Shown, false)))
        },
        Command::Convert { format } => {
            let out = resolve_output_path(file_arg, opts);
            convert_outputs(input, file_arg, out, format, opts.readable, opts.header)
        },
        Command::Extract { keypath, format, expect } => {
            match extract_target(&input, keypath.as_str(), expect) {
                Err(m) => Err(m),
                Ok(t) => {
                    let out = resolve_output_path(file_arg, opts);
                    match format {
                        Format::Raw => {
                            let nl = text_is(out.as_str(), "-") && !opts.no_newline;
                            let pieces = format_raw(t);
                            Ok(one(Output::Pieces(out, pieces, Style::Raw, nl)))
                        },
                        Format::Json => {
                            if is_json_invalid(t) {
                                Err(String::from_str("Invalid object in plist for JSON format"))
                            } else {
                                write_value_as_format(t.duplicate(), out.as_str(), format, opts.readable, file_arg)
                            }
                        },
                        _ => write_value_as_format(
                            t.duplicate(),
                            out.as_str(),
                            format,
                            opts.readable,
                            file_arg,
                        ),
                    }
                },
            }
        },
        Command::Type { keypath, expect } => {
            match extract_target(&input, keypath.as_str(), expect) {
                Err(m) => Err(m),
                Ok(t) => {
                    let label = String::from_str(type_label(t));
                    let ghost lv = label@;
                    let mut ps: Vec<Piece> = Vec::new();
                    ps.push(Piece::Text(label));
                    assert(outs(ps@) =~= seq![Out::Text(lv)]);
                    Ok(one(Output::Pieces(String::from_str("-"), ps, Style::Raw, true)))
                },
            }
        },
        Command::Insert { keypath, append, .. } => {
            let mut v = input;
            let x = match made {
                Some(x) => x,
                None => return Err(String::new()),
            };
            match insert_at_keypath(&mut v, keypath.as_str(), x, *append) {
                Err(m) => Err(m),
                Ok(()) => Ok(one(Output::Xml(resolve_output_path(file_arg, opts), v))),
            }
        },
        Command::Replace { keypath, .. } => {
            let mut v = input;
            let x = match made {
                Some(x) => x,
                None => return Err(String::new()),
            };
            match replace_at_keypath(&mut v, keypath.as_str(), x) {
                Err(m) => Err(m),
                Ok(()) => Ok(one(Output::Xml(resolve_output_path(file_arg, opts), v))),
            }
        },
        Command::Remove { keypath } => {
            let mut v = input;
            match remove_at_keypath(&mut v, keypath.as_str()) {
                Err(m) => Err(m),
                Ok(()) => Ok(one(Output::Xml(resolve_output_path(file_arg, opts), v))),
            }
        },
        Command::Create { format } => {
            let empty = Value::Dictionary(Dictionary::new());
            write_value_as_format(empty, file_arg, format, opts.readable, file_arg)
        },
    }
}

/// What a file that the property-list reader refused is read as.
pub enum Fallback {
    /// Blank: an empty dictionary.
    Empty,
    /// This JSON text, to be read as JSON; should that fail too, the
    /// reader's refusal stands.
    Json(String),
    /// Nothing: the reader's refusal stands.
    Refused,
}

/// What a refused file with the text `text` is read as: blank (but for
/// whitespace), an empty dictionary; trimmed text that opens with `{` or
/// `[`, JSON; else nothing.
pub fn read_fallback(text: &str) -> (r: Fallback)
    ensures
        trim(text@).len() == 0 ==> r is Empty,
        trim(text@).len() > 0 && (trim(text@)[0] == '{' || trim(text@)[0] == '[') ==> (r matches Fallback::Json(t) && t@ == trim(text@)),
        trim(text@).len() > 0 && !(trim(text@)[0] == '{' || trim(text@)[0] == '[') ==> r is Refused,
{
    let v = chars_of(text);
    assert(v@.subrange(0, v@.len() as int) =~= v@);
    let (a, b) = trim_bounds(v.as_slice(), 0, v.len());
    if a == b {
        Fallback::Empty
    } else if v[a] == '{' || v[a] == '[' {
        Fallback::Json(string_between(v.as_slice(), a, b))
    } else {
        Fallback::Refused
    }
}

/// Bytes that are nothing but newlines and spaces (or nothing at all).
pub open spec fn blank_bytes(b: Seq<u8>) -> bool {
    forall|i: int| 0 <= i < b.len() ==> b[i] == 10 || b[i] == 32
}

/// Whether `-lint` takes a file's bytes as blank (see `blank_bytes`).
pub fn blank_for_lint(content: &[u8]) -> (b: bool)
    ensures
        b == blank_bytes(content@),
{
    let n = content.len();
    let mut i: usize = 0;
    while i < n
        invariant
            n == content@.len(),
            i <= n,
            forall|j: int| 0 <= j < i ==> content@[j] == 10 || content@[j] == 32,
        decreases n - i,
    {
        if content[i] != 10 && content[i] != 32 {
            return false;
        }
        i += 1;
    }
    true
}

/// Whether `-lint` asks the property-list reader about a file: standard
/// input (`-`) always; a file that exists unless it is blank.  `content`
/// is the file's bytes, none where it does not exist.
pub open spec fn lint_asks_reader(file_arg: Seq<char>, content: Option<Seq<u8>>) -> bool {
    file_arg == "-"@ || (content matches Some(b) && !blank_bytes(b))
}

/// What `-lint` finds of a file: standard input as the reader found it; a
/// file that does not exist is reported missing; a blank file is fine (an
/// empty dictionary); any other as the reader found it.
pub open spec fn lint_outcome(
    file_arg: Seq<char>,
    content: Option<Seq<u8>>,
    reader: Result<(), Seq<char>>,
) -> Result<(), Seq<char>> {
    if file_arg == "-"@ {
        reader
    } else {
        match content {
            None => Err(missing_message(file_arg)),
            Some(b) => if blank_bytes(b) {
                Ok(())
            } else {
                reader
            },
        }
    }
}

pub open spec fn bytes_view(o: Option<Vec<u8>>) -> Option<Seq<u8>> {
    match o {
        Some(b) => Some(b@),
        None => None,
    }
}

pub open spec fn unit_result_view(r: Result<(), String>) -> Result<(), Seq<char>> {
    match r {
        Ok(_) => Ok(()),
        Err(m) => Err(m@),
    }
}

/// Whether `-lint` asks the property-list reader (see `lint_asks_reader`).
pub fn lint_asks(file_arg: &str, content: &Option<Vec<u8>>) -> (b: bool)
    ensures
        b == lint_asks_reader(file_arg@, bytes_view(*content)),
{
    if text_is(file_arg, "-") {
        return true;
    }
    match content {
        None => false,
        Some(c) => !blank_for_lint(c.as_slice()),
    }
}

/// What `-lint` finds of a file (see `lint_outcome`); `reader` is what the
/// property-list reader said where it was asked.
pub fn lint_outcome_of(file_arg: &str, content: &Option<Vec<u8>>, reader: &Result<(), String>) -> (r:
    Result<(), String>)
    ensures
        unit_result_view(r) == lint_outcome(file_arg@, bytes_view(*content), unit_result_view(*reader)),
{
    let from_reader = match reader {
        Ok(()) => Ok(()),
        Err(m) => Err(m.clone()),
    };
    if text_is(file_arg, "-") {
        return from_reader;
    }
    match content {
        None => Err(missing_file_message(file_arg)),
        Some(c) => if blank_for_lint(c.as_slice()) {
            Ok(())
        } else {
            from_reader
        },
    }
}

/// What `-lint` reports for one file under `opts`: the line for standard
/// output, the line for standard error, and whether the file failed.
/// `content` is the file's bytes (none where it does not exist; for `-`,
/// what standard input held) and `reader` what the property-list reader
/// said where `lint_asks_reader` has it asked.
pub open spec fn lint_reported(
    file_arg: Seq<char>,
    opts: Options,
    content: Option<Seq<u8>>,
    reader: Result<(), Seq<char>>,
) -> (Option<Seq<char>>, Option<Seq<char>>, bool) {
    let o = lint_outcome(file_arg, content, reader);
    let (out, err) = lint_lines(file_arg, o, opts.silent);
    (out, err, o is Err)
}

/// What `-lint` reports for one file (see `lint_reported`).
pub fn lint_file(
    file_arg: &str,
    opts: &Options,
    content: &Option<Vec<u8>>,
    reader: &Result<(), String>,
) -> (r: (Option<String>, Option<String>, bool))
    ensures
        (opt_view(r.0), opt_view(r.1), r.2) == lint_reported(
            file_arg@,
            *opts,
            bytes_view(*content),
            unit_result_view(*reader),
        ),
{
    let outcome = lint_outcome_of(file_arg, content, reader);
    let failed = match &outcome {
        Ok(()) => false,
        Err(_) => true,
    };
    let (out, err) = lint_report(file_arg, &outcome, opts.silent);
    (out, err, failed)
}

/// A blank file (nothing but newlines and spaces, or nothing) other than
/// standard input lints fine: without `-s`, `-lint` prints `<file>: OK`,
/// nothing on standard error, and the file does not fail, whatever the
/// reader would have said of it.
pub proof fn law_lint_blank_ok(
    file_arg: Seq<char>,
    opts: Options,
    b: Seq<u8>,
    reader: Result<(), Seq<char>>,
)
    requires
        file_arg != "-"@,
        blank_bytes(b),
        !opts.silent,
    ensures
        lint_reported(file_arg, opts, Some(b), reader) == (
            Some(file_arg + ": OK"@),
            None::<Seq<char>>,
            false,
        ),
{
}

/// The message for a file that does not exist, naming it by its last
/// component (the whole argument where it has none).
pub open spec fn missing_message(file_arg: Seq<char>) -> Seq<char> {
    let name = match name_of(file_arg) {
        Some(s) => s,
        None => file_arg,
    };
    "(The file \u{201c}"@ + name + "\u{201d} couldn\u{2019}t be opened because there is no such file.)"@
}

/// The message for a file that does not exist (see `missing_message`).
pub fn missing_file_message(file_arg: &str) -> (r: String)
    ensures
        r@ == missing_message(file_arg@),
{
    let name = match file_name(file_arg) {
        Some(s) => s,
        None => String::from_str(file_arg),
    };
    let mut r = String::from_str("(The file \u{201c}");
    r.append(name.as_str());
    r.append("\u{201d} couldn\u{2019}t be opened because there is no such file.)");
    r
}

} // verus!
