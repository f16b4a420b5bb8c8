use vstd::prelude::*;
use vstd::string::*;
use crate::plutil::args::{opt_view, parse_args, scan_opts, opts_start, options_view, finished_opts, Command, Opts, Options};
use crate::plutil::keypath::{keypath_parts, resolve_keypath};
use crate::plutil::show::{check_type, kind_label};
use crate::text::{cat2, cat3, starts_with_char, text_is, views};
use crate::tree::get_at;
use crate::value::{model, Node, Value};

verus! {

/// The guide that `-help` prints.
pub const HELP_TEXT: &'static str = "plutil: [command_option] [other_options] file...
The file '-' means stdin
Running in Swift mode
Command options are (-lint is the default):
 -help                         show this message and exit
 -lint                         check the property list files for syntax errors
 -convert fmt                  rewrite property list files in format
                               fmt is one of: xml1 binary1 json swift objc
                               note: objc can additionally create a header by adding -header
 -insert keypath -type value   insert a value into the property list before writing it out
                               keypath is a key-value coding key path, with one extension:
                               a numerical path component applied to an array will act on the object at that index in the array
                               or insert it into the array if the numerical path component is the last one in the key path
                               type is one of: bool, integer, float, date, string, data, xml, json
                               -bool: YES if passed \"YES\" or \"true\", otherwise NO
                               -integer: any valid 64 bit integer
                               -float: any valid 64 bit float
                               -string: UTF8 encoded string
                               -date: a date in XML property list format, not supported if outputting JSON
                               -data: a base-64 encoded string
                               -xml: an XML property list, useful for inserting compound values
                               -json: a JSON fragment, useful for inserting compound values
                               -dictionary: inserts an empty dictionary, does not use value
                               -array: inserts an empty array, does not use value
                              \x20
                               optionally, -append may be specified if the keypath references an array to append to the
                               end of the array
                               value YES, NO, a number, a date, or a base-64 encoded blob of data
 -replace keypath -type value  same as -insert, but it will overwrite an existing value
 -remove keypath               removes the value at 'keypath' from the property list before writing it out
 -extract keypath fmt          outputs the value at 'keypath' in the property list as a new plist of type 'fmt'
                               fmt is one of: xml1 binary1 json raw
                               an additional \"-expect type\" option can be provided to test that
                               the value at the specified keypath is of the specified \"type\", which
                               can be one of: bool, integer, float, string, date, data, dictionary, array
                              \x20
                               when fmt is raw:\x20
                                   the following is printed to stdout for each value type:
                                       bool: the string \"true\" or \"false\"
                                       integer: the numeric value
                                       float: the numeric value
                                       string: as UTF8-encoded string
                                       date: as RFC3339-encoded string in UTC timezone
                                       data: as base64-encoded string
                                       dictionary: each key on a new line
                                       array: the count of items in the array
                                   by default, the output is to stdout unless -o is specified
 -type keypath                 outputs the type of the value at 'keypath' in the property list
                               can be one of: bool, integer, float, string, date, data, dictionary, array
 -create fmt                   creates an empty plist of the specified format
                               file may be '-' for stdout
 -p                            print property list in a human-readable fashion
                               (not for machine parsing! this 'format' is not stable)
There are some additional optional arguments that apply to the -convert, -insert, -remove, -replace, and -extract verbs:
 -s                            be silent on success
 -o path                       specify alternate file path name for result;
                               the -o option is used with -convert, and is only
                               useful with one file argument (last file overwrites);
                               the path '-' means stdout
 -e extension                  specify alternate extension for converted files
 -r                            if writing JSON, output in human-readable form
 -n                            prevent printing a terminating newline if it is not part of the format, such as with raw
 --                            specifies that all further arguments are file names";

/// What a plutil command line asks for before any file is read.
pub enum Launch {
    /// The command line is refused with this message (exit status 1).
    Refused(String),
    /// `-help`: print the guide (exit status 0).
    Help,
    /// No file was named: print `No files specified.` (exit status 1).
    NoFiles,
    /// Process each named file.
    Run(Options),
}

/// Reads a plutil command line and decides how to begin.
pub fn launch(args: &[String]) -> (r: Launch)
    ensures
        match scan_opts(views(args@), 0, opts_start()) {
            Err(m) => r matches Launch::Refused(x) && x@ == m,
            Ok(o) => {
                let f = finished_opts(o);
                if f.command == Some(crate::plutil::args::Cmd::Help) {
                    r is Help
                } else if f.files.len() == 0 {
                    r is NoFiles
                } else {
                    r matches Launch::Run(x) && options_view(x) == Opts { end_of_options: false, ..f }
                }
            },
        },
{
    match parse_args(args) {
        Err(m) => Launch::Refused(m),
        Ok(o) => {
            if matches!(o.command, Command::Help) {
                Launch::Help
            } else if o.files.len() == 0 {
                Launch::NoFiles
            } else {
                Launch::Run(o)
            }
        },
    }
}

/// The name a file is reported under: `<stdin>` for `-`.
pub open spec fn report_name(file_arg: Seq<char>) -> Seq<char> {
    if file_arg == "-"@ {
        "<stdin>"@
    } else {
        file_arg
    }
}

/// What `-lint` reports for a file: on success `<name>: OK` on standard
/// output (nothing with `-s`); on failure `<name>: (<message>)` on standard
/// error, without the added parentheses where the message has its own.
pub open spec fn lint_lines(file_arg: Seq<char>, outcome: Result<(), Seq<char>>, silent: bool) -> (
    Option<Seq<char>>,
    Option<Seq<char>>,
) {
    let name = report_name(file_arg);
    match outcome {
        Ok(_) => (
            if silent {
                None
            } else {
                Some(name + ": OK"@)
            },
            None,
        ),
        Err(m) => (
            None,
            Some(
                if m.len() > 0 && m[0] == '(' {
                    name + ": "@ + m
                } else {
                    name + ": ("@ + m + ")"@
                },
            ),
        ),
    }
}

/// The lines `-lint` reports for a file (see `lint_lines`): the line for
/// standard output and the line for standard error.
pub fn lint_report(file_arg: &str, outcome: &Result<(), String>, silent: bool) -> (r: (
    Option<String>,
    Option<String>,
))
    ensures
        ({
            let o = match outcome {
                Ok(_) => Ok::<(), Seq<char>>(()),
                Err(m) => Err(m@),
            };
            let (a, b) = lint_lines(file_arg@, o, silent);
            &&& r.0 matches Some(x) ==> a == Some(x@)
            &&& r.0 is None ==> a is None
            &&& r.1 matches Some(x) ==> b == Some(x@)
            &&& r.1 is None ==> b is None
        }),
{
    let name = if text_is(file_arg, "-") {
        String::from_str("<stdin>")
    } else {
        String::from_str(file_arg)
    };
    match outcome {
        Ok(_) => {
            if silent {
                (None, None)
            } else {
                (Some(cat2(name.as_str(), ": OK")), None)
            }
        },
        Err(m) => {
            if starts_with_char(m.as_str(), '(') {
                (None, Some(cat3(name.as_str(), ": ", m.as_str())))
            } else {
                let mut line = cat2(name.as_str(), ": (");
                line.append(m.as_str());
                line.append(")");
                (None, Some(line))
            }
        },
    }
}

/// The message for a key path that leads nowhere.
pub open spec fn no_value_message(keypath: Seq<char>) -> Seq<char> {
    "Could not extract value, error: No value at that key path or invalid key path: "@ + keypath
}

/// The value that `-extract`/`-type` look at: the one the key path leads
/// to, which must be of the kind `expect` names where it names one.
pub open spec fn extracted(root: Node, keypath: Seq<char>, expect: Option<Seq<char>>) -> Result<
    Node,
    Seq<char>,
> {
    if keypath.len() > 0 && get_at(root, keypath_parts(keypath)) is Some {
        let v = get_at(root, keypath_parts(keypath))->Some_0;
        match expect {
            Some(t) => if kind_label(v) != t {
                Err("Value at ["@ + keypath + "] expected to be "@ + t + " but is "@ + kind_label(v))
            } else {
                Ok(v)
            },
            None => Ok(v),
        }
    } else {
        Err(no_value_message(keypath))
    }
}

/// The value that `-extract`/`-type` look at (see `extracted`).
pub fn extract_target<'a>(root: &'a Value, keypath: &str, expect: &Option<String>) -> (r: Result<
    &'a Value,
    String,
>)
    ensures
        match extracted(model(*root), keypath@, opt_view(*expect)) {
            Ok(v) => r is Ok && model(*r->Ok_0) == v,
            Err(m) => r is Err && r->Err_0@ == m,
        },
{
    let target = match resolve_keypath(root, keypath) {
        Some(v) => v,
        None => {
            return Err(
                cat2(
                    "Could not extract value, error: No value at that key path or invalid key path: ",
                    keypath,
                ),
            );
        },
    };
    if let Some(t) = expect {
        if let Err(m) = check_type(target, t.as_str(), keypath) {
            assert(kind_label(model(*target)) != t@);
            return Err(m);
        }
    }
    Ok(target)
}

} // verus!
