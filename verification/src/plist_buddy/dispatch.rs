use vstd::prelude::*;
use vstd::string::*;
use crate::plist_buddy::commands::{
    add_effect, clear_effect, cmd_add, cmd_clear, cmd_copy, cmd_delete, cmd_set, copy_effect,
    delete_effect, import_blocked, import_request, merge_request, no_entry, set_effect,
};
use crate::plist_buddy::render::{print_value, render};
use crate::output::{outs, Out, Piece};
use crate::plist_buddy::session::{
    performs, CommandResult, ConversionModel, Conversion, PlistState, Reading, Res,
};
use crate::plist_buddy::tokens::{
    after_token, entry_path, first_word, next_token, parse_entry_path, split_first_word, strip_quotes,
    token_of, unquote,
};
use crate::num::parse_i64;
use crate::text::{chars_of, count_trail_ws, lower_text, text_is, to_lower, trim_end, is_ws};
use crate::tree::{get_at, resolve_entry};
use crate::value::{model, Node, Value};

verus! {

/// The guide that `Help` and `-h` print.
pub const HELP_TEXT: &'static str = "Command Format:
    Help - Prints this information
    Exit - Exits the program, changes are not saved to the file
    Save - Saves the current changes to the file
    Revert - Reloads the last saved version of the file
    Clear [<Type>] - Clears out all existing entries, and creates root of Type
    Print [<Entry>] - Prints value of Entry.  Otherwise, prints file
    Set <Entry> <Value> - Sets the value at Entry to Value
    Add <Entry> <Type> [<Value>] - Adds Entry to the plist, with value Value
    Copy <EntrySrc> <EntryDst> - Copies the EntrySrc property to EntryDst
    Delete <Entry> - Deletes Entry from the plist
    Merge <file.plist> [<Entry>] - Adds the contents of file.plist to Entry
    Import <Entry> <file> - Creates or sets Entry the contents of file

Entry Format:
    Entries consist of property key names delimited by colons.  Array items
    are specified by a zero-based integer index.  Examples:
        :CFBundleShortVersionString
        :CFBundleDocumentTypes:2:CFBundleTypeExtensions

Types:
    string
    array
    dict
    bool
    real
    integer
    date
    data

Examples:
    Set :CFBundleIdentifier com.apple.plistbuddy
        Sets the CFBundleIdentifier property to com.apple.plistbuddy
    Add :CFBundleGetInfoString string \"App version 1.0.1\"
        Adds the CFBundleGetInfoString property to the plist
    Add :CFBundleDocumentTypes: dict
        Adds a new item of type dict to the CFBundleDocumentTypes array
    Add :CFBundleDocumentTypes:0 dict
        Adds the new item to the beginning of the array
    Delete :CFBundleDocumentTypes:0 dict
        Deletes the FIRST item in the array
    Delete :CFBundleDocumentTypes
        Deletes the ENTIRE CFBundleDocumentTypes array
";

/// The usage summary.
pub const USAGE: &'static str = "Usage: PlistBuddy [-cxlh] <file.plist>
    -c \"<command>\" execute command, otherwise run in interactive mode
    -x output will be in the form of an xml plist where appropriate
    -l if the path to <file.plist> contains symbolic links, they will
       not be followed.
    -h print the complete help info, with command guide
";


/// What a command asks of its caller once the library has done its part.
pub enum Step {
    /// The command is over.
    Finished(CommandResult),
    /// Write this value to standard output as an XML plist; the command succeeds.
    PrintXml(Value),
    /// Read the plist `file`, then `merge_apply` it at `entry` (or report
    /// `merge_read_failed`).
    ReadMerge { file: String, entry: String },
    /// Read the bytes of `file`, then `import_apply` them at `entry` (or
    /// report `import_read_failed`).
    ReadImport { entry: String, file: String },
}

pub enum CommandKind {
    Help,
    Exit,
    Save,
    Revert,
    Clear,
    Print,
    SetEntry,
    Add,
    Copy,
    Delete,
    Merge,
    Import,
    Unknown,
}

/// The command a lowercased command word names.
pub open spec fn command_kind(lower: Seq<char>) -> CommandKind {
    if lower == "help"@ {
        CommandKind::Help
    } else if lower == "exit"@ {
        CommandKind::Exit
    } else if lower == "save"@ {
        CommandKind::Save
    } else if lower == "revert"@ {
        CommandKind::Revert
    } else if lower == "clear"@ {
        CommandKind::Clear
    } else if lower == "print"@ {
        CommandKind::Print
    } else if lower == "set"@ {
        CommandKind::SetEntry
    } else if lower == "add"@ {
        CommandKind::Add
    } else if lower == "copy"@ {
        CommandKind::Copy
    } else if lower == "delete"@ {
        CommandKind::Delete
    } else if lower == "merge"@ {
        CommandKind::Merge
    } else if lower == "import"@ {
        CommandKind::Import
    } else {
        CommandKind::Unknown
    }
}

pub fn kind_of(lower: &str) -> (k: CommandKind)
    ensures
        k == command_kind(lower@),
{
    if text_is(lower, "help") {
        CommandKind::Help
    } else if text_is(lower, "exit") {
        CommandKind::Exit
    } else if text_is(lower, "save") {
        CommandKind::Save
    } else if text_is(lower, "revert") {
        CommandKind::Revert
    } else if text_is(lower, "clear") {
        CommandKind::Clear
    } else if text_is(lower, "print") {
        CommandKind::Print
    } else if text_is(lower, "set") {
        CommandKind::SetEntry
    } else if text_is(lower, "add") {
        CommandKind::Add
    } else if text_is(lower, "copy") {
        CommandKind::Copy
    } else if text_is(lower, "delete") {
        CommandKind::Delete
    } else if text_is(lower, "merge") {
        CommandKind::Merge
    } else if text_is(lower, "import") {
        CommandKind::Import
    } else {
        CommandKind::Unknown
    }
}

/// The value `Print` shows, if its entry exists.
pub open spec fn printed(root: Node, args: Seq<char>) -> Option<Node> {
    let e = token_of(args).0;
    if e.len() == 0 {
        Some(root)
    } else {
        get_at(root, entry_path(e))
    }
}

/// `Print [<Entry>]`: shows an entry, or the whole plist.
pub fn cmd_print(state: &PlistState, args: &str, out: &mut Vec<Piece>) -> (r: Step)
    ensures
        match printed(model(state.root), args@) {
            None => final(out)@ == old(out)@ && r is Finished && r->Finished_0@ == Res::StderrError(
                no_entry("Print"@, token_of(args@).0),
            ),
            Some(n) => if state.xml_output {
                final(out)@ == old(out)@ && r is PrintXml && model(r->PrintXml_0) == n
            } else {
                outs(final(out)@) == outs(old(out)@) + render(n, Seq::empty()) && r is Finished
                    && r->Finished_0@ == Res::Success
            },
        },
{
    let (entry_tok, _) = next_token(args);
    let path = parse_entry_path(entry_tok.as_str());
    let value = if entry_tok.as_str().is_empty() {
        &state.root
    } else {
        match resolve_entry(&state.root, &path) {
            Ok(v) => v,
            Err(_) => {
                let msg = crate::plist_buddy::commands::no_entry_text("Print", entry_tok.as_str());
                return Step::Finished(CommandResult::StderrError(msg));
            },
        }
    };
    if state.xml_output {
        Step::PrintXml(value.duplicate())
    } else {
        proof {
            reveal_strlit("");
            assert(""@ =~= Seq::<char>::empty());
        }
        print_value(value, "", out);
        Step::Finished(CommandResult::Success)
    }
}


/// The command an input names and the rest of it, or none when the input
/// is empty or begins with whitespace.
pub open spec fn command_parts(input: Seq<char>) -> Option<(CommandKind, Seq<char>)> {
    let t = trim_end(input);
    if t.len() == 0 || is_ws(t[0]) {
        None
    } else {
        let (w, rest) = first_word(t);
        Some((command_kind(lower_text(w)), rest))
    }
}

/// The state and the output are as they were, the command over with
/// `result`.
pub open spec fn only_answers(
    pre: PlistState,
    post: PlistState,
    out_pre: Seq<Piece>,
    out_post: Seq<Piece>,
    r: Step,
    result: Res,
) -> bool {
    &&& r matches Step::Finished(c) && c@ == result
    &&& post == pre
    &&& out_post == out_pre
}

/// What executing the command line `input` does: the step it ends in, the
/// state after it and what it printed.  A line that is blank or begins with
/// whitespace, or whose first word (in any case) names no command, is
/// answered `Unrecognized Command` and changes nothing.
pub open spec fn executes(
    pre: PlistState,
    post: PlistState,
    out_pre: Seq<Piece>,
    out_post: Seq<Piece>,
    input: Seq<char>,
    reading: Reading,
    r: Step,
) -> bool {
    let root = model(pre.root);
    match command_parts(input) {
        None => only_answers(
            pre,
            post,
            out_pre,
            out_post,
            r,
            Res::StdoutError("Unrecognized Command"@),
        ),
        Some((k, rest)) => match k {
            CommandKind::Help => {
                &&& r matches Step::Finished(c) && c@ == Res::Success
                &&& post == pre
                &&& outs(out_post) == outs(out_pre) + seq![Out::Text(HELP_TEXT@ + "\n"@)]
            },
            CommandKind::Exit => only_answers(pre, post, out_pre, out_post, r, Res::Exit),
            CommandKind::Save => only_answers(pre, post, out_pre, out_post, r, Res::Save),
            CommandKind::Revert => only_answers(pre, post, out_pre, out_post, r, Res::Revert),
            CommandKind::Clear => r matches Step::Finished(c) && performs(
                pre,
                post,
                out_pre,
                out_post,
                c@,
                clear_effect(rest),
            ),
            CommandKind::Print => {
                &&& post == pre
                &&& match printed(root, rest) {
                    None => {
                        &&& out_post == out_pre
                        &&& r matches Step::Finished(c) && c@ == Res::StderrError(
                            no_entry("Print"@, token_of(rest).0),
                        )
                    },
                    Some(n) => if pre.xml_output {
                        &&& out_post == out_pre
                        &&& r matches Step::PrintXml(v) && model(v) == n
                    } else {
                        &&& outs(out_post) == outs(out_pre) + render(n, Seq::empty())
                        &&& r matches Step::Finished(c) && c@ == Res::Success
                    },
                }
            },
            CommandKind::SetEntry => r matches Step::Finished(c) && performs(
                pre,
                post,
                out_pre,
                out_post,
                c@,
                set_effect(root, rest, reading),
            ),
            CommandKind::Add => r matches Step::Finished(c) && performs(
                pre,
                post,
                out_pre,
                out_post,
                c@,
                add_effect(root, rest, reading),
            ),
            CommandKind::Copy => r matches Step::Finished(c) && performs(
                pre,
                post,
                out_pre,
                out_post,
                c@,
                copy_effect(root, rest),
            ),
            CommandKind::Delete => r matches Step::Finished(c) && performs(
                pre,
                post,
                out_pre,
                out_post,
                c@,
                delete_effect(root, rest),
            ),
            CommandKind::Merge => {
                &&& r matches Step::ReadMerge { file, entry } && file@ == token_of(rest).0 && entry@
                    == token_of(token_of(rest).1).0
                &&& post == pre
                &&& out_post == out_pre
            },
            CommandKind::Import => if import_blocked(root, rest) {
                only_answers(
                    pre,
                    post,
                    out_pre,
                    out_post,
                    r,
                    Res::StderrError("Import: Specified Entry Must Not Be a Container"@),
                )
            } else {
                &&& r matches Step::ReadImport { entry, file } && entry@ == token_of(rest).0 && file@
                    == token_of(token_of(rest).1).0
                &&& post == pre
                &&& out_post == out_pre
            },
            CommandKind::Unknown => only_answers(
                pre,
                post,
                out_pre,
                out_post,
                r,
                Res::StdoutError("Unrecognized Command"@),
            ),
        },
    }
}

/// Executes one command line.  `reading` is what the caller made of the
/// text that `conversion_needed` named, if any.
pub fn execute_command(state: &mut PlistState, input: &str, reading: &Reading, out: &mut Vec<
    Piece,
>) -> (r: Step)
    ensures
        executes(*old(state), *final(state), old(out)@, final(out)@, input@, *reading, r),
{
    let v = chars_of(input);
    let n = v.len();
    let k = count_trail_ws(v.as_slice(), 0, n);
    assert(v@.subrange(0, n as int) =~= v@);
    let e = n - k;
    if e == 0 || crate::text::is_whitespace(v[0]) {
        return Step::Finished(CommandResult::StdoutError(String::from_str("Unrecognized Command")));
    }
    let trimmed = input.substring_char(0, e);
    assert(trimmed@ =~= trim_end(input@));
    let (word, rest) = split_first_word(trimmed);
    let lower = to_lower(word);
    match kind_of(lower.as_str()) {
        CommandKind::Help => {
            let line = crate::text::cat2(HELP_TEXT, "\n");
            let ghost o0 = outs(out@);
            out.push(Piece::Text(line));
            assert(outs(out@) =~= o0 + seq![Out::Text(HELP_TEXT@ + "\n"@)]);
            Step::Finished(CommandResult::Success)
        },
        CommandKind::Exit => Step::Finished(CommandResult::Exit),
        CommandKind::Save => Step::Finished(CommandResult::Save),
        CommandKind::Revert => Step::Finished(CommandResult::Revert),
        CommandKind::Clear => Step::Finished(cmd_clear(state, rest, out)),
        CommandKind::Print => cmd_print(state, rest, out),
        CommandKind::SetEntry => Step::Finished(cmd_set(state, rest, reading, out)),
        CommandKind::Add => Step::Finished(cmd_add(state, rest, reading, out)),
        CommandKind::Copy => Step::Finished(cmd_copy(state, rest, out)),
        CommandKind::Delete => Step::Finished(cmd_delete(state, rest, out)),
        CommandKind::Merge => {
            let (file, entry) = merge_request(rest);
            Step::ReadMerge { file, entry }
        },
        CommandKind::Import => match import_request(state, rest) {
            Ok((entry, file)) => Step::ReadImport { entry, file },
            Err(res) => Step::Finished(res),
        },
        CommandKind::Unknown => Step::Finished(
            CommandResult::StdoutError(String::from_str("Unrecognized Command")),
        ),
    }
}


/// The command word and the rest of a command line, when it has one.
fn command_split(input: &str) -> (r: Option<(CommandKind, &str)>)
    ensures
        match command_parts(input@) {
            None => r is None,
            Some((k, rest)) => r is Some && (r->0).0 == k && (r->0).1@ == rest,
        },
{
    let v = chars_of(input);
    let n = v.len();
    let k = count_trail_ws(v.as_slice(), 0, n);
    assert(v@.subrange(0, n as int) =~= v@);
    let e = n - k;
    if e == 0 || crate::text::is_whitespace(v[0]) {
        return None;
    }
    let trimmed = input.substring_char(0, e);
    assert(trimmed@ =~= trim_end(input@));
    let (word, rest) = split_first_word(trimmed);
    let lower = to_lower(word);
    Some((kind_of(lower.as_str()), rest))
}

/// The text that executing this command line needs read as a real, an
/// integer through a real, or a date.
pub open spec fn conversion_for(root: Node, input: Seq<char>) -> Option<ConversionModel> {
    match command_parts(input) {
        Some((CommandKind::SetEntry, rest)) => {
            let (e, vrest) = token_of(rest);
            let val = unquote(vrest);
            match get_at(root, entry_path(e)) {
                Some(Node::Int(_)) => if parse_i64(val) is None {
                    Some(ConversionModel::Integer(val))
                } else {
                    None
                },
                Some(Node::Real(_)) => Some(ConversionModel::Real(val)),
                Some(Node::Date(_)) => Some(ConversionModel::Date(val)),
                _ => None,
            }
        },
        Some((CommandKind::Add, rest)) => {
            let (ty, vrest) = token_of(token_of(rest).1);
            let val = unquote(vrest);
            let l = lower_text(ty);
            if l == "real"@ {
                Some(ConversionModel::Real(val))
            } else if l == "date"@ && val.len() > 0 {
                Some(ConversionModel::Date(val))
            } else {
                None
            }
        },
        _ => None,
    }
}

pub fn conversion_needed(state: &PlistState, input: &str) -> (r: Option<Conversion>)
    ensures
        match r {
            Some(c) => conversion_for(model(state.root), input@) == Some(c@),
            None => conversion_for(model(state.root), input@) is None,
        },
{
    match command_split(input) {
        Some((CommandKind::SetEntry, rest)) => {
            let (entry, vrest) = next_token(rest);
            let val = strip_quotes(vrest);
            let path = parse_entry_path(entry.as_str());
            match resolve_entry(&state.root, &path) {
                Ok(Value::Integer(_)) => {
                    let cs = chars_of(val.as_str());
                    assert(cs@.subrange(0, cs@.len() as int) =~= cs@);
                    match crate::num::parse_i64_at(cs.as_slice(), 0, cs.len()) {
                        Some(_) => None,
                        None => Some(Conversion::Integer(val)),
                    }
                },
                Ok(Value::Real(_)) => Some(Conversion::Real(val)),
                Ok(Value::Date(_)) => Some(Conversion::Date(val)),
                _ => None,
            }
        },
        Some((CommandKind::Add, rest)) => {
            let (ty, vrest) = next_token(after_token(rest));
            let val = strip_quotes(vrest);
            let l = to_lower(ty.as_str());
            if text_is(l.as_str(), "real") {
                Some(Conversion::Real(val))
            } else if text_is(l.as_str(), "date") && !val.as_str().is_empty() {
                Some(Conversion::Date(val))
            } else {
                None
            }
        },
        _ => None,
    }
}

} // verus!
