use vstd::prelude::*;
use vstd::string::*;
use crate::output::{outs, Out, Piece};
use crate::value::{model, Node, Value};

verus! {

/// The plist being edited, with the session's settings.
pub struct PlistState {
    pub root: Value,
    pub xml_output: bool,
    pub dirty: bool,
}

/// How a command ended.
pub enum CommandResult {
    Success,
    StdoutError(String),
    StderrError(String),
    Exit,
    Save,
    Revert,
}

/// The mathematical form of a `CommandResult`.
pub enum Res {
    Success,
    StdoutError(Seq<char>),
    StderrError(Seq<char>),
    Exit,
    Save,
    Revert,
}

impl View for CommandResult {
    type V = Res;

    open spec fn view(&self) -> Res {
        match self {
            CommandResult::Success => Res::Success,
            CommandResult::StdoutError(s) => Res::StdoutError(s@),
            CommandResult::StderrError(s) => Res::StderrError(s@),
            CommandResult::Exit => Res::Exit,
            CommandResult::Save => Res::Save,
            CommandResult::Revert => Res::Revert,
        }
    }
}

/// What a command does: the new root, whether it counts as a change, its
/// result and what it writes to standard output.
pub struct Effect {
    pub root: Node,
    pub changed: bool,
    pub result: Res,
    pub out: Seq<Out>,
}

pub open spec fn effect(root: Node, changed: bool, result: Res, out: Seq<Out>) -> Effect {
    Effect { root, changed, result, out }
}

/// A command that fails with `result`, leaving the plist as it was.
pub open spec fn failed(root: Node, result: Res) -> Effect {
    Effect { root, changed: false, result, out: Seq::empty() }
}

/// A command that succeeds with the new root `root`.
pub open spec fn changed_to(root: Node) -> Effect {
    Effect { root, changed: true, result: Res::Success, out: Seq::empty() }
}

/// The state and output after a command are what `e` says.
pub open spec fn performs(
    pre: PlistState,
    post: PlistState,
    out_pre: Seq<Piece>,
    out_post: Seq<Piece>,
    result: Res,
    e: Effect,
) -> bool {
    &&& model(post.root) == e.root
    &&& post.dirty == (pre.dirty || e.changed)
    &&& post.xml_output == pre.xml_output
    &&& result == e.result
    &&& outs(out_post) == outs(out_pre) + e.out
}

impl PlistState {
    /// Marks the plist as changed.
    pub fn mutated(&mut self) -> (r: CommandResult)
        ensures
            final(self).root == old(self).root,
            final(self).xml_output == old(self).xml_output,
            final(self).dirty,
            r@ == Res::Success,
    {
        self.dirty = true;
        CommandResult::Success
    }
}


/// What the caller made of a text that only it can read: a real or an
/// integer written as a floating-point number, or a date in local time.
pub enum Reading {
    Real(u64),
    Integer(i64),
    Date(u64),
    Unreadable,
}

/// A text that a command needs read as a real, as an integer through a
/// real, or as a date.
pub enum Conversion {
    Real(String),
    Integer(String),
    Date(String),
}

pub enum ConversionModel {
    Real(Seq<char>),
    Integer(Seq<char>),
    Date(Seq<char>),
}

impl View for Conversion {
    type V = ConversionModel;

    open spec fn view(&self) -> ConversionModel {
        match self {
            Conversion::Real(s) => ConversionModel::Real(s@),
            Conversion::Integer(s) => ConversionModel::Integer(s@),
            Conversion::Date(s) => ConversionModel::Date(s@),
        }
    }
}

/// What the session does next after a command.
pub enum Next {
    Continue,
    Exit,
    Save,
    Revert,
}

/// How the session takes a command's result: the line it prints on
/// standard output and on standard error, whether the command counts as
/// failed, and what follows.
pub struct Handling {
    pub stdout: Option<String>,
    pub stderr: Option<String>,
    pub failed: bool,
    pub next: Next,
}

/// How the session takes a command's result: messages of failed commands
/// go to their stream, `Save` and `Revert` announce themselves.
pub fn handle_result(result: CommandResult) -> (h: Handling)
    ensures
        match result@ {
            Res::Success => h.stdout is None && h.stderr is None && !h.failed && h.next is Continue,
            Res::StdoutError(m) => h.stdout matches Some(x) && x@ == m && h.stderr is None
                && h.failed && h.next is Continue,
            Res::StderrError(m) => h.stderr matches Some(x) && x@ == m && h.stdout is None
                && h.failed && h.next is Continue,
            Res::Exit => h.stdout is None && h.stderr is None && !h.failed && h.next is Exit,
            Res::Save => h.stdout matches Some(x) && x@ == "Saving..."@ && h.stderr is None
                && !h.failed && h.next is Save,
            Res::Revert => h.stdout matches Some(x) && x@ == "Reverting to last saved state..."@
                && h.stderr is None && !h.failed && h.next is Revert,
        },
{
    match result {
        CommandResult::Success => Handling { stdout: None, stderr: None, failed: false, next: Next::Continue },
        CommandResult::StdoutError(m) => Handling {
            stdout: Some(m),
            stderr: None,
            failed: true,
            next: Next::Continue,
        },
        CommandResult::StderrError(m) => Handling {
            stdout: None,
            stderr: Some(m),
            failed: true,
            next: Next::Continue,
        },
        CommandResult::Exit => Handling { stdout: None, stderr: None, failed: false, next: Next::Exit },
        CommandResult::Save => Handling {
            stdout: Some(String::from_str("Saving...")),
            stderr: None,
            failed: false,
            next: Next::Save,
        },
        CommandResult::Revert => Handling {
            stdout: Some(String::from_str("Reverting to last saved state...")),
            stderr: None,
            failed: false,
            next: Next::Revert,
        },
    }
}

} // verus!
