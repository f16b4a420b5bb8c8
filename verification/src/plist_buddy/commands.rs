use vstd::prelude::*;
use vstd::string::*;
use vstd::utf8::encode_utf8;
use crate::num::parse_i64;
use crate::output::{outs, Out, Piece};
use crate::plist_buddy::session::{
    changed_to, effect, failed, performs, CommandResult, Effect, PlistState, Reading, Res,
};
use crate::plist_buddy::tokens::{
    ends_with_colon, entry_path, format_entry_for_error, next_token, parse_entry_path, strip_quotes,
    token_of, unquote,
};
use crate::text::{cat2, cat3, chars_of, lower_text, text_is, to_lower, trim, views};
use crate::tree::{
    at_path, component_index, get_at, index_of, lemma_rebuilt_same, rebuilt, resolve_entry,
    set_at, walk_mut,
};
use crate::value::{
    copy_bytes, delete, has_key, lemma_array_model, lookup, model, models, put, Dictionary, Entries, Node,
    Value,
};

verus! {

broadcast use lemma_array_model;

// ---------------------------------------------------------------------------
// Messages
// ---------------------------------------------------------------------------

/// `<cmd>: Entry, "<entry>", Does Not Exist`
pub open spec fn no_entry(cmd: Seq<char>, e: Seq<char>) -> Seq<char> {
    cmd + ": Entry, \""@ + trim(e) + "\", Does Not Exist"@
}

/// `<cmd>: "<entry>" Entry Already Exists`
pub open spec fn entry_exists(cmd: Seq<char>, e: Seq<char>) -> Seq<char> {
    cmd + ": \""@ + trim(e) + "\" Entry Already Exists"@
}

pub fn no_entry_text(cmd: &str, e: &str) -> (r: String)
    ensures
        r@ == no_entry(cmd@, e@),
{
    no_entry_msg(cmd, e)
}

fn no_entry_msg(cmd: &str, e: &str) -> (r: String)
    ensures
        r@ == no_entry(cmd@, e@),
{
    let t = format_entry_for_error(e);
    let head = cat2(cmd, ": Entry, \"");
    cat3(head.as_str(), t.as_str(), "\", Does Not Exist")
}

fn entry_exists_msg(cmd: &str, e: &str) -> (r: String)
    ensures
        r@ == entry_exists(cmd@, e@),
{
    let t = format_entry_for_error(e);
    let head = cat2(cmd, ": \"");
    cat3(head.as_str(), t.as_str(), "\" Entry Already Exists")
}

fn text_piece(s: &str) -> (p: Piece)
    ensures
        p@ == Out::Text(s@),
{
    Piece::Text(String::from_str(s))
}

// ---------------------------------------------------------------------------
// Clear
// ---------------------------------------------------------------------------

/// The root that `Clear` makes for a lowercased type name.
pub open spec fn clear_type(lower: Seq<char>) -> Option<Node> {
    if lower == "dict"@ {
        Some(Node::Dict(Seq::empty()))
    } else if lower == "array"@ {
        Some(Node::Array(Seq::empty()))
    } else if lower == "string"@ {
        Some(Node::Str(Seq::empty()))
    } else if lower == "integer"@ {
        Some(Node::Int(0))
    } else if lower == "real"@ {
        Some(Node::Real(0))
    } else if lower == "bool"@ {
        Some(Node::Bool(false))
    } else if lower == "date"@ {
        Some(Node::Date(0))
    } else if lower == "data"@ {
        Some(Node::Data(Seq::empty()))
    } else {
        None
    }
}

/// The value for a type name already lowercased.
pub fn type_for_clear(lower: &str) -> (r: Option<Value>)
    ensures
        match clear_type(lower@) {
            Some(n) => r is Some && model(r->0) == n,
            None => r is None,
        },
{
    if text_is(lower, "dict") {
        let d = Dictionary::new();
        Some(Value::Dictionary(d))
    } else if text_is(lower, "array") {
        let a: Vec<Value> = Vec::new();
        assert(models(a@) =~= Seq::<Node>::empty());
        Some(Value::Array(a))
    } else if text_is(lower, "string") {
        Some(Value::String(String::new()))
    } else if text_is(lower, "integer") {
        Some(Value::Integer(0))
    } else if text_is(lower, "real") {
        Some(Value::Real(0))
    } else if text_is(lower, "bool") {
        Some(Value::Boolean(false))
    } else if text_is(lower, "date") {
        Some(Value::Date(0))
    } else if text_is(lower, "data") {
        Some(Value::Data(Vec::new()))
    } else {
        None
    }
}

pub fn parse_type_for_clear(type_str: &str) -> (r: Option<Value>)
    ensures
        match clear_type(lower_text(type_str@)) {
            Some(n) => r is Some && model(r->0) == n,
            None => r is None,
        },
{
    let lower = to_lower(type_str);
    type_for_clear(lower.as_str())
}

pub open spec fn clear_effect(args: Seq<char>) -> Effect {
    let t = trim(args);
    match clear_type(lower_text(t)) {
        Some(n) => effect(n, true, Res::Success, seq![Out::Text("Initializing Plist...\n"@)]),
        None => effect(
            Node::Dict(Seq::empty()),
            true,
            Res::Success,
            seq![
                Out::Text("Unrecognized Type: "@ + t + "\n"@),
                Out::Text("Initializing Plist...\n"@),
            ],
        ),
    }
}

/// `Clear [<Type>]`: replaces the whole plist with an empty value.
pub fn cmd_clear(state: &mut PlistState, args: &str, out: &mut Vec<Piece>) -> (r: CommandResult)
    ensures
        performs(*old(state), *final(state), old(out)@, final(out)@, r@, clear_effect(args@)),
{
    let type_str = format_entry_for_error(args);
    let new_root = match parse_type_for_clear(type_str.as_str()) {
        Some(v) => {
            out.push(text_piece("Initializing Plist...\n"));
            v
        },
        None => {
            let line = cat3("Unrecognized Type: ", type_str.as_str(), "\n");
            out.push(Piece::Text(line));
            out.push(text_piece("Initializing Plist...\n"));
            Value::Dictionary(Dictionary::new())
        },
    };
    state.root = new_root;
    let r = state.mutated();
    assert(outs(out@) =~= outs(old(out)@) + clear_effect(args@).out);
    r
}


// ---------------------------------------------------------------------------
// Delete
// ---------------------------------------------------------------------------

pub open spec fn delete_effect(root: Node, args: Seq<char>) -> Effect {
    let e = token_of(args).0;
    let path = entry_path(e);
    let err = failed(root, Res::StderrError(no_entry("Delete"@, e)));
    if e.len() == 0 {
        effect(
            root,
            false,
            Res::Success,
            seq![Out::Text("Working Container has become Invalid.  Setting to :\n"@)],
        )
    } else if path.len() == 0 {
        err
    } else {
        let pp = path.drop_last();
        let key = path.last();
        match get_at(root, pp) {
            Some(Node::Dict(es)) => if has_key(es, key) {
                changed_to(set_at(root, pp, Node::Dict(delete(es, key))))
            } else {
                err
            },
            Some(Node::Array(a)) => match index_of(key) {
                Some(i) => if i < a.len() {
                    changed_to(set_at(root, pp, Node::Array(a.remove(i))))
                } else {
                    err
                },
                None => err,
            },
            _ => err,
        }
    }
}

/// `Delete <Entry>`: takes the entry out of its dictionary or array.
pub fn cmd_delete(state: &mut PlistState, args: &str, out: &mut Vec<Piece>) -> (r: CommandResult)
    ensures
        performs(*old(state), *final(state), old(out)@, final(out)@, r@, delete_effect(model(old(state).root), args@)),
{
    let ghost root0 = model(state.root);
    let (entry, _) = next_token(args);
    if entry.as_str().is_empty() {
        out.push(text_piece("Working Container has become Invalid.  Setting to :\n"));
        assert(outs(out@) =~= outs(old(out)@) + delete_effect(root0, args@).out);
        return CommandResult::Success;
    }
    assert(out@ == old(out)@);
    let mut path = parse_entry_path(entry.as_str());
    if path.len() == 0 {
        return CommandResult::StderrError(no_entry_msg("Delete", entry.as_str()));
    }
    let ghost full = views(path@);
    let key = match path.pop() {
        Some(k) => k,
        None => {
            return CommandResult::StderrError(no_entry_msg("Delete", entry.as_str()));
        },
    };
    assert(views(path@) =~= full.drop_last());
    assert(key@ == full.last());
    assert(views(path@).skip(0) =~= views(path@));
    let done = match walk_mut(&mut state.root, &path, 0, false) {
        Some(parent) => {
            let ghost pnode = model(*parent);
            proof {
                lemma_rebuilt_same(root0, views(path@));
            }
            match parent {
                Value::Dictionary(d) => match d.remove(key.as_str()) {
                    Some(_) => true,
                    None => false,
                },
                Value::Array(a) => match component_index(key.as_str()) {
                    Some(i) => {
                        if i < a.len() {
                            let ghost a0 = a@;
                            a.remove(i);
                            assert(models(a@) =~= models(a0).remove(i as int));
                            true
                        } else {
                            false
                        }
                    },
                    None => false,
                },
                _ => false,
            }
        },
        None => false,
    };
    if done {
        state.mutated()
    } else {
        CommandResult::StderrError(no_entry_msg("Delete", entry.as_str()))
    }
}


// ---------------------------------------------------------------------------
// Set
// ---------------------------------------------------------------------------

/// A lowercased word that reads as true.
pub open spec fn truthy(lower: Seq<char>) -> bool {
    lower == "true"@ || lower == "yes"@ || lower == "1"@
}

fn is_truthy(s: &str) -> (b: bool)
    ensures
        b == truthy(lower_text(s@)),
{
    let l = to_lower(s);
    text_is(l.as_str(), "true") || text_is(l.as_str(), "yes") || text_is(l.as_str(), "1")
}

/// The value `Set` gives an entry of the kind of `t`, from the text `val`;
/// `reading` is what the caller read from `val` where only it can.
pub open spec fn coerced(t: Node, val: Seq<char>, reading: Reading) -> (Node, Seq<Out>) {
    match t {
        Node::Int(_) => match parse_i64(val) {
            Some(v) => (Node::Int(v as i64), Seq::empty()),
            None => match reading {
                Reading::Integer(v) => (Node::Int(v), Seq::empty()),
                _ => (t, seq![Out::Text("Unrecognized Integer Format\n"@)]),
            },
        },
        Node::Real(_) => match reading {
            Reading::Real(b) => (Node::Real(b), Seq::empty()),
            _ => (t, seq![Out::Text("Unrecognized Real Format\n"@)]),
        },
        Node::Bool(_) => (Node::Bool(truthy(lower_text(val))), Seq::empty()),
        Node::Date(_) => match reading {
            Reading::Date(b) => (Node::Date(b), Seq::empty()),
            _ => (t, seq![Out::Text("Unrecognized Date Format\n"@)]),
        },
        Node::Data(_) => (Node::Data(encode_utf8(val)), Seq::empty()),
        _ => (Node::Str(val), Seq::empty()),
    }
}

/// The bytes of a text in UTF-8.
pub fn utf8_bytes(s: &str) -> (r: Vec<u8>)
    ensures
        r@ == encode_utf8(s@),
{
    copy_bytes(s.as_bytes())
}

pub fn coerce_value(existing: &Value, input: &str, reading: &Reading, out: &mut Vec<Piece>) -> (r:
    Value)
    ensures
        (model(r), outs(final(out)@).skip(old(out)@.len() as int)) == coerced(
            model(*existing),
            input@,
            *reading,
        ),
        final(out)@.len() >= old(out)@.len(),
        outs(final(out)@).take(old(out)@.len() as int) == outs(old(out)@),
{
    let ghost o0 = out@;
    let r = match existing {
        Value::String(_) => Value::String(String::from_str(input)),
        Value::Integer(_) => {
            let v = chars_of(input);
            assert(v@.subrange(0, v@.len() as int) =~= v@);
            match crate::num::parse_i64_at(v.as_slice(), 0, v.len()) {
                Some(i) => Value::Integer(i),
                None => match reading {
                    Reading::Integer(i) => Value::Integer(*i),
                    _ => {
                        out.push(text_piece("Unrecognized Integer Format\n"));
                        Value::Integer(existing.as_signed_integer().unwrap())
                    },
                },
            }
        },
        Value::Real(b) => match reading {
            Reading::Real(x) => Value::Real(*x),
            _ => {
                out.push(text_piece("Unrecognized Real Format\n"));
                Value::Real(*b)
            },
        },
        Value::Boolean(_) => Value::Boolean(is_truthy(input)),
        Value::Date(d) => match reading {
            Reading::Date(x) => Value::Date(*x),
            _ => {
                out.push(text_piece("Unrecognized Date Format\n"));
                Value::Date(*d)
            },
        },
        Value::Data(_) => Value::Data(utf8_bytes(input)),
        _ => Value::String(String::from_str(input)),
    };
    assert(outs(out@).take(o0.len() as int) =~= outs(o0));
    assert(outs(out@).skip(o0.len() as int) =~= coerced(model(*existing), input@, *reading).1);
    r
}

pub open spec fn set_effect(root: Node, args: Seq<char>, reading: Reading) -> Effect {
    let (e, rest) = token_of(args);
    let path = entry_path(e);
    match get_at(root, path) {
        None => failed(root, Res::StderrError(no_entry("Set"@, e))),
        Some(t) => if t is Dict || t is Array {
            failed(root, Res::StderrError("Set: Cannot Perform Set On Containers"@))
        } else {
            let (n, msg) = coerced(t, unquote(rest), reading);
            effect(set_at(root, path, n), true, Res::Success, msg)
        },
    }
}

/// `Set <Entry> <Value>`: gives a scalar entry a new value of its kind.
pub fn cmd_set(state: &mut PlistState, args: &str, reading: &Reading, out: &mut Vec<Piece>) -> (r:
    CommandResult)
    ensures
        performs(
            *old(state),
            *final(state),
            old(out)@,
            final(out)@,
            r@,
            set_effect(model(old(state).root), args@, *reading),
        ),
{
    let ghost root0 = model(state.root);
    let (entry, rest) = next_token(args);
    let value_str = strip_quotes(rest);
    let path = parse_entry_path(entry.as_str());
    assert(views(path@).skip(0) =~= views(path@));
    let ghost o0 = out@;
    match walk_mut(&mut state.root, &path, 0, false) {
        None => CommandResult::StderrError(no_entry_msg("Set", entry.as_str())),
        Some(target) => {
            proof {
                lemma_rebuilt_same(root0, views(path@));
            }
            match target {
                Value::Dictionary(_) | Value::Array(_) => {
                    return CommandResult::StderrError(
                        String::from_str("Set: Cannot Perform Set On Containers"),
                    );
                },
                _ => {},
            }
            let nv = coerce_value(target, value_str.as_str(), reading, out);
            *target = nv;
            assert(outs(out@) =~= outs(o0) + outs(out@).skip(o0.len() as int));
            state.mutated()
        },
    }
}


// ---------------------------------------------------------------------------
// Copy
// ---------------------------------------------------------------------------

pub open spec fn copy_effect(root: Node, args: Seq<char>) -> Effect {
    let (src, rest) = token_of(args);
    let dst = token_of(rest).0;
    let sp = entry_path(src);
    let dp = entry_path(dst);
    let no_dst = Res::StderrError(no_entry("Copy"@, dst));
    if dst.len() == 0 && src.len() != 0 {
        effect(root, false, Res::Success, Seq::empty())
    } else {
        match get_at(root, sp) {
            None => failed(root, Res::StderrError(no_entry("Copy"@, src))),
            Some(v) => if dp.len() == 0 || get_at(root, dp) is Some {
                failed(root, Res::StderrError(entry_exists("Copy"@, dst)))
            } else {
                let pp = dp.drop_last();
                match at_path(root, pp, true) {
                    None => failed(root, no_dst),
                    Some(Node::Dict(es)) => changed_to(
                        rebuilt(root, pp, true, Node::Dict(put(es, dp.last(), v))),
                    ),
                    Some(parent) => failed(rebuilt(root, pp, true, parent), no_dst),
                }
            },
        }
    }
}

/// `Copy <EntrySrc> <EntryDst>`: puts a copy of one entry at a new place.
pub fn cmd_copy(state: &mut PlistState, args: &str, out: &mut Vec<Piece>) -> (r: CommandResult)
    ensures
        performs(*old(state), *final(state), old(out)@, final(out)@, r@, copy_effect(model(old(state).root), args@)),
{
    let ghost root0 = model(state.root);
    let (src_str, rest) = next_token(args);
    let (dst_str, _) = next_token(rest);
    if dst_str.as_str().is_empty() && !src_str.as_str().is_empty() {
        return CommandResult::Success;
    }
    let src_path = parse_entry_path(src_str.as_str());
    let mut dst_path = parse_entry_path(dst_str.as_str());
    let src_value = match resolve_entry(&state.root, &src_path) {
        Ok(v) => v.duplicate(),
        Err(_) => {
            return CommandResult::StderrError(no_entry_msg("Copy", src_str.as_str()));
        },
    };
    if dst_path.len() == 0 || resolve_entry(&state.root, &dst_path).is_ok() {
        return CommandResult::StderrError(entry_exists_msg("Copy", dst_str.as_str()));
    }
    let ghost full = views(dst_path@);
    let key = match dst_path.pop() {
        Some(k) => k,
        None => {
            return CommandResult::StderrError(no_entry_msg("Copy", dst_str.as_str()));
        },
    };
    assert(views(dst_path@) =~= full.drop_last());
    assert(views(dst_path@).skip(0) =~= views(dst_path@));
    let done = match walk_mut(&mut state.root, &dst_path, 0, true) {
        Some(parent) => match parent {
            Value::Dictionary(d) => {
                d.insert(key, src_value);
                true
            },
            _ => false,
        },
        None => false,
    };
    if done {
        state.mutated()
    } else {
        CommandResult::StderrError(no_entry_msg("Copy", dst_str.as_str()))
    }
}


// ---------------------------------------------------------------------------
// Add
// ---------------------------------------------------------------------------

/// The value `Add` makes for a lowercased type name: none for an unknown
/// type, `Some(None)` for a date that could not be read.
pub open spec fn typed_value(lower: Seq<char>, val: Seq<char>, reading: Reading) -> Option<
    Option<Node>,
> {
    if lower == "string"@ {
        Some(Some(Node::Str(val)))
    } else if lower == "integer"@ {
        Some(
            Some(
                Node::Int(
                    match parse_i64(val) {
                        Some(v) => v as i64,
                        None => 0,
                    },
                ),
            ),
        )
    } else if lower == "real"@ {
        Some(
            Some(
                Node::Real(
                    match reading {
                        Reading::Real(b) => b,
                        _ => 0,
                    },
                ),
            ),
        )
    } else if lower == "bool"@ {
        Some(Some(Node::Bool(truthy(lower_text(val)))))
    } else if lower == "date"@ {
        if val.len() > 0 && reading is Date {
            Some(Some(Node::Date(reading->Date_0)))
        } else {
            Some(None)
        }
    } else if lower == "data"@ {
        Some(Some(Node::Data(encode_utf8(val))))
    } else if lower == "dict"@ {
        Some(Some(Node::Dict(Seq::empty())))
    } else if lower == "array"@ {
        Some(Some(Node::Array(Seq::empty())))
    } else {
        None
    }
}

/// The value for `Add <Entry> <Type> [<Value>]`, or the error line for an
/// unknown type; `Ok(None)` when a date could not be read, after saying so.
pub fn make_value_from_type(type_str: &str, value_str: &str, reading: &Reading, out: &mut Vec<
    Piece,
>) -> (r: Result<Option<Value>, String>)
    ensures
        match typed_value(lower_text(type_str@), value_str@, *reading) {
            None => r is Err && r->Err_0@ == "Unrecognized Type: "@ + type_str@ && final(out)@
                == old(out)@,
            Some(None) => r is Ok && r->Ok_0 is None && outs(final(out)@) == outs(old(out)@).push(
                Out::Text("Unrecognized Date Format\n"@),
            ),
            Some(Some(n)) => r is Ok && r->Ok_0 is Some && model(r->Ok_0->0) == n && final(out)@
                == old(out)@,
        },
{
    let lower = to_lower(type_str);
    let l = lower.as_str();
    if text_is(l, "string") {
        Ok(Some(Value::String(String::from_str(value_str))))
    } else if text_is(l, "integer") {
        let v = chars_of(value_str);
        assert(v@.subrange(0, v@.len() as int) =~= v@);
        let i = match crate::num::parse_i64_at(v.as_slice(), 0, v.len()) {
            Some(i) => i,
            None => 0,
        };
        Ok(Some(Value::Integer(i)))
    } else if text_is(l, "real") {
        let b = match reading {
            Reading::Real(b) => *b,
            _ => 0,
        };
        Ok(Some(Value::Real(b)))
    } else if text_is(l, "bool") {
        Ok(Some(Value::Boolean(is_truthy(value_str))))
    } else if text_is(l, "date") {
        if !value_str.is_empty() {
            if let Reading::Date(b) = reading {
                return Ok(Some(Value::Date(*b)));
            }
        }
        let ghost o0 = out@;
        out.push(text_piece("Unrecognized Date Format\n"));
        assert(outs(out@) =~= outs(o0).push(Out::Text("Unrecognized Date Format\n"@)));
        Ok(None)
    } else if text_is(l, "data") {
        Ok(Some(Value::Data(utf8_bytes(value_str))))
    } else if text_is(l, "dict") {
        Ok(Some(Value::Dictionary(Dictionary::new())))
    } else if text_is(l, "array") {
        let a: Vec<Value> = Vec::new();
        assert(models(a@) =~= Seq::<Node>::empty());
        Ok(Some(Value::Array(a)))
    } else {
        Err(cat2("Unrecognized Type: ", type_str))
    }
}

/// `Add: "<entry>", Entry Already Exists`, with the comma.
pub open spec fn entry_exists_comma(e: Seq<char>) -> Seq<char> {
    "Add: \""@ + trim(e) + "\", Entry Already Exists"@
}

/// `Add: Can't Add Entry, "<entry>", to Parent`
pub open spec fn cant_add(e: Seq<char>) -> Seq<char> {
    "Add: Can't Add Entry, \""@ + trim(e) + "\", to Parent"@
}

/// Where `Add` puts the value `v` for the entry `e`.
pub open spec fn add_placed(root: Node, e: Seq<char>, v: Node) -> Effect {
    let path = entry_path(e);
    let exists = Res::StderrError(entry_exists("Add"@, e));
    let no_ent = Res::StderrError(no_entry("Add"@, e));
    if e.len() > 0 && e.last() == ':' {
        if path.len() <= 1 {
            match root {
                Node::Array(a) => changed_to(Node::Array(a.push(v))),
                Node::Dict(es) => if path.len() == 0 || path.last().len() == 0 {
                    if has_key(es, Seq::empty()) {
                        failed(root, exists)
                    } else {
                        changed_to(Node::Dict(put(es, Seq::empty(), v)))
                    }
                } else {
                    failed(root, Res::StderrError(entry_exists_comma(e)))
                },
                _ => failed(root, Res::StderrError(entry_exists_comma(e))),
            }
        } else {
            let pp = path.drop_last();
            match get_at(root, pp) {
                Some(Node::Array(a)) => changed_to(set_at(root, pp, Node::Array(a.push(v)))),
                _ => failed(root, no_ent),
            }
        }
    } else if path.len() == 0 {
        failed(root, exists)
    } else {
        let pp = path.drop_last();
        let key = path.last();
        let cant = Res::StderrError(cant_add(e));
        match at_path(root, pp, true) {
            None => failed(root, cant),
            Some(Node::Dict(es)) => if has_key(es, key) {
                failed(rebuilt(root, pp, true, Node::Dict(es)), exists)
            } else {
                changed_to(rebuilt(root, pp, true, Node::Dict(put(es, key, v))))
            },
            Some(Node::Array(a)) => match index_of(key) {
                Some(i) => changed_to(
                    rebuilt(
                        root,
                        pp,
                        true,
                        Node::Array(
                            a.insert(
                                if i < a.len() {
                                    i
                                } else {
                                    a.len() as int
                                },
                                v,
                            ),
                        ),
                    ),
                ),
                None => failed(rebuilt(root, pp, true, Node::Array(a)), no_ent),
            },
            Some(p) => failed(rebuilt(root, pp, true, p), cant),
        }
    }
}

pub open spec fn add_effect(root: Node, args: Seq<char>, reading: Reading) -> Effect {
    let (e, rest) = token_of(args);
    let (ty, vrest) = token_of(rest);
    match typed_value(lower_text(ty), unquote(vrest), reading) {
        None => failed(root, Res::StdoutError("Unrecognized Type: "@ + ty)),
        Some(None) => effect(
            root,
            false,
            Res::Success,
            seq![Out::Text("Unrecognized Date Format\n"@)],
        ),
        Some(Some(v)) => add_placed(root, e, v),
    }
}

/// Places a new value for the entry `entry`.
fn add_value(state: &mut PlistState, entry: &str, new_value: Value) -> (r: CommandResult)
    ensures
        ({
            let e = add_placed(model(old(state).root), entry@, model(new_value));
            &&& model(final(state).root) == e.root
            &&& final(state).dirty == (old(state).dirty || e.changed)
            &&& final(state).xml_output == old(state).xml_output
            &&& r@ == e.result
        }),
{
    let ghost root0 = model(state.root);
    let ghost v = model(new_value);
    let mut path = parse_entry_path(entry);
    let ghost full = views(path@);
    if ends_with_colon(entry) {
        if path.len() <= 1 {
            let last_empty = path.len() == 0 || path[0].as_str().is_empty();
            let mut dup = false;
            let mut placed = false;
            match &mut state.root {
                Value::Array(arr) => {
                    let ghost a0 = arr@;
                    arr.push(new_value);
                    assert(models(arr@) =~= models(a0).push(v));
                    placed = true;
                },
                Value::Dictionary(dict) => {
                    if last_empty {
                        let key = String::new();
                        if dict.contains_key(key.as_str()) {
                            dup = true;
                        } else {
                            dict.insert(key, new_value);
                            placed = true;
                        }
                    }
                },
                _ => {},
            }
            if placed {
                return state.mutated();
            } else if dup {
                return CommandResult::StderrError(entry_exists_msg("Add", entry));
            } else {
                let t = format_entry_for_error(entry);
                return CommandResult::StderrError(
                    cat3("Add: \"", t.as_str(), "\", Entry Already Exists"),
                );
            }
        }
        path.pop();
        assert(views(path@) =~= full.drop_last());
        assert(views(path@).skip(0) =~= views(path@));
        let placed = match walk_mut(&mut state.root, &path, 0, false) {
            Some(target) => {
                proof {
                    lemma_rebuilt_same(root0, views(path@));
                }
                match target {
                    Value::Array(arr) => {
                        let ghost a0 = arr@;
                        arr.push(new_value);
                        assert(models(arr@) =~= models(a0).push(v));
                        true
                    },
                    _ => false,
                }
            },
            None => false,
        };
        if placed {
            state.mutated()
        } else {
            CommandResult::StderrError(no_entry_msg("Add", entry))
        }
    } else {
        if path.len() == 0 {
            return CommandResult::StderrError(entry_exists_msg("Add", entry));
        }
        let key = match path.pop() {
            Some(k) => k,
            None => {
                return CommandResult::StderrError(entry_exists_msg("Add", entry));
            },
        };
        assert(views(path@) =~= full.drop_last());
        assert(views(path@).skip(0) =~= views(path@));
        // 0: placed, 1: already there, 2: no such index, 3: not a container
        let outcome: u8 = match walk_mut(&mut state.root, &path, 0, true) {
            Some(parent) => match parent {
                Value::Dictionary(dict) => {
                    if dict.contains_key(key.as_str()) {
                        1
                    } else {
                        dict.insert(key, new_value);
                        0
                    }
                },
                Value::Array(arr) => match component_index(key.as_str()) {
                    Some(i) => {
                        let idx = if i < arr.len() {
                            i
                        } else {
                            arr.len()
                        };
                        let ghost a0 = arr@;
                        arr.insert(idx, new_value);
                        assert(models(arr@) =~= models(a0).insert(idx as int, v));
                        0
                    },
                    None => 2,
                },
                _ => 3,
            },
            None => 3,
        };
        if outcome == 0 {
            state.mutated()
        } else if outcome == 1 {
            CommandResult::StderrError(entry_exists_msg("Add", entry))
        } else if outcome == 2 {
            CommandResult::StderrError(no_entry_msg("Add", entry))
        } else {
            let t = format_entry_for_error(entry);
            CommandResult::StderrError(cat3("Add: Can't Add Entry, \"", t.as_str(), "\", to Parent"))
        }
    }
}

/// `Add <Entry> <Type> [<Value>]`: adds a new entry; a trailing colon
/// appends to an array, an index inserts into one.
pub fn cmd_add(state: &mut PlistState, args: &str, reading: &Reading, out: &mut Vec<Piece>) -> (r:
    CommandResult)
    ensures
        performs(
            *old(state),
            *final(state),
            old(out)@,
            final(out)@,
            r@,
            add_effect(model(old(state).root), args@, *reading),
        ),
{
    let (entry, rest) = next_token(args);
    let (type_str, value_rest) = next_token(rest);
    let value_str = strip_quotes(value_rest);
    let new_value = match make_value_from_type(type_str.as_str(), value_str.as_str(), reading, out) {
        Ok(Some(v)) => v,
        Ok(None) => {
            assert(outs(out@) =~= outs(old(out)@) + seq![Out::Text("Unrecognized Date Format\n"@)]);
            return CommandResult::Success;
        },
        Err(msg) => {
            return CommandResult::StdoutError(msg);
        },
    };
    assert(outs(out@) =~= outs(old(out)@) + Seq::<Out>::empty());
    add_value(state, entry.as_str(), new_value)
}


// ---------------------------------------------------------------------------
// Merge
// ---------------------------------------------------------------------------

/// The entries of `t` with those of `s` whose keys `t` lacks added, in order.
pub open spec fn merged_entries(t: Entries, s: Entries) -> Entries
    decreases s.len(),
{
    if s.len() == 0 {
        t
    } else {
        merged_entries(
            if has_key(t, s[0].0) {
                t
            } else {
                t.push(s[0])
            },
            s.skip(1),
        )
    }
}

/// Merging keeps every entry of the target first, in order, and each key
/// then looks up to the target's value where the target has it, else to
/// the source's.
pub proof fn lemma_merged_lookup(t: Entries, s: Entries, k: Seq<char>)
    ensures
        merged_entries(t, s).len() >= t.len(),
        merged_entries(t, s).take(t.len() as int) == t,
        lookup(merged_entries(t, s), k) == if has_key(t, k) {
            lookup(t, k)
        } else {
            lookup(s, k)
        },
    decreases s.len(),
{
    if s.len() > 0 {
        let t2 = if has_key(t, s[0].0) {
            t
        } else {
            t.push(s[0])
        };
        lemma_merged_lookup(t2, s.skip(1), k);
        crate::value::lemma_lookup_first(s, k);
        crate::value::lemma_lookup_push(t, s[0], k);
        let m = merged_entries(t2, s.skip(1));
        assert(m.take(t.len() as int) =~= m.take(t2.len() as int).take(t.len() as int));
        assert(t2.take(t.len() as int) =~= t);
    } else {
        assert(t.take(t.len() as int) =~= t);
    }
}

/// `Merge` of a dictionary into a dictionary succeeds and marks the plist
/// changed; the entry is then a dictionary whose entries begin with the
/// target's own, in order, and in which each key keeps the target's value
/// where it had one (existing keys are never overwritten) and takes the
/// source's otherwise.
pub proof fn law_merge_dictionaries(root: Node, entry: Seq<char>, te: Entries, se: Entries)
    requires
        get_at(root, entry_path(entry)) == Some(Node::Dict(te)),
    ensures
        ({
            let e = merge_effect(root, entry, Node::Dict(se));
            let m = merged_entries(te, se);
            &&& e.result == Res::Success
            &&& e.changed
            &&& get_at(e.root, entry_path(entry)) == Some(Node::Dict(m))
            &&& m.take(te.len() as int) == te
            &&& forall|k: Seq<char>| #[trigger] lookup(m, k) == if has_key(te, k) {
                lookup(te, k)
            } else {
                lookup(se, k)
            }
        }),
{
    let m = merged_entries(te, se);
    crate::tree::lemma_at_rebuilt(root, entry_path(entry), Node::Dict(m));
    lemma_merged_lookup(te, se, Seq::empty());
    assert forall|k: Seq<char>| #[trigger] lookup(m, k) == if has_key(te, k) {
        lookup(te, k)
    } else {
        lookup(se, k)
    } by {
        lemma_merged_lookup(te, se, k);
    }
}

/// The errors of `Merge`, in the order they are checked once the file is
/// read (a file that cannot be read is `merge_read_failed`): an entry that
/// does not exist, then a source and target of different kinds; either
/// leaves the plist as it was and unmarked.
pub proof fn law_merge_errors(root: Node, entry: Seq<char>, source: Node)
    ensures
        ({
            let e = merge_effect(root, entry, source);
            let path = entry_path(entry);
            &&& match get_at(root, path) {
                None => e == failed(root, Res::StderrError(no_entry("Merge"@, entry))),
                Some(t) => (t is Dict && source is Dict) || (t is Array && source is Array) || e
                    == failed(
                    root,
                    Res::StderrError(
                        "Merge: Can't Add "@ + kind_name(source) + " Entries to "@ + kind_name(t),
                    ),
                ),
            }
            &&& e.result != Res::Success ==> e.root == root && !e.changed
        }),
{
}

pub open spec fn kind_name(n: Node) -> Seq<char> {
    match n {
        Node::Dict(_) => "dict"@,
        Node::Array(_) => "array"@,
        _ => "scalar"@,
    }
}

fn kind_name_of(v: &Value) -> (r: &'static str)
    ensures
        r@ == kind_name(model(*v)),
{
    match v {
        Value::Dictionary(_) => "dict",
        Value::Array(_) => "array",
        _ => "scalar",
    }
}

/// The file and the entry that `Merge <file.plist> [<Entry>]` names.
pub fn merge_request(args: &str) -> (r: (String, String))
    ensures
        r.0@ == token_of(args@).0,
        r.1@ == token_of(token_of(args@).1).0,
{
    let (file_str, rest) = next_token(args);
    let (entry_str, _) = next_token(rest);
    (file_str, entry_str)
}

/// The result when the file to merge cannot be read.
pub fn merge_read_failed(file: &str) -> (r: CommandResult)
    ensures
        r@ == Res::StderrError("Merge: Error Reading File: "@ + file@),
{
    CommandResult::StderrError(cat2("Merge: Error Reading File: ", file))
}

pub open spec fn merge_effect(root: Node, entry: Seq<char>, source: Node) -> Effect {
    let path = entry_path(entry);
    match get_at(root, path) {
        None => failed(root, Res::StderrError(no_entry("Merge"@, entry))),
        Some(t) => match (t, source) {
            (Node::Dict(te), Node::Dict(se)) => changed_to(
                set_at(root, path, Node::Dict(merged_entries(te, se))),
            ),
            (Node::Array(ta), Node::Array(sa)) => changed_to(
                set_at(root, path, Node::Array(ta + sa)),
            ),
            _ => failed(
                root,
                Res::StderrError(
                    "Merge: Can't Add "@ + kind_name(source) + " Entries to "@ + kind_name(t),
                ),
            ),
        },
    }
}

/// Adds the contents of `source` to the dictionary or array at `entry`:
/// keys not yet there, or all items.
pub fn merge_apply(state: &mut PlistState, entry: &str, source: &Value) -> (r: CommandResult)
    ensures
        ({
            let e = merge_effect(model(old(state).root), entry@, model(*source));
            &&& model(final(state).root) == e.root
            &&& final(state).dirty == (old(state).dirty || e.changed)
            &&& final(state).xml_output == old(state).xml_output
            &&& r@ == e.result
        }),
{
    let ghost root0 = model(state.root);
    let path = parse_entry_path(entry);
    assert(views(path@).skip(0) =~= views(path@));
    // 0: merged, 1: no entry, 2: kinds do not match
    let mut kinds: (&'static str, &'static str) = ("", "");
    let outcome: u8 = match walk_mut(&mut state.root, &path, 0, false) {
        Some(target) => {
            proof {
                lemma_rebuilt_same(root0, views(path@));
            }
            match (target, source) {
                (Value::Dictionary(td), Value::Dictionary(sd)) => {
                    let ghost t0 = td@;
                    let es = sd.iter();
                    let mut i: usize = 0;
                    assert(sd@.skip(0) =~= sd@);
                    while i < es.len()
                        invariant
                            0 <= i <= es@.len(),
                            es@.len() == sd@.len(),
                            forall|j: int|
                                0 <= j < es@.len() ==> (#[trigger] es@[j]).0@ == sd@[j].0 && model(
                                    es@[j].1,
                                ) == sd@[j].1,
                            merged_entries(t0, sd@) == merged_entries(td@, sd@.skip(i as int)),
                        decreases es@.len() - i,
                    {
                        let ghost cur = td@;
                        let ghost rest = sd@.skip(i as int);
                        assert(rest[0] == sd@[i as int]);
                        assert(rest.skip(1) =~= sd@.skip(i + 1));
                        if !td.contains_key(es[i].0.as_str()) {
                            td.insert(es[i].0.clone(), es[i].1.duplicate());
                            assert(put(cur, sd@[i as int].0, sd@[i as int].1) =~= cur.push(
                                sd@[i as int],
                            ));
                        }
                        i += 1;
                    }
                    assert(sd@.skip(es@.len() as int) =~= Seq::<(Seq<char>, Node)>::empty());
                    0
                },
                (Value::Array(ta), Value::Array(sa)) => {
                    let ghost t0 = models(ta@);
                    let mut i: usize = 0;
                    while i < sa.len()
                        invariant
                            0 <= i <= sa@.len(),
                            models(ta@) == t0 + models(sa@).take(i as int),
                        decreases sa@.len() - i,
                    {
                        let ghost before = models(ta@);
                        ta.push(sa[i].duplicate());
                        assert(models(sa@).take(i + 1) =~= models(sa@).take(i as int).push(
                            model(sa@[i as int]),
                        ));
                        assert(models(ta@) =~= before.push(model(sa@[i as int])));
                        i += 1;
                    }
                    assert(models(sa@).take(sa@.len() as int) =~= models(sa@));
                    0
                },
                (t, s) => {
                    kinds = (kind_name_of(s), kind_name_of(t));
                    2
                },
            }
        },
        None => 1,
    };
    if outcome == 0 {
        state.mutated()
    } else if outcome == 1 {
        CommandResult::StderrError(no_entry_msg("Merge", entry))
    } else {
        let head = cat3("Merge: Can't Add ", kinds.0, " Entries to ");
        CommandResult::StderrError(cat2(head.as_str(), kinds.1))
    }
}

// ---------------------------------------------------------------------------
// Import
// ---------------------------------------------------------------------------

/// The entry `Import` names is a dictionary or an array.
pub open spec fn import_blocked(root: Node, args: Seq<char>) -> bool {
    match get_at(root, entry_path(token_of(args).0)) {
        Some(n) => n is Dict || n is Array,
        None => false,
    }
}

/// For `Import <Entry> <file>`: the entry and the file to read, or the
/// error when the entry is a container.
pub fn import_request(state: &PlistState, args: &str) -> (r: Result<(String, String), CommandResult>)
    ensures
        match r {
            Ok((e, f)) => !import_blocked(model(state.root), args@) && e@ == token_of(args@).0
                && f@ == token_of(token_of(args@).1).0,
            Err(res) => import_blocked(model(state.root), args@) && res@ == Res::StderrError(
                "Import: Specified Entry Must Not Be a Container"@,
            ),
        },
{
    let (entry_str, rest) = next_token(args);
    let (file_str, _) = next_token(rest);
    let path = parse_entry_path(entry_str.as_str());
    let blocked = match resolve_entry(&state.root, &path) {
        Ok(Value::Dictionary(_)) => true,
        Ok(Value::Array(_)) => true,
        _ => false,
    };
    if blocked {
        Err(
            CommandResult::StderrError(
                String::from_str("Import: Specified Entry Must Not Be a Container"),
            ),
        )
    } else {
        Ok((entry_str, file_str))
    }
}

/// The result when the file to import cannot be read.
pub fn import_read_failed(file: &str) -> (r: CommandResult)
    ensures
        r@ == Res::StderrError("Import: Error Reading File: "@ + file@),
{
    CommandResult::StderrError(cat2("Import: Error Reading File: ", file))
}

pub open spec fn import_effect(root: Node, entry: Seq<char>, data: Seq<u8>) -> Effect {
    let path = entry_path(entry);
    let nv = Node::Data(data);
    if path.len() == 0 {
        changed_to(nv)
    } else if get_at(root, path) is Some {
        changed_to(set_at(root, path, nv))
    } else {
        let pp = path.drop_last();
        match get_at(root, pp) {
            Some(Node::Dict(es)) => changed_to(set_at(root, pp, Node::Dict(put(es, path.last(), nv)))),
            _ => failed(root, Res::StderrError(no_entry("Import"@, entry))),
        }
    }
}

/// Creates or sets the entry to the bytes read from a file.
pub fn import_apply(state: &mut PlistState, entry: &str, data: Vec<u8>) -> (r: CommandResult)
    ensures
        ({
            let e = import_effect(model(old(state).root), entry@, data@);
            &&& model(final(state).root) == e.root
            &&& final(state).dirty == (old(state).dirty || e.changed)
            &&& final(state).xml_output == old(state).xml_output
            &&& r@ == e.result
        }),
{
    let ghost root0 = model(state.root);
    let mut path = parse_entry_path(entry);
    let new_value = Value::Data(data);
    if path.len() == 0 {
        state.root = new_value;
        return state.mutated();
    }
    let ghost full = views(path@);
    assert(views(path@).skip(0) =~= views(path@));
    if resolve_entry(&state.root, &path).is_ok() {
        match walk_mut(&mut state.root, &path, 0, false) {
            Some(target) => {
                *target = new_value;
            },
            None => {},
        }
        return state.mutated();
    }
    let key = match path.pop() {
        Some(k) => k,
        None => {
            return CommandResult::StderrError(no_entry_msg("Import", entry));
        },
    };
    assert(views(path@) =~= full.drop_last());
    assert(views(path@).skip(0) =~= views(path@));
    let placed = match walk_mut(&mut state.root, &path, 0, false) {
        Some(parent) => {
            proof {
                lemma_rebuilt_same(root0, views(path@));
            }
            match parent {
                Value::Dictionary(d) => {
                    d.insert(key, new_value);
                    true
                },
                _ => false,
            }
        },
        None => false,
    };
    if placed {
        state.mutated()
    } else {
        CommandResult::StderrError(no_entry_msg("Import", entry))
    }
}

} // verus!
