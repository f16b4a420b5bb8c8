use vstd::prelude::*;
use vstd::string::*;
use crate::output::{outs, Out, Piece};
use crate::plutil::json_write::{bool_text, is_json_invalid_nested, json_invalid_nested};
use crate::plutil::natural::{entry_order, natural_order_of};
use crate::plutil::paths::{source_file_name, source_name, var_name, var_name_from_path};
use crate::text::{cat2, chars_of, i64_text, int_text, push_char, text_is};
use crate::value::{lemma_array_model, model, models, Dictionary, Entries, Node, Value};

verus! {

broadcast use lemma_array_model;

// ---------------------------------------------------------------------------
// Pieces
// ---------------------------------------------------------------------------

fn push_text(out: &mut Vec<Piece>, t: String)
    ensures
        outs(final(out)@) == outs(old(out)@) + seq![Out::Text(t@)],
{
    out.push(Piece::Text(t));
    assert(outs(final(out)@) =~= outs(old(out)@) + seq![Out::Text(t@)]);
}

fn push_piece(out: &mut Vec<Piece>, p: Piece)
    ensures
        outs(final(out)@) == outs(old(out)@) + seq![p@],
{
    let ghost v = p@;
    out.push(p);
    assert(outs(final(out)@) =~= outs(old(out)@) + seq![v]);
}

fn lit(s: &str) -> (r: String)
    ensures
        r@ == s@,
{
    String::from_str(s)
}

// ---------------------------------------------------------------------------
// String literals
// ---------------------------------------------------------------------------

/// How Swift source writes one character of a string literal.
pub open spec fn swift_escape(c: char) -> Seq<char> {
    if c == '"' {
        seq!['\\', '"']
    } else if c == '\\' {
        seq!['\\', '\\']
    } else if c == '\n' {
        seq!['\\', 'n']
    } else if c == '\0' {
        seq!['\\', '0']
    } else {
        seq![c]
    }
}

/// How Objective-C source writes one character of a string literal: line
/// breaks stay as they are.
pub open spec fn objc_escape(c: char) -> Seq<char> {
    if c == '"' {
        seq!['\\', '"']
    } else if c == '\\' {
        seq!['\\', '\\']
    } else if c == '\0' {
        seq!['\\', '0']
    } else {
        seq![c]
    }
}

pub open spec fn swift_escaped(s: Seq<char>) -> Seq<char>
    decreases s.len(),
{
    if s.len() == 0 {
        Seq::empty()
    } else {
        swift_escaped(s.drop_last()) + swift_escape(s.last())
    }
}

pub open spec fn objc_escaped(s: Seq<char>) -> Seq<char>
    decreases s.len(),
{
    if s.len() == 0 {
        Seq::empty()
    } else {
        objc_escaped(s.drop_last()) + objc_escape(s.last())
    }
}

/// A text as a Swift string literal.
pub open spec fn swift_literal(s: Seq<char>) -> Seq<char> {
    seq!['"'] + swift_escaped(s) + seq!['"']
}

/// A text as an Objective-C string literal.
pub open spec fn objc_literal(s: Seq<char>) -> Seq<char> {
    seq!['@', '"'] + objc_escaped(s) + seq!['"']
}

/// A text as a Swift string literal.
pub fn swift_string_literal(s: &str) -> (r: String)
    ensures
        r@ == swift_literal(s@),
{
    let v = chars_of(s);
    let mut r = String::new();
    push_char(&mut r, '"');
    let mut i: usize = 0;
    while i < v.len()
        invariant
            i <= v@.len(),
            v@ == s@,
            r@ == seq!['"'] + swift_escaped(v@.take(i as int)),
        decreases v@.len() - i,
    {
        let c = v[i];
        if c == '"' {
            push_char(&mut r, '\\');
            push_char(&mut r, '"');
        } else if c == '\\' {
            push_char(&mut r, '\\');
            push_char(&mut r, '\\');
        } else if c == '\n' {
            push_char(&mut r, '\\');
            push_char(&mut r, 'n');
        } else if c == '\0' {
            push_char(&mut r, '\\');
            push_char(&mut r, '0');
        } else {
            push_char(&mut r, c);
        }
        assert(v@.take(i + 1).drop_last() =~= v@.take(i as int));
        assert(r@ =~= seq!['"'] + swift_escaped(v@.take(i + 1)));
        i += 1;
    }
    assert(v@.take(v@.len() as int) =~= s@);
    push_char(&mut r, '"');
    assert(r@ =~= swift_literal(s@));
    r
}

/// A text as an Objective-C string literal.
pub fn objc_string_literal(s: &str) -> (r: String)
    ensures
        r@ == objc_literal(s@),
{
    let v = chars_of(s);
    let mut r = String::new();
    push_char(&mut r, '@');
    push_char(&mut r, '"');
    let mut i: usize = 0;
    while i < v.len()
        invariant
            i <= v@.len(),
            v@ == s@,
            r@ == seq!['@', '"'] + objc_escaped(v@.take(i as int)),
        decreases v@.len() - i,
    {
        let c = v[i];
        if c == '"' {
            push_char(&mut r, '\\');
            push_char(&mut r, '"');
        } else if c == '\\' {
            push_char(&mut r, '\\');
            push_char(&mut r, '\\');
        } else if c == '\0' {
            push_char(&mut r, '\\');
            push_char(&mut r, '0');
        } else {
            push_char(&mut r, c);
        }
        assert(v@.take(i + 1).drop_last() =~= v@.take(i as int));
        assert(r@ =~= seq!['@', '"'] + objc_escaped(v@.take(i + 1)));
        i += 1;
    }
    assert(v@.take(v@.len() as int) =~= s@);
    push_char(&mut r, '"');
    assert(r@ =~= objc_literal(s@));
    r
}

// ---------------------------------------------------------------------------
// Swift
// ---------------------------------------------------------------------------

/// The kind of a value, as Swift output compares kinds.
pub open spec fn swift_tag(n: Node) -> Seq<char> {
    match n {
        Node::Str(_) => "string"@,
        Node::Int(_) => "integer"@,
        Node::Real(_) => "real"@,
        Node::Bool(_) => "bool"@,
        Node::Date(_) => "date"@,
        Node::Data(_) => "data"@,
        Node::Array(_) => "array"@,
        Node::Dict(_) => "dict"@,
    }
}

/// The kind of a value, as Swift output compares kinds.
pub fn swift_type_tag(value: &Value) -> (r: &'static str)
    ensures
        r@ == swift_tag(model(*value)),
{
    match value {
        Value::String(_) => "string",
        Value::Integer(_) => "integer",
        Value::Real(_) => "real",
        Value::Boolean(_) => "bool",
        Value::Date(_) => "date",
        Value::Data(_) => "data",
        Value::Array(_) => "array",
        Value::Dictionary(_) => "dict",
    }
}

/// Some of the values are of another kind than the first.
pub open spec fn mixed_kinds(ns: Seq<Node>) -> bool {
    ns.len() > 0 && exists|i: int| 1 <= i < ns.len() && swift_tag(#[trigger] ns[i]) != swift_tag(ns[0])
}

/// The values of a dictionary's entries, in order.
pub open spec fn entry_values(es: Entries) -> Seq<Node> {
    Seq::new(es.len(), |i: int| es[i].1)
}

/// Whether an array holds values of more than one kind.
pub fn array_needs_any_annotation(arr: &[Value]) -> (b: bool)
    ensures
        b == mixed_kinds(models(arr@)),
{
    if arr.len() == 0 {
        return false;
    }
    let first = swift_type_tag(&arr[0]);
    let mut i: usize = 1;
    while i < arr.len()
        invariant
            1 <= i <= arr@.len(),
            first@ == swift_tag(models(arr@)[0]),
            forall|j: int| 1 <= j < i ==> swift_tag(#[trigger] models(arr@)[j]) == first@,
        decreases arr@.len() - i,
    {
        let t = swift_type_tag(&arr[i]);
        if !text_is(t, first) {
            assert(swift_tag(models(arr@)[i as int]) != swift_tag(models(arr@)[0]));
            return true;
        }
        i += 1;
    }
    false
}

/// Whether a dictionary holds values of more than one kind.
pub fn dict_needs_any_annotation(dict: &Dictionary) -> (b: bool)
    ensures
        b == mixed_kinds(entry_values(dict@)),
{
    let es = dict.iter();
    if es.len() == 0 {
        return false;
    }
    let ghost vs = entry_values(dict@);
    let first = swift_type_tag(&es[0].1);
    let mut i: usize = 1;
    while i < es.len()
        invariant
            1 <= i <= es@.len() == dict@.len() == vs.len(),
            vs == entry_values(dict@),
            forall|j: int|
                0 <= j < es@.len() ==> (#[trigger] es@[j]).0@ == dict@[j].0 && model(es@[j].1)
                    == dict@[j].1,
            first@ == swift_tag(vs[0]),
            forall|j: int| 1 <= j < i ==> swift_tag(#[trigger] vs[j]) == first@,
        decreases es@.len() - i,
    {
        let t = swift_type_tag(&es[i].1);
        assert(vs[i as int] == model(es@[i as int].1));
        if !text_is(t, first) {
            assert(swift_tag(vs[i as int]) != swift_tag(vs[0]));
            return true;
        }
        i += 1;
    }
    false
}

/// Two lowercase hexadecimal digits for a byte.
pub open spec fn hex2(b: u8) -> Seq<char> {
    seq![crate::plutil::json_write::hex_lower(b as int / 16), crate::plutil::json_write::hex_lower(b as int % 16)]
}

/// The bytes of data as Swift writes them: `0x` and two digits, then a comma.
pub open spec fn swift_bytes(b: Seq<u8>) -> Seq<char>
    decreases b.len(),
{
    if b.len() == 0 {
        Seq::empty()
    } else {
        swift_bytes(b.drop_last()) + "0x"@ + hex2(b.last()) + ","@
    }
}

fn hex_digit_char(d: u8) -> (c: char)
    requires
        d < 16,
    ensures
        c == crate::plutil::json_write::hex_lower(d as int),
{
    if d < 10 {
        (48 + d) as char
    } else {
        (87 + d) as char
    }
}

fn swift_bytes_text(b: &[u8]) -> (r: String)
    ensures
        r@ == swift_bytes(b@),
{
    let mut r = String::new();
    let mut i: usize = 0;
    while i < b.len()
        invariant
            i <= b@.len(),
            r@ == swift_bytes(b@.take(i as int)),
        decreases b@.len() - i,
    {
        let x = b[i];
        proof {
            reveal_strlit("0x");
            reveal_strlit(",");
        }
        push_char(&mut r, '0');
        push_char(&mut r, 'x');
        push_char(&mut r, hex_digit_char(x / 16));
        push_char(&mut r, hex_digit_char(x % 16));
        push_char(&mut r, ',');
        assert(b@.take(i + 1).drop_last() =~= b@.take(i as int));
        assert(r@ =~= swift_bytes(b@.take(i + 1)));
        i += 1;
    }
    assert(b@.take(b@.len() as int) =~= b@);
    r
}

/// A value in Swift source, nested lines beginning with `p` and four more
/// spaces.  Reals are left for the caller to write as `%.6f` does, and
/// dates as their seconds with one decimal (`{:.1}`).
pub open spec fn swift_value(n: Node, p: Seq<char>) -> Seq<Out>
    decreases n, 0nat, 0nat,
{
    match n {
        Node::Str(s) => seq![Out::Text(swift_literal(s))],
        Node::Int(i) => seq![Out::Text(int_text(i as int))],
        Node::Real(b) => seq![Out::Real(b)],
        Node::Bool(b) => seq![Out::Text(bool_text(b))],
        Node::Date(d) => seq![
            Out::Text("Date(timeIntervalSinceReferenceDate: "@),
            Out::Date(d),
            Out::Text(")"@),
        ],
        Node::Data(b) => seq![Out::Text("Data(bytes: ["@ + swift_bytes(b) + "])"@)],
        Node::Array(a) => seq![Out::Text("[\n"@)] + swift_items(a, p + "    "@) + seq![
            Out::Text(p + "]"@),
        ],
        Node::Dict(es) => seq![Out::Text("[\n"@)] + swift_entries(es, entry_order(es), p + "    "@)
            + seq![Out::Text(p + "]"@)],
    }
}

pub open spec fn swift_items(a: Seq<Node>, q: Seq<char>) -> Seq<Out>
    decreases a, 1nat, 0nat,
{
    if a.len() == 0 {
        Seq::empty()
    } else {
        swift_items(a.drop_last(), q) + seq![Out::Text(q)] + swift_value(a.last(), q) + seq![
            Out::Text(",\n"@),
        ]
    }
}

pub open spec fn swift_entries(es: Entries, order: Seq<usize>, q: Seq<char>) -> Seq<Out>
    decreases es, 1nat, order.len(),
{
    if order.len() == 0 {
        Seq::empty()
    } else {
        let i = order.last() as int;
        swift_entries(es, order.drop_last(), q) + if 0 <= i < es.len() {
            seq![Out::Text(q + swift_literal(es[i].0) + " : "@)] + swift_value(es[i].1, q) + seq![
                Out::Text(",\n"@),
            ]
        } else {
            Seq::empty()
        }
    }
}

fn swift_items_into(a: &Vec<Value>, q: &str, out: &mut Vec<Piece>)
    ensures
        outs(final(out)@) == outs(old(out)@) + swift_items(models(a@), q@),
    decreases models(a@), 1nat, 0nat,
{
    let ghost o0 = outs(out@);
    let mut i: usize = 0;
    assert(models(a@).take(0) =~= Seq::<Node>::empty());
    while i < a.len()
        invariant
            i <= a@.len(),
            outs(out@) == o0 + swift_items(models(a@).take(i as int), q@),
        decreases a@.len() - i,
    {
        proof {
            assert(decreases_to!(models(a@) => models(a@)[i as int]));
        }
        push_text(out, lit(q));
        swift_value_into(&a[i], q, out);
        push_text(out, lit(",\n"));
        assert(models(a@).take(i + 1).drop_last() =~= models(a@).take(i as int));
        assert(outs(out@) =~= o0 + swift_items(models(a@).take(i + 1), q@));
        i += 1;
    }
    assert(models(a@).take(a@.len() as int) =~= models(a@));
}

fn swift_entries_into(d: &Dictionary, q: &str, out: &mut Vec<Piece>)
    ensures
        outs(final(out)@) == outs(old(out)@) + swift_entries(d@, entry_order(d@), q@),
    decreases d@, 1nat, entry_order(d@).len() + 1,
{
    let ghost o0 = outs(out@);
    let es = d.iter();
    let order = natural_order_of(d);
    let mut t: usize = 0;
    assert(order@.take(0) =~= Seq::<usize>::empty());
    while t < order.len()
        invariant
            t <= order@.len() == es@.len() == d@.len(),
            order@ == entry_order(d@),
            forall|j: int| 0 <= j < order@.len() ==> order@[j] < d@.len(),
            forall|j: int|
                0 <= j < es@.len() ==> (#[trigger] es@[j]).0@ == d@[j].0 && model(es@[j].1)
                    == d@[j].1,
            outs(out@) == o0 + swift_entries(d@, order@.take(t as int), q@),
        decreases order@.len() - t,
    {
        let i = order[t];
        proof {
            assert(decreases_to!(d@ => d@[i as int]));
            assert(decreases_to!(d@[i as int] => d@[i as int].1));
        }
        let k = swift_string_literal(es[i].0.as_str());
        let mut line = lit(q);
        line.append(k.as_str());
        line.append(" : ");
        push_text(out, line);
        swift_value_into(&es[i].1, q, out);
        push_text(out, lit(",\n"));
        assert(order@.take(t + 1).drop_last() =~= order@.take(t as int));
        assert(outs(out@) =~= o0 + swift_entries(d@, order@.take(t + 1), q@));
        t += 1;
    }
    assert(order@.take(order@.len() as int) =~= order@);
}

fn swift_value_into(v: &Value, p: &str, out: &mut Vec<Piece>)
    ensures
        outs(final(out)@) == outs(old(out)@) + swift_value(model(*v), p@),
    decreases model(*v), 0nat, 0nat,
{
    let ghost o0 = outs(out@);
    match v {
        Value::String(s) => push_text(out, swift_string_literal(s.as_str())),
        Value::Integer(i) => push_text(out, i64_text(*i)),
        Value::Real(b) => push_piece(out, Piece::Real(*b)),
        Value::Boolean(b) => push_text(
            out,
            if *b {
                lit("true")
            } else {
                lit("false")
            },
        ),
        Value::Date(d) => {
            push_text(out, lit("Date(timeIntervalSinceReferenceDate: "));
            push_piece(out, Piece::Date(*d));
            push_text(out, lit(")"));
            assert(outs(out@) =~= o0 + swift_value(model(*v), p@));
        },
        Value::Data(b) => {
            let mut t = lit("Data(bytes: [");
            let x = swift_bytes_text(b.as_slice());
            t.append(x.as_str());
            t.append("])");
            push_text(out, t);
        },
        Value::Array(a) => {
            push_text(out, lit("[\n"));
            let inner = cat2(p, "    ");
            proof {
                assert(decreases_to!(model(*v) => model(*v)->Array_0));
            }
            swift_items_into(a, inner.as_str(), out);
            push_text(out, cat2(p, "]"));
            assert(outs(out@) =~= o0 + swift_value(model(*v), p@));
        },
        Value::Dictionary(d) => {
            push_text(out, lit("[\n"));
            let inner = cat2(p, "    ");
            proof {
                assert(decreases_to!(model(*v) => model(*v)->Dict_0));
            }
            swift_entries_into(d, inner.as_str(), out);
            push_text(out, cat2(p, "]"));
            assert(outs(out@) =~= o0 + swift_value(model(*v), p@));
        },
    }
}

/// A plist as a Swift source file that defines it as a constant.
pub open spec fn swift_source(n: Node, path: Seq<char>) -> Seq<Out> {
    let var = var_name(path);
    seq![Out::Text("/// Generated from "@ + source_name(path) + "\n"@)] + match n {
        Node::Dict(es) => seq![
            Out::Text(
                if mixed_kinds(entry_values(es)) {
                    "let "@ + var + " : [String : Any] = [\n"@
                } else {
                    "let "@ + var + " = [\n"@
                },
            ),
        ] + swift_entries(es, entry_order(es), "    "@) + seq![Out::Text("]\n"@)],
        Node::Array(a) => seq![
            Out::Text(
                if mixed_kinds(a) {
                    "let "@ + var + " : [Any] = [\n"@
                } else {
                    "let "@ + var + " = [\n"@
                },
            ),
        ] + swift_items(a, "    "@) + seq![Out::Text("]\n"@)],
        _ => seq![Out::Text("let "@ + var + " = "@)] + swift_value(n, Seq::empty()) + seq![
            Out::Text("\n"@),
        ],
    }
}

fn cat3s(a: &str, b: &str, c: &str) -> (r: String)
    ensures
        r@ == a@ + b@ + c@,
{
    crate::text::cat3(a, b, c)
}

/// A plist as Swift source (see `swift_source`).
pub fn value_to_swift(value: &Value, path: &str) -> (r: Vec<Piece>)
    ensures
        outs(r@) == swift_source(model(*value), path@),
{
    let mut out: Vec<Piece> = Vec::new();
    let name = source_file_name(path);
    let var = var_name_from_path(path);
    push_text(&mut out, cat3s("/// Generated from ", name.as_str(), "\n"));
    let ghost o1 = outs(out@);
    match value {
        Value::Dictionary(d) => {
            if dict_needs_any_annotation(d) {
                push_text(&mut out, cat3s("let ", var.as_str(), " : [String : Any] = [\n"));
            } else {
                push_text(&mut out, cat3s("let ", var.as_str(), " = [\n"));
            }
            swift_entries_into(d, "    ", &mut out);
            push_text(&mut out, lit("]\n"));
        },
        Value::Array(a) => {
            if array_needs_any_annotation(a.as_slice()) {
                push_text(&mut out, cat3s("let ", var.as_str(), " : [Any] = [\n"));
            } else {
                push_text(&mut out, cat3s("let ", var.as_str(), " = [\n"));
            }
            swift_items_into(a, "    ", &mut out);
            push_text(&mut out, lit("]\n"));
        },
        _ => {
            push_text(&mut out, cat3s("let ", var.as_str(), " = "));
            proof {
                reveal_strlit("");
                assert(""@ =~= Seq::<char>::empty());
            }
            swift_value_into(value, "", &mut out);
            push_text(&mut out, lit("\n"));
        },
    }
    assert(outs(out@) =~= swift_source(model(*value), path@));
    out
}

// ---------------------------------------------------------------------------
// Objective-C
// ---------------------------------------------------------------------------

/// Whether a date or data is anywhere in the value, which Objective-C
/// literals cannot hold.
pub fn value_contains_objc_invalid(value: &Value) -> (b: bool)
    ensures
        b == json_invalid_nested(model(*value)),
{
    is_json_invalid_nested(value)
}

/// A value as an Objective-C literal, nested lines beginning with `p` and
/// four more spaces.  Reals are left for the caller to write as `%.6f`
/// does; dates and data, refused beforehand, come out as `nil`.
pub open spec fn objc_value(n: Node, p: Seq<char>) -> Seq<Out>
    decreases n, 0nat, 0nat,
{
    match n {
        Node::Str(s) => seq![Out::Text(objc_literal(s))],
        Node::Int(i) => seq![Out::Text("@"@ + int_text(i as int))],
        Node::Real(b) => seq![Out::Text("@"@), Out::Real(b)],
        Node::Bool(b) => seq![Out::Text(if b { "@YES"@ } else { "@NO"@ })],
        Node::Array(a) => seq![Out::Text("@[\n"@)] + objc_items(a, p + "    "@) + seq![
            Out::Text(p + "]"@),
        ],
        Node::Dict(es) => seq![Out::Text("@{\n"@)] + objc_entries(es, entry_order(es), p + "    "@)
            + seq![Out::Text(p + "}"@)],
        _ => seq![Out::Text("nil"@)],
    }
}

pub open spec fn objc_items(a: Seq<Node>, q: Seq<char>) -> Seq<Out>
    decreases a, 1nat, 0nat,
{
    if a.len() == 0 {
        Seq::empty()
    } else {
        objc_items(a.drop_last(), q) + seq![Out::Text(q)] + objc_value(a.last(), q) + seq![
            Out::Text(",\n"@),
        ]
    }
}

pub open spec fn objc_entries(es: Entries, order: Seq<usize>, q: Seq<char>) -> Seq<Out>
    decreases es, 1nat, order.len(),
{
    if order.len() == 0 {
        Seq::empty()
    } else {
        let i = order.last() as int;
        objc_entries(es, order.drop_last(), q) + if 0 <= i < es.len() {
            seq![Out::Text(q + objc_literal(es[i].0) + " : "@)] + objc_value(es[i].1, q) + seq![
                Out::Text(",\n"@),
            ]
        } else {
            Seq::empty()
        }
    }
}

fn objc_items_into(a: &Vec<Value>, q: &str, out: &mut Vec<Piece>)
    ensures
        outs(final(out)@) == outs(old(out)@) + objc_items(models(a@), q@),
    decreases models(a@), 1nat, 0nat,
{
    let ghost o0 = outs(out@);
    let mut i: usize = 0;
    assert(models(a@).take(0) =~= Seq::<Node>::empty());
    while i < a.len()
        invariant
            i <= a@.len(),
            outs(out@) == o0 + objc_items(models(a@).take(i as int), q@),
        decreases a@.len() - i,
    {
        proof {
            assert(decreases_to!(models(a@) => models(a@)[i as int]));
        }
        push_text(out, lit(q));
        objc_value_into(&a[i], q, out);
        push_text(out, lit(",\n"));
        assert(models(a@).take(i + 1).drop_last() =~= models(a@).take(i as int));
        assert(outs(out@) =~= o0 + objc_items(models(a@).take(i + 1), q@));
        i += 1;
    }
    assert(models(a@).take(a@.len() as int) =~= models(a@));
}

fn objc_entries_into(d: &Dictionary, q: &str, out: &mut Vec<Piece>)
    ensures
        outs(final(out)@) == outs(old(out)@) + objc_entries(d@, entry_order(d@), q@),
    decreases d@, 1nat, entry_order(d@).len() + 1,
{
    let ghost o0 = outs(out@);
    let es = d.iter();
    let order = natural_order_of(d);
    let mut t: usize = 0;
    assert(order@.take(0) =~= Seq::<usize>::empty());
    while t < order.len()
        invariant
            t <= order@.len() == es@.len() == d@.len(),
            order@ == entry_order(d@),
            forall|j: int| 0 <= j < order@.len() ==> order@[j] < d@.len(),
            forall|j: int|
                0 <= j < es@.len() ==> (#[trigger] es@[j]).0@ == d@[j].0 && model(es@[j].1)
                    == d@[j].1,
            outs(out@) == o0 + objc_entries(d@, order@.take(t as int), q@),
        decreases order@.len() - t,
    {
        let i = order[t];
        proof {
            assert(decreases_to!(d@ => d@[i as int]));
            assert(decreases_to!(d@[i as int] => d@[i as int].1));
        }
        let k = objc_string_literal(es[i].0.as_str());
        let mut line = lit(q);
        line.append(k.as_str());
        line.append(" : ");
        push_text(out, line);
        objc_value_into(&es[i].1, q, out);
        push_text(out, lit(",\n"));
        assert(order@.take(t + 1).drop_last() =~= order@.take(t as int));
        assert(outs(out@) =~= o0 + objc_entries(d@, order@.take(t + 1), q@));
        t += 1;
    }
    assert(order@.take(order@.len() as int) =~= order@);
}

fn objc_value_into(v: &Value, p: &str, out: &mut Vec<Piece>)
    ensures
        outs(final(out)@) == outs(old(out)@) + objc_value(model(*v), p@),
    decreases model(*v), 0nat, 0nat,
{
    let ghost o0 = outs(out@);
    match v {
        Value::String(s) => push_text(out, objc_string_literal(s.as_str())),
        Value::Integer(i) => {
            let t = i64_text(*i);
            push_text(out, cat2("@", t.as_str()));
        },
        Value::Real(b) => {
            push_text(out, lit("@"));
            push_piece(out, Piece::Real(*b));
            assert(outs(out@) =~= o0 + objc_value(model(*v), p@));
        },
        Value::Boolean(b) => push_text(
            out,
            if *b {
                lit("@YES")
            } else {
                lit("@NO")
            },
        ),
        Value::Array(a) => {
            push_text(out, lit("@[\n"));
            let inner = cat2(p, "    ");
            proof {
                assert(decreases_to!(model(*v) => model(*v)->Array_0));
            }
            objc_items_into(a, inner.as_str(), out);
            push_text(out, cat2(p, "]"));
            assert(outs(out@) =~= o0 + objc_value(model(*v), p@));
        },
        Value::Dictionary(d) => {
            push_text(out, lit("@{\n"));
            let inner = cat2(p, "    ");
            proof {
                assert(decreases_to!(model(*v) => model(*v)->Dict_0));
            }
            objc_entries_into(d, inner.as_str(), out);
            push_text(out, cat2(p, "}"));
            assert(outs(out@) =~= o0 + objc_value(model(*v), p@));
        },
        _ => push_text(out, lit("nil")),
    }
}

/// The Objective-C type a plist's root is declared with.
pub open spec fn objc_root_type(n: Node) -> Seq<char> {
    match n {
        Node::Dict(_) => "NSDictionary"@,
        Node::Array(_) => "NSArray"@,
        _ => "id"@,
    }
}

fn root_type(value: &Value) -> (r: &'static str)
    ensures
        r@ == objc_root_type(model(*value)),
{
    match value {
        Value::Dictionary(_) => "NSDictionary",
        Value::Array(_) => "NSArray",
        _ => "id",
    }
}

/// A plist as an Objective-C source file that defines it as a constant,
/// importing its header first when `with_import` holds.
pub open spec fn objc_source(n: Node, path: Seq<char>, with_import: bool) -> Seq<Out> {
    let var = var_name(path);
    (if with_import {
        seq![Out::Text("#import \""@ + var + ".h\"\n\n"@)]
    } else {
        Seq::empty()
    }) + seq![
        Out::Text("/// Generated from "@ + source_name(path) + "\n"@),
        Out::Text("__attribute__((visibility(\"hidden\")))\n"@),
        Out::Text(objc_root_type(n) + " * const "@ + var + " = "@),
    ] + objc_value(n, Seq::empty()) + seq![Out::Text(";\n"@)]
}

/// A plist as Objective-C source (see `objc_source`).
pub fn value_to_objc(value: &Value, source_path: &str, with_import: bool) -> (r: Vec<Piece>)
    ensures
        outs(r@) == objc_source(model(*value), source_path@, with_import),
{
    let mut out: Vec<Piece> = Vec::new();
    let name = source_file_name(source_path);
    let var = var_name_from_path(source_path);
    if with_import {
        push_text(&mut out, cat3s("#import \"", var.as_str(), ".h\"\n\n"));
    }
    push_text(&mut out, cat3s("/// Generated from ", name.as_str(), "\n"));
    push_text(&mut out, lit("__attribute__((visibility(\"hidden\")))\n"));
    let mut decl = lit(root_type(value));
    decl.append(" * const ");
    decl.append(var.as_str());
    decl.append(" = ");
    push_text(&mut out, decl);
    proof {
        reveal_strlit("");
        assert(""@ =~= Seq::<char>::empty());
    }
    objc_value_into(value, "", &mut out);
    push_text(&mut out, lit(";\n"));
    assert(outs(out@) =~= objc_source(model(*value), source_path@, with_import));
    out
}

/// The Objective-C header that declares the constant `var`.
pub open spec fn objc_header(n: Node, path: Seq<char>, var: Seq<char>) -> Seq<char> {
    "#import <Foundation/Foundation.h>\n\n/// Generated from "@ + source_name(path)
        + "\n__attribute__((visibility(\"hidden\")))\nextern "@ + objc_root_type(n)
        + " * const "@ + var + ";\n"@
}

/// The Objective-C header for a plist's constant (see `objc_header`).
pub fn value_to_objc_header(value: &Value, source_path: &str, var: &str) -> (r: String)
    ensures
        r@ == objc_header(model(*value), source_path@, var@),
{
    let name = source_file_name(source_path);
    let mut r = lit("#import <Foundation/Foundation.h>\n\n/// Generated from ");
    r.append(name.as_str());
    r.append("\n__attribute__((visibility(\"hidden\")))\nextern ");
    r.append(root_type(value));
    r.append(" * const ");
    r.append(var);
    r.append(";\n");
    r
}

} // verus!
