use vstd::prelude::*;
use vstd::string::*;
use crate::output::{outs, Out, Piece};
use crate::plutil::json::{escaped_char, hex_val, hex_value, parse_hex, string_at_spec, string_body};
use crate::plutil::natural::{entry_order, natural_order_of};
use crate::text::{cat2, chars_of, i64_text, int_text, push_char};
use crate::value::{lemma_array_model, model, models, Dictionary, Entries, Node, Value};

verus! {

broadcast use lemma_array_model;

// ---------------------------------------------------------------------------
// Strings
// ---------------------------------------------------------------------------

/// A lowercase hexadecimal digit.
pub open spec fn hex_lower(d: int) -> char {
    if d < 10 {
        (48 + d) as char
    } else {
        (87 + d) as char
    }
}

/// How one character is written inside a JSON string: `"`, `\`, line feed,
/// carriage return and tab by their short escapes, other control
/// characters as `\u00XX` in lowercase hexadecimal, the rest as they are.
pub open spec fn escape_char(c: char) -> Seq<char> {
    if c == '"' {
        seq!['\\', '"']
    } else if c == '\\' {
        seq!['\\', '\\']
    } else if c == '\n' {
        seq!['\\', 'n']
    } else if c == '\r' {
        seq!['\\', 'r']
    } else if c == '\t' {
        seq!['\\', 't']
    } else if (c as u32) < 0x20 {
        seq!['\\', 'u', '0', '0', hex_lower((c as u32) as int / 16), hex_lower((c as u32) as int % 16)]
    } else {
        seq![c]
    }
}

/// The characters of a text, each written as inside a JSON string.
pub open spec fn escaped(s: Seq<char>) -> Seq<char>
    decreases s.len(),
{
    if s.len() == 0 {
        Seq::empty()
    } else {
        escape_char(s[0]) + escaped(s.skip(1))
    }
}

/// A text as a JSON string, quotes included.
pub open spec fn json_quoted(s: Seq<char>) -> Seq<char> {
    seq!['"'] + escaped(s) + seq!['"']
}

fn hex_digit_lower(d: u32) -> (c: char)
    requires
        d < 16,
    ensures
        c == hex_lower(d as int),
{
    if d < 10 {
        ((48 + d) as u8) as char
    } else {
        ((87 + d) as u8) as char
    }
}

/// Appends how `c` is written inside a JSON string.
fn push_escaped(r: &mut String, c: char)
    ensures
        final(r)@ == old(r)@ + escape_char(c),
{
    let u = c as u32;
    if c == '"' {
        push_char(r, '\\');
        push_char(r, '"');
    } else if c == '\\' {
        push_char(r, '\\');
        push_char(r, '\\');
    } else if c == '\n' {
        push_char(r, '\\');
        push_char(r, 'n');
    } else if c == '\r' {
        push_char(r, '\\');
        push_char(r, 'r');
    } else if c == '\t' {
        push_char(r, '\\');
        push_char(r, 't');
    } else if u < 0x20 {
        push_char(r, '\\');
        push_char(r, 'u');
        push_char(r, '0');
        push_char(r, '0');
        push_char(r, hex_digit_lower(u / 16));
        push_char(r, hex_digit_lower(u % 16));
    } else {
        push_char(r, c);
    }
    assert(final(r)@ =~= old(r)@ + escape_char(c));
}

/// A text as a JSON string literal.
pub fn json_escape(s: &str) -> (r: String)
    ensures
        r@ == json_quoted(s@),
{
    let v = chars_of(s);
    let mut r = String::new();
    push_char(&mut r, '"');
    let mut i: usize = 0;
    assert(v@.skip(0) =~= v@);
    while i < v.len()
        invariant
            i <= v@.len(),
            v@ == s@,
            seq!['"'] + escaped(s@) == r@ + escaped(v@.skip(i as int)),
        decreases v@.len() - i,
    {
        let ghost before = r@;
        push_escaped(&mut r, v[i]);
        assert(v@.skip(i as int).skip(1) =~= v@.skip(i + 1));
        assert(v@.skip(i as int)[0] == v@[i as int]);
        assert(r@ + escaped(v@.skip(i + 1)) =~= before + escaped(v@.skip(i as int)));
        i += 1;
    }
    assert(v@.skip(i as int) =~= Seq::<char>::empty());
    push_char(&mut r, '"');
    assert(r@ =~= json_quoted(s@));
    r
}

/// Reading the body of a JSON string written by `escaped` gives the text
/// back, up to the closing quote.
#[verifier::spinoff_prover]
#[verifier::rlimit(40)]
pub(crate) proof fn lemma_read_escaped(x: Seq<char>, rest: Seq<char>, pre: Seq<char>, acc: Seq<char>)
    ensures
        string_body(pre + escaped(x) + seq!['"'] + rest, pre.len() as int, acc) == Ok::<
            (Seq<char>, int),
            Seq<char>,
        >((acc + x, pre.len() + escaped(x).len() + 1int)),
    decreases x.len(),
{
    let s = pre + escaped(x) + seq!['"'] + rest;
    let j = pre.len() as int;
    if x.len() == 0 {
        assert(s[j] == '"');
        assert(acc + x =~= acc);
    } else {
        let c = x[0];
        let e = escape_char(c);
        let pre2 = pre + e;
        assert(s =~= pre2 + escaped(x.skip(1)) + seq!['"'] + rest);
        lemma_read_escaped(x.skip(1), rest, pre2, acc.push(c));
        assert(acc.push(c) + x.skip(1) =~= acc + x);
        assert(forall|t: int| 0 <= t < e.len() ==> s[j + t] == e[t]);
        let u = c as u32;
        if c == '"' || c == '\\' || c == '\n' || c == '\r' || c == '\t' {
            assert(escaped_char(s[j + 1]) == Some(c));
        } else if u < 0x20 {
            let h = s.subrange(j + 2, j + 6);
            assert(h =~= seq!['0', '0', hex_lower(u as int / 16), hex_lower(u as int % 16)]);
            assert(hex_val(h[0]) == Some(0int));
            assert(hex_val(h[2]) == Some(u as int / 16));
            assert(hex_val(h[3]) == Some(u as int % 16));
            let h1 = h.take(1);
            let h2 = h.take(2);
            let h3 = h.take(3);
            assert(h1.drop_last() =~= Seq::<char>::empty());
            assert(h2.drop_last() =~= h1);
            assert(h3.drop_last() =~= h2);
            assert(h.drop_last() =~= h3);
            assert(hex_value(Seq::<char>::empty()) == 0);
            assert(h1.last() == h[0] && h2.last() == h[1] && h3.last() == h[2] && h.last() == h[3]);
            assert(hex_val(h[1]) == Some(0int));
            assert(hex_value(h1) == 0);
            assert(hex_value(h2) == 0);
            assert(hex_value(h3) == u as int / 16);
            assert(hex_value(h) == u as int);
            assert(parse_hex(h) == Some(u as int));
            vstd::utf8::char_u32_cast(c, u);
        } else {
        }
    }
}

/// A JSON string written by `json_escape`, followed by any text `rest`,
/// reads back as the text it was made from, and reading stops right after
/// its closing quote, so that what is left is exactly `rest`.
pub proof fn law_json_string_round_trip(x: Seq<char>, rest: Seq<char>)
    ensures
        string_at_spec(json_quoted(x) + rest, 0) == Ok::<(Seq<char>, int), Seq<char>>(
            (x, json_quoted(x).len() as int),
        ),
        (json_quoted(x) + rest).skip(json_quoted(x).len() as int) == rest,
{
    let q = json_quoted(x);
    lemma_read_escaped(x, rest, seq!['"'], Seq::empty());
    assert(seq!['"'] + escaped(x) + seq!['"'] + rest =~= q + rest);
    assert(Seq::<char>::empty() + x =~= x);
    assert((q + rest).skip(q.len() as int) =~= rest);
}

// ---------------------------------------------------------------------------
// What JSON cannot hold
// ---------------------------------------------------------------------------

/// A date or data anywhere in the value.
pub open spec fn json_invalid_nested(n: Node) -> bool
    decreases n, 0nat,
{
    match n {
        Node::Date(_) | Node::Data(_) => true,
        Node::Array(a) => any_invalid_item(a),
        Node::Dict(es) => any_invalid_entry(es),
        _ => false,
    }
}

pub open spec fn any_invalid_item(a: Seq<Node>) -> bool
    decreases a, 1nat,
{
    a.len() > 0 && (any_invalid_item(a.drop_last()) || json_invalid_nested(a.last()))
}

pub open spec fn any_invalid_entry(es: Entries) -> bool
    decreases es, 1nat,
{
    es.len() > 0 && (any_invalid_entry(es.drop_last()) || json_invalid_nested(es.last().1))
}

/// What JSON output refuses: a root that is no array or dictionary, or a
/// date or data inside it.
pub open spec fn json_invalid(n: Node) -> bool {
    match n {
        Node::Array(a) => any_invalid_item(a),
        Node::Dict(es) => any_invalid_entry(es),
        _ => true,
    }
}

fn items_invalid(a: &Vec<Value>) -> (b: bool)
    ensures
        b == any_invalid_item(models(a@)),
    decreases models(a@), 1nat,
{
    let mut i: usize = 0;
    assert(models(a@).take(0) =~= Seq::<Node>::empty());
    while i < a.len()
        invariant
            i <= a@.len(),
            !any_invalid_item(models(a@).take(i as int)),
        decreases a@.len() - i,
    {
        proof {
            assert(decreases_to!(models(a@) => models(a@)[i as int]));
        }
        assert(models(a@).take(i + 1).drop_last() =~= models(a@).take(i as int));
        if is_json_invalid_nested(&a[i]) {
            proof {
                lemma_any_item_prefix(models(a@), i + 1);
            }
            return true;
        }
        i += 1;
    }
    assert(models(a@).take(a@.len() as int) =~= models(a@));
    false
}

proof fn lemma_any_item_prefix(a: Seq<Node>, n: int)
    requires
        0 <= n <= a.len(),
        any_invalid_item(a.take(n)),
    ensures
        any_invalid_item(a),
    decreases a.len() - n,
{
    if n < a.len() {
        assert(a.take(n + 1).drop_last() =~= a.take(n));
        lemma_any_item_prefix(a, n + 1);
    } else {
        assert(a.take(n) =~= a);
    }
}

proof fn lemma_any_entry_prefix(es: Entries, n: int)
    requires
        0 <= n <= es.len(),
        any_invalid_entry(es.take(n)),
    ensures
        any_invalid_entry(es),
    decreases es.len() - n,
{
    if n < es.len() {
        assert(es.take(n + 1).drop_last() =~= es.take(n));
        lemma_any_entry_prefix(es, n + 1);
    } else {
        assert(es.take(n) =~= es);
    }
}

fn entries_invalid(d: &Dictionary) -> (b: bool)
    ensures
        b == any_invalid_entry(d@),
    decreases d@, 1nat,
{
    let es = d.iter();
    let mut i: usize = 0;
    assert(d@.take(0) =~= Seq::<(Seq<char>, Node)>::empty());
    while i < es.len()
        invariant
            i <= es@.len() == d@.len(),
            forall|j: int|
                0 <= j < es@.len() ==> (#[trigger] es@[j]).0@ == d@[j].0 && model(es@[j].1)
                    == d@[j].1,
            !any_invalid_entry(d@.take(i as int)),
        decreases es@.len() - i,
    {
        proof {
            assert(decreases_to!(d@ => d@[i as int]));
            assert(decreases_to!(d@[i as int] => d@[i as int].1));
        }
        assert(d@.take(i + 1).drop_last() =~= d@.take(i as int));
        if is_json_invalid_nested(&es[i].1) {
            proof {
                lemma_any_entry_prefix(d@, i + 1);
            }
            return true;
        }
        i += 1;
    }
    assert(d@.take(d@.len() as int) =~= d@);
    false
}

/// Whether a date or data is anywhere in the value.
pub fn is_json_invalid_nested(value: &Value) -> (b: bool)
    ensures
        b == json_invalid_nested(model(*value)),
    decreases model(*value), 0nat,
{
    match value {
        Value::Date(_) | Value::Data(_) => true,
        Value::Array(a) => {
            proof {
                assert(decreases_to!(model(*value) => model(*value)->Array_0));
            }
            items_invalid(a)
        },
        Value::Dictionary(d) => {
            proof {
                assert(decreases_to!(model(*value) => model(*value)->Dict_0));
            }
            entries_invalid(d)
        },
        _ => false,
    }
}

/// Whether JSON output refuses the value (see `json_invalid`).
pub fn is_json_invalid(value: &Value) -> (b: bool)
    ensures
        b == json_invalid(model(*value)),
{
    match value {
        Value::Array(a) => items_invalid(a),
        Value::Dictionary(d) => entries_invalid(d),
        _ => true,
    }
}

// ---------------------------------------------------------------------------
// Compact JSON
// ---------------------------------------------------------------------------

pub open spec fn bool_text(b: bool) -> Seq<char> {
    if b {
        "true"@
    } else {
        "false"@
    }
}

/// A value as compact JSON: reals are left for the caller to write (as
/// `%.17g` does); dates and data, which JSON output refuses beforehand,
/// come out as `null`.
pub open spec fn json_compact(n: Node) -> Seq<Out>
    decreases n, 0nat,
{
    match n {
        Node::Str(s) => seq![Out::Text(json_quoted(s))],
        Node::Int(i) => seq![Out::Text(int_text(i as int))],
        Node::Real(b) => seq![Out::Real(b)],
        Node::Bool(b) => seq![Out::Text(bool_text(b))],
        Node::Array(a) => seq![Out::Text("["@)] + compact_items(a) + seq![Out::Text("]"@)],
        Node::Dict(es) => seq![Out::Text("{"@)] + compact_entries(es) + seq![Out::Text("}"@)],
        _ => seq![Out::Text("null"@)],
    }
}

/// What goes between items: nothing before the first, a comma otherwise.
pub open spec fn sep_before(i: int, sep: Seq<char>) -> Seq<Out> {
    if i == 0 {
        Seq::empty()
    } else {
        seq![Out::Text(sep)]
    }
}

pub open spec fn compact_items(a: Seq<Node>) -> Seq<Out>
    decreases a, 1nat,
{
    if a.len() == 0 {
        Seq::empty()
    } else {
        compact_items(a.drop_last()) + sep_before(a.len() - 1, ","@) + json_compact(a.last())
    }
}

pub open spec fn compact_entries(es: Entries) -> Seq<Out>
    decreases es, 1nat,
{
    if es.len() == 0 {
        Seq::empty()
    } else {
        compact_entries(es.drop_last()) + sep_before(es.len() - 1, ","@) + seq![
            Out::Text(json_quoted(es.last().0) + ":"@),
        ] + json_compact(es.last().1)
    }
}

fn text_piece(s: &str) -> (p: Piece)
    ensures
        p@ == Out::Text(s@),
{
    Piece::Text(String::from_str(s))
}

fn push_sep(out: &mut Vec<Piece>, i: usize, sep: &str)
    ensures
        outs(final(out)@) == outs(old(out)@) + sep_before(i as int, sep@),
{
    if i > 0 {
        out.push(text_piece(sep));
        assert(outs(final(out)@) =~= outs(old(out)@) + sep_before(i as int, sep@));
    } else {
        assert(outs(final(out)@) =~= outs(old(out)@) + sep_before(i as int, sep@));
    }
}

fn push_text(out: &mut Vec<Piece>, t: String)
    ensures
        outs(final(out)@) == outs(old(out)@) + seq![Out::Text(t@)],
{
    out.push(Piece::Text(t));
    assert(outs(final(out)@) =~= outs(old(out)@) + seq![Out::Text(t@)]);
}

fn bool_string(b: bool) -> (r: String)
    ensures
        r@ == bool_text(b),
{
    if b {
        String::from_str("true")
    } else {
        String::from_str("false")
    }
}

fn compact_into(v: &Value, out: &mut Vec<Piece>)
    ensures
        outs(final(out)@) == outs(old(out)@) + json_compact(model(*v)),
    decreases model(*v), 0nat,
{
    let ghost o0 = outs(out@);
    match v {
        Value::String(s) => push_text(out, json_escape(s.as_str())),
        Value::Integer(i) => push_text(out, i64_text(*i)),
        Value::Real(b) => {
            out.push(Piece::Real(*b));
            assert(outs(out@) =~= o0 + json_compact(model(*v)));
        },
        Value::Boolean(b) => push_text(out, bool_string(*b)),
        Value::Array(a) => {
            push_text(out, String::from_str("["));
            proof {
                assert(decreases_to!(model(*v) => model(*v)->Array_0));
            }
            let ghost o1 = outs(out@);
            let mut i: usize = 0;
            assert(models(a@).take(0) =~= Seq::<Node>::empty());
            while i < a.len()
                invariant
                    i <= a@.len(),
                    model(*v) == Node::Array(models(a@)),
                    outs(out@) == o1 + compact_items(models(a@).take(i as int)),
                decreases a@.len() - i,
            {
                proof {
                    assert(decreases_to!(model(*v) => model(*v)->Array_0));
                    assert(decreases_to!(models(a@) => models(a@)[i as int]));
                }
                push_sep(out, i, ",");
                compact_into(&a[i], out);
                assert(models(a@).take(i + 1).drop_last() =~= models(a@).take(i as int));
                assert(outs(out@) =~= o1 + compact_items(models(a@).take(i + 1)));
                i += 1;
            }
            assert(models(a@).take(a@.len() as int) =~= models(a@));
            push_text(out, String::from_str("]"));
            assert(outs(out@) =~= o0 + json_compact(model(*v)));
        },
        Value::Dictionary(d) => {
            push_text(out, String::from_str("{"));
            proof {
                assert(decreases_to!(model(*v) => model(*v)->Dict_0));
            }
            let ghost o1 = outs(out@);
            let es = d.iter();
            let mut i: usize = 0;
            assert(d@.take(0) =~= Seq::<(Seq<char>, Node)>::empty());
            while i < es.len()
                invariant
                    i <= es@.len() == d@.len(),
                    forall|j: int|
                        0 <= j < es@.len() ==> (#[trigger] es@[j]).0@ == d@[j].0 && model(es@[j].1)
                            == d@[j].1,
                    model(*v) == Node::Dict(d@),
                    outs(out@) == o1 + compact_entries(d@.take(i as int)),
                decreases es@.len() - i,
            {
                proof {
                    assert(decreases_to!(model(*v) => model(*v)->Dict_0));
                    assert(decreases_to!(d@ => d@[i as int]));
                    assert(decreases_to!(d@[i as int] => d@[i as int].1));
                }
                push_sep(out, i, ",");
                let k = json_escape(es[i].0.as_str());
                push_text(out, cat2(k.as_str(), ":"));
                compact_into(&es[i].1, out);
                assert(d@.take(i + 1).drop_last() =~= d@.take(i as int));
                assert(outs(out@) =~= o1 + compact_entries(d@.take(i + 1)));
                i += 1;
            }
            assert(d@.take(d@.len() as int) =~= d@);
            push_text(out, String::from_str("}"));
            assert(outs(out@) =~= o0 + json_compact(model(*v)));
        },
        _ => push_text(out, String::from_str("null")),
    }
}

/// A value as compact JSON (see `json_compact`).
pub fn value_to_json_compact(value: &Value) -> (r: Vec<Piece>)
    ensures
        outs(r@) == json_compact(model(*value)),
{
    let mut out: Vec<Piece> = Vec::new();
    assert(outs(out@) =~= Seq::<Out>::empty());
    compact_into(value, &mut out);
    assert(outs(out@) =~= json_compact(model(*value)));
    out
}

// ---------------------------------------------------------------------------
// Readable JSON
// ---------------------------------------------------------------------------

/// `n` spaces.
pub open spec fn spaces(n: nat) -> Seq<char> {
    Seq::new(n, |i: int| ' ')
}

/// A value as readable JSON on lines that begin with `p` (`p` and two
/// more spaces inside a container), dictionary keys in natural order.
pub open spec fn json_readable(n: Node, p: Seq<char>) -> Seq<Out>
    decreases n, 0nat, 0nat,
{
    match n {
        Node::Array(a) => if a.len() == 0 {
            seq![Out::Text("[\n\n]"@)]
        } else {
            seq![Out::Text("[\n"@)] + readable_items(a, p + "  "@) + seq![
                Out::Text("\n"@ + p + "]"@),
            ]
        },
        Node::Dict(es) => if es.len() == 0 {
            seq![Out::Text("{\n\n}"@)]
        } else {
            seq![Out::Text("{\n"@)] + readable_entries(es, entry_order(es), p + "  "@) + seq![
                Out::Text("\n"@ + p + "}"@),
            ]
        },
        _ => json_compact(n),
    }
}

pub open spec fn readable_items(a: Seq<Node>, p: Seq<char>) -> Seq<Out>
    decreases a, 1nat, 0nat,
{
    if a.len() == 0 {
        Seq::empty()
    } else {
        readable_items(a.drop_last(), p) + sep_before(a.len() - 1, ",\n"@) + seq![Out::Text(p)]
            + json_readable(a.last(), p)
    }
}

/// The entries at the positions `order` lists, in that order.
pub open spec fn readable_entries(es: Entries, order: Seq<usize>, p: Seq<char>) -> Seq<Out>
    decreases es, 1nat, order.len(),
{
    if order.len() == 0 {
        Seq::empty()
    } else {
        let i = order.last() as int;
        readable_entries(es, order.drop_last(), p) + sep_before(order.len() - 1, ",\n"@) + if 0
            <= i < es.len() {
            seq![Out::Text(p + json_quoted(es[i].0) + " : "@)] + json_readable(es[i].1, p)
        } else {
            Seq::empty()
        }
    }
}

fn readable_into(v: &Value, p: &str, out: &mut Vec<Piece>)
    ensures
        outs(final(out)@) == outs(old(out)@) + json_readable(model(*v), p@),
    decreases model(*v), 0nat, 0nat,
{
    let ghost o0 = outs(out@);
    match v {
        Value::Array(a) => {
            if a.len() == 0 {
                push_text(out, String::from_str("[\n\n]"));
                return ;
            }
            push_text(out, String::from_str("[\n"));
            let inner = cat2(p, "  ");
            let ghost o1 = outs(out@);
            let mut i: usize = 0;
            assert(models(a@).take(0) =~= Seq::<Node>::empty());
            while i < a.len()
                invariant
                    i <= a@.len(),
                    model(*v) == Node::Array(models(a@)),
                    outs(out@) == o1 + readable_items(models(a@).take(i as int), inner@),
                decreases a@.len() - i,
            {
                proof {
                    assert(decreases_to!(model(*v) => model(*v)->Array_0));
                    assert(decreases_to!(models(a@) => models(a@)[i as int]));
                }
                push_sep(out, i, ",\n");
                push_text(out, String::from_str(inner.as_str()));
                readable_into(&a[i], inner.as_str(), out);
                assert(models(a@).take(i + 1).drop_last() =~= models(a@).take(i as int));
                assert(outs(out@) =~= o1 + readable_items(models(a@).take(i + 1), inner@));
                i += 1;
            }
            assert(models(a@).take(a@.len() as int) =~= models(a@));
            let mut close = String::from_str("\n");
            close.append(p);
            close.append("]");
            push_text(out, close);
            assert(outs(out@) =~= o0 + json_readable(model(*v), p@));
        },
        Value::Dictionary(d) => {
            if d.len() == 0 {
                push_text(out, String::from_str("{\n\n}"));
                return ;
            }
            push_text(out, String::from_str("{\n"));
            let inner = cat2(p, "  ");
            let ghost o1 = outs(out@);
            let es = d.iter();
            let order = natural_order_of(d);
            let mut t: usize = 0;
            assert(order@.take(0) =~= Seq::<usize>::empty());
            while t < order.len()
                invariant
                    t <= order@.len() == es@.len() == d@.len(),
                    order@ == entry_order(d@),
                    forall|j: int| 0 <= j < order@.len() ==> order@[j] < d@.len(),
                    forall|j: int|
                        0 <= j < es@.len() ==> (#[trigger] es@[j]).0@ == d@[j].0 && model(es@[j].1)
                            == d@[j].1,
                    model(*v) == Node::Dict(d@),
                    outs(out@) == o1 + readable_entries(d@, order@.take(t as int), inner@),
                decreases order@.len() - t,
            {
                let i = order[t];
                proof {
                    assert(decreases_to!(model(*v) => model(*v)->Dict_0));
                    assert(decreases_to!(d@ => d@[i as int]));
                    assert(decreases_to!(d@[i as int] => d@[i as int].1));
                }
                push_sep(out, t, ",\n");
                let mut line = String::from_str(inner.as_str());
                let k = json_escape(es[i].0.as_str());
                line.append(k.as_str());
                line.append(" : ");
                push_text(out, line);
                readable_into(&es[i].1, inner.as_str(), out);
                assert(order@.take(t + 1).drop_last() =~= order@.take(t as int));
                assert(outs(out@) =~= o1 + readable_entries(d@, order@.take(t + 1), inner@));
                t += 1;
            }
            assert(order@.take(order@.len() as int) =~= order@);
            let mut close = String::from_str("\n");
            close.append(p);
            close.append("}");
            push_text(out, close);
            assert(outs(out@) =~= o0 + json_readable(model(*v), p@));
        },
        _ => {
            compact_into(v, out);
        },
    }
}

/// A value as readable JSON, indented by `indent` steps of two spaces (see
/// `json_readable`).
pub fn value_to_json_readable(value: &Value, indent: usize) -> (r: Vec<Piece>)
    ensures
        outs(r@) == json_readable(model(*value), spaces(2 * indent as nat)),
{
    let mut p = String::new();
    let mut i: usize = 0;
    while i < indent
        invariant
            i <= indent,
            p@ == spaces(2 * i as nat),
        decreases indent - i,
    {
        push_char(&mut p, ' ');
        push_char(&mut p, ' ');
        assert(p@ =~= spaces(2 * (i + 1) as nat));
        i += 1;
    }
    let mut out: Vec<Piece> = Vec::new();
    assert(outs(out@) =~= Seq::<Out>::empty());
    readable_into(value, p.as_str(), &mut out);
    assert(outs(out@) =~= json_readable(model(*value), p@));
    out
}

} // verus!
