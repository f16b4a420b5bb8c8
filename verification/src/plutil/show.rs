use vstd::prelude::*;
use vstd::string::*;
use crate::output::{outs, Out, Piece};
use crate::plutil::base64::{base64_encode, base64_of};
use crate::plutil::json_write::{bool_text, hex_lower};
use crate::plutil::natural::{entry_order, natural_order_of};
use crate::text::{cat2, cat3, chars_of, i64_text, int_text, nat_text, push_char, u64_text};
use crate::value::{lemma_array_model, model, models, Dictionary, Entries, Node, Value};

verus! {

broadcast use lemma_array_model;

fn push_text(out: &mut Vec<Piece>, t: String)
    ensures
        outs(final(out)@) == outs(old(out)@) + seq![Out::Text(t@)],
{
    out.push(Piece::Text(t));
    assert(outs(final(out)@) =~= outs(old(out)@) + seq![Out::Text(t@)]);
}

fn push_piece(out: &mut Vec<Piece>, p: Piece)
    ensures
        outs(final(out)@) == outs(old(out)@) + seq![p@],
{
    let ghost v = p@;
    out.push(p);
    assert(outs(final(out)@) =~= outs(old(out)@) + seq![v]);
}

fn lit(s: &str) -> (r: String)
    ensures
        r@ == s@,
{
    String::from_str(s)
}

// ---------------------------------------------------------------------------
// Kinds
// ---------------------------------------------------------------------------

/// The name of a value's kind, as `-type` prints it and `-expect` takes it.
pub open spec fn kind_label(n: Node) -> Seq<char> {
    match n {
        Node::Str(_) => "string"@,
        Node::Int(_) => "integer"@,
        Node::Real(_) => "float"@,
        Node::Bool(_) => "bool"@,
        Node::Date(_) => "date"@,
        Node::Data(_) => "data"@,
        Node::Array(_) => "array"@,
        Node::Dict(_) => "dictionary"@,
    }
}

/// The name of a value's kind (see `kind_label`).
pub fn type_label(value: &Value) -> (r: &'static str)
    ensures
        r@ == kind_label(model(*value)),
{
    match value {
        Value::String(_) => "string",
        Value::Integer(_) => "integer",
        Value::Real(_) => "float",
        Value::Boolean(_) => "bool",
        Value::Date(_) => "date",
        Value::Data(_) => "data",
        Value::Array(_) => "array",
        Value::Dictionary(_) => "dictionary",
    }
}

/// Checks that the value at `keypath` is of the kind `expected`.
pub fn check_type(value: &Value, expected: &str, keypath: &str) -> (r: Result<(), String>)
    ensures
        r is Ok <==> kind_label(model(*value)) == expected@,
        r matches Err(m) ==> m@ == "Value at ["@ + keypath@ + "] expected to be "@ + expected@
            + " but is "@ + kind_label(model(*value)),
{
    let actual = type_label(value);
    if crate::text::text_is(actual, expected) {
        Ok(())
    } else {
        let mut m = lit("Value at [");
        m.append(keypath);
        m.append("] expected to be ");
        m.append(expected);
        m.append(" but is ");
        m.append(actual);
        Err(m)
    }
}

// ---------------------------------------------------------------------------
// Keys in string order
// ---------------------------------------------------------------------------

/// `a` comes before `b` in the order of `str`: by character codes, a
/// prefix first.
pub open spec fn text_lt(a: Seq<char>, b: Seq<char>) -> bool
    decreases a.len(),
{
    if b.len() == 0 {
        false
    } else if a.len() == 0 {
        true
    } else if (a[0] as u32) < (b[0] as u32) {
        true
    } else if (b[0] as u32) < (a[0] as u32) {
        false
    } else {
        text_lt(a.skip(1), b.skip(1))
    }
}

pub proof fn lemma_text_total(a: Seq<char>, b: Seq<char>)
    ensures
        text_lt(a, b) || a == b || text_lt(b, a),
        !(text_lt(a, b) && text_lt(b, a)),
        !text_lt(a, a),
    decreases a.len(),
{
    if a.len() > 0 && b.len() > 0 {
        lemma_text_total(a.skip(1), b.skip(1));
        if (a[0] as u32) == (b[0] as u32) && a.skip(1) == b.skip(1) {
            vstd::utf8::char_u32_cast(a[0], a[0] as u32);
            vstd::utf8::char_u32_cast(b[0], b[0] as u32);
            assert(a =~= seq![a[0]] + a.skip(1));
            assert(b =~= seq![b[0]] + b.skip(1));
        }
    } else if a.len() > 0 {
    } else if b.len() > 0 {
    } else {
        assert(a =~= b);
    }
    if a.len() > 0 {
        lemma_text_total(a.skip(1), a.skip(1));
    }
}

fn text_less(a: &str, b: &str) -> (r: bool)
    ensures
        r == text_lt(a@, b@),
{
    let va = chars_of(a);
    let vb = chars_of(b);
    let mut i: usize = 0;
    assert(va@.skip(0) =~= a@);
    assert(vb@.skip(0) =~= b@);
    loop
        invariant
            i <= va@.len(),
            i <= vb@.len(),
            text_lt(a@, b@) == text_lt(va@.skip(i as int), vb@.skip(i as int)),
        decreases va@.len() - i,
    {
        if i == vb.len() {
            return false;
        }
        if i == va.len() {
            return true;
        }
        let x = va[i] as u32;
        let y = vb[i] as u32;
        assert(va@.skip(i as int)[0] == va@[i as int]);
        assert(vb@.skip(i as int)[0] == vb@[i as int]);
        if x < y {
            return true;
        }
        if y < x {
            return false;
        }
        assert(va@.skip(i as int).skip(1) =~= va@.skip(i + 1));
        assert(vb@.skip(i as int).skip(1) =~= vb@.skip(i + 1));
        i += 1;
    }
}

/// The keys of a dictionary's entries, in order.
pub open spec fn key_list(es: Entries) -> Seq<Seq<char>> {
    Seq::new(es.len(), |i: int| es[i].0)
}

/// Each text no later than the next in the order of `str`.
pub open spec fn in_text_order(ks: Seq<Seq<char>>) -> bool {
    forall|i: int| 0 <= i < ks.len() - 1 ==> !#[trigger] text_lt(ks[i + 1], ks[i])
}

/// The texts of `ks`, in the order of `str` (a sort of `ks`).
pub open spec fn text_sorted(ks: Seq<Seq<char>>, r: Seq<Seq<char>>) -> bool {
    r.to_multiset() == ks.to_multiset() && in_text_order(r)
}

/// A dictionary's keys in the order of `str`.
pub fn sorted_keys(d: &Dictionary) -> (r: Vec<String>)
    ensures
        text_sorted(key_list(d@), crate::text::views(r@)),
{
    broadcast use vstd::multiset::group_multiset_axioms, vstd::seq_lib::group_to_multiset_ensures;

    let es = d.iter();
    let ghost keys = key_list(d@);
    let mut r: Vec<String> = Vec::new();
    let mut k: usize = 0;
    assert(crate::text::views(r@) =~= Seq::<Seq<char>>::empty());
    assert(keys.take(0) =~= Seq::<Seq<char>>::empty());
    while k < es.len()
        invariant
            k <= es@.len() == d@.len() == keys.len(),
            keys == key_list(d@),
            forall|j: int|
                0 <= j < es@.len() ==> (#[trigger] es@[j]).0@ == d@[j].0 && model(es@[j].1)
                    == d@[j].1,
            crate::text::views(r@).to_multiset() == keys.take(k as int).to_multiset(),
            in_text_order(crate::text::views(r@)),
        decreases es@.len() - k,
    {
        let key = &es[k].0;
        let ghost vr = crate::text::views(r@);
        let mut p = r.len();
        while p > 0 && text_less(key.as_str(), r[p - 1].as_str())
            invariant
                p <= r@.len(),
                vr == crate::text::views(r@),
                forall|q: int| p <= q < r@.len() ==> text_lt(key@, #[trigger] vr[q]),
            decreases p,
        {
            p -= 1;
        }
        proof {
            if p > 0 {
                lemma_text_total(key@, vr[p - 1]);
            }
        }
        r.insert(p, key.clone());
        let ghost nr = crate::text::views(r@);
        assert(nr =~= vr.insert(p as int, key@));
        assert forall|i: int| 0 <= i < nr.len() - 1 implies !#[trigger] text_lt(nr[i + 1], nr[i]) by {
            if i + 1 < p {
                assert(nr[i] == vr[i] && nr[i + 1] == vr[i + 1]);
            } else if i + 1 == p {
                assert(nr[i] == vr[i] && nr[i + 1] == key@);
            } else if i == p {
                assert(nr[i + 1] == vr[i]);
                lemma_text_total(key@, vr[i]);
            } else {
                assert(nr[i] == vr[i - 1] && nr[i + 1] == vr[i]);
                let h = i - 1;
                assert(!text_lt(vr[h + 1], vr[h]));
            }
        }
        assert(keys.take(k + 1) =~= keys.take(k as int).push(keys[k as int]));
        proof {
            vstd::seq_lib::to_multiset_insert(vr, p as int, key@);
            assert(keys[k as int] == key@);
            keys.take(k as int).to_multiset_ensures();
            assert(nr.to_multiset() == keys.take(k + 1).to_multiset());
        }
        k += 1;
    }
    assert(keys.take(es@.len() as int) =~= keys);
    r
}

/// The texts one per line: joined by line feeds.
pub open spec fn lines_of(ks: Seq<Seq<char>>) -> Seq<char>
    decreases ks.len(),
{
    if ks.len() == 0 {
        Seq::empty()
    } else if ks.len() == 1 {
        ks[0]
    } else {
        lines_of(ks.drop_last()) + "\n"@ + ks.last()
    }
}

fn join_lines(ks: &Vec<String>) -> (r: String)
    ensures
        r@ == lines_of(crate::text::views(ks@)),
{
    let ghost vk = crate::text::views(ks@);
    let mut r = String::new();
    let mut i: usize = 0;
    while i < ks.len()
        invariant
            i <= ks@.len(),
            vk == crate::text::views(ks@),
            r@ == lines_of(vk.take(i as int)),
        decreases ks@.len() - i,
    {
        if i > 0 {
            r.append("\n");
        }
        r.append(ks[i].as_str());
        assert(vk.take(i + 1).drop_last() =~= vk.take(i as int));
        assert(r@ =~= lines_of(vk.take(i + 1)));
        i += 1;
    }
    assert(vk.take(ks@.len() as int) =~= vk);
    r
}

// ---------------------------------------------------------------------------
// Raw output
// ---------------------------------------------------------------------------

/// What `-extract ... raw` prints for a value, but for a dictionary: reals
/// are left for the caller to write as `%.6f` does, dates as RFC 3339 in
/// UTC (`YYYY-MM-DDTHH:MM:SSZ`).
pub open spec fn raw_scalar(n: Node) -> Seq<Out> {
    match n {
        Node::Str(s) => seq![Out::Text(s)],
        Node::Int(i) => seq![Out::Text(int_text(i as int))],
        Node::Real(b) => seq![Out::Real(b)],
        Node::Bool(b) => seq![Out::Text(bool_text(b))],
        Node::Date(d) => seq![Out::Date(d)],
        Node::Data(b) => seq![Out::Text(base64_of(b))],
        Node::Array(a) => seq![Out::Text(nat_text(a.len()))],
        Node::Dict(_) => Seq::empty(),
    }
}

/// What `-extract ... raw` prints for a value (see `raw_scalar`); for a
/// dictionary its keys, one per line, in the order of `str`.
pub fn format_raw(value: &Value) -> (r: Vec<Piece>)
    ensures
        model(*value) is Dict ==> exists|ks: Seq<Seq<char>>|
            #![trigger text_sorted(key_list(model(*value)->Dict_0), ks)]
            text_sorted(key_list(model(*value)->Dict_0), ks) && outs(r@) == seq![
                Out::Text(lines_of(ks)),
            ],
        !(model(*value) is Dict) ==> outs(r@) == raw_scalar(model(*value)),
{
    let mut out: Vec<Piece> = Vec::new();
    assert(outs(out@) =~= Seq::<Out>::empty());
    match value {
        Value::Dictionary(d) => {
            assert(model(*value) == Node::Dict(d@));
            let ks = sorted_keys(d);
            let t = join_lines(&ks);
            push_text(&mut out, t);
            let ghost w = crate::text::views(ks@);
            assert(text_sorted(key_list(d@), w) && outs(out@) == seq![Out::Text(lines_of(w))]);
            assert(model(*value)->Dict_0 == d@);
            assert(text_sorted(key_list(model(*value)->Dict_0), w));
            assert(exists|ks2: Seq<Seq<char>>|
                #![trigger text_sorted(key_list(model(*value)->Dict_0), ks2)]
                text_sorted(key_list(model(*value)->Dict_0), ks2) && outs(out@) == seq![
                    Out::Text(lines_of(ks2)),
                ]);
            return out;
        },
        Value::String(s) => push_text(&mut out, s.clone()),
        Value::Integer(i) => push_text(&mut out, i64_text(*i)),
        Value::Real(b) => push_piece(&mut out, Piece::Real(*b)),
        Value::Boolean(b) => push_text(
            &mut out,
            if *b {
                lit("true")
            } else {
                lit("false")
            },
        ),
        Value::Date(d) => push_piece(&mut out, Piece::Date(*d)),
        Value::Data(b) => push_text(&mut out, base64_encode(b.as_slice())),
        Value::Array(a) => push_text(&mut out, u64_text(a.len() as u64)),
    }
    assert(outs(out@) == raw_scalar(model(*value)));
    out
}

// ---------------------------------------------------------------------------
// Human-readable output (-p)
// ---------------------------------------------------------------------------

/// A byte in lowercase hexadecimal without leading zero.
pub open spec fn short_hex(b: u8) -> Seq<char> {
    if b < 16 {
        seq![hex_lower(b as int)]
    } else {
        seq![hex_lower(b as int / 16), hex_lower(b as int % 16)]
    }
}

pub open spec fn short_hexes(b: Seq<u8>) -> Seq<char>
    decreases b.len(),
{
    if b.len() == 0 {
        Seq::empty()
    } else {
        short_hexes(b.drop_last()) + short_hex(b.last())
    }
}

fn hex_char(d: u8) -> (c: char)
    requires
        d < 16,
    ensures
        c == hex_lower(d as int),
{
    if d < 10 {
        (48 + d) as char
    } else {
        (87 + d) as char
    }
}

fn short_hexes_text(b: &[u8]) -> (r: String)
    ensures
        r@ == short_hexes(b@),
{
    let mut r = String::new();
    let mut i: usize = 0;
    while i < b.len()
        invariant
            i <= b@.len(),
            r@ == short_hexes(b@.take(i as int)),
        decreases b@.len() - i,
    {
        let x = b[i];
        if x >= 16 {
            push_char(&mut r, hex_char(x / 16));
        }
        push_char(&mut r, hex_char(x % 16));
        assert(b@.take(i + 1).drop_last() =~= b@.take(i as int));
        assert(r@ =~= short_hexes(b@.take(i + 1)));
        i += 1;
    }
    assert(b@.take(b@.len() as int) =~= b@);
    r
}

/// A value as `-p` shows it, nested lines beginning with `p` and two more
/// spaces; dictionary keys in natural order.  Reals are left for the
/// caller (a whole number below 10^15 in size as an integer, otherwise as
/// `{}` writes it), dates too (`YYYY-MM-DD HH:MM:SS +0000`, in UTC).
pub open spec fn shown(n: Node, p: Seq<char>) -> Seq<Out>
    decreases n, 0nat, 0nat,
{
    match n {
        Node::Str(s) => seq![Out::Text("\""@ + s + "\""@)],
        Node::Int(i) => seq![Out::Text(int_text(i as int))],
        Node::Real(b) => seq![Out::Real(b)],
        Node::Bool(b) => seq![Out::Text(bool_text(b))],
        Node::Date(d) => seq![Out::Date(d)],
        Node::Data(b) => seq![
            Out::Text(
                "{length = "@ + nat_text(b.len()) + ", bytes = 0x"@ + short_hexes(b) + "}"@,
            ),
        ],
        Node::Array(a) => seq![Out::Text("[\n"@)] + shown_items(a, p, a.len()) + seq![
            Out::Text(p + "]"@),
        ],
        Node::Dict(es) => seq![Out::Text("{\n"@)] + shown_entries(es, entry_order(es), p) + seq![
            Out::Text(p + "}"@),
        ],
    }
}

/// The first `n` items of an array, each on its own line after its index.
pub open spec fn shown_items(a: Seq<Node>, p: Seq<char>, n: nat) -> Seq<Out>
    decreases a, 1nat, n,
{
    if n == 0 || n > a.len() {
        Seq::empty()
    } else {
        shown_items(a, p, (n - 1) as nat) + seq![
            Out::Text(p + "  "@ + nat_text((n - 1) as nat) + " => "@),
        ] + shown(a[n - 1], p + "  "@) + seq![Out::Text("\n"@)]
    }
}

pub open spec fn shown_entries(es: Entries, order: Seq<usize>, p: Seq<char>) -> Seq<Out>
    decreases es, 1nat, order.len(),
{
    if order.len() == 0 {
        Seq::empty()
    } else {
        let i = order.last() as int;
        shown_entries(es, order.drop_last(), p) + if 0 <= i < es.len() {
            seq![Out::Text(p + "  \""@ + es[i].0 + "\" => "@)] + shown(es[i].1, p + "  "@) + seq![
                Out::Text("\n"@),
            ]
        } else {
            Seq::empty()
        }
    }
}

fn shown_items_into(a: &Vec<Value>, p: &str, out: &mut Vec<Piece>)
    ensures
        outs(final(out)@) == outs(old(out)@) + shown_items(models(a@), p@, a@.len()),
    decreases models(a@), 1nat, a@.len() + 1,
{
    let ghost o0 = outs(out@);
    let inner = cat2(p, "  ");
    let mut i: usize = 0;
    while i < a.len()
        invariant
            i <= a@.len(),
            inner@ == p@ + "  "@,
            outs(out@) == o0 + shown_items(models(a@), p@, i as nat),
        decreases a@.len() - i,
    {
        proof {
            assert(decreases_to!(models(a@) => models(a@)[i as int]));
        }
        let n = u64_text(i as u64);
        push_text(out, cat3(inner.as_str(), n.as_str(), " => "));
        shown_into(&a[i], inner.as_str(), out);
        push_text(out, lit("\n"));
        assert(outs(out@) =~= o0 + shown_items(models(a@), p@, (i + 1) as nat));
        i += 1;
    }
}

fn shown_entries_into(d: &Dictionary, p: &str, out: &mut Vec<Piece>)
    ensures
        outs(final(out)@) == outs(old(out)@) + shown_entries(d@, entry_order(d@), p@),
    decreases d@, 1nat, entry_order(d@).len() + 1,
{
    let ghost o0 = outs(out@);
    let es = d.iter();
    let order = natural_order_of(d);
    let inner = cat2(p, "  ");
    let mut t: usize = 0;
    assert(order@.take(0) =~= Seq::<usize>::empty());
    while t < order.len()
        invariant
            t <= order@.len() == es@.len() == d@.len(),
            order@ == entry_order(d@),
            inner@ == p@ + "  "@,
            forall|j: int| 0 <= j < order@.len() ==> order@[j] < d@.len(),
            forall|j: int|
                0 <= j < es@.len() ==> (#[trigger] es@[j]).0@ == d@[j].0 && model(es@[j].1)
                    == d@[j].1,
            outs(out@) == o0 + shown_entries(d@, order@.take(t as int), p@),
        decreases order@.len() - t,
    {
        let i = order[t];
        proof {
            assert(decreases_to!(d@ => d@[i as int]));
            assert(decreases_to!(d@[i as int] => d@[i as int].1));
        }
        let mut line = lit(p);
        line.append("  \"");
        line.append(es[i].0.as_str());
        line.append("\" => ");
        push_text(out, line);
        shown_into(&es[i].1, inner.as_str(), out);
        push_text(out, lit("\n"));
        assert(order@.take(t + 1).drop_last() =~= order@.take(t as int));
        assert(outs(out@) =~= o0 + shown_entries(d@, order@.take(t + 1), p@));
        t += 1;
    }
    assert(order@.take(order@.len() as int) =~= order@);
}

fn shown_into(v: &Value, p: &str, out: &mut Vec<Piece>)
    ensures
        outs(final(out)@) == outs(old(out)@) + shown(model(*v), p@),
    decreases model(*v), 0nat, 0nat,
{
    let ghost o0 = outs(out@);
    match v {
        Value::String(s) => push_text(out, cat3("\"", s.as_str(), "\"")),
        Value::Integer(i) => push_text(out, i64_text(*i)),
        Value::Real(b) => push_piece(out, Piece::Real(*b)),
        Value::Boolean(b) => push_text(
            out,
            if *b {
                lit("true")
            } else {
                lit("false")
            },
        ),
        Value::Date(d) => push_piece(out, Piece::Date(*d)),
        Value::Data(b) => {
            let mut t = lit("{length = ");
            let n = u64_text(b.len() as u64);
            t.append(n.as_str());
            t.append(", bytes = 0x");
            let h = short_hexes_text(b.as_slice());
            t.append(h.as_str());
            t.append("}");
            push_text(out, t);
        },
        Value::Array(a) => {
            push_text(out, lit("[\n"));
            proof {
                assert(decreases_to!(model(*v) => model(*v)->Array_0));
            }
            shown_items_into(a, p, out);
            push_text(out, cat2(p, "]"));
            assert(outs(out@) =~= o0 + shown(model(*v), p@));
        },
        Value::Dictionary(d) => {
            push_text(out, lit("{\n"));
            proof {
                assert(decreases_to!(model(*v) => model(*v)->Dict_0));
            }
            shown_entries_into(d, p, out);
            push_text(out, cat2(p, "}"));
            assert(outs(out@) =~= o0 + shown(model(*v), p@));
        },
    }
}

/// What `-p` prints for a plist: the value, then a line feed.
pub fn pretty_print(value: &Value) -> (r: Vec<Piece>)
    ensures
        outs(r@) == shown(model(*value), Seq::empty()) + seq![Out::Text("\n"@)],
{
    let mut out: Vec<Piece> = Vec::new();
    assert(outs(out@) =~= Seq::<Out>::empty());
    proof {
        reveal_strlit("");
        assert(""@ =~= Seq::<char>::empty());
    }
    shown_into(value, "", &mut out);
    push_text(&mut out, lit("\n"));
    assert(outs(out@) =~= shown(model(*value), Seq::empty()) + seq![Out::Text("\n"@)]);
    out
}

} // verus!
