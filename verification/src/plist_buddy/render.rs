use vstd::prelude::*;
use vstd::string::*;
use crate::output::{outs, Out, Piece};
use crate::text::{i64_text, int_text};
use crate::value::{lemma_array_model, model, models, Dictionary, Entries, Node, Value};

verus! {

broadcast use lemma_array_model;

/// A scalar as it ends a line of `Print`: text, or a real or a date for the
/// caller to format, then the line break.
pub open spec fn render_scalar(n: Node) -> Seq<Out> {
    match n {
        Node::Str(s) => seq![Out::Text(s + "\n"@)],
        Node::Int(i) => seq![Out::Text(int_text(i as int) + "\n"@)],
        Node::Real(b) => seq![Out::Real(b), Out::Text("\n"@)],
        Node::Bool(b) => seq![Out::Text(if b { "true\n"@ } else { "false\n"@ })],
        Node::Date(d) => seq![Out::Date(d), Out::Text("\n"@)],
        Node::Data(b) => seq![Out::Bytes(b), Out::Text("\n"@)],
        _ => Seq::empty(),
    }
}

/// `Print` of a value on lines that begin with `p`.
pub open spec fn render(n: Node, p: Seq<char>) -> Seq<Out>
    decreases n, 0nat,
{
    match n {
        Node::Array(a) => seq![Out::Text(p + "Array {\n"@)] + render_items(a, p + "    "@) + seq![
            Out::Text(p + "}\n"@),
        ],
        Node::Dict(es) => seq![Out::Text(p + "Dict {\n"@)] + render_entries(es, p + "    "@)
            + seq![Out::Text(p + "}\n"@)],
        _ => seq![Out::Text(p)] + render_scalar(n),
    }
}

/// A value after `key = `, on a line that begins with `p`.
pub open spec fn render_inline(n: Node, p: Seq<char>) -> Seq<Out>
    decreases n, 0nat,
{
    match n {
        Node::Array(a) => seq![Out::Text("Array {\n"@)] + render_items(a, p + "    "@) + seq![
            Out::Text(p + "}\n"@),
        ],
        Node::Dict(es) => seq![Out::Text("Dict {\n"@)] + render_entries(es, p + "    "@) + seq![
            Out::Text(p + "}\n"@),
        ],
        _ => render_scalar(n),
    }
}

pub open spec fn render_items(items: Seq<Node>, p: Seq<char>) -> Seq<Out>
    decreases items, 1nat,
{
    if items.len() == 0 {
        Seq::empty()
    } else {
        render_items(items.drop_last(), p) + render(items.last(), p)
    }
}

pub open spec fn render_entries(es: Entries, p: Seq<char>) -> Seq<Out>
    decreases es, 1nat,
{
    if es.len() == 0 {
        Seq::empty()
    } else {
        let (k, v) = es.last();
        render_entries(es.drop_last(), p) + seq![Out::Text(p + k + " = "@)] + if v is Array
            || v is Dict {
            render_inline(v, p)
        } else {
            render_scalar(v)
        }
    }
}


fn text_piece(s: &str) -> (p: Piece)
    ensures
        p@ == Out::Text(s@),
{
    Piece::Text(String::from_str(s))
}

fn push2(out: &mut Vec<Piece>, a: Piece, b: Piece)
    ensures
        outs(final(out)@) == outs(old(out)@) + seq![a@, b@],
{
    out.push(a);
    out.push(b);
    assert(outs(out@) =~= outs(old(out)@) + seq![a@, b@]);
}

/// Writes a scalar as it ends a `Print` line.
pub fn print_scalar_inline(v: &Value, out: &mut Vec<Piece>)
    ensures
        outs(final(out)@) == outs(old(out)@) + render_scalar(model(*v)),
{
    match v {
        Value::String(s) => {
            let line = crate::text::cat2(s.as_str(), "\n");
            out.push(Piece::Text(line));
            assert(outs(out@) =~= outs(old(out)@) + render_scalar(model(*v)));
        },
        Value::Integer(i) => {
            let t = i64_text(*i);
            let line = crate::text::cat2(t.as_str(), "\n");
            out.push(Piece::Text(line));
            assert(outs(out@) =~= outs(old(out)@) + render_scalar(model(*v)));
        },
        Value::Real(b) => push2(out, Piece::Real(*b), text_piece("\n")),
        Value::Boolean(b) => {
            out.push(text_piece(if *b { "true\n" } else { "false\n" }));
            assert(outs(out@) =~= outs(old(out)@) + render_scalar(model(*v)));
        },
        Value::Date(d) => push2(out, Piece::Date(*d), text_piece("\n")),
        Value::Data(b) => push2(out, Piece::Bytes(crate::value::copy_bytes(b.as_slice())), text_piece("\n")),
        _ => {
            assert(outs(out@) =~= outs(old(out)@) + render_scalar(model(*v)));
        },
    }
}

/// `Print` of a value on lines that begin with `prefix`.
pub fn print_value(v: &Value, prefix: &str, out: &mut Vec<Piece>)
    ensures
        outs(final(out)@) == outs(old(out)@) + render(model(*v), prefix@),
    decreases model(*v), 0nat,
{
    let ghost o0 = outs(out@);
    match v {
        Value::Array(a) => {
            let first = Piece::Text(crate::text::cat2(prefix, "Array {\n"));
            let ghost f = first@;
            out.push(first);
            assert(outs(out@) =~= o0.push(f));
            let ghost o1 = outs(out@);
            let inner = crate::text::cat2(prefix, "    ");
            proof {
                assert(model(*v) == Node::Array(models(a@)));
                assert(decreases_to!(model(*v) => model(*v)->Array_0));
            }
            print_items(a, inner.as_str(), out);
            let ghost o2 = outs(out@);
            let last = Piece::Text(crate::text::cat2(prefix, "}\n"));
            let ghost l = last@;
            out.push(last);
            assert(outs(out@) =~= o2.push(l));
            assert(outs(out@) =~= o0 + render(model(*v), prefix@));
        },
        Value::Dictionary(d) => {
            let first = Piece::Text(crate::text::cat2(prefix, "Dict {\n"));
            let ghost f = first@;
            out.push(first);
            assert(outs(out@) =~= o0.push(f));
            let ghost o1 = outs(out@);
            let inner = crate::text::cat2(prefix, "    ");
            proof {
                assert(model(*v) == Node::Dict(d@));
                assert(decreases_to!(model(*v) => model(*v)->Dict_0));
            }
            print_entries(d, inner.as_str(), out);
            let ghost o2 = outs(out@);
            let last = Piece::Text(crate::text::cat2(prefix, "}\n"));
            let ghost l = last@;
            out.push(last);
            assert(outs(out@) =~= o2.push(l));
            assert(outs(out@) =~= o0 + render(model(*v), prefix@));
        },
        _ => {
            out.push(Piece::Text(String::from_str(prefix)));
            print_scalar_inline(v, out);
            assert(outs(out@) =~= o0 + render(model(*v), prefix@));
        },
    }
}

/// A value after `key = ` on a line that begins with `prefix`.
pub fn print_value_inline(v: &Value, prefix: &str, out: &mut Vec<Piece>)
    ensures
        outs(final(out)@) == outs(old(out)@) + render_inline(model(*v), prefix@),
    decreases model(*v), 0nat,
{
    let ghost o0 = outs(out@);
    match v {
        Value::Array(a) => {
            let first = text_piece("Array {\n");
            let ghost f = first@;
            out.push(first);
            assert(outs(out@) =~= o0.push(f));
            let ghost o1 = outs(out@);
            let inner = crate::text::cat2(prefix, "    ");
            proof {
                assert(model(*v) == Node::Array(models(a@)));
                assert(decreases_to!(model(*v) => model(*v)->Array_0));
            }
            print_items(a, inner.as_str(), out);
            let ghost o2 = outs(out@);
            let last = Piece::Text(crate::text::cat2(prefix, "}\n"));
            let ghost l = last@;
            out.push(last);
            assert(outs(out@) =~= o2.push(l));
            assert(outs(out@) =~= o0 + render_inline(model(*v), prefix@));
        },
        Value::Dictionary(d) => {
            let first = text_piece("Dict {\n");
            let ghost f = first@;
            out.push(first);
            assert(outs(out@) =~= o0.push(f));
            let ghost o1 = outs(out@);
            let inner = crate::text::cat2(prefix, "    ");
            proof {
                assert(model(*v) == Node::Dict(d@));
                assert(decreases_to!(model(*v) => model(*v)->Dict_0));
            }
            print_entries(d, inner.as_str(), out);
            let ghost o2 = outs(out@);
            let last = Piece::Text(crate::text::cat2(prefix, "}\n"));
            let ghost l = last@;
            out.push(last);
            assert(outs(out@) =~= o2.push(l));
            assert(outs(out@) =~= o0 + render_inline(model(*v), prefix@));
        },
        _ => {
            print_scalar_inline(v, out);
        },
    }
}

fn print_items(a: &Vec<Value>, prefix: &str, out: &mut Vec<Piece>)
    ensures
        outs(final(out)@) == outs(old(out)@) + render_items(models(a@), prefix@),
    decreases models(a@), 1nat,
{
    let ghost o0 = outs(out@);
    let mut i: usize = 0;
    assert(models(a@).take(0) =~= Seq::<Node>::empty());
    while i < a.len()
        invariant
            0 <= i <= a@.len(),
            outs(out@) == o0 + render_items(models(a@).take(i as int), prefix@),
        decreases a@.len() - i,
    {
        proof {
            assert(decreases_to!(models(a@) => models(a@)[i as int]));
        }
        let ghost before = outs(out@);
        print_value(&a[i], prefix, out);
        assert(models(a@).take(i + 1).drop_last() =~= models(a@).take(i as int));
        assert(models(a@).take(i + 1).last() == model(a@[i as int]));
        assert(outs(out@) =~= o0 + render_items(models(a@).take(i + 1), prefix@));
        i += 1;
    }
    assert(models(a@).take(a@.len() as int) =~= models(a@));
}

fn print_entries(d: &Dictionary, prefix: &str, out: &mut Vec<Piece>)
    ensures
        outs(final(out)@) == outs(old(out)@) + render_entries(d@, prefix@),
    decreases d@, 1nat,
{
    let ghost o0 = outs(out@);
    let es = d.iter();
    let mut i: usize = 0;
    assert(d@.take(0) =~= Seq::<(Seq<char>, Node)>::empty());
    while i < es.len()
        invariant
            0 <= i <= es@.len(),
            es@.len() == d@.len(),
            forall|j: int|
                0 <= j < es@.len() ==> (#[trigger] es@[j]).0@ == d@[j].0 && model(es@[j].1)
                    == d@[j].1,
            outs(out@) == o0 + render_entries(d@.take(i as int), prefix@),
        decreases es@.len() - i,
    {
        let k = &es[i].0;
        let v = &es[i].1;
        proof {
            assert(decreases_to!(d@ => d@[i as int]));
            assert(decreases_to!(d@[i as int] => d@[i as int].1));
        }
        let ghost before = outs(out@);
        out.push(Piece::Text(crate::text::cat3(prefix, k.as_str(), " = ")));
        let ghost line = seq![Out::Text(prefix@ + d@[i as int].0 + " = "@)];
        assert(outs(out@) =~= before + line);
        let ghost mid = outs(out@);
        match v {
            Value::Array(_) | Value::Dictionary(_) => {
                print_value_inline(v, prefix, out);
                assert(d@[i as int].1 is Array || d@[i as int].1 is Dict);
                assert(outs(out@) == mid + render_inline(d@[i as int].1, prefix@));
            },
            _ => {
                print_scalar_inline(v, out);
                assert(!(d@[i as int].1 is Array || d@[i as int].1 is Dict));
                assert(outs(out@) == mid + render_scalar(d@[i as int].1));
            },
        }
        assert(d@.take(i + 1).drop_last() =~= d@.take(i as int));
        assert(d@.take(i + 1).last() == d@[i as int]);
        assert(outs(out@) =~= o0 + render_entries(d@.take(i + 1), prefix@));
        i += 1;
    }
    assert(d@.take(d@.len() as int) =~= d@);
}

} // verus!
