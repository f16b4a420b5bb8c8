use vstd::prelude::*;

use crate::output::Out;
use crate::plutil::codegen::swift_value;
use crate::plutil::show::{shown, shown_items};
use crate::plutil::json::{
    array_spec, elements_spec, number_end, number_spec, skip_ws, starts_at, string_at_spec, value_spec, JsonOut,
};
use crate::plutil::json_write::{
    bool_text, compact_entries, compact_items, escaped, json_compact, json_quoted, json_readable,
    law_json_string_round_trip, lemma_read_escaped, readable_entries, readable_items, sep_before,
};
use crate::plutil::natural::{entry_order, insert_pos, keys_of, natural_rank, sorted_positions};
use crate::num::{all_digits, digit_val, digits_value, is_digit, parse_i64};
use crate::plutil::natural::{digit_run, non_digit};
use crate::text::{int_text, is_ws, lemma_first_where, nat_text, non_ws_pred};
use crate::value::{Entries, Node};

verus! {

/// Text that begins with a character other than whitespace is read from
/// its start.
proof fn lemma_no_lead_ws(s: Seq<char>)
    requires
        s.len() > 0,
        !is_ws(s[0]),
    ensures
        skip_ws(s, 0) == 0,
{
    assert(s.subrange(0, s.len() as int) =~= s);
    lemma_first_where(s, non_ws_pred(), 0);
}

/// After any whitespace, the JSON literals `true` and `false` read as the
/// Booleans true and false, and `null` as the empty string, each taking
/// exactly its own letters, whatever follows.
pub proof fn law_json_literals(s: Seq<char>, i: int, k: int, reals: Seq<Option<u64>>)
    requires
        0 <= i <= s.len(),
    ensures
        starts_at(s, skip_ws(s, i), seq!['t', 'r', 'u', 'e']) ==> value_spec(s, i, k, reals)
            == JsonOut::Done(Node::Bool(true), skip_ws(s, i) + 4, k),
        starts_at(s, skip_ws(s, i), seq!['f', 'a', 'l', 's', 'e']) ==> value_spec(s, i, k, reals)
            == JsonOut::Done(Node::Bool(false), skip_ws(s, i) + 5, k),
        starts_at(s, skip_ws(s, i), seq!['n', 'u', 'l', 'l']) ==> value_spec(s, i, k, reals)
            == JsonOut::Done(Node::Str(Seq::empty()), skip_ws(s, i) + 4, k),
{
    let j = skip_ws(s, i);
    crate::plutil::json::lemma_skip_ws(s, i);
    if starts_at(s, j, seq!['t', 'r', 'u', 'e']) {
        assert(s[j] == s.subrange(j, j + 4)[0]);
    }
    if starts_at(s, j, seq!['f', 'a', 'l', 's', 'e']) {
        assert(s[j] == s.subrange(j, j + 5)[0]);
        assert(!starts_at(s, j, seq!['t', 'r', 'u', 'e'])) by {
            if j + 4 <= s.len() {
                assert(s.subrange(j, j + 4)[0] == s[j]);
            }
        }
    }
    if starts_at(s, j, seq!['n', 'u', 'l', 'l']) {
        assert(s[j] == s.subrange(j, j + 4)[0]);
        assert(!starts_at(s, j, seq!['t', 'r', 'u', 'e'])) by {
            assert(s.subrange(j, j + 4)[0] == s[j]);
        }
        assert(!starts_at(s, j, seq!['f', 'a', 'l', 's', 'e'])) by {
            if j + 5 <= s.len() {
                assert(s.subrange(j, j + 5)[0] == s[j]);
            }
        }
    }
}

/// A Boolean written as JSON reads back as itself, taking exactly the text
/// written, whatever follows it.
pub proof fn law_json_bool_round_trip(b: bool, rest: Seq<char>, k: int, reals: Seq<Option<u64>>)
    ensures
        value_spec(bool_text(b) + rest, 0, k, reals) == JsonOut::Done(
            Node::Bool(b),
            bool_text(b).len() as int,
            k,
        ),
{
    reveal_strlit("true");
    reveal_strlit("false");
    let t = bool_text(b);
    let s = t + rest;
    if b {
        assert(t =~= seq!['t', 'r', 'u', 'e']);
    } else {
        assert(t =~= seq!['f', 'a', 'l', 's', 'e']);
    }
    assert(s[0] == t[0]);
    lemma_no_lead_ws(s);
    assert(s.subrange(0, t.len() as int) =~= t);
    law_json_literals(s, 0, k, reals);
    if !b {
        assert(!starts_at(s, 0, seq!['t', 'r', 'u', 'e'])) by {
            assert(s.subrange(0, 4)[0] == 'f');
        }
    }
}

/// A string written as JSON reads back as itself, taking exactly the text
/// written, whatever follows it.
pub proof fn law_json_str_round_trip(x: Seq<char>, rest: Seq<char>, k: int, reals: Seq<Option<u64>>)
    ensures
        value_spec(json_quoted(x) + rest, 0, k, reals) == JsonOut::Done(
            Node::Str(x),
            json_quoted(x).len() as int,
            k,
        ),
{
    let s = json_quoted(x) + rest;
    assert(s[0] == '"');
    lemma_no_lead_ws(s);
    law_json_string_round_trip(x, rest);
}

/// Swift source for a date denotes the date's own instant: it calls
/// `Date(timeIntervalSinceReferenceDate:)`, which counts seconds from
/// 2001-01-01 as the value does, with the value's own seconds and no
/// others.
pub proof fn law_swift_date(d: u64, q: Seq<char>)
    ensures
        swift_value(Node::Date(d), q).len() > 1,
        swift_value(Node::Date(d), q)[0] == Out::Text("Date(timeIntervalSinceReferenceDate: "@),
        swift_value(Node::Date(d), q)[1] == Out::Date(d),
        forall|i: int|
            0 <= i < swift_value(Node::Date(d), q).len() && #[trigger] swift_value(
                Node::Date(d),
                q,
            )[i] is Date ==> i == 1,
{
}

/// The first `k` item lines of an array depend on its first `k` items only.
proof fn lemma_shown_items_prefix(a: Seq<Node>, x: Node, p: Seq<char>, k: nat)
    requires
        k <= a.len(),
    ensures
        shown_items(a.push(x), p, k) == shown_items(a, p, k),
    decreases k,
{
    if k > 0 {
        lemma_shown_items_prefix(a, x, p, (k - 1) as nat);
        assert(a.push(x)[k - 1] == a[k - 1]);
    }
}

/// In `-p` output, appending an element to an array adds one item line
/// before the closing bracket, which begins with the element's own
/// position (the prefix, two spaces, the position in decimal and ` => `)
/// and shows the element; the lines before it stay as they were.
pub proof fn law_shown_array_push(a: Seq<Node>, x: Node, p: Seq<char>)
    ensures
        shown(Node::Array(a.push(x)), p) == shown(Node::Array(a), p).drop_last() + seq![
            Out::Text(p + "  "@ + nat_text(a.len()) + " => "@),
        ] + shown(x, p + "  "@) + seq![Out::Text("\n"@), Out::Text(p + "]"@)],
{
    let b = a.push(x);
    lemma_shown_items_prefix(a, x, p, a.len());
    assert(b[b.len() - 1] == x);
    let head = seq![Out::Text("[\n"@)] + shown_items(a, p, a.len());
    assert(shown(Node::Array(a), p) == head + seq![Out::Text(p + "]"@)]);
    assert((head + seq![Out::Text(p + "]"@)]).drop_last() =~= head);
    assert(shown(Node::Array(b), p) =~= head + seq![
        Out::Text(p + "  "@ + nat_text(a.len()) + " => "@),
    ] + shown(x, p + "  "@) + seq![Out::Text("\n"@), Out::Text(p + "]"@)]);
}

// ---------------------------------------------------------------------------
// Readable and compact JSON
// ---------------------------------------------------------------------------

/// Layout in JSON text: spaces and line feeds.
pub open spec fn is_layout(c: char) -> bool {
    c == ' ' || c == '\n'
}

/// The characters of a text that are not layout, one piece each.
pub open spec fn bare_text(t: Seq<char>) -> Seq<Out>
    decreases t.len(),
{
    if t.len() == 0 {
        Seq::empty()
    } else {
        bare_text(t.drop_last()) + if is_layout(t.last()) {
            Seq::<Out>::empty()
        } else {
            seq![Out::Text(seq![t.last()])]
        }
    }
}

/// Output with its layout taken out: text character by character, with no
/// spaces or line feeds; other pieces as they are.
pub open spec fn bare(o: Seq<Out>) -> Seq<Out>
    decreases o.len(),
{
    if o.len() == 0 {
        Seq::empty()
    } else {
        bare(o.drop_last()) + match o.last() {
            Out::Text(t) => bare_text(t),
            other => seq![other],
        }
    }
}

proof fn lemma_bare_text_add(a: Seq<char>, b: Seq<char>)
    ensures
        bare_text(a + b) == bare_text(a) + bare_text(b),
    decreases b.len(),
{
    if b.len() == 0 {
        assert(a + b =~= a);
        assert(bare_text(a) + bare_text(b) =~= bare_text(a));
    } else {
        lemma_bare_text_add(a, b.drop_last());
        assert((a + b).drop_last() =~= a + b.drop_last());
        assert((a + b).last() == b.last());
        let tail = if is_layout(b.last()) {
            Seq::<Out>::empty()
        } else {
            seq![Out::Text(seq![b.last()])]
        };
        assert(bare_text(a) + bare_text(b.drop_last()) + tail =~= bare_text(a) + (bare_text(
            b.drop_last(),
        ) + tail));
    }
}

proof fn lemma_bare_add(a: Seq<Out>, b: Seq<Out>)
    ensures
        bare(a + b) == bare(a) + bare(b),
    decreases b.len(),
{
    if b.len() == 0 {
        assert(a + b =~= a);
        assert(bare(a) + bare(b) =~= bare(a));
    } else {
        lemma_bare_add(a, b.drop_last());
        assert((a + b).drop_last() =~= a + b.drop_last());
        assert((a + b).last() == b.last());
        let tail = match b.last() {
            Out::Text(t) => bare_text(t),
            other => seq![other],
        };
        assert(bare(a) + bare(b.drop_last()) + tail =~= bare(a) + (bare(b.drop_last()) + tail));
    }
}

proof fn lemma_bare_one(o: Out)
    ensures
        bare(seq![o]) == match o {
            Out::Text(t) => bare_text(t),
            other => seq![other],
        },
{
    assert(seq![o].drop_last() =~= Seq::<Out>::empty());
    assert(seq![o].last() == o);
    assert(bare(Seq::<Out>::empty()) == Seq::<Out>::empty());
    assert(Seq::<Out>::empty() + match o {
        Out::Text(t) => bare_text(t),
        other => seq![other],
    } =~= match o {
        Out::Text(t) => bare_text(t),
        other => seq![other],
    });
}

/// Text that is all layout leaves nothing.
proof fn lemma_bare_text_layout(t: Seq<char>)
    requires
        forall|i: int| 0 <= i < t.len() ==> is_layout(#[trigger] t[i]),
    ensures
        bare_text(t) == Seq::<Out>::empty(),
    decreases t.len(),
{
    if t.len() > 0 {
        lemma_bare_text_layout(t.drop_last());
        assert(is_layout(t[t.len() - 1]));
    }
}

proof fn lemma_bare_text_char(c: char)
    ensures
        bare_text(seq![c]) == if is_layout(c) {
            Seq::<Out>::empty()
        } else {
            seq![Out::Text(seq![c])]
        },
{
    assert(seq![c].drop_last() =~= Seq::<char>::empty());
    assert(bare_text(Seq::<char>::empty()) == Seq::<Out>::empty());
    assert(seq![c].last() == c);
    assert(Seq::<Out>::empty() + (if is_layout(c) {
        Seq::<Out>::empty()
    } else {
        seq![Out::Text(seq![c])]
    }) =~= if is_layout(c) {
        Seq::<Out>::empty()
    } else {
        seq![Out::Text(seq![c])]
    });
}

/// Whether every dictionary in `n`, at any depth, lists its keys in
/// natural order (the order readable JSON writes them in).
pub open spec fn keys_in_order(n: Node) -> bool
    decreases n, 0nat,
{
    match n {
        Node::Array(a) => items_in_order(a),
        Node::Dict(es) => entries_in_order(es) && es.len() <= usize::MAX && forall|i: int|
            0 < i < es.len() ==> natural_rank(#[trigger] es[i - 1].0, es[i].0) <= 0,
        _ => true,
    }
}

pub open spec fn items_in_order(a: Seq<Node>) -> bool
    decreases a, 1nat,
{
    if a.len() == 0 {
        true
    } else {
        items_in_order(a.drop_last()) && keys_in_order(a.last())
    }
}

pub open spec fn entries_in_order(es: Entries) -> bool
    decreases es, 1nat,
{
    if es.len() == 0 {
        true
    } else {
        entries_in_order(es.drop_last()) && keys_in_order(es.last().1)
    }
}

proof fn lemma_entries_in_order(es: Entries, i: int)
    requires
        entries_in_order(es),
        0 <= i < es.len(),
    ensures
        keys_in_order(es[i].1),
    decreases es.len(),
{
    if i < es.len() - 1 {
        lemma_entries_in_order(es.drop_last(), i);
        assert(es.drop_last()[i] == es[i]);
    }
}

pub open spec fn iota(n: nat) -> Seq<usize> {
    Seq::new(n, |i: int| i as usize)
}

/// Keys already in natural order keep their order.
proof fn lemma_sorted_positions_iota(keys: Seq<Seq<char>>, m: nat)
    requires
        m <= keys.len(),
        keys.len() <= usize::MAX,
        forall|i: int| 0 < i < keys.len() ==> natural_rank(#[trigger] keys[i - 1], keys[i]) <= 0,
    ensures
        sorted_positions(keys, m) == iota(m),
    decreases m,
{
    if m > 0 {
        lemma_sorted_positions_iota(keys, (m - 1) as nat);
        let r = iota((m - 1) as nat);
        if m > 1 {
            assert(r[m - 2] as int == m - 2);
            assert(natural_rank(keys[m - 2], keys[m - 1]) <= 0);
        }
        assert(insert_pos(keys, r, m - 1, r.len() as int) == m - 1);
        assert(r.insert(m - 1, (m - 1) as usize) =~= iota(m));
    }
}

pub open spec fn all_spaces(p: Seq<char>) -> bool {
    forall|i: int| 0 <= i < p.len() ==> p[i] == ' '
}

/// The layout of the literal texts that readable JSON adds.
#[verifier::spinoff_prover]
#[verifier::rlimit(60)]
proof fn lemma_layout_texts(p: Seq<char>)
    requires
        all_spaces(p),
    ensures
        bare_text(p) == Seq::<Out>::empty(),
        bare_text("[\n"@) == bare_text("["@),
        bare_text("{\n"@) == bare_text("{"@),
        bare_text(",\n"@) == bare_text(","@),
        bare_text("[\n\n]"@) == bare_text("["@) + bare_text("]"@),
        bare_text("{\n\n}"@) == bare_text("{"@) + bare_text("}"@),
        bare_text("\n"@ + p + "]"@) == bare_text("]"@),
        bare_text("\n"@ + p + "}"@) == bare_text("}"@),
        forall|k: Seq<char>| #[trigger] bare_text(p + k + " : "@) == bare_text(k + ":"@),
        all_spaces(p + "  "@),
{
    reveal_strlit("[\n");
    reveal_strlit("{\n");
    reveal_strlit(",\n");
    reveal_strlit("[\n\n]");
    reveal_strlit("{\n\n}");
    reveal_strlit("\n");
    reveal_strlit("]");
    reveal_strlit("}");
    reveal_strlit("[");
    reveal_strlit("{");
    reveal_strlit(",");
    reveal_strlit(" : ");
    reveal_strlit(":");
    reveal_strlit("  ");
    lemma_bare_text_layout(p);
    let nl = seq!['\n'];
    lemma_bare_text_char('\n');
    lemma_bare_text_char(' ');
    assert("[\n"@ =~= "["@ + nl);
    lemma_bare_text_add("["@, nl);
    assert("{\n"@ =~= "{"@ + nl);
    lemma_bare_text_add("{"@, nl);
    assert(",\n"@ =~= ","@ + nl);
    lemma_bare_text_add(","@, nl);
    assert("[\n\n]"@ =~= "[\n"@ + nl + "]"@);
    lemma_bare_text_add("[\n"@ + nl, "]"@);
    lemma_bare_text_add("[\n"@, nl);
    assert("{\n\n}"@ =~= "{\n"@ + nl + "}"@);
    lemma_bare_text_add("{\n"@ + nl, "}"@);
    lemma_bare_text_add("{\n"@, nl);
    assert("\n"@ =~= nl);
    lemma_bare_text_add("\n"@ + p, "]"@);
    lemma_bare_text_add("\n"@, p);
    lemma_bare_text_add("\n"@ + p, "}"@);
    assert(bare_text("\n"@ + p) =~= Seq::<Out>::empty());
    assert(Seq::<Out>::empty() + bare_text("]"@) =~= bare_text("]"@));
    assert(Seq::<Out>::empty() + bare_text("}"@) =~= bare_text("}"@));
    assert(" : "@ =~= seq![' '] + ":"@ + seq![' ']);
    lemma_bare_text_add(seq![' '] + ":"@, seq![' ']);
    lemma_bare_text_add(seq![' '], ":"@);
    assert forall|k: Seq<char>| #[trigger] bare_text(p + k + " : "@) == bare_text(k + ":"@) by {
        lemma_bare_text_add(p + k, " : "@);
        lemma_bare_text_add(p, k);
        lemma_bare_text_add(k, ":"@);
    }
    assert forall|i: int| 0 <= i < (p + "  "@).len() implies (p + "  "@)[i] == ' ' by {
        if i >= p.len() {
            assert((p + "  "@)[i] == "  "@[i - p.len()]);
        }
    }
}

/// Separators: a comma before every item but the first, with or without
/// a line feed after it.
proof fn lemma_bare_sep(i: int)
    ensures
        bare(sep_before(i, ",\n"@)) == bare(sep_before(i, ","@)),
{
    lemma_layout_texts(Seq::empty());
    if i != 0 {
        lemma_bare_one(Out::Text(",\n"@));
        lemma_bare_one(Out::Text(","@));
    } else {
        assert(bare(Seq::<Out>::empty()) == Seq::<Out>::empty());
    }
}

#[verifier::spinoff_prover]
#[verifier::rlimit(60)]
proof fn lemma_readable_bare(n: Node, p: Seq<char>)
    requires
        all_spaces(p),
        keys_in_order(n),
    ensures
        bare(json_readable(n, p)) == bare(json_compact(n)),
    decreases n, 0nat, 0nat,
{
    lemma_layout_texts(p);
    let q = p + "  "@;
    match n {
        Node::Array(a) => {
            let close = seq![Out::Text("]"@)];
            lemma_bare_one(Out::Text("["@));
            lemma_bare_one(Out::Text("]"@));
            lemma_bare_add(seq![Out::Text("["@)] + compact_items(a), close);
            lemma_bare_add(seq![Out::Text("["@)], compact_items(a));
            if a.len() == 0 {
                lemma_bare_one(Out::Text("[\n\n]"@));
                assert(compact_items(a) == Seq::<Out>::empty());
                assert(bare(Seq::<Out>::empty()) == Seq::<Out>::empty());
            } else {
                lemma_items_bare(a, q);
                let open = seq![Out::Text("[\n"@)];
                let end = seq![Out::Text("\n"@ + p + "]"@)];
                lemma_bare_one(Out::Text("[\n"@));
                lemma_bare_one(Out::Text("\n"@ + p + "]"@));
                lemma_bare_add(open + readable_items(a, q), end);
                lemma_bare_add(open, readable_items(a, q));
            }
        },
        Node::Dict(es) => {
            let close = seq![Out::Text("}"@)];
            lemma_bare_one(Out::Text("{"@));
            lemma_bare_one(Out::Text("}"@));
            lemma_bare_add(seq![Out::Text("{"@)] + compact_entries(es), close);
            lemma_bare_add(seq![Out::Text("{"@)], compact_entries(es));
            if es.len() == 0 {
                lemma_bare_one(Out::Text("{\n\n}"@));
                assert(compact_entries(es) == Seq::<Out>::empty());
                assert(bare(Seq::<Out>::empty()) == Seq::<Out>::empty());
            } else {
                let keys = keys_of(es);
                assert forall|i: int| 0 < i < keys.len() implies natural_rank(
                    #[trigger] keys[i - 1],
                    keys[i],
                ) <= 0 by {
                    assert(natural_rank(es[i - 1].0, es[i].0) <= 0);
                }
                lemma_sorted_positions_iota(keys, es.len());
                assert(entry_order(es) == iota(es.len()));
                lemma_entries_bare(es, q, es.len());
                assert(es.take(es.len() as int) =~= es);
                let open = seq![Out::Text("{\n"@)];
                let end = seq![Out::Text("\n"@ + p + "}"@)];
                lemma_bare_one(Out::Text("{\n"@));
                lemma_bare_one(Out::Text("\n"@ + p + "}"@));
                lemma_bare_add(open + readable_entries(es, iota(es.len()), q), end);
                lemma_bare_add(open, readable_entries(es, iota(es.len()), q));
            }
        },
        _ => {},
    }
}

#[verifier::spinoff_prover]
#[verifier::rlimit(60)]
proof fn lemma_items_bare(a: Seq<Node>, q: Seq<char>)
    requires
        all_spaces(q),
        items_in_order(a),
    ensures
        bare(readable_items(a, q)) == bare(compact_items(a)),
    decreases a, 1nat, 0nat,
{
    if a.len() > 0 {
        lemma_items_bare(a.drop_last(), q);
        lemma_readable_bare(a.last(), q);
        lemma_bare_sep(a.len() - 1);
        lemma_layout_texts(q);
        lemma_bare_one(Out::Text(q));
        let r0 = readable_items(a.drop_last(), q);
        let s1 = sep_before(a.len() - 1, ",\n"@);
        let c0 = compact_items(a.drop_last());
        let s2 = sep_before(a.len() - 1, ","@);
        lemma_bare_add(r0 + s1 + seq![Out::Text(q)], json_readable(a.last(), q));
        lemma_bare_add(r0 + s1, seq![Out::Text(q)]);
        lemma_bare_add(r0, s1);
        lemma_bare_add(c0 + s2, json_compact(a.last()));
        lemma_bare_add(c0, s2);
    } else {
        assert(bare(Seq::<Out>::empty()) == Seq::<Out>::empty());
    }
}

#[verifier::spinoff_prover]
#[verifier::rlimit(60)]
proof fn lemma_entries_bare(es: Entries, q: Seq<char>, m: nat)
    requires
        all_spaces(q),
        entries_in_order(es),
        m <= es.len(),
        es.len() <= usize::MAX,
    ensures
        bare(readable_entries(es, iota(m), q)) == bare(compact_entries(es.take(m as int))),
    decreases es, 1nat, m,
{
    if m > 0 {
        let i = (m - 1) as int;
        assert(iota(m).drop_last() =~= iota((m - 1) as nat));
        assert(iota(m).last() as int == i);
        assert(es.take(m as int).drop_last() =~= es.take(i));
        assert(es.take(m as int).last() == es[i]);
        lemma_entries_bare(es, q, (m - 1) as nat);
        lemma_entries_in_order(es, i);
        lemma_readable_bare(es[i].1, q);
        lemma_bare_sep(i);
        lemma_layout_texts(q);
        let k = json_quoted(es[i].0);
        assert(bare_text(q + k + " : "@) == bare_text(k + ":"@));
        lemma_bare_one(Out::Text(q + k + " : "@));
        lemma_bare_one(Out::Text(k + ":"@));
        let r0 = readable_entries(es, iota((m - 1) as nat), q);
        let s1 = sep_before(i, ",\n"@);
        let e1 = seq![Out::Text(q + k + " : "@)] + json_readable(es[i].1, q);
        let c0 = compact_entries(es.take(i));
        let s2 = sep_before(i, ","@);
        let e2 = seq![Out::Text(k + ":"@)];
        assert(readable_entries(es, iota(m), q) == r0 + s1 + e1);
        assert(compact_entries(es.take(m as int)) == c0 + s2 + e2 + json_compact(es[i].1));
        lemma_bare_add(r0 + s1, e1);
        lemma_bare_add(r0, s1);
        lemma_bare_add(seq![Out::Text(q + k + " : "@)], json_readable(es[i].1, q));
        lemma_bare_add(c0 + s2 + e2, json_compact(es[i].1));
        lemma_bare_add(c0 + s2, e2);
        lemma_bare_add(c0, s2);
    } else {
        assert(iota(0) =~= Seq::<usize>::empty());
        assert(es.take(0) =~= Seq::<(Seq<char>, Node)>::empty());
        assert(bare(Seq::<Out>::empty()) == Seq::<Out>::empty());
    }
}

/// Readable JSON (`-r`) is compact JSON laid out: with the spaces and line
/// feeds of both taken out, the readable text of a value is its compact
/// text, so it holds the same brackets, commas between items, colons and
/// values.  Readable JSON lists a dictionary's keys in natural order, so
/// this is stated for values whose dictionaries already list them so.
pub proof fn law_readable_json_is_compact(n: Node, p: Seq<char>)
    requires
        all_spaces(p),
        keys_in_order(n),
    ensures
        bare(json_readable(n, p)) == bare(json_compact(n)),
{
    lemma_readable_bare(n, p);
}

// ---------------------------------------------------------------------------
// Compact JSON reads back
// ---------------------------------------------------------------------------

/// The text of output made of text pieces only.
pub open spec fn flat(o: Seq<Out>) -> Seq<char>
    decreases o.len(),
{
    if o.len() == 0 {
        Seq::empty()
    } else {
        flat(o.drop_last()) + match o.last() {
            Out::Text(t) => t,
            _ => Seq::empty(),
        }
    }
}

proof fn lemma_flat_add(a: Seq<Out>, b: Seq<Out>)
    ensures
        flat(a + b) == flat(a) + flat(b),
    decreases b.len(),
{
    if b.len() == 0 {
        assert(a + b =~= a);
        assert(flat(a) + flat(b) =~= flat(a));
    } else {
        lemma_flat_add(a, b.drop_last());
        assert((a + b).drop_last() =~= a + b.drop_last());
        assert((a + b).last() == b.last());
        let tail = match b.last() {
            Out::Text(t) => t,
            _ => Seq::empty(),
        };
        assert(flat(a) + flat(b.drop_last()) + tail =~= flat(a) + (flat(b.drop_last()) + tail));
    }
}

proof fn lemma_flat_one(t: Seq<char>)
    ensures
        flat(seq![Out::Text(t)]) == t,
{
    assert(seq![Out::Text(t)].drop_last() =~= Seq::<Out>::empty());
    assert(seq![Out::Text(t)].last() == Out::Text(t));
    assert(flat(Seq::<Out>::empty()) == Seq::<char>::empty());
    assert(Seq::<char>::empty() + t =~= t);
}

/// Values made of strings, integers, Booleans and arrays of them, at any
/// depth.
pub open spec fn plain(n: Node) -> bool
    decreases n, 0nat,
{
    match n {
        Node::Str(_) => true,
        Node::Int(_) => true,
        Node::Bool(_) => true,
        Node::Array(a) => plain_items(a),
        _ => false,
    }
}

pub open spec fn plain_items(a: Seq<Node>) -> bool
    decreases a, 1nat,
{
    if a.len() == 0 {
        true
    } else {
        plain_items(a.drop_last()) && plain(a.last())
    }
}

proof fn lemma_plain_item(a: Seq<Node>, i: int)
    requires
        plain_items(a),
        0 <= i < a.len(),
    ensures
        plain(a[i]),
    decreases a.len(),
{
    if i < a.len() - 1 {
        lemma_plain_item(a.drop_last(), i);
        assert(a.drop_last()[i] == a[i]);
    }
}

/// The compact text of an array's items from the front: the first item,
/// then a comma and the text of the rest.
#[verifier::spinoff_prover]
#[verifier::rlimit(60)]
proof fn lemma_items_front(a: Seq<Node>)
    requires
        a.len() >= 1,
    ensures
        flat(compact_items(a)) == flat(json_compact(a[0])) + if a.len() > 1 {
            seq![','] + flat(compact_items(a.skip(1)))
        } else {
            Seq::<char>::empty()
        },
    decreases a.len(),
{
    reveal_strlit(",");
    let d = a.drop_last();
    let sep = sep_before(a.len() - 1, ","@);
    lemma_flat_add(compact_items(d) + sep, json_compact(a.last()));
    lemma_flat_add(compact_items(d), sep);
    if a.len() == 1 {
        assert(compact_items(d) == Seq::<Out>::empty());
        assert(sep == Seq::<Out>::empty());
        assert(flat(Seq::<Out>::empty()) == Seq::<char>::empty());
        assert(a.last() == a[0]);
        assert(Seq::<char>::empty() + Seq::<char>::empty() + flat(json_compact(a[0]))
            =~= flat(json_compact(a[0])) + Seq::<char>::empty());
    } else {
        lemma_flat_one(","@);
        assert(","@ =~= seq![',']);
        lemma_items_front(d);
        assert(d[0] == a[0]);
        let t = a.skip(1);
        assert(t.drop_last() =~= d.skip(1));
        assert(t.last() == a.last());
        let sep2 = sep_before(t.len() - 1, ","@);
        lemma_flat_add(compact_items(t.drop_last()) + sep2, json_compact(t.last()));
        lemma_flat_add(compact_items(t.drop_last()), sep2);
        if a.len() == 2 {
            assert(compact_items(t.drop_last()) == Seq::<Out>::empty());
            assert(sep2 == Seq::<Out>::empty());
            assert(flat(Seq::<Out>::empty()) == Seq::<char>::empty());
            assert(flat(compact_items(a)) =~= flat(json_compact(a[0])) + (seq![','] + flat(
                compact_items(t),
            )));
        } else {
            assert(flat(compact_items(a)) =~= flat(json_compact(a[0])) + (seq![','] + flat(
                compact_items(t),
            )));
        }
    }
}

/// The decimal text of a number is digits that spell it.
proof fn lemma_nat_text(n: nat)
    ensures
        nat_text(n).len() > 0,
        all_digits(nat_text(n)),
        digits_value(nat_text(n)) == n,
    decreases n,
{
    if n < 10 {
        let t = nat_text(n);
        assert(t.drop_last() =~= Seq::<char>::empty());
        assert(t.last() == ((n + 48) as char));
        assert(((n + 48) as char) as int == n + 48);
        assert(('0' as int) == 48);
        assert(digits_value(t) == digits_value(t.drop_last()) * 10 + digit_val(t.last()));
        assert(digits_value(Seq::<char>::empty()) == 0);
    } else {
        lemma_nat_text(n / 10);
        let t = nat_text(n);
        let c = ((n % 10) + 48) as char;
        assert(t.drop_last() =~= nat_text(n / 10));
        assert(t.last() == c);
        assert(c as int == n % 10 + 48);
        assert forall|i: int| 0 <= i < t.len() implies is_digit(#[trigger] t[i]) by {
            if i < t.len() - 1 {
                assert(t[i] == nat_text(n / 10)[i]);
            }
        }
        assert(('0' as int) == 48);
        assert(digits_value(t) == digits_value(t.drop_last()) * 10 + digit_val(t.last()));
        assert(n == (n / 10) * 10 + n % 10);
    }
}

pub open spec fn ends_number(rest: Seq<char>) -> bool {
    rest.len() == 0 || !(is_digit(rest[0]) || rest[0] == '.' || rest[0] == 'e' || rest[0] == 'E')
}

/// The text of an integer: its sign where negative, then its digits, and
/// `i64::from_str` reads it back.
proof fn lemma_int_text(x: i64)
    ensures
        int_text(x as int).len() > 0,
        int_text(x as int)[0] == '-' || is_digit(int_text(x as int)[0]),
        parse_i64(int_text(x as int)) == Some(x as int),
{
    let t = int_text(x as int);
    if x < 0 {
        let d = nat_text((-x) as nat);
        lemma_nat_text((-x) as nat);
        assert(t.skip(1) =~= d);
        assert(t[0] == '-');
    } else {
        let d = nat_text(x as nat);
        lemma_nat_text(x as nat);
        assert(t == d);
        assert(is_digit(d[0]));
    }
}

/// A number written for an integer ends where its text ends, read as no
/// real, when what follows cannot continue it.
#[verifier::spinoff_prover]
#[verifier::rlimit(60)]
proof fn lemma_int_number_end(x: i64, pre: Seq<char>, rest: Seq<char>)
    requires
        ends_number(rest),
    ensures
        number_end(pre + int_text(x as int) + rest, pre.len() as int) == (
            (pre.len() + int_text(x as int).len()) as int,
            false,
        ),
{
    let t = int_text(x as int);
    let s = pre + t + rest;
    let j = pre.len() as int;
    let neg = x < 0;
    let m: nat = if neg {
        (-x) as nat
    } else {
        x as nat
    };
    let d = nat_text(m);
    lemma_nat_text(m);
    let e0 = if neg {
        j + 1
    } else {
        j
    };
    if neg {
        assert(t =~= seq!['-'] + d);
        assert(s[j] == '-');
    } else {
        assert(t == d);
        assert(s[j] == d[0]);
        assert(is_digit(d[0]));
    }
    assert(e0 + d.len() == j + t.len());
    let sk = s.skip(e0);
    assert forall|q: int| 0 <= q < d.len() implies !non_digit()(#[trigger] sk[q]) by {
        assert(sk[q] == d[q]);
    }
    if j + t.len() < s.len() {
        assert(sk[d.len() as int] == rest[0]);
        assert(s[j + t.len()] == rest[0]);
    }
    lemma_first_where(sk, non_digit(), d.len() as int);
    assert(digit_run(sk) == d.len());
}

/// An integer written as JSON reads back as itself, taking exactly the
/// text written, when what follows cannot continue a number.
#[verifier::spinoff_prover]
#[verifier::rlimit(60)]
proof fn lemma_read_int(x: i64, pre: Seq<char>, rest: Seq<char>, k: int, reals: Seq<Option<u64>>)
    requires
        ends_number(rest),
    ensures
        value_spec(pre + int_text(x as int) + rest, pre.len() as int, k, reals) == JsonOut::Done(
            Node::Int(x),
            (pre.len() + int_text(x as int).len()) as int,
            k,
        ),
{
    let t = int_text(x as int);
    let s = pre + t + rest;
    let j = pre.len() as int;
    lemma_int_text(x);
    lemma_int_number_end(x, pre, rest);
    assert(s[j] == t[0]);
    assert(!is_ws(s[j]));
    lemma_skip_none(s, j);
    assert(s.subrange(j, j + t.len()) =~= t);
    assert(number_spec(s, j, k, reals) == JsonOut::Done(Node::Int(x), j + t.len(), k));
    assert(!starts_at(s, j, seq!['t', 'r', 'u', 'e'])) by {
        if j + 4 <= s.len() {
            assert(s.subrange(j, j + 4)[0] == s[j]);
        }
    }
    assert(!starts_at(s, j, seq!['f', 'a', 'l', 's', 'e'])) by {
        if j + 5 <= s.len() {
            assert(s.subrange(j, j + 5)[0] == s[j]);
        }
    }
    assert(!starts_at(s, j, seq!['n', 'u', 'l', 'l'])) by {
        if j + 4 <= s.len() {
            assert(s.subrange(j, j + 4)[0] == s[j]);
        }
    }
}

/// An integer written as JSON reads back as itself, taking exactly the
/// text written, whatever follows that cannot continue a number.
pub proof fn law_json_int_round_trip(x: i64, rest: Seq<char>, k: int, reals: Seq<Option<u64>>)
    requires
        ends_number(rest),
    ensures
        value_spec(int_text(x as int) + rest, 0, k, reals) == JsonOut::Done(
            Node::Int(x),
            int_text(x as int).len() as int,
            k,
        ),
{
    lemma_read_int(x, Seq::empty(), rest, k, reals);
    assert(Seq::<char>::empty() + int_text(x as int) =~= int_text(x as int));
}

/// Reading starts right at a character that is not whitespace.
proof fn lemma_skip_none(s: Seq<char>, i: int)
    requires
        0 <= i < s.len(),
        !is_ws(s[i]),
    ensures
        skip_ws(s, i) == i,
{
    let t = s.subrange(i, s.len() as int);
    assert(t[0] == s[i]);
    lemma_first_where(t, non_ws_pred(), 0);
}

proof fn lemma_read_str(x: Seq<char>, pre: Seq<char>, rest: Seq<char>, k: int, reals: Seq<Option<u64>>)
    ensures
        value_spec(pre + flat(json_compact(Node::Str(x))) + rest, pre.len() as int, k, reals)
            == JsonOut::Done(
            Node::Str(x),
            (pre.len() + flat(json_compact(Node::Str(x))).len()) as int,
            k,
        ),
{
    let t = flat(json_compact(Node::Str(x)));
    let s = pre + t + rest;
    let j = pre.len() as int;
    lemma_flat_one(json_quoted(x));
    assert(t == json_quoted(x));
    assert(s[j] == '"');
    lemma_skip_none(s, j);
    lemma_read_escaped(x, rest, pre + seq!['"'], Seq::empty());
    assert(pre + seq!['"'] + escaped(x) + seq!['"'] + rest =~= s);
    assert(Seq::<char>::empty() + x =~= x);
    assert(t.len() == escaped(x).len() + 2);
    assert(string_at_spec(s, j) == Ok::<(Seq<char>, int), Seq<char>>((x, j + t.len())));
}

proof fn lemma_read_bool(b: bool, pre: Seq<char>, rest: Seq<char>, k: int, reals: Seq<Option<u64>>)
    ensures
        value_spec(pre + flat(json_compact(Node::Bool(b))) + rest, pre.len() as int, k, reals)
            == JsonOut::Done(
            Node::Bool(b),
            (pre.len() + flat(json_compact(Node::Bool(b))).len()) as int,
            k,
        ),
{
    reveal_strlit("true");
    reveal_strlit("false");
    let t = flat(json_compact(Node::Bool(b)));
    let s = pre + t + rest;
    let j = pre.len() as int;
    lemma_flat_one(bool_text(b));
    if b {
        assert(t =~= seq!['t', 'r', 'u', 'e']);
    } else {
        assert(t =~= seq!['f', 'a', 'l', 's', 'e']);
    }
    assert(s[j] == t[0]);
    lemma_skip_none(s, j);
    assert(s.subrange(j, j + t.len()) =~= t);
    law_json_literals(s, j, k, reals);
    if !b {
        assert(!starts_at(s, j, seq!['t', 'r', 'u', 'e'])) by {
            assert(s.subrange(j, j + 4)[0] == 'f');
        }
    }
}

/// The compact text of a plain value, read at its start with anything
/// before and after it, reads back as the value and ends right after it.
proof fn lemma_read_plain(n: Node, pre: Seq<char>, rest: Seq<char>, k: int, reals: Seq<Option<u64>>)
    requires
        plain(n),
        ends_number(rest),
    ensures
        value_spec(pre + flat(json_compact(n)) + rest, pre.len() as int, k, reals) == JsonOut::Done(
            n,
            (pre.len() + flat(json_compact(n)).len()) as int,
            k,
        ),
    decreases n, 0nat, 0nat,
{
    let t = flat(json_compact(n));
    let s = pre + t + rest;
    let j = pre.len() as int;
    match n {
        Node::Str(x) => lemma_read_str(x, pre, rest, k, reals),
        Node::Bool(b) => lemma_read_bool(b, pre, rest, k, reals),
        Node::Int(x) => {
            lemma_read_int(x, pre, rest, k, reals);
            lemma_flat_one(int_text(x as int));
        },
        Node::Array(a) => lemma_read_array(a, pre, rest, k, reals),
        _ => {},
    }
}

#[verifier::spinoff_prover]
#[verifier::rlimit(60)]
proof fn lemma_read_array(a: Seq<Node>, pre: Seq<char>, rest: Seq<char>, k: int, reals: Seq<Option<u64>>)
    requires
        plain_items(a),
    ensures
        value_spec(pre + flat(json_compact(Node::Array(a))) + rest, pre.len() as int, k, reals)
            == JsonOut::Done(
            Node::Array(a),
            (pre.len() + flat(json_compact(Node::Array(a))).len()) as int,
            k,
        ),
    decreases a, 1nat, a.len() + 1,
{
    let t = flat(json_compact(Node::Array(a)));
    let s = pre + t + rest;
    let j = pre.len() as int;
    reveal_strlit("[");
    reveal_strlit("]");
    let open = seq![Out::Text("["@)];
    let close = seq![Out::Text("]"@)];
    lemma_flat_add(open + compact_items(a), close);
    lemma_flat_add(open, compact_items(a));
    lemma_flat_one("["@);
    lemma_flat_one("]"@);
    let body = flat(compact_items(a));
    assert(t == "["@ + body + "]"@);
    assert(s[j] == '[');
    lemma_skip_none(s, j);
    if a.len() == 0 {
        assert(compact_items(a) == Seq::<Out>::empty());
        assert(flat(Seq::<Out>::empty()) == Seq::<char>::empty());
        assert(s[j + 1] == ']');
        lemma_skip_none(s, j + 1);
        assert(a =~= Seq::<Node>::empty());
        assert(t.len() == 2);
        assert(array_spec(s, j + 1, k, reals) == JsonOut::Done(Node::Array(Seq::empty()), j + 2, k));
        assert(value_spec(s, j, k, reals) == array_spec(s, j + 1, k, reals));
    } else {
        lemma_read_items(a, 0, pre + "["@, "]"@ + rest, k, reals);
        assert(a.skip(0) =~= a);
        assert(pre + "["@ + body + ("]"@ + rest) =~= s);
        assert(Seq::<Node>::empty() + a =~= a);
        lemma_plain_item(a, 0);
        lemma_items_front(a);
        lemma_first_char(a[0]);
        assert(s[j + 1] == body[0]);
        lemma_skip_none(s, j + 1);
        assert(s[j + 1] != ']');
        assert(array_spec(s, j + 1, k, reals) == elements_spec(s, j + 1, k, reals, Seq::empty()));
        assert(a.take(0) =~= Seq::<Node>::empty());
        assert(value_spec(s, j, k, reals) == array_spec(s, j + 1, k, reals));
        assert(t.len() == body.len() + 2);
    }
}

/// The compact text of a plain value begins with a character that is not
/// whitespace.
proof fn lemma_first_char(n: Node)
    requires
        plain(n),
    ensures
        flat(json_compact(n)).len() > 0,
        !is_ws(flat(json_compact(n))[0]),
        flat(json_compact(n))[0] != ']',
{
    if let Node::Int(x) = n {
        lemma_int_text(x);
        lemma_flat_one(int_text(x as int));
    }
    reveal_strlit("true");
    reveal_strlit("false");
    reveal_strlit("[");
    match n {
        Node::Str(x) => {
            lemma_flat_one(json_quoted(x));
        },
        Node::Bool(b) => {
            lemma_flat_one(bool_text(b));
            if b {
                assert(bool_text(b) =~= seq!['t', 'r', 'u', 'e']);
            } else {
                assert(bool_text(b) =~= seq!['f', 'a', 'l', 's', 'e']);
            }
        },
        Node::Array(a) => {
            let open = seq![Out::Text("["@)];
            lemma_flat_add(open + compact_items(a), seq![Out::Text("]"@)]);
            lemma_flat_add(open, compact_items(a));
            lemma_flat_one("["@);
        },
        _ => {},
    }
}

/// Reading the items of an array from the `t`-th on, after those before.
#[verifier::spinoff_prover]
#[verifier::rlimit(60)]
proof fn lemma_read_items(
    a: Seq<Node>,
    t: int,
    pre: Seq<char>,
    rest: Seq<char>,
    k: int,
    reals: Seq<Option<u64>>,
)
    requires
        plain_items(a),
        0 <= t < a.len(),
        rest.len() > 0,
        rest[0] == ']',
    ensures
        elements_spec(
            pre + flat(compact_items(a.skip(t))) + rest,
            pre.len() as int,
            k,
            reals,
            a.take(t),
        ) == JsonOut::Done(
            Node::Array(a),
            (pre.len() + flat(compact_items(a.skip(t))).len() + 1) as int,
            k,
        ),
    decreases a, 1nat, a.len() - t,
{
    let b = a.skip(t);
    let s = pre + flat(compact_items(b)) + rest;
    let j = pre.len() as int;
    lemma_plain_item(a, t);
    assert(b[0] == a[t]);
    lemma_items_front(b);
    let x = flat(json_compact(a[t]));
    let after = if b.len() > 1 {
        seq![','] + flat(compact_items(b.skip(1)))
    } else {
        Seq::<char>::empty()
    };
    assert(s =~= pre + x + (after + rest));
    assert((after + rest)[0] == ',' || (after + rest)[0] == ']');
    lemma_read_plain(a[t], pre, after + rest, k, reals);
    let m = j + x.len();
    assert(a.take(t).push(a[t]) =~= a.take(t + 1));
    if b.len() > 1 {
        assert(s[m] == ',');
        lemma_skip_none(s, m);
        assert(b.skip(1) =~= a.skip(t + 1));
        lemma_read_items(a, t + 1, pre + x + seq![','], rest, k, reals);
        assert(pre + x + seq![','] + flat(compact_items(a.skip(t + 1))) + rest =~= s);
        assert(flat(compact_items(b)).len() == x.len() + 1 + flat(compact_items(a.skip(t + 1))).len());
    } else {
        assert(s[m] == ']');
        lemma_skip_none(s, m);
        assert(a.take(t + 1) =~= a);
    }
}

/// Compact JSON reads back: the JSON reader, applied to the compact text of
/// a value made of strings, integers, Booleans and arrays (at any depth),
/// followed by any text that cannot continue a number, gives the value
/// back and stops right after its text.  So the items of an array are
/// separated by commas, and strings, integers and Booleans are written as
/// the reader reads them.
pub proof fn law_compact_json_reads_back(n: Node, rest: Seq<char>, k: int, reals: Seq<Option<u64>>)
    requires
        plain(n),
        ends_number(rest),
    ensures
        value_spec(flat(json_compact(n)) + rest, 0, k, reals) == JsonOut::Done(
            n,
            flat(json_compact(n)).len() as int,
            k,
        ),
{
    lemma_read_plain(n, Seq::empty(), rest, k, reals);
    assert(Seq::<char>::empty() + flat(json_compact(n)) =~= flat(json_compact(n)));
}

// ---------------------------------------------------------------------------
// Readable JSON reads back
// ---------------------------------------------------------------------------

pub open spec fn all_ws(l: Seq<char>) -> bool {
    forall|i: int| 0 <= i < l.len() ==> is_ws(#[trigger] l[i])
}

/// Reading passes over whitespace up to the next other character.
proof fn lemma_skip_layout(s: Seq<char>, i: int, w: int)
    requires
        0 <= i,
        0 <= w,
        i + w < s.len(),
        forall|q: int| i <= q < i + w ==> is_ws(#[trigger] s[q]),
        !is_ws(s[i + w]),
    ensures
        skip_ws(s, i) == i + w,
{
    let t = s.subrange(i, s.len() as int);
    assert forall|q: int| 0 <= q < w implies !non_ws_pred()(#[trigger] t[q]) by {
        assert(t[q] == s[i + q]);
    }
    assert(t[w] == s[i + w]);
    lemma_first_where(t, non_ws_pred(), w);
}

/// A value is read the same wherever reading starts in the whitespace
/// before it.
proof fn lemma_value_after_layout(s: Seq<char>, i: int, j: int, k: int, reals: Seq<Option<u64>>)
    requires
        0 <= i <= j < s.len(),
        skip_ws(s, i) == j,
        skip_ws(s, j) == j,
    ensures
        value_spec(s, i, k, reals) == value_spec(s, j, k, reals),
{
}

proof fn lemma_spaces_ws(q: Seq<char>)
    requires
        all_spaces(q),
    ensures
        all_ws(q),
        all_ws(seq!['\n'] + q),
{
    assert forall|i: int| 0 <= i < q.len() implies is_ws(#[trigger] q[i]) by {
        assert(q[i] == ' ');
    }
    assert forall|i: int| 0 <= i < (seq!['\n'] + q).len() implies is_ws(
        #[trigger] (seq!['\n'] + q)[i],
    ) by {
        if i > 0 {
            assert((seq!['\n'] + q)[i] == q[i - 1]);
        }
    }
}

/// The readable text of an array's items from the front: the prefix and
/// the first item, then a comma, a line feed and the text of the rest.
#[verifier::spinoff_prover]
#[verifier::rlimit(60)]
proof fn lemma_ritems_front(a: Seq<Node>, q: Seq<char>)
    requires
        a.len() >= 1,
    ensures
        flat(readable_items(a, q)) == q + flat(json_readable(a[0], q)) + if a.len() > 1 {
            seq![',', '\n'] + flat(readable_items(a.skip(1), q))
        } else {
            Seq::<char>::empty()
        },
    decreases a.len(),
{
    reveal_strlit(",\n");
    let d = a.drop_last();
    let sep = sep_before(a.len() - 1, ",\n"@);
    lemma_flat_add(readable_items(d, q) + sep + seq![Out::Text(q)], json_readable(a.last(), q));
    lemma_flat_add(readable_items(d, q) + sep, seq![Out::Text(q)]);
    lemma_flat_add(readable_items(d, q), sep);
    lemma_flat_one(q);
    assert(a.last() == a[a.len() - 1]);
    if a.len() == 1 {
        assert(readable_items(d, q) == Seq::<Out>::empty());
        assert(sep == Seq::<Out>::empty());
        assert(flat(Seq::<Out>::empty()) == Seq::<char>::empty());
        assert(flat(readable_items(a, q)) =~= q + flat(json_readable(a[0], q))
            + Seq::<char>::empty());
    } else {
        lemma_flat_one(",\n"@);
        assert(",\n"@ =~= seq![',', '\n']);
        lemma_ritems_front(d, q);
        assert(d[0] == a[0]);
        let t = a.skip(1);
        assert(t.drop_last() =~= d.skip(1));
        assert(t.last() == a.last());
        let sep2 = sep_before(t.len() - 1, ",\n"@);
        lemma_flat_add(
            readable_items(t.drop_last(), q) + sep2 + seq![Out::Text(q)],
            json_readable(t.last(), q),
        );
        lemma_flat_add(readable_items(t.drop_last(), q) + sep2, seq![Out::Text(q)]);
        lemma_flat_add(readable_items(t.drop_last(), q), sep2);
        if a.len() == 2 {
            assert(readable_items(t.drop_last(), q) == Seq::<Out>::empty());
            assert(sep2 == Seq::<Out>::empty());
            assert(flat(Seq::<Out>::empty()) == Seq::<char>::empty());
        }
        assert(flat(readable_items(a, q)) =~= q + flat(json_readable(a[0], q)) + (seq![
            ',',
            '\n',
        ] + flat(readable_items(t, q))));
    }
}

/// The readable text of a plain value begins with a character that is not
/// whitespace nor `]`.
proof fn lemma_readable_first_char(n: Node, q: Seq<char>)
    requires
        plain(n),
    ensures
        flat(json_readable(n, q)).len() > 0,
        !is_ws(flat(json_readable(n, q))[0]),
        flat(json_readable(n, q))[0] != ']',
{
    reveal_strlit("[\n");
    reveal_strlit("[\n\n]");
    match n {
        Node::Array(a) => {
            if a.len() == 0 {
                lemma_flat_one("[\n\n]"@);
            } else {
                let open = seq![Out::Text("[\n"@)];
                lemma_flat_add(open + readable_items(a, q + "  "@), seq![Out::Text("\n"@ + q + "]"@)]);
                lemma_flat_add(open, readable_items(a, q + "  "@));
                lemma_flat_one("[\n"@);
            }
        },
        _ => lemma_first_char(n),
    }
}

/// The readable text of a plain value, after any whitespace, reads back as
/// the value and ends right after it.
#[verifier::spinoff_prover]
#[verifier::rlimit(60)]
proof fn lemma_read_readable(
    n: Node,
    q: Seq<char>,
    pre: Seq<char>,
    lay: Seq<char>,
    rest: Seq<char>,
    k: int,
    reals: Seq<Option<u64>>,
)
    requires
        plain(n),
        all_spaces(q),
        all_ws(lay),
        ends_number(rest),
    ensures
        value_spec(pre + lay + flat(json_readable(n, q)) + rest, pre.len() as int, k, reals)
            == JsonOut::Done(n, (pre.len() + lay.len() + flat(json_readable(n, q)).len()) as int, k),
    decreases n, 0nat, 0nat,
{
    let t = flat(json_readable(n, q));
    let s = pre + lay + t + rest;
    let i = pre.len() as int;
    let j = i + lay.len();
    lemma_readable_first_char(n, q);
    assert(s[j] == t[0]);
    assert forall|x: int| i <= x < j implies is_ws(#[trigger] s[x]) by {
        assert(s[x] == lay[x - i]);
    }
    lemma_skip_layout(s, i, lay.len() as int);
    lemma_skip_layout(s, j, 0);
    lemma_value_after_layout(s, i, j, k, reals);
    assert(s =~= (pre + lay) + t + rest);
    match n {
        Node::Array(a) => lemma_read_readable_array(a, q, pre + lay, rest, k, reals),
        _ => lemma_read_plain(n, pre + lay, rest, k, reals),
    }
}

/// The readable text of a non-empty array: `[`, a line feed, the inner
/// prefix, the first item, the rest of the items, and the closing line.
proof fn lemma_readable_array_text(a: Seq<Node>, q: Seq<char>)
    requires
        a.len() >= 1,
    ensures
        flat(json_readable(Node::Array(a), q)) == seq!['[', '\n'] + (q + "  "@) + flat(
            json_readable(a[0], q + "  "@),
        ) + (if a.len() > 1 {
            seq![',', '\n'] + flat(readable_items(a.skip(1), q + "  "@))
        } else {
            Seq::<char>::empty()
        }) + ("\n"@ + q + "]"@),
{
    reveal_strlit("[\n");
    let q2 = q + "  "@;
    let open = seq![Out::Text("[\n"@)];
    let end = "\n"@ + q + "]"@;
    lemma_flat_add(open + readable_items(a, q2), seq![Out::Text(end)]);
    lemma_flat_add(open, readable_items(a, q2));
    lemma_flat_one("[\n"@);
    lemma_flat_one(end);
    lemma_ritems_front(a, q2);
    assert("[\n"@ =~= seq!['[', '\n']);
}

proof fn lemma_read_readable_empty(q: Seq<char>, pre: Seq<char>, rest: Seq<char>, k: int, reals: Seq<
    Option<u64>,
>)
    ensures
        value_spec(
            pre + flat(json_readable(Node::Array(Seq::empty()), q)) + rest,
            pre.len() as int,
            k,
            reals,
        ) == JsonOut::Done(
            Node::Array(Seq::empty()),
            (pre.len() + flat(json_readable(Node::Array(Seq::empty()), q)).len()) as int,
            k,
        ),
{
    reveal_strlit("[\n\n]");
    let t = flat(json_readable(Node::Array(Seq::empty()), q));
    let s = pre + t + rest;
    let j = pre.len() as int;
    lemma_flat_one("[\n\n]"@);
    assert(t =~= seq!['[', '\n', '\n', ']']);
    assert(s[j] == '[');
    lemma_skip_layout(s, j, 0);
    assert(s[j + 1] == '\n' && s[j + 2] == '\n' && s[j + 3] == ']');
    lemma_skip_layout(s, j + 1, 2);
    assert(array_spec(s, j + 1, k, reals) == JsonOut::Done(Node::Array(Seq::empty()), j + 4, k));
}

#[verifier::spinoff_prover]
#[verifier::rlimit(80)]
proof fn lemma_read_readable_array(
    a: Seq<Node>,
    q: Seq<char>,
    pre: Seq<char>,
    rest: Seq<char>,
    k: int,
    reals: Seq<Option<u64>>,
)
    requires
        plain_items(a),
        all_spaces(q),
    ensures
        value_spec(pre + flat(json_readable(Node::Array(a), q)) + rest, pre.len() as int, k, reals)
            == JsonOut::Done(
            Node::Array(a),
            (pre.len() + flat(json_readable(Node::Array(a), q)).len()) as int,
            k,
        ),
    decreases a, 1nat, a.len() + 1,
{
    if a.len() == 0 {
        assert(a =~= Seq::<Node>::empty());
        lemma_read_readable_empty(q, pre, rest, k, reals);
    } else {
        let q2 = q + "  "@;
        lemma_layout_texts(q);
        lemma_spaces_ws(q2);
        lemma_readable_array_text(a, q);
        let t = flat(json_readable(Node::Array(a), q));
        let s = pre + t + rest;
        let j = pre.len() as int;
        let t0 = flat(json_readable(a[0], q2));
        lemma_plain_item(a, 0);
        lemma_readable_first_char(a[0], q2);
        let after = if a.len() > 1 {
            seq![',', '\n'] + flat(readable_items(a.skip(1), q2))
        } else {
            Seq::<char>::empty()
        };
        let end = "\n"@ + q + "]"@;
        assert(s[j] == '[');
        lemma_skip_layout(s, j, 0);
        let start = j + 2 + q2.len();
        assert forall|x: int| j + 1 <= x < start implies is_ws(#[trigger] s[x]) by {
            assert(s[x] == (seq!['\n'] + q2)[x - j - 1]);
        }
        assert(s[start] == t0[0]);
        lemma_skip_layout(s, j + 1, (1 + q2.len()) as int);
        assert(array_spec(s, j + 1, k, reals) == elements_spec(s, start, k, reals, Seq::empty()));
        let pre2 = s.subrange(0, start);
        assert(a.take(0) =~= Seq::<Node>::empty());
        lemma_read_ritems(a, 0, q2, q, pre2, Seq::empty(), rest, k, reals);
        assert(pre2 + Seq::<char>::empty() + t0 + (after + end + rest) =~= s);
    }
}

/// Reading the readable items of an array from the `t`-th on.
#[verifier::spinoff_prover]
#[verifier::rlimit(80)]
proof fn lemma_read_ritems(
    a: Seq<Node>,
    t: int,
    q2: Seq<char>,
    qc: Seq<char>,
    pre: Seq<char>,
    lay: Seq<char>,
    rest: Seq<char>,
    k: int,
    reals: Seq<Option<u64>>,
)
    requires
        plain_items(a),
        0 <= t < a.len(),
        all_spaces(q2),
        all_spaces(qc),
        all_ws(lay),
    ensures
        ({
            let tail = (if t + 1 < a.len() {
                seq![',', '\n'] + flat(readable_items(a.skip(t + 1), q2))
            } else {
                Seq::<char>::empty()
            }) + ("\n"@ + qc + "]"@) + rest;
            let s = pre + lay + flat(json_readable(a[t], q2)) + tail;
            elements_spec(s, pre.len() as int, k, reals, a.take(t)) == JsonOut::Done(
                Node::Array(a),
                (s.len() - rest.len()) as int,
                k,
            )
        }),
    decreases a, 1nat, a.len() - t,
{
    reveal_strlit("\n");
    reveal_strlit("]");
    let more = t + 1 < a.len();
    let close = "\n"@ + qc + "]"@;
    let tail = (if more {
        seq![',', '\n'] + flat(readable_items(a.skip(t + 1), q2))
    } else {
        Seq::<char>::empty()
    }) + close + rest;
    let x = flat(json_readable(a[t], q2));
    let s = pre + lay + x + tail;
    lemma_plain_item(a, t);
    assert(tail[0] == ',' || tail[0] == '\n');
    lemma_read_readable(a[t], q2, pre, lay, tail, k, reals);
    let m = (pre.len() + lay.len() + x.len()) as int;
    assert(a.take(t).push(a[t]) =~= a.take(t + 1));
    if more {
        assert(s[m] == ',');
        lemma_skip_layout(s, m, 0);
        let b = a.skip(t + 1);
        lemma_ritems_front(b, q2);
        assert(b[0] == a[t + 1]);
        assert(b.skip(1) =~= a.skip(t + 2));
        lemma_spaces_ws(q2);
        let pre2 = pre + lay + x + seq![','];
        let lay2 = seq!['\n'] + q2;
        let x2 = flat(json_readable(a[t + 1], q2));
        let after2 = if t + 2 < a.len() {
            seq![',', '\n'] + flat(readable_items(a.skip(t + 2), q2))
        } else {
            Seq::<char>::empty()
        };
        assert(flat(readable_items(b, q2)) == q2 + x2 + after2);
        assert(s =~= pre2 + lay2 + x2 + (after2 + close + rest));
        lemma_read_ritems(a, t + 1, q2, qc, pre2, lay2, rest, k, reals);
    } else {
        lemma_spaces_ws(qc);
        assert(s[m] == '\n');
        let w = (1 + qc.len()) as int;
        assert forall|y: int| m <= y < m + w implies is_ws(#[trigger] s[y]) by {
            assert(s[y] == (seq!['\n'] + qc)[y - m]);
        }
        assert(s[m + w] == ']');
        lemma_skip_layout(s, m, w);
        assert(a.take(t + 1) =~= a);
    }
}

/// Readable JSON (`-r`) reads back: the JSON reader, applied to the
/// readable text of a value made of strings, integers, Booleans and arrays
/// (at any depth), on lines that begin with spaces, followed by any text
/// that cannot continue a number, gives the value back and stops right
/// after its text.  So consecutive items of an array are separated by a
/// comma.
pub proof fn law_readable_json_reads_back(
    n: Node,
    p: Seq<char>,
    rest: Seq<char>,
    k: int,
    reals: Seq<Option<u64>>,
)
    requires
        plain(n),
        all_spaces(p),
        ends_number(rest),
    ensures
        value_spec(flat(json_readable(n, p)) + rest, 0, k, reals) == JsonOut::Done(
            n,
            flat(json_readable(n, p)).len() as int,
            k,
        ),
{
    lemma_read_readable(n, p, Seq::empty(), Seq::empty(), rest, k, reals);
    assert(Seq::<char>::empty() + Seq::<char>::empty() + flat(json_readable(n, p))
        =~= flat(json_readable(n, p)));
}

} // verus!
