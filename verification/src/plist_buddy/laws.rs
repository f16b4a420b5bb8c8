use vstd::prelude::*;
use crate::plist_buddy::commands::{add_effect, add_placed, coerced, typed_value, copy_effect, delete_effect, set_effect};
use crate::output::Piece;
use crate::plist_buddy::dispatch::{command_kind, executes, CommandKind, Step};
use crate::plist_buddy::session::{PlistState, Reading, Res};
use crate::text::{all_ascii, ascii_lower, is_ws, lower_text, trim_end};
use crate::plist_buddy::tokens::{entry_path, first_word, token_of, unquote};
use crate::tree::{
    at_path, get_at, index_of, lemma_at_path_append, lemma_at_rebuilt, lemma_at_rebuilt_made,
    lemma_create_irrelevant, lemma_index_nonneg, lemma_nothing_made, lemma_rebuilt_same, lemma_rebuilt_twice, rebuilt,
};
use crate::value::{has_key, lemma_lookup_put, lemma_put_new, put, Node};

verus! {

/// A path is its container's path and its last component.
proof fn lemma_path_split(path: Seq<Seq<char>>)
    requires
        path.len() > 0,
    ensures
        path == path.drop_last() + seq![path.last()],
{
    assert(path =~= path.drop_last() + seq![path.last()]);
}

/// The node a one-component path leads to from a dictionary.
proof fn lemma_one_step(n: Node, key: Seq<char>)
    ensures
        at_path(n, seq![key], false) == crate::tree::descend(n, key, false),
{
    assert(seq![key][0] == key);
    assert(seq![key].skip(1) =~= Seq::<Seq<char>>::empty());
    if let Some(c) = crate::tree::descend(n, key, false) {
        assert(at_path(c, Seq::<Seq<char>>::empty(), false) == Some(c));
    }
}

/// After `Set` succeeds, the entry holds the value that `Set` made of the
/// text.
pub proof fn law_set_then_get(root: Node, args: Seq<char>, reading: Reading)
    requires
        set_effect(root, args, reading).result == Res::Success,
    ensures
        ({
            let path = entry_path(token_of(args).0);
            get_at(set_effect(root, args, reading).root, path) == Some(
                coerced(get_at(root, path)->Some_0, unquote(token_of(args).1), reading).0,
            )
        }),
{
    let path = entry_path(token_of(args).0);
    let t = get_at(root, path)->Some_0;
    lemma_at_rebuilt(root, path, coerced(t, unquote(token_of(args).1), reading).0);
}

/// After `Add` of a new dictionary key (an entry that does not end in a
/// colon), the entry holds the added value.
pub proof fn law_add_then_get(root: Node, e: Seq<char>, v: Node)
    requires
        !(e.len() > 0 && e.last() == ':'),
        entry_path(e).len() > 0,
        add_placed(root, e, v).result == Res::Success,
        at_path(root, entry_path(e).drop_last(), true) matches Some(Node::Dict(_)),
    ensures
        get_at(add_placed(root, e, v).root, entry_path(e)) == Some(v),
{
    let path = entry_path(e);
    let pp = path.drop_last();
    let key = path.last();
    let es = at_path(root, pp, true)->Some_0->Dict_0;
    let leaf = Node::Dict(put(es, key, v));
    lemma_at_rebuilt_made(root, pp, leaf);
    lemma_path_split(path);
    lemma_at_path_append(rebuilt(root, pp, true, leaf), pp, seq![key]);
    lemma_one_step(leaf, key);
    lemma_lookup_put(es, key, v);
}

/// `Delete` of an entry just added (as a new key of an existing dictionary,
/// or at an index of an existing array no further than its end) gives back
/// the plist as it was.
pub proof fn law_delete_undoes_add(root: Node, args: Seq<char>, v: Node)
    requires
        ({
            let e = token_of(args).0;
            let path = entry_path(e);
            &&& !(e.len() > 0 && e.last() == ':')
            &&& path.len() > 0
            &&& add_placed(root, e, v).result == Res::Success
            &&& match at_path(root, path.drop_last(), false) {
                Some(Node::Dict(_)) => true,
                Some(Node::Array(a)) => index_of(path.last()) matches Some(i) && i <= a.len(),
                _ => false,
            }
        }),
    ensures
        delete_effect(add_placed(root, token_of(args).0, v).root, args).root == root,
        delete_effect(add_placed(root, token_of(args).0, v).root, args).result == Res::Success,
{
    let e = token_of(args).0;
    let path = entry_path(e);
    let pp = path.drop_last();
    let key = path.last();
    let old_leaf = at_path(root, pp, false)->Some_0;
    lemma_index_nonneg(key);
    let leaf = match old_leaf {
        Node::Dict(es) => Node::Dict(put(es, key, v)),
        Node::Array(a) => Node::Array(a.insert(index_of(key)->Some_0, v)),
        _ => old_leaf,
    };
    lemma_create_irrelevant(root, pp, leaf);
    lemma_at_rebuilt(root, pp, leaf);
    lemma_rebuilt_twice(root, pp, leaf, old_leaf);
    lemma_rebuilt_same(root, pp);
    match old_leaf {
        Node::Dict(es) => {
            assert(!has_key(es, key));
            lemma_put_new(es, key, v);
        },
        Node::Array(a) => {
            let i = index_of(key)->Some_0;
            assert(a.insert(i, v).remove(i) =~= a);
        },
        _ => {},
    }
}

/// After `Copy` succeeds in making a new entry, the new entry holds what
/// the source entry held.
pub proof fn law_copy_then_get(root: Node, args: Seq<char>)
    requires
        copy_effect(root, args).changed,
    ensures
        ({
            let (src, rest) = token_of(args);
            let dst = token_of(rest).0;
            get_at(copy_effect(root, args).root, entry_path(dst)) == get_at(root, entry_path(src))
        }),
{
    let (src, rest) = token_of(args);
    let dst = token_of(rest).0;
    let dp = entry_path(dst);
    let pp = dp.drop_last();
    let key = dp.last();
    let v = get_at(root, entry_path(src))->Some_0;
    let es = at_path(root, pp, true)->Some_0->Dict_0;
    let leaf = Node::Dict(put(es, key, v));
    lemma_at_rebuilt_made(root, pp, leaf);
    lemma_path_split(dp);
    lemma_at_path_append(rebuilt(root, pp, true, leaf), pp, seq![key]);
    lemma_one_step(leaf, key);
    lemma_lookup_put(es, key, v);
}

/// A failed `Add` changes nothing: the plist stays as it was (no dictionary
/// made on the way to the entry is kept) and it is not marked changed; and
/// an `Add` that changes the plist marks it changed.
pub proof fn law_failed_add_changes_nothing(root: Node, args: Seq<char>, reading: Reading)
    ensures
        add_effect(root, args, reading).result != Res::Success ==> add_effect(
            root,
            args,
            reading,
        ).root == root && !add_effect(root, args, reading).changed,
        add_effect(root, args, reading).root != root ==> add_effect(root, args, reading).changed,
{
    let e = token_of(args).0;
    let path = entry_path(e);
    if !(e.len() > 0 && e.last() == ':') && path.len() > 0 {
        let pp = path.drop_last();
        if let Some(x) = at_path(root, pp, true) {
            if x != Node::Dict(Seq::empty()) {
                lemma_nothing_made(root, pp);
            }
        }
    }
}

/// A command line that is blank, begins with whitespace, or whose first
/// word (in any case) names no command is answered `Unrecognized Command`
/// on standard output and changes neither the plist nor what was printed.
pub proof fn law_unrecognized_changes_nothing(
    pre: PlistState,
    post: PlistState,
    out_pre: Seq<Piece>,
    out_post: Seq<Piece>,
    input: Seq<char>,
    reading: Reading,
    r: Step,
)
    requires
        executes(pre, post, out_pre, out_post, input, reading, r),
        ({
            let t = trim_end(input);
            t.len() == 0 || is_ws(t[0]) || command_kind(lower_text(first_word(t).0)) is Unknown
        }),
    ensures
        r matches Step::Finished(c) && c@ == Res::StdoutError("Unrecognized Command"@),
        post == pre,
        out_post == out_pre,
{
}

/// `Set` of a Boolean entry and `Add` of a `bool` give true exactly for the
/// words `true`, `yes` and `1`, in any letter case, and false for any
/// other text.
pub proof fn law_bool_words(t: bool, val: Seq<char>, reading: Reading)
    ensures
        ({
            let w = lower_text(val);
            let yes = w == "true"@ || w == "yes"@ || w == "1"@;
            &&& coerced(Node::Bool(t), val, reading).0 == Node::Bool(yes)
            &&& typed_value("bool"@, val, reading) == Some(Some(Node::Bool(yes)))
        }),
        all_ascii(val) && (val.map_values(|c: char| ascii_lower(c)) == "yes"@
            || val.map_values(|c: char| ascii_lower(c)) == "true"@ || val == "1"@)
            ==> coerced(Node::Bool(t), val, reading).0 == Node::Bool(true),
{
    reveal_strlit("string");
    reveal_strlit("integer");
    reveal_strlit("real");
    reveal_strlit("bool");
    assert("string"@.len() == 6 && "integer"@.len() == 7 && "real"@.len() == 4 && "bool"@.len() == 4);
    assert("real"@[0] != "bool"@[0]);
    reveal_strlit("1");
    if all_ascii(val) && val == "1"@ {
        assert(val.map_values(|c: char| ascii_lower(c)) =~= val);
    }
}

} // verus!
