use vstd::prelude::*;
use crate::num::{parse_unsigned, parse_usize_at};
use crate::text::{chars_of, views};
use crate::value::{
    array_slot, first_at, has_key, key_index, lemma_array_model, lemma_key_index, lookup, model, models, put,
    Dictionary, Node, Value,
};

verus! {

broadcast use lemma_array_model;

/// The array position a path component names.
pub open spec fn index_of(c: Seq<char>) -> Option<int> {
    parse_unsigned(c, usize::MAX as int)
}

/// The child that component `c` leads to.  With `create`, a key missing
/// from a dictionary leads to a new empty dictionary.
pub open spec fn descend(n: Node, c: Seq<char>, create: bool) -> Option<Node> {
    match n {
        Node::Dict(es) => match lookup(es, c) {
            Some(x) => Some(x),
            None => if create {
                Some(Node::Dict(Seq::empty()))
            } else {
                None
            },
        },
        Node::Array(a) => match index_of(c) {
            Some(i) => if 0 <= i < a.len() {
                Some(a[i])
            } else {
                None
            },
            None => None,
        },
        _ => None,
    }
}

/// `n` with the child that `c` names set to `new`.
pub open spec fn put_child(n: Node, c: Seq<char>, new: Node) -> Node {
    match n {
        Node::Dict(es) => Node::Dict(put(es, c, new)),
        Node::Array(a) => match index_of(c) {
            Some(i) => if 0 <= i < a.len() {
                Node::Array(a.update(i, new))
            } else {
                n
            },
            None => n,
        },
        _ => n,
    }
}

/// The node a path leads to.
pub open spec fn at_path(n: Node, path: Seq<Seq<char>>, create: bool) -> Option<Node>
    decreases path.len(),
{
    if path.len() == 0 {
        Some(n)
    } else {
        match descend(n, path[0], create) {
            Some(c) => at_path(c, path.skip(1), create),
            None => None,
        }
    }
}

/// `n` with the node at `path` set to `leaf` (dictionaries along the way
/// made, with `create`, where keys are missing).
pub open spec fn rebuilt(n: Node, path: Seq<Seq<char>>, create: bool, leaf: Node) -> Node
    decreases path.len(),
{
    if path.len() == 0 {
        leaf
    } else {
        match descend(n, path[0], create) {
            Some(c) => put_child(n, path[0], rebuilt(c, path.skip(1), create, leaf)),
            None => n,
        }
    }
}

/// The node at `path`, or none.
pub open spec fn get_at(n: Node, path: Seq<Seq<char>>) -> Option<Node> {
    at_path(n, path, false)
}

/// `n` with the node at an existing `path` replaced.
pub open spec fn set_at(n: Node, path: Seq<Seq<char>>, leaf: Node) -> Node {
    rebuilt(n, path, false, leaf)
}

pub proof fn lemma_fresh_dict_path(path: Seq<Seq<char>>)
    ensures
        at_path(Node::Dict(Seq::empty()), path, true) == Some(Node::Dict(Seq::empty())),
    decreases path.len(),
{
    if path.len() > 0 {
        let e: Seq<(Seq<char>, Node)> = Seq::empty();
        assert(!has_key(e, path[0]));
        lemma_fresh_dict_path(path.skip(1));
    }
}

/// An array position is never negative.
pub proof fn lemma_index_nonneg(c: Seq<char>)
    ensures
        index_of(c) matches Some(i) ==> i >= 0,
{
    let d = if c.len() > 0 && c[0] == '+' {
        c.skip(1)
    } else {
        c
    };
    if d.len() > 0 && crate::num::all_digits(d) {
        crate::num::lemma_digits_value_nonneg(d);
    }
}

/// The array position that a component names.
pub fn component_index(c: &str) -> (r: Option<usize>)
    ensures
        match r {
            Some(i) => index_of(c@) == Some(i as int),
            None => index_of(c@) is None,
        },
{
    let v = chars_of(c);
    assert(v@.subrange(0, v@.len() as int) =~= v@);
    parse_usize_at(v.as_slice(), 0, v.len())
}

/// The value at `path[from..]` below `root`.
pub fn resolve_entry<'a>(root: &'a Value, path: &[String]) -> (r: Result<&'a Value, ()>)
    ensures
        match r {
            Ok(v) => get_at(model(*root), views(path@)) == Some(model(*v)),
            Err(_) => get_at(model(*root), views(path@)) is None,
        },
{
    let ghost p = views(path@);
    let mut cur = root;
    let mut i: usize = 0;
    assert(p.skip(0) =~= p);
    while i < path.len()
        invariant
            0 <= i <= path@.len(),
            p == views(path@),
            at_path(model(*root), p, false) == at_path(model(*cur), p.skip(i as int), false),
        decreases path@.len() - i,
    {
        let ghost q = p.skip(i as int);
        assert(q[0] == path@[i as int]@);
        assert(q.skip(1) =~= p.skip(i + 1));
        let next: &Value = match cur {
            Value::Dictionary(d) => match d.get(path[i].as_str()) {
                Some(x) => {
                    assert(descend(model(*cur), q[0], false) == Some(model(*x)));
                    x
                },
                None => return Err(()),
            },
            Value::Array(a) => match component_index(path[i].as_str()) {
                Some(k) => {
                    if k < a.len() {
                        assert(model(*cur) == model(Value::Array(*a)));
                        assert(models(a@)[k as int] == model(a@[k as int]));
                        assert(descend(model(*cur), q[0], false) == Some(model(a@[k as int])));
                        &a[k]
                    } else {
                        return Err(());
                    }
                },
                None => return Err(()),
            },
            _ => return Err(()),
        };
        cur = next;
        i += 1;
    }
    assert(p.skip(i as int) =~= Seq::<Seq<char>>::empty());
    Ok(cur)
}

/// Walks `path[from..]` below `root` to the value there, to change in place.
/// With `create`, missing dictionary keys along the way get new empty
/// dictionaries.
pub fn walk_mut<'a>(root: &'a mut Value, path: &[String], from: usize, create: bool) -> (r:
    Option<&'a mut Value>)
    requires
        from <= path@.len(),
    ensures
        match r {
            Some(x) => {
                &&& at_path(model(*old(root)), views(path@).skip(from as int), create) == Some(
                    model(*x),
                )
                &&& model(*final(root)) == rebuilt(
                    model(*old(root)),
                    views(path@).skip(from as int),
                    create,
                    model(*final(x)),
                )
            },
            None => {
                &&& at_path(model(*old(root)), views(path@).skip(from as int), create) is None
                &&& model(*final(root)) == model(*old(root))
            },
        },
    decreases path@.len() - from,
{
    let ghost p = views(path@).skip(from as int);
    if from == path.len() {
        assert(p.len() == 0);
        return Some(root);
    }
    assert(p[0] == path@[from as int]@);
    assert(p.skip(1) =~= views(path@).skip(from + 1));
    match root {
        Value::Dictionary(d) => {
            let ghost es = d@;
            let ghost c = p[0];
            let i = match d.position(path[from].as_str()) {
                Some(i) => {
                    assert(descend(Node::Dict(es), c, create) == Some(es[i as int].1));
                    i
                },
                None => {
                    if create {
                        let fresh = Dictionary::new();
                        assert(model(Value::Dictionary(fresh)) == Node::Dict(fresh@));
                        d.insert(path[from].clone(), Value::Dictionary(fresh));
                        proof {
                            lemma_fresh_dict_path(p.skip(1));
                        }
                        assert(d@ == es.push((c, Node::Dict(Seq::empty()))));
                        assert(descend(Node::Dict(es), c, create) == Some(
                            Node::Dict(Seq::<(Seq<char>, Node)>::empty()),
                        ));
                        d.len() - 1
                    } else {
                        return None;
                    }
                },
            };
            let ghost es1 = d@;
            proof {
                assert(model(*old(root)) == Node::Dict(es));
                assert(descend(Node::Dict(es), c, create) == Some(es1[i as int].1));
                assert(at_path(Node::Dict(es), p, create) == at_path(es1[i as int].1, p.skip(1), create));
                assert(es1[i as int].0 == c);
                assert forall|x: Node| es1.update(i as int, (es1[i as int].0, x)) == put(es, c, x) by {
                    if !has_key(es, c) {
                        assert(es1.update(i as int, (c, x)) =~= es.push((c, x)));
                    }
                }
                if has_key(es, c) {
                    assert(es.update(i as int, (c, es[i as int].1)) =~= es);
                }
            }
            let child = d.value_at_mut(i);
            let r = walk_mut(child, path, from + 1, create);
            r
        },
        Value::Array(a) => match component_index(path[from].as_str()) {
            Some(k) => {
                if k < a.len() {
                    proof {
                        assert(model(*old(root)) == Node::Array(models(a@)));
                        assert(models(a@).update(k as int, models(a@)[k as int]) =~= models(a@));
                    }
                    let child = array_slot(a, k);
                    walk_mut(child, path, from + 1, create)
                } else {
                    None
                }
            },
            None => None,
        },
        _ => None,
    }
}


/// Putting back what a path leads to changes nothing.
pub proof fn lemma_rebuilt_same(n: Node, path: Seq<Seq<char>>)
    requires
        get_at(n, path) is Some,
    ensures
        set_at(n, path, get_at(n, path)->0) == n,
    decreases path.len(),
{
    if path.len() > 0 {
        let c = descend(n, path[0], false)->0;
        lemma_rebuilt_same(c, path.skip(1));
        match n {
            Node::Dict(es) => {
                lemma_key_index(es, path[0]);
                assert(es.update(key_index(es, path[0]), (path[0], c)) =~= es);
            },
            Node::Array(a) => {
                let i = index_of(path[0])->0;
                assert(a.update(i, a[i]) =~= a);
            },
            _ => {},
        }
    }
}

/// Setting an existing child twice keeps the second value, and the child
/// then reads back as set.
pub proof fn lemma_put_child(n: Node, c: Seq<char>, a: Node, b: Node)
    requires
        descend(n, c, false) is Some,
    ensures
        descend(put_child(n, c, a), c, false) == Some(a),
        put_child(put_child(n, c, a), c, b) == put_child(n, c, b),
{
    match n {
        Node::Dict(es) => {
            lemma_key_index(es, c);
            let i = key_index(es, c);
            let es1 = es.update(i, (c, a));
            assert(first_at(es1, c, i));
            lemma_key_index(es1, c);
            assert(es1.update(i, (c, b)) =~= es.update(i, (c, b)));
        },
        Node::Array(s) => {
            let i = index_of(c)->0;
            assert(s.update(i, a).update(i, b) =~= s.update(i, b));
        },
        _ => {},
    }
}

/// What was set at an existing path reads back there.
pub proof fn lemma_at_rebuilt(n: Node, path: Seq<Seq<char>>, leaf: Node)
    requires
        at_path(n, path, false) is Some,
    ensures
        at_path(rebuilt(n, path, false, leaf), path, false) == Some(leaf),
    decreases path.len(),
{
    if path.len() > 0 {
        let c = descend(n, path[0], false)->0;
        lemma_at_rebuilt(c, path.skip(1), leaf);
        lemma_put_child(n, path[0], rebuilt(c, path.skip(1), false, leaf), leaf);
    }
}

/// Setting an existing path twice is setting it once, to the second value.
pub proof fn lemma_rebuilt_twice(n: Node, path: Seq<Seq<char>>, x: Node, y: Node)
    requires
        at_path(n, path, false) is Some,
    ensures
        rebuilt(rebuilt(n, path, false, x), path, false, y) == rebuilt(n, path, false, y),
    decreases path.len(),
{
    if path.len() > 0 {
        let c = descend(n, path[0], false)->0;
        let cx = rebuilt(c, path.skip(1), false, x);
        lemma_put_child(n, path[0], cx, rebuilt(c, path.skip(1), false, y));
        lemma_rebuilt_twice(c, path.skip(1), x, y);
        lemma_put_child(n, path[0], cx, cx);
    }
}

/// Following `p` and then `q` is following `p + q`.
pub proof fn lemma_at_path_append(n: Node, p: Seq<Seq<char>>, q: Seq<Seq<char>>)
    ensures
        at_path(n, p + q, false) == match at_path(n, p, false) {
            Some(x) => at_path(x, q, false),
            None => None,
        },
    decreases p.len(),
{
    if p.len() > 0 {
        assert((p + q)[0] == p[0]);
        assert((p + q).skip(1) =~= p.skip(1) + q);
        match descend(n, p[0], false) {
            Some(c) => lemma_at_path_append(c, p.skip(1), q),
            None => {},
        }
    } else {
        assert(p + q =~= q);
    }
}

/// A path that exists is followed the same way whether or not missing
/// dictionary keys would be made.
pub proof fn lemma_create_irrelevant(n: Node, path: Seq<Seq<char>>, leaf: Node)
    requires
        at_path(n, path, false) is Some,
    ensures
        at_path(n, path, true) == at_path(n, path, false),
        rebuilt(n, path, true, leaf) == rebuilt(n, path, false, leaf),
    decreases path.len(),
{
    if path.len() > 0 {
        let c = descend(n, path[0], false)->0;
        lemma_create_irrelevant(c, path.skip(1), leaf);
    }
}

/// After setting a value at a path, making missing dictionaries along the
/// way, the path exists and leads to that value.
pub proof fn lemma_at_rebuilt_made(n: Node, path: Seq<Seq<char>>, leaf: Node)
    requires
        at_path(n, path, true) is Some,
    ensures
        at_path(rebuilt(n, path, true, leaf), path, false) == Some(leaf),
    decreases path.len(),
{
    if path.len() > 0 {
        let c = descend(n, path[0], true)->0;
        let new = rebuilt(c, path.skip(1), true, leaf);
        lemma_at_rebuilt_made(c, path.skip(1), leaf);
        match n {
            Node::Dict(es) => {
                crate::value::lemma_lookup_put(es, path[0], new);
            },
            _ => {},
        }
    }
}

/// Where making missing dictionaries along a path ends at anything but a
/// fresh empty dictionary, no dictionary was made: the path exists as it
/// is, and setting back what it leads to changes nothing.
pub proof fn lemma_nothing_made(n: Node, path: Seq<Seq<char>>)
    requires
        at_path(n, path, true) is Some,
        at_path(n, path, true) != Some(Node::Dict(Seq::empty())),
    ensures
        at_path(n, path, false) == at_path(n, path, true),
        rebuilt(n, path, true, at_path(n, path, true)->0) == n,
    decreases path.len(),
{
    if path.len() > 0 {
        let c = descend(n, path[0], true)->0;
        if descend(n, path[0], false) is None {
            assert(c == Node::Dict(Seq::empty()));
            lemma_fresh_dict_path(path.skip(1));
            assert(false);
        }
        lemma_nothing_made(c, path.skip(1));
    }
    let x = at_path(n, path, true)->0;
    lemma_create_irrelevant(n, path, x);
    lemma_rebuilt_same(n, path);
}

} // verus!
