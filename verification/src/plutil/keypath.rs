use vstd::prelude::*;
use crate::text::{cat2, chars_of, nat_text, split_chars, split_on, u64_text, views};
use crate::tree::{at_path, component_index, get_at, index_of, rebuilt, resolve_entry, walk_mut};
use crate::value::{delete, has_key, lemma_array_model, model, models, Node, Value};

verus! {

broadcast use lemma_array_model;

/// The components of a key path: the pieces between its dots.
pub open spec fn keypath_parts(k: Seq<char>) -> Seq<Seq<char>> {
    split_on(k, '.')
}

/// The path that a key path names for changing a value in place: the empty
/// key path names the root itself.
pub open spec fn target_path(k: Seq<char>) -> Seq<Seq<char>> {
    if k.len() == 0 {
        Seq::empty()
    } else {
        keypath_parts(k)
    }
}

/// The path to the container that a key path's last component lives in,
/// and that component.  The container's key path is the other components
/// joined by dots, read again as a key path for changing in place; so a
/// key path of one component, or of an empty component and one more (such
/// as `.x`), has the root as its container.
pub open spec fn parent_and_key(k: Seq<char>) -> (Seq<Seq<char>>, Seq<char>) {
    let p = keypath_parts(k);
    if p.len() <= 1 || (p.len() == 2 && p[0].len() == 0) {
        (Seq::empty(), p.last())
    } else {
        (p.drop_last(), p.last())
    }
}

pub proof fn lemma_split_nonempty(s: Seq<char>, c: char)
    ensures
        split_on(s, c).len() >= 1,
{
}

/// The components of a key path.
fn components(keypath: &str) -> (r: Vec<String>)
    ensures
        views(r@) == keypath_parts(keypath@),
        r@.len() >= 1,
{
    let v = chars_of(keypath);
    assert(v@.subrange(0, v@.len() as int) =~= v@);
    let r = split_chars(v.as_slice(), '.', 0, v.len());
    proof {
        lemma_split_nonempty(keypath@, '.');
    }
    r
}

/// The value that a key path leads to below `root`: for each component, a
/// dictionary's value under that key or an array's element at that
/// decimal index.  The empty key path leads nowhere.
pub fn resolve_keypath<'a>(root: &'a Value, keypath: &str) -> (r: Option<&'a Value>)
    ensures
        match r {
            Some(v) => keypath@.len() > 0 && get_at(model(*root), keypath_parts(keypath@)) == Some(
                model(*v),
            ),
            None => keypath@.len() == 0 || get_at(model(*root), keypath_parts(keypath@)) is None,
        },
{
    if keypath.unicode_len() == 0 {
        return None;
    }
    let parts = components(keypath);
    match resolve_entry(root, parts.as_slice()) {
        Ok(v) => Some(v),
        Err(_) => None,
    }
}

/// The value that a key path leads to, to change in place; the empty key
/// path leads to the root itself.
pub fn resolve_keypath_mut<'a>(root: &'a mut Value, keypath: &str) -> (r: Option<&'a mut Value>)
    ensures
        match r {
            Some(x) => {
                &&& at_path(model(*old(root)), target_path(keypath@), false) == Some(model(*x))
                &&& model(*final(root)) == rebuilt(
                    model(*old(root)),
                    target_path(keypath@),
                    false,
                    model(*final(x)),
                )
            },
            None => {
                &&& at_path(model(*old(root)), target_path(keypath@), false) is None
                &&& model(*final(root)) == model(*old(root))
            },
        },
{
    if keypath.unicode_len() == 0 {
        return Some(root);
    }
    let parts = components(keypath);
    assert(views(parts@).skip(0) =~= views(parts@));
    walk_mut(root, parts.as_slice(), 0, false)
}

/// Splits a key path into the path of its container and its last
/// component (see `parent_and_key`).
pub fn split_keypath(keypath: &str) -> (r: (Vec<String>, String))
    ensures
        views(r.0@) == parent_and_key(keypath@).0,
        r.1@ == parent_and_key(keypath@).1,
{
    let mut parts = components(keypath);
    let n = parts.len();
    let key = match parts.pop() {
        Some(k) => k,
        None => String::new(),
    };
    let ghost p = keypath_parts(keypath@);
    assert(key@ == p.last());
    if n == 1 || (n == 2 && parts[0].unicode_len() == 0) {
        let none: Vec<String> = Vec::new();
        assert(views(none@) =~= Seq::<Seq<char>>::empty());
        return (none, key);
    }
    assert(views(parts@) =~= p.drop_last());
    (parts, key)
}

/// What inserting `v` at key path `k` makes of the tree `m`, or the
/// message it is refused with.  With `append`, `v` goes at the end of the
/// array the key path names.  Otherwise the last component names a new key
/// of a dictionary, or the position in an array at which `v` goes (past the
/// end meaning the end).
pub open spec fn inserted(m: Node, k: Seq<char>, v: Node, append: bool) -> Result<Node, Seq<char>> {
    if append {
        match at_path(m, target_path(k), false) {
            None => Err("Key path not found "@ + k),
            Some(Node::Array(a)) => Ok(rebuilt(m, target_path(k), false, Node::Array(a.push(v)))),
            Some(_) => Err("Appending to a non-array at key path "@ + k),
        }
    } else {
        let (pp, key) = parent_and_key(k);
        match at_path(m, pp, false) {
            None => Err("Key path not found "@ + k),
            Some(Node::Dict(es)) => if has_key(es, key) {
                Err("Value already exists at key path "@ + k)
            } else {
                Ok(rebuilt(m, pp, false, Node::Dict(es.push((key, v)))))
            },
            Some(Node::Array(a)) => match index_of(key) {
                None => Err("Invalid array index: "@ + key),
                Some(i) => Ok(
                    rebuilt(
                        m,
                        pp,
                        false,
                        Node::Array(
                            a.insert(
                                if i < a.len() {
                                    i
                                } else {
                                    a.len() as int
                                },
                                v,
                            ),
                        ),
                    ),
                ),
            },
            Some(_) => Err("Cannot insert into non-container at keypath"@),
        }
    }
}

/// What replacing the value at key path `k` by `v` makes of `m`.
pub open spec fn replaced(m: Node, k: Seq<char>, v: Node) -> Result<Node, Seq<char>> {
    match at_path(m, target_path(k), false) {
        None => Err("No value at that key path or invalid key path: "@ + k),
        Some(_) => Ok(rebuilt(m, target_path(k), false, v)),
    }
}

/// What removing the value at key path `k` makes of `m`.
pub open spec fn removed(m: Node, k: Seq<char>) -> Result<Node, Seq<char>> {
    let (pp, key) = parent_and_key(k);
    match at_path(m, pp, false) {
        None => Err("No value at that key path or invalid key path: "@ + k),
        Some(Node::Dict(es)) => if has_key(es, key) {
            Ok(rebuilt(m, pp, false, Node::Dict(delete(es, key))))
        } else {
            Err("No value to remove at key path "@ + k)
        },
        Some(Node::Array(a)) => match index_of(key) {
            None => Err("Invalid array index: "@ + key),
            Some(i) => if i >= a.len() {
                Err("Array index out of bounds: "@ + nat_text(i as nat))
            } else {
                Ok(rebuilt(m, pp, false, Node::Array(a.remove(i))))
            },
        },
        Some(_) => Err("Cannot remove from non-container"@),
    }
}

/// Inserts `new_value` at a key path (see `inserted`).  On failure the tree
/// is left as it was.
pub fn insert_at_keypath(root: &mut Value, keypath: &str, new_value: Value, append: bool) -> (r:
    Result<(), String>)
    ensures
        match inserted(model(*old(root)), keypath@, model(new_value), append) {
            Ok(n) => r is Ok && model(*final(root)) == n,
            Err(m) => r is Err && r->Err_0@ == m && model(*final(root)) == model(*old(root)),
        },
{
    let ghost m = model(*root);
    let ghost v = model(new_value);
    if append {
        match resolve_keypath_mut(root, keypath) {
            None => Err(cat2("Key path not found ", keypath)),
            Some(t) => {
                proof {
                    crate::tree::lemma_rebuilt_same(m, target_path(keypath@));
                }
                match t {
                    Value::Array(arr) => {
                        let ghost a = models(arr@);
                        arr.push(new_value);
                        assert(models(arr@) =~= a.push(v));
                        Ok(())
                    },
                    _ => Err(cat2("Appending to a non-array at key path ", keypath)),
                }
            },
        }
    } else {
        let (pp, key) = split_keypath(keypath);
        assert(views(pp@).skip(0) =~= views(pp@));
        match walk_mut(root, pp.as_slice(), 0, false) {
            None => Err(cat2("Key path not found ", keypath)),
            Some(parent) => {
                proof {
                    crate::tree::lemma_rebuilt_same(m, views(pp@));
                }
                match parent {
                    Value::Dictionary(d) => {
                        if d.contains_key(key.as_str()) {
                            return Err(cat2("Value already exists at key path ", keypath));
                        }
                        d.insert(key, new_value);
                        Ok(())
                    },
                    Value::Array(arr) => match component_index(key.as_str()) {
                        None => Err(cat2("Invalid array index: ", key.as_str())),
                        Some(i) => {
                            let ghost a = models(arr@);
                            let idx = if i < arr.len() {
                                i
                            } else {
                                arr.len()
                            };
                            arr.insert(idx, new_value);
                            assert(models(arr@) =~= a.insert(idx as int, v));
                            Ok(())
                        },
                    },
                    _ => Err(String::from_str("Cannot insert into non-container at keypath")),
                }
            },
        }
    }
}

/// Replaces the value at a key path (the empty key path: the root).
pub fn replace_at_keypath(root: &mut Value, keypath: &str, new_value: Value) -> (r: Result<
    (),
    String,
>)
    ensures
        match replaced(model(*old(root)), keypath@, model(new_value)) {
            Ok(n) => r is Ok && model(*final(root)) == n,
            Err(m) => r is Err && r->Err_0@ == m && model(*final(root)) == model(*old(root)),
        },
{
    match resolve_keypath_mut(root, keypath) {
        Some(t) => {
            *t = new_value;
            Ok(())
        },
        None => Err(cat2("No value at that key path or invalid key path: ", keypath)),
    }
}

/// Removes the value at a key path.  On failure the tree is left as it was.
pub fn remove_at_keypath(root: &mut Value, keypath: &str) -> (r: Result<(), String>)
    ensures
        match removed(model(*old(root)), keypath@) {
            Ok(n) => r is Ok && model(*final(root)) == n,
            Err(m) => r is Err && r->Err_0@ == m && model(*final(root)) == model(*old(root)),
        },
{
    let ghost m = model(*root);
    let (pp, key) = split_keypath(keypath);
    assert(views(pp@).skip(0) =~= views(pp@));
    match walk_mut(root, pp.as_slice(), 0, false) {
        None => Err(cat2("No value at that key path or invalid key path: ", keypath)),
        Some(parent) => {
            proof {
                crate::tree::lemma_rebuilt_same(m, views(pp@));
            }
            match parent {
                Value::Dictionary(d) => match d.remove(key.as_str()) {
                    Some(_) => Ok(()),
                    None => Err(cat2("No value to remove at key path ", keypath)),
                },
                Value::Array(arr) => match component_index(key.as_str()) {
                    None => Err(cat2("Invalid array index: ", key.as_str())),
                    Some(i) => {
                        if i >= arr.len() {
                            let t = u64_text(i as u64);
                            return Err(cat2("Array index out of bounds: ", t.as_str()));
                        }
                        let ghost a = models(arr@);
                        arr.remove(i);
                        assert(models(arr@) =~= a.remove(i as int));
                        Ok(())
                    },
                },
                _ => Err(String::from_str("Cannot remove from non-container")),
            }
        },
    }
}

/// The key path's components are its container's path and its last
/// component, except for a key path such as `.x`.
proof fn lemma_parts_split(k: Seq<char>)
    requires
        !(keypath_parts(k).len() == 2 && keypath_parts(k)[0].len() == 0),
    ensures
        keypath_parts(k) == parent_and_key(k).0.push(parent_and_key(k).1),
{
    lemma_split_nonempty(k, '.');
    let p = keypath_parts(k);
    if p.len() == 1 {
        assert(p =~= Seq::<Seq<char>>::empty().push(p.last()));
    } else {
        assert(p =~= p.drop_last().push(p.last()));
    }
}

/// After a value replaces the one at a key path, the key path leads to it.
pub proof fn law_replace_then_resolve(m: Node, k: Seq<char>, v: Node)
    requires
        k.len() > 0,
        replaced(m, k, v) is Ok,
    ensures
        get_at(replaced(m, k, v)->Ok_0, keypath_parts(k)) == Some(v),
{
    crate::tree::lemma_at_rebuilt(m, target_path(k), v);
}

/// After a value is inserted as a new dictionary key at a key path, the
/// key path leads to it (a key path such as `.x`, whose container is the
/// root while reading it looks up the empty key first, excepted).
pub proof fn law_insert_then_resolve(m: Node, k: Seq<char>, v: Node)
    requires
        inserted(m, k, v, false) is Ok,
        at_path(m, parent_and_key(k).0, false) matches Some(Node::Dict(_)),
        !(keypath_parts(k).len() == 2 && keypath_parts(k)[0].len() == 0),
    ensures
        get_at(inserted(m, k, v, false)->Ok_0, keypath_parts(k)) == Some(v),
{
    let (pp, key) = parent_and_key(k);
    let es = at_path(m, pp, false)->Some_0->Dict_0;
    let leaf = Node::Dict(es.push((key, v)));
    crate::tree::lemma_at_rebuilt(m, pp, leaf);
    lemma_parts_split(k);
    crate::tree::lemma_at_path_append(rebuilt(m, pp, false, leaf), pp, seq![key]);
    assert(pp.push(key) =~= pp + seq![key]);
    assert(inserted(m, k, v, false) == Ok::<Node, Seq<char>>(rebuilt(m, pp, false, leaf)));
    crate::value::lemma_put_new(es, key, v);
    assert(seq![key].skip(1) =~= Seq::<Seq<char>>::empty());
    assert(crate::tree::descend(leaf, key, false) == Some(v));
    assert(seq![key][0] == key);
    assert(at_path(v, Seq::<Seq<char>>::empty(), false) == Some(v));
    assert(at_path(leaf, seq![key], false) == Some(v));
}

/// Removing what was just inserted at a key path gives back the tree as it
/// was, where the insertion added a dictionary key or put the value at an
/// array position no further than the array's end.
pub proof fn law_remove_undoes_insert(m: Node, k: Seq<char>, v: Node)
    requires
        inserted(m, k, v, false) is Ok,
        match at_path(m, parent_and_key(k).0, false) {
            Some(Node::Dict(_)) => true,
            Some(Node::Array(a)) => index_of(parent_and_key(k).1) matches Some(i) && i <= a.len(),
            _ => false,
        },
    ensures
        removed(inserted(m, k, v, false)->Ok_0, k) == Ok::<Node, Seq<char>>(m),
{
    let pp = parent_and_key(k).0;
    let key = parent_and_key(k).1;
    let old_leaf = at_path(m, pp, false)->Some_0;
    crate::tree::lemma_index_nonneg(key);
    let leaf = match old_leaf {
        Node::Dict(es) => Node::Dict(es.push((key, v))),
        Node::Array(a) => Node::Array(a.insert(index_of(key)->Some_0, v)),
        _ => old_leaf,
    };
    let n = rebuilt(m, pp, false, leaf);
    crate::tree::lemma_at_rebuilt(m, pp, leaf);
    crate::tree::lemma_rebuilt_twice(m, pp, leaf, old_leaf);
    crate::tree::lemma_rebuilt_same(m, pp);
    match old_leaf {
        Node::Dict(es) => {
            crate::value::lemma_put_new(es, key, v);
        },
        Node::Array(a) => {
            let i = index_of(key)->Some_0;
            assert(0 <= i <= a.len());
            assert(a.insert(i, v).remove(i) =~= a);
        },
        _ => {},
    }
}

} // verus!
