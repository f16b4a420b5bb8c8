use vstd::prelude::*;

verus! {

/// The mathematical form of a property-list value.  Reals and dates are
/// carried as the bit patterns of their IEEE-754 doubles.
pub enum Node {
    Str(Seq<char>),
    Int(i64),
    Real(u64),
    Bool(bool),
    Date(u64),
    Data(Seq<u8>),
    Array(Seq<Node>),
    Dict(Seq<(Seq<char>, Node)>),
}

/// The entries of a dictionary, in insertion order.
pub type Entries = Seq<(Seq<char>, Node)>;

/// A property-list dictionary: keys in insertion order, each key looked up
/// at its first occurrence.
pub struct Dictionary {
    entries: Vec<(String, Value)>,
}

/// A property-list value.  `Real` and `Date` hold the bit patterns of the
/// doubles they stand for (`f64::to_bits`); a date counts seconds since
/// 2001-01-01 00:00:00 UTC.
pub enum Value {
    String(String),
    Integer(i64),
    Real(u64),
    Boolean(bool),
    Date(u64),
    Data(Vec<u8>),
    Array(Vec<Value>),
    Dictionary(Dictionary),
}

pub open spec fn model(v: Value) -> Node
    decreases v,
{
    match v {
        Value::String(s) => Node::Str(s@),
        Value::Integer(i) => Node::Int(i),
        Value::Real(r) => Node::Real(r),
        Value::Boolean(b) => Node::Bool(b),
        Value::Date(d) => Node::Date(d),
        Value::Data(b) => Node::Data(b@),
        Value::Array(a) => Node::Array(
            Seq::new(
                a@.len(),
                |i: int|
                    if 0 <= i < a@.len() {
                        model(a@[i])
                    } else {
                        Node::Bool(false)
                    },
            ),
        ),
        Value::Dictionary(d) => Node::Dict(dict_model(d)),
    }
}

pub closed spec fn dict_model(d: Dictionary) -> Entries
    decreases d,
{
    Seq::new(
        d.entries@.len(),
        |i: int|
            if 0 <= i < d.entries@.len() {
                (d.entries@[i].0@, model(d.entries@[i].1))
            } else {
                (Seq::empty(), Node::Bool(false))
            },
    )
}

/// The models of a sequence of values.
pub open spec fn models(s: Seq<Value>) -> Seq<Node> {
    Seq::new(s.len(), |i: int| model(s[i]))
}

impl View for Dictionary {
    type V = Entries;

    open spec fn view(&self) -> Entries {
        dict_model(*self)
    }
}

impl View for Value {
    type V = Node;

    open spec fn view(&self) -> Node {
        model(*self)
    }
}

pub broadcast proof fn lemma_array_model(a: Vec<Value>)
    ensures
        #[trigger] model(Value::Array(a)) == Node::Array(models(a@)),
{
    let m = model(Value::Array(a));
    assert(m is Array);
    assert(m->Array_0 =~= models(a@));
}

// ---------------------------------------------------------------------------
// Dictionary semantics over the model
// ---------------------------------------------------------------------------

/// `i` is the first position of key `k` in `es`.
pub open spec fn first_at(es: Entries, k: Seq<char>, i: int) -> bool {
    &&& 0 <= i < es.len()
    &&& es[i].0 == k
    &&& forall|j: int| 0 <= j < i ==> es[j].0 != k
}

pub open spec fn has_key(es: Entries, k: Seq<char>) -> bool {
    exists|i: int| 0 <= i < es.len() && es[i].0 == k
}

/// The position at which `k` is found (meaningful when `has_key(es, k)`).
pub open spec fn key_index(es: Entries, k: Seq<char>) -> int {
    choose|i: int| first_at(es, k, i)
}

/// What a dictionary gives for a key.
pub open spec fn lookup(es: Entries, k: Seq<char>) -> Option<Node> {
    if has_key(es, k) {
        Some(es[key_index(es, k)].1)
    } else {
        None
    }
}

/// A dictionary after storing `v` under `k`: an existing entry keeps its
/// place, a new one goes last.
pub open spec fn put(es: Entries, k: Seq<char>, v: Node) -> Entries {
    if has_key(es, k) {
        es.update(key_index(es, k), (k, v))
    } else {
        es.push((k, v))
    }
}

/// A dictionary after taking out the entry of `k`.
pub open spec fn delete(es: Entries, k: Seq<char>) -> Entries {
    if has_key(es, k) {
        es.remove(key_index(es, k))
    } else {
        es
    }
}

/// No key occurs twice.
pub open spec fn unique_keys(es: Entries) -> bool {
    forall|i: int, j: int| 0 <= i < es.len() && 0 <= j < es.len() && i != j ==> es[i].0 != es[j].0
}

pub proof fn lemma_key_index(es: Entries, k: Seq<char>)
    requires
        has_key(es, k),
    ensures
        first_at(es, k, key_index(es, k)),
        forall|i: int| first_at(es, k, i) ==> i == key_index(es, k),
    decreases es.len(),
{
    if es[0].0 == k {
        assert(first_at(es, k, 0));
    } else {
        let rest = es.drop_first();
        let w = choose|i: int| 0 <= i < es.len() && es[i].0 == k;
        assert(rest[w - 1].0 == k);
        lemma_key_index(rest, k);
        let j = key_index(rest, k);
        assert forall|m: int| 0 <= m < j + 1 implies es[m].0 != k by {
            if m > 0 {
                assert(es[m] == rest[m - 1]);
            }
        }
        assert(first_at(es, k, j + 1));
    }
    let i0 = key_index(es, k);
    assert forall|i: int| first_at(es, k, i) implies i == i0 by {
        if i < i0 {
            assert(es[i].0 != k);
        }
        if i0 < i {
            assert(es[i0].0 != k);
        }
    }
}

/// The first position of `k` is the index of any entry that holds `k`
/// when keys are unique.
pub proof fn lemma_unique_index(es: Entries, k: Seq<char>, i: int)
    requires
        unique_keys(es),
        0 <= i < es.len(),
        es[i].0 == k,
    ensures
        has_key(es, k),
        key_index(es, k) == i,
{
    assert(first_at(es, k, i));
    lemma_key_index(es, k);
}

/// A dictionary gives back what was just stored under a key.
/// Looking up a key after appending an entry: the first entry with the
/// key still wins.
pub proof fn lemma_lookup_push(es: Entries, e: (Seq<char>, Node), k: Seq<char>)
    ensures
        has_key(es.push(e), k) == (has_key(es, k) || e.0 == k),
        lookup(es.push(e), k) == if has_key(es, k) {
            lookup(es, k)
        } else if e.0 == k {
            Some(e.1)
        } else {
            None::<Node>
        },
{
    let t = es.push(e);
    if has_key(es, k) {
        lemma_key_index(es, k);
        let i = key_index(es, k);
        assert(t[i] == es[i]);
        assert(first_at(t, k, i));
        lemma_key_index(t, k);
    } else if e.0 == k {
        assert(t[es.len() as int] == e);
        assert(first_at(t, k, es.len() as int));
        lemma_key_index(t, k);
    } else {
        if has_key(t, k) {
            let w = choose|i: int| 0 <= i < t.len() && t[i].0 == k;
            if w < es.len() {
                assert(es[w] == t[w]);
            }
        }
    }
}

/// Looking up a key in entries by their first one.
pub proof fn lemma_lookup_first(es: Entries, k: Seq<char>)
    requires
        es.len() > 0,
    ensures
        lookup(es, k) == if es[0].0 == k {
            Some(es[0].1)
        } else {
            lookup(es.skip(1), k)
        },
{
    let r = es.skip(1);
    if es[0].0 == k {
        assert(first_at(es, k, 0));
        lemma_key_index(es, k);
    } else if has_key(r, k) {
        lemma_key_index(r, k);
        let i = key_index(r, k);
        assert(es[i + 1] == r[i]);
        assert forall|j: int| 0 <= j < i + 1 implies es[j].0 != k by {
            if j > 0 {
                assert(es[j] == r[j - 1]);
            }
        }
        assert(first_at(es, k, i + 1));
        lemma_key_index(es, k);
    } else {
        if has_key(es, k) {
            let w = choose|i: int| 0 <= i < es.len() && es[i].0 == k;
            assert(r[w - 1] == es[w]);
        }
    }
}

pub proof fn lemma_lookup_put(es: Entries, k: Seq<char>, v: Node)
    ensures
        lookup(put(es, k, v), k) == Some(v),
{
    if has_key(es, k) {
        lemma_key_index(es, k);
        let i = key_index(es, k);
        let e2 = es.update(i, (k, v));
        assert(first_at(e2, k, i));
        lemma_key_index(e2, k);
    } else {
        lemma_put_new(es, k, v);
    }
}

/// A key stored anew goes last, is found there, and deleting it gives the
/// dictionary back.
pub proof fn lemma_put_new(es: Entries, k: Seq<char>, v: Node)
    requires
        !has_key(es, k),
    ensures
        put(es, k, v) == es.push((k, v)),
        lookup(es.push((k, v)), k) == Some(v),
        delete(es.push((k, v)), k) == es,
{
    let e2 = es.push((k, v));
    assert(first_at(e2, k, es.len() as int));
    lemma_key_index(e2, k);
    assert(e2.remove(es.len() as int) =~= es);
}

/// Storing under a key never makes a key occur twice.
pub proof fn law_put_keeps_keys_unique(es: Entries, k: Seq<char>, v: Node)
    requires
        unique_keys(es),
    ensures
        unique_keys(put(es, k, v)),
{
    if has_key(es, k) {
        lemma_key_index(es, k);
    }
}

/// After a key's entry is taken out of a dictionary whose keys are unique,
/// the key is no longer there, and every other key still gives what it gave.
pub proof fn law_delete_forgets(es: Entries, k: Seq<char>, other: Seq<char>)
    requires
        unique_keys(es),
        other != k,
    ensures
        lookup(delete(es, k), k) is None,
        lookup(delete(es, k), other) == lookup(es, other),
{
    if has_key(es, k) {
        lemma_key_index(es, k);
        let i = key_index(es, k);
        let d = es.remove(i);
        assert forall|j: int| 0 <= j < d.len() implies d[j].0 != k by {
            if j < i {
                assert(d[j] == es[j]);
            } else {
                assert(d[j] == es[j + 1]);
            }
        }
        if has_key(es, other) {
            lemma_key_index(es, other);
            let o = key_index(es, other);
            let o2 = if o < i { o } else { o - 1 };
            assert(d[o2] == es[o]);
            lemma_unique_index(es, other, o);
            assert forall|j: int| 0 <= j < d.len() && j != o2 implies d[j].0 != other by {
                if j < i {
                    assert(d[j] == es[j]);
                } else {
                    assert(d[j] == es[j + 1]);
                }
            }
            assert(first_at(d, other, o2));
            lemma_key_index(d, other);
        } else {
            assert forall|j: int| 0 <= j < d.len() implies d[j].0 != other by {
                if j < i {
                    assert(d[j] == es[j]);
                } else {
                    assert(d[j] == es[j + 1]);
                }
            }
        }
    }
}

// ---------------------------------------------------------------------------
// Executable dictionary
// ---------------------------------------------------------------------------

impl Dictionary {
    pub fn new() -> (d: Self)
        ensures
            d@ == Seq::<(Seq<char>, Node)>::empty(),
    {
        let d = Dictionary { entries: Vec::new() };
        assert(d@ =~= Seq::<(Seq<char>, Node)>::empty());
        d
    }

    pub fn len(&self) -> (n: usize)
        ensures
            n == self@.len(),
    {
        self.entries.len()
    }

    pub fn is_empty(&self) -> (b: bool)
        ensures
            b == (self@.len() == 0),
    {
        self.entries.len() == 0
    }

    /// The entries, in order.
    pub fn iter(&self) -> (r: &[(String, Value)])
        ensures
            r@.len() == self@.len(),
            forall|i: int| 0 <= i < r@.len() ==> (#[trigger] r@[i]).0@ == self@[i].0 && model(r@[i].1) == self@[i].1,
    {
        self.entries.as_slice()
    }

    /// The position of the first entry with key `key`.
    pub fn position(&self, key: &str) -> (r: Option<usize>)
        ensures
            match r {
                Some(i) => {
                    &&& has_key(self@, key@)
                    &&& i as int == key_index(self@, key@)
                    &&& first_at(self@, key@, i as int)
                },
                None => !has_key(self@, key@),
            },
    {
        let k = key.to_owned();
        let mut i: usize = 0;
        while i < self.entries.len()
            invariant
                0 <= i <= self@.len(),
                self@.len() == self.entries@.len(),
                k@ == key@,
                forall|j: int| 0 <= j < i ==> self@[j].0 != key@,
            decreases self.entries@.len() - i,
        {
            if self.entries[i].0 == k {
                assert(self@[i as int].0 == key@);
                assert(first_at(self@, key@, i as int));
                proof {
                    lemma_key_index(self@, key@);
                }
                return Some(i);
            }
            assert(self@[i as int].0 != key@);
            i += 1;
        }
        None
    }

    pub fn contains_key(&self, key: &str) -> (b: bool)
        ensures
            b == has_key(self@, key@),
    {
        self.position(key).is_some()
    }

    pub fn get(&self, key: &str) -> (r: Option<&Value>)
        ensures
            match r {
                Some(v) => lookup(self@, key@) == Some(model(*v)),
                None => lookup(self@, key@) is None,
            },
    {
        match self.position(key) {
            Some(i) => Some(&self.entries[i].1),
            None => None,
        }
    }

    /// The value stored at position `i`, to change in place.
    pub fn value_at_mut(&mut self, i: usize) -> (r: &mut Value)
        requires
            i < old(self)@.len(),
        ensures
            model(*r) == old(self)@[i as int].1,
            final(self)@ == old(self)@.update(i as int, (old(self)@[i as int].0, model(*final(r)))),
    {
        &mut self.entries[i].1
    }

    pub fn get_mut(&mut self, key: &str) -> (r: Option<&mut Value>)
        ensures
            match r {
                Some(v) => {
                    &&& has_key(old(self)@, key@)
                    &&& model(*v) == old(self)@[key_index(old(self)@, key@)].1
                    &&& final(self)@ == put(old(self)@, key@, model(*final(v)))
                },
                None => !has_key(old(self)@, key@) && final(self)@ == old(self)@,
            },
    {
        match self.position(key) {
            Some(i) => Some(self.value_at_mut(i)),
            None => None,
        }
    }

    /// Stores `value` under `key`, in place of an existing entry or last.
    pub fn insert(&mut self, key: String, value: Value)
        ensures
            final(self)@ == put(old(self)@, key@, model(value)),
    {
        let ghost k = key@;
        match self.position(key.as_str()) {
            Some(i) => {
                self.entries.set(i, (key, value));
                assert(self@ =~= old(self)@.update(i as int, (k, model(value))));
            },
            None => {
                self.entries.push((key, value));
                assert(self@ =~= old(self)@.push((k, model(value))));
            },
        }
    }

    /// Takes out the entry of `key`, giving back its value.
    pub fn remove(&mut self, key: &str) -> (r: Option<Value>)
        ensures
            final(self)@ == delete(old(self)@, key@),
            match r {
                Some(v) => lookup(old(self)@, key@) == Some(model(v)),
                None => lookup(old(self)@, key@) is None,
            },
    {
        match self.position(key) {
            Some(i) => {
                let (_, v) = self.entries.remove(i);
                assert(self@ =~= old(self)@.remove(i as int));
                Some(v)
            },
            None => None,
        }
    }
}


impl Dictionary {
    /// A copy that holds copies of every entry.
    pub fn duplicate(&self) -> (r: Dictionary)
        ensures
            r@ == self@,
        decreases self, 1nat,
    {
        let mut es: Vec<(String, Value)> = Vec::new();
        let mut i: usize = 0;
        while i < self.entries.len()
            invariant
                0 <= i <= self.entries@.len(),
                es@.len() == i,
                forall|j: int|
                    0 <= j < i ==> (#[trigger] es@[j]).0@ == self.entries@[j].0@ && model(es@[j].1)
                        == model(self.entries@[j].1),
            decreases self.entries@.len() - i,
        {
            let k = self.entries[i].0.clone();
            let v = self.entries[i].1.duplicate();
            es.push((k, v));
            i += 1;
        }
        let r = Dictionary { entries: es };
        assert(r@ =~= self@);
        r
    }
}

impl Value {
    /// A copy of the whole tree.
    pub fn duplicate(&self) -> (r: Value)
        ensures
            model(r) == model(*self),
        decreases self, 0nat,
    {
        match self {
            Value::String(s) => Value::String(s.clone()),
            Value::Integer(i) => Value::Integer(*i),
            Value::Real(r) => Value::Real(*r),
            Value::Boolean(b) => Value::Boolean(*b),
            Value::Date(d) => Value::Date(*d),
            Value::Data(b) => {
                let c = copy_bytes(b.as_slice());
                Value::Data(c)
            },
            Value::Array(a) => {
                let mut r: Vec<Value> = Vec::new();
                let mut i: usize = 0;
                while i < a.len()
                    invariant
                        0 <= i <= a@.len(),
                        r@.len() == i,
                        forall|j: int| 0 <= j < i ==> model(#[trigger] r@[j]) == model(a@[j]),
                        *self == Value::Array(*a),
                    decreases a@.len() - i,
                {
                    proof {
                        assert(decreases_to!(*self => (*self)->Array_0));
                        assert(decreases_to!(*a => a[i as int]));
                        assert(decreases_to!(*self => a[i as int]));
                    }
                    let v = a[i].duplicate();
                    r.push(v);
                    i += 1;
                }
                proof {
                    lemma_array_model(*a);
                    lemma_array_model(r);
                    assert(models(r@) =~= models(a@));
                }
                Value::Array(r)
            },
            Value::Dictionary(d) => Value::Dictionary(d.duplicate()),
        }
    }
}

/// A fresh vector with the same bytes.
pub fn copy_bytes(b: &[u8]) -> (r: Vec<u8>)
    ensures
        r@ == b@,
{
    let mut r: Vec<u8> = Vec::new();
    let mut i: usize = 0;
    while i < b.len()
        invariant
            0 <= i <= b@.len(),
            r@ == b@.take(i as int),
        decreases b@.len() - i,
    {
        r.push(b[i]);
        assert(b@.take(i + 1) == b@.take(i as int).push(b@[i as int]));
        i += 1;
    }
    assert(b@.take(b@.len() as int) == b@);
    r
}


impl Value {
    pub fn as_string(&self) -> (r: Option<&str>)
        ensures
            match model(*self) {
                Node::Str(s) => r is Some && r->0@ == s,
                _ => r is None,
            },
    {
        match self {
            Value::String(s) => Some(s.as_str()),
            _ => None,
        }
    }

    pub fn as_signed_integer(&self) -> (r: Option<i64>)
        ensures
            match model(*self) {
                Node::Int(i) => r == Some(i),
                _ => r is None,
            },
    {
        match self {
            Value::Integer(i) => Some(*i),
            _ => None,
        }
    }

    /// The bit pattern of a real.
    pub fn as_real(&self) -> (r: Option<u64>)
        ensures
            match model(*self) {
                Node::Real(b) => r == Some(b),
                _ => r is None,
            },
    {
        match self {
            Value::Real(b) => Some(*b),
            _ => None,
        }
    }

    pub fn as_boolean(&self) -> (r: Option<bool>)
        ensures
            match model(*self) {
                Node::Bool(b) => r == Some(b),
                _ => r is None,
            },
    {
        match self {
            Value::Boolean(b) => Some(*b),
            _ => None,
        }
    }

    /// The bit pattern of a date.
    pub fn as_date(&self) -> (r: Option<u64>)
        ensures
            match model(*self) {
                Node::Date(b) => r == Some(b),
                _ => r is None,
            },
    {
        match self {
            Value::Date(b) => Some(*b),
            _ => None,
        }
    }

    pub fn as_data(&self) -> (r: Option<&[u8]>)
        ensures
            match model(*self) {
                Node::Data(d) => r is Some && r->0@ == d,
                _ => r is None,
            },
    {
        match self {
            Value::Data(d) => Some(d.as_slice()),
            _ => None,
        }
    }

    pub fn as_dictionary(&self) -> (r: Option<&Dictionary>)
        ensures
            match model(*self) {
                Node::Dict(es) => r is Some && r->0@ == es,
                _ => r is None,
            },
    {
        match self {
            Value::Dictionary(d) => Some(d),
            _ => None,
        }
    }

    pub fn as_dictionary_mut(&mut self) -> (r: Option<&mut Dictionary>)
        ensures
            match r {
                Some(d) => {
                    &&& model(*old(self)) == Node::Dict(d@)
                    &&& model(*final(self)) == Node::Dict(final(d)@)
                },
                None => !(model(*old(self)) is Dict) && *final(self) == *old(self),
            },
    {
        match self {
            Value::Dictionary(d) => Some(d),
            _ => None,
        }
    }

    pub fn as_array(&self) -> (r: Option<&[Value]>)
        ensures
            match model(*self) {
                Node::Array(s) => r is Some && models(r->0@) == s,
                _ => r is None,
            },
    {
        proof {
            if *self is Array {
                lemma_array_model((*self)->Array_0);
            }
        }
        match self {
            Value::Array(a) => Some(a.as_slice()),
            _ => None,
        }
    }

    pub fn as_array_mut(&mut self) -> (r: Option<&mut Vec<Value>>)
        ensures
            match r {
                Some(a) => {
                    &&& model(*old(self)) == Node::Array(models(a@))
                    &&& model(*final(self)) == Node::Array(models(final(a)@))
                },
                None => !(model(*old(self)) is Array) && *final(self) == *old(self),
            },
    {
        proof {
            if *self is Array {
                lemma_array_model((*self)->Array_0);
            }
        }
        match self {
            Value::Array(a) => {
                proof {
                    lemma_array_model(*final(a));
                }
                Some(a)
            },
            _ => None,
        }
    }
}


/// The element at position `i`, to change in place.
pub fn array_slot(a: &mut Vec<Value>, i: usize) -> (r: &mut Value)
    requires
        i < old(a)@.len(),
    ensures
        model(*r) == models(old(a)@)[i as int],
        models(final(a)@) == models(old(a)@).update(i as int, model(*final(r))),
{
    &mut a[i]
}

} // verus!
