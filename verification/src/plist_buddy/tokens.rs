use vstd::prelude::*;
use vstd::string::*;
use crate::text::{
    chars_of, count_lead_ws, eq_pred, find_char, find_ws, first_where, push_char, split_chars,
    split_on, string_from, trim, trim_bounds, trim_start, views, ws_pred,
};

verus! {

/// A command split into its first word and the rest: both trimmed.
pub open spec fn first_word(s: Seq<char>) -> (Seq<char>, Seq<char>) {
    let t = trim(s);
    match first_where(t, ws_pred()) {
        Some(p) => (t.take(p as int), trim_start(t.skip(p as int))),
        None => (t, Seq::empty()),
    }
}

pub fn split_first_word(s: &str) -> (r: (&str, &str))
    ensures
        (r.0@, r.1@) == first_word(s@),
{
    let v = chars_of(s);
    let n = v.len();
    let (a, e) = trim_bounds(v.as_slice(), 0, n);
    let ghost t = v@.subrange(a as int, e as int);
    assert(v@.subrange(0, n as int) == v@);
    match find_ws(v.as_slice(), a, e) {
        Some(p) => {
            let b = count_lead_ws(v.as_slice(), a + p, e);
            assert(t.take(p as int) =~= v@.subrange(a as int, a + p));
            assert(t.skip(p as int) =~= v@.subrange(a + p, e as int));
            assert(t.skip(p as int).skip(b as int) =~= v@.subrange(a + p + b, e as int));
            (s.substring_char(a, a + p), s.substring_char(a + p + b, e))
        },
        None => (s.substring_char(a, e), s.substring_char(e, e)),
    }
}


pub open spec fn is_quote(c: char) -> bool {
    c == '"' || c == '\''
}

/// The character that a backslash followed by `c` stands for.
pub open spec fn escaped(c: char) -> char {
    if c == 'n' {
        '\n'
    } else if c == 't' {
        '\t'
    } else {
        c
    }
}

/// `s` with quote characters dropped and backslash escapes resolved; a
/// lone backslash at the end is dropped.
pub open spec fn unquote(s: Seq<char>) -> Seq<char>
    decreases s.len(),
{
    if s.len() == 0 {
        Seq::empty()
    } else if is_quote(s[0]) {
        unquote(s.skip(1))
    } else if s[0] == '\\' {
        if s.len() == 1 {
            Seq::empty()
        } else {
            seq![escaped(s[1])] + unquote(s.skip(2))
        }
    } else {
        seq![s[0]] + unquote(s.skip(1))
    }
}

/// `unquote` over `v[from..to]`.
pub fn unquote_range(v: &[char], from: usize, to: usize) -> (r: String)
    requires
        from <= to <= v@.len(),
    ensures
        r@ == unquote(v@.subrange(from as int, to as int)),
{
    let mut r = String::new();
    let mut i = from;
    while i < to
        invariant
            from <= i <= to <= v@.len(),
            r@ + unquote(v@.subrange(i as int, to as int)) == unquote(
                v@.subrange(from as int, to as int),
            ),
        decreases to - i,
    {
        let ghost sub = v@.subrange(i as int, to as int);
        let c = v[i];
        if c == '"' || c == '\'' {
            assert(sub.skip(1) =~= v@.subrange(i + 1, to as int));
            i += 1;
        } else if c == '\\' {
            if i + 1 < to {
                let e = if v[i + 1] == 'n' {
                    '\n'
                } else if v[i + 1] == 't' {
                    '\t'
                } else {
                    v[i + 1]
                };
                assert(sub.skip(2) =~= v@.subrange(i + 2, to as int));
                let ghost before = r@;
                push_char(&mut r, e);
                assert(r@ + unquote(v@.subrange(i + 2, to as int)) =~= before + unquote(sub));
                i += 2;
            } else {
                assert(unquote(sub) =~= Seq::<char>::empty());
                assert(r@ + unquote(v@.subrange(to as int, to as int)) =~= r@ + unquote(sub));
                i = to;
            }
        } else {
            assert(sub.skip(1) =~= v@.subrange(i + 1, to as int));
            let ghost before = r@;
            push_char(&mut r, c);
            assert(r@ + unquote(v@.subrange(i + 1, to as int)) =~= before + unquote(sub));
            i += 1;
        }
    }
    assert(unquote(v@.subrange(to as int, to as int)) =~= Seq::<char>::empty());
    assert(r@ + Seq::<char>::empty() =~= r@);
    r
}

/// Strips quote characters and resolves escapes (`\n`, `\t`, `\\`).
pub fn strip_quotes(s: &str) -> (r: String)
    ensures
        r@ == unquote(s@),
{
    let v = chars_of(s);
    assert(v@.subrange(0, v@.len() as int) =~= v@);
    unquote_range(v.as_slice(), 0, v.len())
}

/// The next token of `s` and what follows it.  A token in quotes keeps its
/// inner text as it is, up to the next of the same quote.  A bare token runs to whitespace and has
/// quotes and escapes resolved.
pub open spec fn token_of(s: Seq<char>) -> (Seq<char>, Seq<char>) {
    let t = trim_start(s);
    if t.len() == 0 {
        (Seq::empty(), Seq::empty())
    } else if is_quote(t[0]) {
        let body = t.skip(1);
        match first_where(body, eq_pred(t[0])) {
            Some(e) => (body.take(e as int), trim_start(body.skip(e as int + 1))),
            None => (body, Seq::empty()),
        }
    } else {
        match first_where(t, ws_pred()) {
            Some(p) => (unquote(t.take(p as int)), trim_start(t.skip(p as int))),
            None => (unquote(t), Seq::empty()),
        }
    }
}

/// Extracts one token, quote-aware, and the rest of the input.
pub fn next_token(s: &str) -> (r: (String, &str))
    ensures
        (r.0@, r.1@) == token_of(s@),
{
    let v = chars_of(s);
    let n = v.len();
    let a = count_lead_ws(v.as_slice(), 0, n);
    assert(v@.subrange(0, n as int) =~= v@);
    let ghost t = v@.subrange(a as int, n as int);
    assert(t =~= trim_start(s@));
    if a == n {
        assert(t.len() == 0);
        return (String::new(), s.substring_char(n, n));
    }
    let first = v[a];
    assert(first == t[0]);
    if first == '"' || first == '\'' {
        let ghost body = t.skip(1);
        assert(body =~= v@.subrange(a + 1, n as int));
        match find_char(v.as_slice(), first, a + 1, n) {
            Some(e) => {
                let b = count_lead_ws(v.as_slice(), a + 1 + e + 1, n);
                assert(body.take(e as int) =~= v@.subrange(a + 1, a + 1 + e));
                assert(body.skip(e as int + 1) =~= v@.subrange(a + 1 + e + 1, n as int));
                assert(body.skip(e as int + 1).skip(b as int) =~= v@.subrange(
                    a + 1 + e + 1 + b,
                    n as int,
                ));
                let tok = string_from(&v[a + 1..a + 1 + e]);
                (tok, s.substring_char(a + 1 + e + 1 + b, n))
            },
            None => {
                let tok = string_from(&v[a + 1..n]);
                (tok, s.substring_char(n, n))
            },
        }
    } else {
        match find_ws(v.as_slice(), a, n) {
            Some(p) => {
                let b = count_lead_ws(v.as_slice(), a + p, n);
                assert(t.take(p as int) =~= v@.subrange(a as int, a + p));
                assert(t.skip(p as int) =~= v@.subrange(a + p, n as int));
                assert(t.skip(p as int).skip(b as int) =~= v@.subrange(a + p + b, n as int));
                let tok = unquote_range(v.as_slice(), a, a + p);
                (tok, s.substring_char(a + p + b, n))
            },
            None => {
                let tok = unquote_range(v.as_slice(), a, n);
                (tok, s.substring_char(n, n))
            },
        }
    }
}

/// The components of an entry path: one leading colon is dropped, the rest
/// split at colons; an empty path has no components.
pub open spec fn entry_path(e: Seq<char>) -> Seq<Seq<char>> {
    let body = if e.len() > 0 && e[0] == ':' {
        e.skip(1)
    } else {
        e
    };
    if body.len() == 0 {
        Seq::empty()
    } else {
        split_on(body, ':')
    }
}

pub fn parse_entry_path(entry: &str) -> (r: Vec<String>)
    ensures
        views(r@) == entry_path(entry@),
{
    let v = chars_of(entry);
    let n = v.len();
    let start: usize = if n > 0 && v[0] == ':' {
        1
    } else {
        0
    };
    assert(v@.subrange(start as int, n as int) =~= if v@.len() > 0 && v@[0] == ':' {
        v@.skip(1)
    } else {
        v@
    });
    if start == n {
        let r: Vec<String> = Vec::new();
        assert(views(r@) =~= Seq::<Seq<char>>::empty());
        return r;
    }
    split_chars(v.as_slice(), ':', start, n)
}

/// An entry as error messages quote it.
pub fn format_entry_for_error(entry: &str) -> (r: String)
    ensures
        r@ == trim(entry@),
{
    let v = chars_of(entry);
    let n = v.len();
    let (a, e) = trim_bounds(v.as_slice(), 0, n);
    assert(v@.subrange(0, n as int) =~= v@);
    string_from(&v[a..e])
}


/// Whether the text ends with a colon.
pub fn ends_with_colon(s: &str) -> (b: bool)
    ensures
        b == (s@.len() > 0 && s@.last() == ':'),
{
    let v = chars_of(s);
    v.len() > 0 && v[v.len() - 1] == ':'
}


/// The rest of the input after its first token.
pub fn after_token(s: &str) -> (r: &str)
    ensures
        r@ == token_of(s@).1,
{
    let (_, rest) = next_token(s);
    rest
}

} // verus!
