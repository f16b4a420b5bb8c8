use vstd::prelude::*;
use vstd::string::*;

verus! {

/// The Unicode `White_Space` property, which `char::is_whitespace` tests.
pub open spec fn is_ws(c: char) -> bool {
    let u = c as u32;
    ||| 9 <= u <= 13
    ||| u == 32
    ||| u == 0x85
    ||| u == 0xA0
    ||| u == 0x1680
    ||| 0x2000 <= u <= 0x200A
    ||| u == 0x2028
    ||| u == 0x2029
    ||| u == 0x202F
    ||| u == 0x205F
    ||| u == 0x3000
}

pub fn is_whitespace(c: char) -> (b: bool)
    ensures
        b == is_ws(c),
{
    let u = c as u32;
    (9 <= u && u <= 13) || u == 32 || u == 0x85 || u == 0xA0 || u == 0x1680 || (0x2000 <= u && u
        <= 0x200A) || u == 0x2028 || u == 0x2029 || u == 0x202F || u == 0x205F || u == 0x3000
}

/// The characters of a string slice, in order.
pub fn chars_of(s: &str) -> (r: Vec<char>)
    ensures
        r@ == s@,
{
    let mut r: Vec<char> = Vec::new();
    for c in it: s.chars()
        invariant
            r@ == it.seq().take(it.index() as int),
    {
        r.push(c);
    }
    r
}

/// `String::push`: appends one character.
#[verifier::external_body]
pub(crate) fn push_char(s: &mut String, c: char)
    ensures
        final(s)@ == old(s)@.push(c),
{
    s.push(c);
}

/// The string made of the given characters.
pub fn string_from(v: &[char]) -> (s: String)
    ensures
        s@ == v@,
{
    let s = string_between(v, 0, v.len());
    assert(v@.subrange(0, v@.len() as int) == v@);
    s
}

/// The string made of the characters `v[from..to]`.
pub fn string_between(v: &[char], from: usize, to: usize) -> (s: String)
    requires
        from <= to <= v@.len(),
    ensures
        s@ == v@.subrange(from as int, to as int),
{
    let mut s = String::new();
    let mut i: usize = from;
    while i < to
        invariant
            from <= i <= to <= v@.len(),
            s@ == v@.subrange(from as int, i as int),
        decreases to - i,
    {
        push_char(&mut s, v[i]);
        assert(v@.subrange(from as int, i + 1) == v@.subrange(from as int, i as int).push(
            v@[i as int],
        ));
        i += 1;
    }
    s
}


/// Tests one character against a predicate.
pub open spec fn ws_pred() -> spec_fn(char) -> bool {
    |c: char| is_ws(c)
}

pub open spec fn non_ws_pred() -> spec_fn(char) -> bool {
    |c: char| !is_ws(c)
}

pub open spec fn eq_pred(x: char) -> spec_fn(char) -> bool {
    |c: char| c == x
}

/// The first position in `s` whose character satisfies `p`.
pub open spec fn first_where(s: Seq<char>, p: spec_fn(char) -> bool) -> Option<nat>
    decreases s.len(),
{
    if s.len() == 0 {
        None
    } else if p(s[0]) {
        Some(0)
    } else {
        match first_where(s.drop_first(), p) {
            Some(k) => Some(k + 1),
            None => None,
        }
    }
}

/// `first_where` is pinned down by its defining property.
pub proof fn lemma_first_where(s: Seq<char>, p: spec_fn(char) -> bool, k: int)
    requires
        0 <= k <= s.len(),
        forall|j: int| 0 <= j < k ==> !p(#[trigger] s[j]),
        k < s.len() ==> p(s[k]),
    ensures
        first_where(s, p) == (if k < s.len() {
            Some(k as nat)
        } else {
            None::<nat>
        }),
    decreases k,
{
    if k > 0 {
        let t = s.drop_first();
        assert forall|j: int| 0 <= j < k - 1 implies !p(#[trigger] t[j]) by {
            assert(t[j] == s[j + 1]);
        }
        if k < s.len() {
            assert(t[k - 1] == s[k]);
        }
        lemma_first_where(t, p, k - 1);
        assert(!p(s[0]));
    }
}

/// What a found position says.
pub proof fn lemma_first_where_found(s: Seq<char>, p: spec_fn(char) -> bool)
    ensures
        match first_where(s, p) {
            Some(k) => k < s.len() && p(s[k as int]) && forall|j: int|
                0 <= j < k ==> !p(#[trigger] s[j]),
            None => forall|j: int| 0 <= j < s.len() ==> !p(#[trigger] s[j]),
        },
    decreases s.len(),
{
    if s.len() > 0 && !p(s[0]) {
        let t = s.drop_first();
        lemma_first_where_found(t, p);
        assert forall|j: int| 0 < j < s.len() implies s[j] == t[j - 1] by {}
    }
}

/// The number of leading whitespace characters.
pub open spec fn lead_ws(s: Seq<char>) -> nat {
    match first_where(s, non_ws_pred()) {
        Some(k) => k,
        None => s.len(),
    }
}

/// The number of trailing whitespace characters.
pub open spec fn trail_ws(s: Seq<char>) -> nat
    decreases s.len(),
{
    if s.len() > 0 && is_ws(s.last()) {
        1 + trail_ws(s.drop_last())
    } else {
        0
    }
}

pub proof fn lemma_trail_ws(s: Seq<char>, k: int)
    requires
        0 <= k <= s.len(),
        forall|j: int| s.len() - k <= j < s.len() ==> is_ws(#[trigger] s[j]),
        k < s.len() ==> !is_ws(s[s.len() - k - 1]),
    ensures
        trail_ws(s) == k,
    decreases k,
{
    if k > 0 {
        let t = s.drop_last();
        assert forall|j: int| t.len() - (k - 1) <= j < t.len() implies is_ws(#[trigger] t[j]) by {
            assert(t[j] == s[j]);
        }
        lemma_trail_ws(t, k - 1);
    }
}

pub open spec fn trim_start(s: Seq<char>) -> Seq<char> {
    s.skip(lead_ws(s) as int)
}

pub open spec fn trim_end(s: Seq<char>) -> Seq<char> {
    s.take(s.len() - trail_ws(s))
}

/// Whitespace taken off both ends, as `str::trim` does.
pub open spec fn trim(s: Seq<char>) -> Seq<char> {
    trim_end(trim_start(s))
}

/// `first_where` over `v[from..to]`, found by scanning up to `i`.
pub proof fn lemma_found_in(v: Seq<char>, from: usize, to: usize, p: spec_fn(char) -> bool, i: usize)
    requires
        from <= i <= to <= v.len(),
        forall|j: int| from <= j < i ==> !p(#[trigger] v[j]),
        i < to ==> p(v[i as int]),
    ensures
        first_where(v.subrange(from as int, to as int), p) == (if i < to {
            Some((i - from) as nat)
        } else {
            None::<nat>
        }),
{
    let t = v.subrange(from as int, to as int);
    assert forall|j: int| 0 <= j < i - from implies !p(#[trigger] t[j]) by {
        assert(t[j] == v[j + from]);
    }
    if i < to {
        assert(t[i - from] == v[i as int]);
    }
    lemma_first_where(t, p, i - from);
}

pub fn find_ws(v: &[char], from: usize, to: usize) -> (r: Option<usize>)
    requires
        from <= to <= v@.len(),
    ensures
        match r {
            Some(k) => first_where(v@.subrange(from as int, to as int), ws_pred()) == Some(k as nat),
            None => first_where(v@.subrange(from as int, to as int), ws_pred()) is None,
        },
        r matches Some(k) ==> from + k < to && is_ws(v@[from + k]),
        r is None ==> forall|j: int| from <= j < to ==> !is_ws(#[trigger] v@[j]),
{
    let mut i = from;
    while i < to && !is_whitespace(v[i])
        invariant
            from <= i <= to <= v@.len(),
            forall|j: int| from <= j < i ==> !ws_pred()(#[trigger] v@[j]),
        decreases to - i,
    {
        i += 1;
    }
    proof {
        lemma_found_in(v@, from, to, ws_pred(), i);
    }
    if i < to {
        Some(i - from)
    } else {
        None
    }
}

pub fn find_char(v: &[char], c: char, from: usize, to: usize) -> (r: Option<usize>)
    requires
        from <= to <= v@.len(),
    ensures
        match r {
            Some(k) => first_where(v@.subrange(from as int, to as int), eq_pred(c)) == Some(k as nat),
            None => first_where(v@.subrange(from as int, to as int), eq_pred(c)) is None,
        },
        r matches Some(k) ==> from + k < to && v@[from + k] == c,
        r is None ==> forall|j: int| from <= j < to ==> v@[j] != c,
{
    let mut i = from;
    while i < to && v[i] != c
        invariant
            from <= i <= to <= v@.len(),
            forall|j: int| from <= j < i ==> !eq_pred(c)(#[trigger] v@[j]),
        decreases to - i,
    {
        i += 1;
    }
    proof {
        lemma_found_in(v@, from, to, eq_pred(c), i);
    }
    if i < to {
        Some(i - from)
    } else {
        None
    }
}

/// The number of whitespace characters that begin `v[from..to]`.
pub fn count_lead_ws(v: &[char], from: usize, to: usize) -> (r: usize)
    requires
        from <= to <= v@.len(),
    ensures
        r == lead_ws(v@.subrange(from as int, to as int)),
        from + r <= to,
{
    let mut i = from;
    while i < to && is_whitespace(v[i])
        invariant
            from <= i <= to <= v@.len(),
            forall|j: int| from <= j < i ==> !non_ws_pred()(#[trigger] v@[j]),
        decreases to - i,
    {
        i += 1;
    }
    let ghost t = v@.subrange(from as int, to as int);
    assert forall|j: int| 0 <= j < i - from implies !non_ws_pred()(#[trigger] t[j]) by {
        assert(t[j] == v@[j + from]);
    }
    if i < to {
        assert(t[i - from] == v@[i as int]);
    }
    proof {
        lemma_first_where(t, non_ws_pred(), i - from);
    }
    i - from
}

/// The number of whitespace characters that end `v[from..to]`.
pub fn count_trail_ws(v: &[char], from: usize, to: usize) -> (r: usize)
    requires
        from <= to <= v@.len(),
    ensures
        r == trail_ws(v@.subrange(from as int, to as int)),
        from + r <= to,
{
    let mut k: usize = 0;
    while k < to - from && is_whitespace(v[to - k - 1])
        invariant
            0 <= k <= to - from,
            from <= to <= v@.len(),
            forall|j: int| to - k <= j < to ==> is_ws(#[trigger] v@[j]),
        decreases to - k,
    {
        k += 1;
    }
    let ghost t = v@.subrange(from as int, to as int);
    assert forall|j: int| t.len() - k <= j < t.len() implies is_ws(#[trigger] t[j]) by {
        assert(t[j] == v@[j + from]);
    }
    if k < to - from {
        assert(t[t.len() - k - 1] == v@[to - k - 1]);
    }
    proof {
        lemma_trail_ws(t, k as int);
    }
    k
}

/// The bounds of `v[from..to]` with whitespace taken off both ends.
pub fn trim_bounds(v: &[char], from: usize, to: usize) -> (r: (usize, usize))
    requires
        from <= to <= v@.len(),
    ensures
        from <= r.0 <= r.1 <= to,
        v@.subrange(r.0 as int, r.1 as int) == trim(v@.subrange(from as int, to as int)),
        v@.subrange(r.0 as int, to as int) == trim_start(v@.subrange(from as int, to as int)),
{
    let a = count_lead_ws(v, from, to);
    let b = count_trail_ws(v, from + a, to);
    assert(v@.subrange(from as int, to as int).skip(a as int) =~= v@.subrange(from + a, to as int));
    assert(v@.subrange(from + a, to as int).take(to - from - a - b) =~= v@.subrange(
        from + a,
        to - b,
    ));
    (from + a, to - b)
}


/// The texts of a sequence of strings.
pub open spec fn views(s: Seq<String>) -> Seq<Seq<char>> {
    Seq::new(s.len(), |i: int| s[i]@)
}

/// The pieces of `s` between occurrences of `c`, as `str::split` gives them.
pub open spec fn split_on(s: Seq<char>, c: char) -> Seq<Seq<char>>
    decreases s.len(),
{
    match first_where(s, eq_pred(c)) {
        Some(p) => if p < s.len() {
            seq![s.take(p as int)] + split_on(s.skip(p as int + 1), c)
        } else {
            seq![s]
        },
        None => seq![s],
    }
}

/// `split_on` over `v[from..to]`, one string per piece.
pub fn split_chars(v: &[char], c: char, from: usize, to: usize) -> (r: Vec<String>)
    requires
        from <= to <= v@.len(),
    ensures
        views(r@) == split_on(v@.subrange(from as int, to as int), c),
{
    let mut parts: Vec<String> = Vec::new();
    let mut st = from;
    loop
        invariant_except_break
            from <= st <= to <= v@.len(),
            views(parts@) + split_on(v@.subrange(st as int, to as int), c) == split_on(
                v@.subrange(from as int, to as int),
                c,
            ),
        ensures
            views(parts@) == split_on(v@.subrange(from as int, to as int), c),
        decreases to - st,
    {
        let ghost sub = v@.subrange(st as int, to as int);
        match find_char(v, c, st, to) {
            Some(p) => {
                let piece = string_from(&v[st..st + p]);
                assert(sub.take(p as int) =~= v@.subrange(st as int, st + p));
                assert(sub.skip(p + 1) =~= v@.subrange(st + p + 1, to as int));
                assert(split_on(sub, c) == seq![sub.take(p as int)] + split_on(sub.skip(p + 1), c));
                let ghost before = parts@;
                parts.push(piece);
                assert(views(parts@) =~= views(before).push(sub.take(p as int)));
                assert(views(parts@) + split_on(v@.subrange(st + p + 1, to as int), c) =~= views(
                    before,
                ) + split_on(sub, c));
                st = st + p + 1;
            },
            None => {
                let piece = string_from(&v[st..to]);
                assert(split_on(sub, c) == seq![sub]);
                let ghost before = parts@;
                parts.push(piece);
                assert(views(parts@) =~= views(before) + seq![sub]);
                break ;
            },
        }
    }
    parts
}


/// The decimal digits of a natural number.
pub open spec fn nat_text(n: nat) -> Seq<char>
    decreases n,
{
    if n < 10 {
        seq![(n + 48) as char]
    } else {
        nat_text(n / 10) + seq![((n % 10) + 48) as char]
    }
}

/// How `{}` formats an integer.
pub open spec fn int_text(i: int) -> Seq<char> {
    if i < 0 {
        seq!['-'] + nat_text((-i) as nat)
    } else {
        nat_text(i as nat)
    }
}

/// The decimal digits of `n`.
pub fn u64_text(n: u64) -> (r: String)
    ensures
        r@ == nat_text(n as nat),
    decreases n,
{
    if n < 10 {
        let mut r = String::new();
        push_char(&mut r, ((n as u8) + 48) as char);
        r
    } else {
        let mut r = u64_text(n / 10);
        push_char(&mut r, (((n % 10) as u8) + 48) as char);
        r
    }
}

/// An integer as `{}` formats it.
pub fn i64_text(i: i64) -> (r: String)
    ensures
        r@ == int_text(i as int),
{
    if i < 0 {
        let mag: u64 = if i == i64::MIN {
            0x8000_0000_0000_0000u64
        } else {
            (-i) as u64
        };
        let mut r = String::new();
        push_char(&mut r, '-');
        let d = u64_text(mag);
        r.append(d.as_str());
        r
    } else {
        u64_text(i as u64)
    }
}


pub fn cat2(a: &str, b: &str) -> (r: String)
    ensures
        r@ == a@ + b@,
{
    let mut r = String::from_str(a);
    r.append(b);
    r
}

pub fn cat3(a: &str, b: &str, c: &str) -> (r: String)
    ensures
        r@ == a@ + b@ + c@,
{
    let mut r = String::from_str(a);
    r.append(b);
    r.append(c);
    r
}


/// The lowercase form of an ASCII character: `A`..`Z` become `a`..`z`,
/// every other character stays.
pub open spec fn ascii_lower(c: char) -> char {
    if 'A' <= c <= 'Z' {
        ((c as u32) + 32) as char
    } else {
        c
    }
}

/// Whether every character of `s` is ASCII.
pub open spec fn all_ascii(s: Seq<char>) -> bool {
    forall|i: int| 0 <= i < s.len() ==> (#[trigger] s[i] as u32) < 128
}

/// Unicode lowercase mapping, as `str::to_lowercase` performs it.
pub uninterp spec fn lowercase(s: Seq<char>) -> Seq<char>;

/// Text lowercased as `str::to_lowercase` does it: for ASCII text each
/// character by `ascii_lower`; other text as the Unicode tables have it
/// (`lowercase`).
pub open spec fn lower_text(s: Seq<char>) -> Seq<char> {
    if all_ascii(s) {
        s.map_values(|c: char| ascii_lower(c))
    } else {
        lowercase(s)
    }
}

/// `str::to_lowercase`: the string with every character mapped to its
/// Unicode lowercase form.  The contract names the result and states it for
/// ASCII text (`A`..`Z` to `a`..`z`, the rest unchanged); the mapping of
/// other characters (the Unicode tables) is not stated.
#[verifier::external_body]
pub(crate) fn to_lower(s: &str) -> (r: String)
    ensures
        r@ == lowercase(s@),
        all_ascii(s@) ==> r@ == s@.map_values(|c: char| ascii_lower(c)),
{
    s.to_lowercase()
}

/// Whether a string reads exactly as `lit`.
pub fn text_is(s: &str, lit: &str) -> (b: bool)
    ensures
        b == (s@ == lit@),
{
    let a = String::from_str(s);
    let l = String::from_str(lit);
    a == l
}

/// Whether a string begins with the character `c`.
pub fn starts_with_char(s: &str, c: char) -> (b: bool)
    ensures
        b == (s@.len() > 0 && s@[0] == c),
{
    let v = chars_of(s);
    v.len() > 0 && v[0] == c
}

} // verus!
