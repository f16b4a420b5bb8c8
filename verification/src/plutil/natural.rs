use vstd::prelude::*;
use std::cmp::Ordering;
use crate::num::{all_digits, digits_at_most, is_digit, parse_unsigned};
use crate::text::{all_ascii, ascii_lower, chars_of, first_where, lemma_first_where, lemma_first_where_found};
use crate::value::{Dictionary, Entries};

verus! {

/// The first character of the Unicode lowercase mapping of `c`, as the
/// iterator of `char::to_lowercase` yields it.
pub uninterp spec fn lower_first(c: char) -> Option<char>;

/// `char::to_lowercase(c).next()`: the first character of the lowercase
/// mapping of `c`, which is one or more characters, so there is one.  The
/// contract names the result and states it for ASCII (`A`..`Z` to
/// `a`..`z`, the rest unchanged); the Unicode tables behind other
/// characters are not stated.
#[verifier::external_body]
fn first_lowercase(c: char) -> (r: Option<char>)
    ensures
        r == lower_first(c),
        r is Some,
        (c as u32) < 128 ==> r == Some(ascii_lower(c)),
{
    c.to_lowercase().next()
}

/// The code of the character that `c` is compared by outside digit runs:
/// its lowercase form (for ASCII, `A`..`Z` as `a`..`z`).
pub open spec fn lower_code(c: char) -> int {
    if (c as u32) < 128 {
        (ascii_lower(c) as u32) as int
    } else {
        match lower_first(c) {
            Some(l) => (l as u32) as int,
            None => (c as u32) as int,
        }
    }
}

fn lowercase_code(c: char) -> (r: u32)
    ensures
        r as int == lower_code(c),
{
    match first_lowercase(c) {
        Some(l) => l as u32,
        None => c as u32,
    }
}

pub open spec fn non_digit() -> spec_fn(char) -> bool {
    |c: char| !is_digit(c)
}

/// The length of the run of ASCII digits that `s` begins with.
pub open spec fn digit_run(s: Seq<char>) -> nat {
    match first_where(s, non_digit()) {
        Some(k) => k,
        None => s.len(),
    }
}

/// The number a run of digits is compared by: its value, or 0 when it does
/// not fit in a `u64`.
pub open spec fn run_value(d: Seq<char>) -> int {
    match parse_unsigned(d, 0xffff_ffff_ffff_ffff) {
        Some(v) => v,
        None => 0,
    }
}

/// What is left of `s` after its first `n` characters (a run of digits).
pub open spec fn after_run(s: Seq<char>, n: nat) -> Seq<char> {
    if n < s.len() {
        s.skip(n as int)
    } else {
        Seq::empty()
    }
}

pub proof fn lemma_digit_run(s: Seq<char>)
    ensures
        digit_run(s) <= s.len(),
        all_digits(s.take(digit_run(s) as int)),
        digit_run(s) < s.len() ==> !is_digit(s[digit_run(s) as int]),
        s.len() > 0 && is_digit(s[0]) ==> digit_run(s) >= 1,
{
    lemma_first_where_found(s, non_digit());
    let n = digit_run(s);
    assert forall|j: int| 0 <= j < n implies is_digit(#[trigger] s.take(n as int)[j]) by {
        assert(s.take(n as int)[j] == s[j]);
        assert(!non_digit()(s[j]));
    }
}

/// The natural order of two keys, as -1, 0 or 1: runs of digits met in
/// both compare as numbers, and comparing goes on after them; other
/// characters compare by their lowercase form; a key that ends first is the
/// smaller.
pub open spec fn natural_rank(a: Seq<char>, b: Seq<char>) -> int
    decreases a.len() + b.len(),
{
    if a.len() == 0 {
        if b.len() == 0 {
            0
        } else {
            -1
        }
    } else if b.len() == 0 {
        1
    } else if is_digit(a[0]) && is_digit(b[0]) {
        let na = digit_run(a);
        let nb = digit_run(b);
        let va = run_value(a.take(na as int));
        let vb = run_value(b.take(nb as int));
        if va < vb {
            -1
        } else if vb < va {
            1
        } else {
            proof {
                lemma_digit_run(a);
                lemma_digit_run(b);
            }
            natural_rank(after_run(a, na), after_run(b, nb))
        }
    } else {
        let la = lower_code(a[0]);
        let lb = lower_code(b[0]);
        if la < lb {
            -1
        } else if lb < la {
            1
        } else {
            natural_rank(a.skip(1), b.skip(1))
        }
    }
}

/// Where the run of digits starting at `from` ends.
pub fn digit_end(v: &[char], from: usize) -> (r: usize)
    requires
        from <= v@.len(),
    ensures
        from <= r <= v@.len(),
        r - from == digit_run(v@.skip(from as int)),
{
    let ghost s = v@.skip(from as int);
    let mut k = from;
    while k < v.len() && '0' <= v[k] && v[k] <= '9'
        invariant
            from <= k <= v@.len(),
            s == v@.skip(from as int),
            forall|j: int| 0 <= j < k - from ==> !non_digit()(#[trigger] s[j]),
        decreases v@.len() - k,
    {
        assert(s[k - from] == v@[k as int]);
        k += 1;
    }
    if k < v.len() {
        assert(s[k - from] == v@[k as int]);
    }
    proof {
        lemma_first_where(s, non_digit(), k - from);
    }
    k
}

/// The number that the run of digits `v[from..to]` is compared by.
fn run_number(v: &[char], from: usize, to: usize) -> (r: u64)
    requires
        from < to <= v@.len(),
        all_digits(v@.subrange(from as int, to as int)),
    ensures
        r as int == run_value(v@.subrange(from as int, to as int)),
{
    let ghost d = v@.subrange(from as int, to as int);
    assert(d[0] != '+') by {
        assert(is_digit(d[0]));
    }
    match digits_at_most(v, from, to, 0xffff_ffff_ffff_ffffu64) {
        Some(x) => x,
        None => 0,
    }
}

/// The natural order of two keys as -1, 0 or 1 (see `natural_rank`).
pub fn natural_compare(a: &str, b: &str) -> (r: i8)
    ensures
        r as int == natural_rank(a@, b@),
{
    let va = chars_of(a);
    let vb = chars_of(b);
    let la = va.len();
    let lb = vb.len();
    let mut i: usize = 0;
    let mut j: usize = 0;
    assert(va@.skip(0) =~= a@);
    assert(vb@.skip(0) =~= b@);
    loop
        invariant
            i <= la == va@.len(),
            j <= lb == vb@.len(),
            natural_rank(a@, b@) == natural_rank(va@.skip(i as int), vb@.skip(j as int)),
        decreases la - i + lb - j,
    {
        let ghost sa = va@.skip(i as int);
        let ghost sb = vb@.skip(j as int);
        if i == la {
            return if j == lb {
                0
            } else {
                -1
            };
        }
        if j == lb {
            return 1;
        }
        assert(sa[0] == va@[i as int]);
        assert(sb[0] == vb@[j as int]);
        let ca = va[i];
        let cb = vb[j];
        if '0' <= ca && ca <= '9' && '0' <= cb && cb <= '9' {
            let ie = digit_end(va.as_slice(), i);
            let je = digit_end(vb.as_slice(), j);
            proof {
                lemma_digit_run(sa);
                lemma_digit_run(sb);
                assert(sa.take(ie - i) =~= va@.subrange(i as int, ie as int));
                assert(sb.take(je - j) =~= vb@.subrange(j as int, je as int));
            }
            let x = run_number(va.as_slice(), i, ie);
            let y = run_number(vb.as_slice(), j, je);
            if x < y {
                return -1;
            }
            if y < x {
                return 1;
            }
            let ni = ie;
            let nj = je;
            assert(after_run(sa, (ie - i) as nat) =~= va@.skip(ni as int));
            assert(after_run(sb, (je - j) as nat) =~= vb@.skip(nj as int));
            i = ni;
            j = nj;
        } else {
            let xa = lowercase_code(ca);
            let xb = lowercase_code(cb);
            if xa < xb {
                return -1;
            }
            if xb < xa {
                return 1;
            }
            assert(sa.skip(1) =~= va@.skip(i + 1));
            assert(sb.skip(1) =~= vb@.skip(j + 1));
            i += 1;
            j += 1;
        }
    }
}

/// The `Ordering` that a rank of -1, 0 or 1 stands for.
pub open spec fn ordering_of(rank: int) -> Ordering {
    if rank < 0 {
        Ordering::Less
    } else if rank == 0 {
        Ordering::Equal
    } else {
        Ordering::Greater
    }
}

/// Compares two keys in natural order (see `natural_rank`).
pub fn natural_cmp(a: &str, b: &str) -> (r: Ordering)
    ensures
        r == ordering_of(natural_rank(a@, b@)),
{
    let c = natural_compare(a, b);
    if c < 0 {
        Ordering::Less
    } else if c == 0 {
        Ordering::Equal
    } else {
        Ordering::Greater
    }
}

/// Every key is in natural order equal to itself.
pub proof fn law_natural_reflexive(a: Seq<char>)
    ensures
        natural_rank(a, a) == 0,
    decreases a.len(),
{
    if a.len() > 0 {
        lemma_digit_run(a);
        if is_digit(a[0]) {
            law_natural_reflexive(after_run(a, digit_run(a)));
        } else {
            law_natural_reflexive(a.skip(1));
        }
    }
}

/// Swapping two keys reverses their natural order.
pub proof fn law_natural_antisymmetric(a: Seq<char>, b: Seq<char>)
    ensures
        natural_rank(a, b) == -natural_rank(b, a),
        -1 <= natural_rank(a, b) <= 1,
    decreases a.len() + b.len(),
{
    if a.len() > 0 && b.len() > 0 {
        lemma_digit_run(a);
        lemma_digit_run(b);
        if is_digit(a[0]) && is_digit(b[0]) {
            law_natural_antisymmetric(after_run(a, digit_run(a)), after_run(b, digit_run(b)));
        } else {
            law_natural_antisymmetric(a.skip(1), b.skip(1));
        }
    }
}

/// Whether `c` lowercases as the Unicode tables have it where the natural
/// order depends on it: an ASCII digit to itself, any other character to
/// something that is not an ASCII digit.
pub open spec fn keeps_digit_case(c: char) -> bool {
    if is_digit(c) {
        lower_code(c) == (c as u32) as int
    } else {
        !(48 <= lower_code(c) <= 57)
    }
}

/// Whether every character of `s` lowercases as `keeps_digit_case` says.
pub open spec fn digits_keep_case(s: Seq<char>) -> bool {
    forall|i: int| 0 <= i < s.len() ==> #[trigger] keeps_digit_case(s[i])
}

/// ASCII keys lowercase as `digits_keep_case` asks, so the natural order is
/// transitive on them with nothing assumed.
pub proof fn lemma_ascii_keeps_digit_case(s: Seq<char>)
    requires
        all_ascii(s),
    ensures
        digits_keep_case(s),
{
    assert forall|i: int| 0 <= i < s.len() implies #[trigger] keeps_digit_case(s[i]) by {
        assert((s[i] as u32) < 128);
    }
}

proof fn lemma_keep_case_rest(s: Seq<char>, n: nat)
    requires
        digits_keep_case(s),
    ensures
        digits_keep_case(after_run(s, n)),
        s.len() > 0 ==> digits_keep_case(s.skip(1)),
{
    if n < s.len() {
        assert forall|i: int| 0 <= i < after_run(s, n).len() implies #[trigger] keeps_digit_case(
            after_run(s, n)[i],
        ) by {
            assert(after_run(s, n)[i] == s[i + n]);
        }
    }
    if s.len() > 0 {
        assert forall|i: int| 0 <= i < s.skip(1).len() implies #[trigger] keeps_digit_case(
            s.skip(1)[i],
        ) by {
            assert(s.skip(1)[i] == s[i + 1]);
        }
    }
}

/// The natural order is transitive: a key no greater than a second, which
/// is no greater than a third, is no greater than the third, and smaller
/// where either step is.  Stated for keys whose characters lowercase as the
/// Unicode tables have it (see `digits_keep_case`): the contract of the
/// lowercase mapping names its result without stating that.
pub proof fn law_natural_transitive(a: Seq<char>, b: Seq<char>, c: Seq<char>)
    requires
        digits_keep_case(a),
        digits_keep_case(b),
        digits_keep_case(c),
        natural_rank(a, b) <= 0,
        natural_rank(b, c) <= 0,
    ensures
        natural_rank(a, c) <= 0,
        natural_rank(a, b) < 0 || natural_rank(b, c) < 0 ==> natural_rank(a, c) < 0,
    decreases a.len() + b.len() + c.len(),
{
    if a.len() == 0 || b.len() == 0 || c.len() == 0 {
        return;
    }
    assert(keeps_digit_case(a[0]) && keeps_digit_case(b[0]) && keeps_digit_case(c[0]));
    let (da, db, dc) = (is_digit(a[0]), is_digit(b[0]), is_digit(c[0]));
    if da && db && dc {
        let (na, nb, nc) = (digit_run(a), digit_run(b), digit_run(c));
        let va = run_value(a.take(na as int));
        let vb = run_value(b.take(nb as int));
        let vc = run_value(c.take(nc as int));
        if va == vb && vb == vc {
            lemma_keep_case_rest(a, na);
            lemma_keep_case_rest(b, nb);
            lemma_keep_case_rest(c, nc);
            law_natural_transitive(after_run(a, na), after_run(b, nb), after_run(c, nc));
        }
    } else if !da && !db && !dc {
        if lower_code(a[0]) == lower_code(b[0]) && lower_code(b[0]) == lower_code(c[0]) {
            lemma_keep_case_rest(a, 0);
            lemma_keep_case_rest(b, 0);
            lemma_keep_case_rest(c, 0);
            law_natural_transitive(a.skip(1), b.skip(1), c.skip(1));
        }
    }
}

/// The keys of a dictionary's entries, in order.
pub open spec fn keys_of(es: Entries) -> Seq<Seq<char>> {
    Seq::new(es.len(), |i: int| es[i].0)
}

/// `r` lists every position of `keys` once, each key in natural order no
/// greater than the next, and two keys come out of the order they were given in
/// only where the first is strictly smaller: the stable sort of the keys.
pub open spec fn naturally_sorted(keys: Seq<Seq<char>>, r: Seq<usize>) -> bool {
    &&& r.len() == keys.len()
    &&& forall|i: int| 0 <= i < r.len() ==> r[i] < keys.len()
    &&& forall|i: int, j: int| 0 <= i < j < r.len() ==> r[i] != r[j]
    &&& forall|i: int|
        0 <= i < r.len() - 1 ==> #[trigger] natural_rank(keys[r[i] as int], keys[r[i + 1] as int])
            <= 0
    &&& forall|i: int, j: int|
        0 <= i < j < r.len() ==> r[i] < r[j] || natural_rank(keys[r[i] as int], keys[r[j] as int])
            < 0
}


/// Where the stable insertion of position `k` goes into the order `r`:
/// after the last entry whose key is not greater than key `k`, looking
/// back from `p`.
pub open spec fn insert_pos(keys: Seq<Seq<char>>, r: Seq<usize>, k: int, p: int) -> int
    decreases p,
{
    if p > 0 && p <= r.len() && natural_rank(keys[r[p - 1] as int], keys[k]) > 0 {
        insert_pos(keys, r, k, p - 1)
    } else {
        p
    }
}

/// The order of the first `n` keys that inserting them one by one, each
/// after the last no greater key, gives.  It is `naturally_sorted` (see
/// `natural_order_of`).
pub open spec fn sorted_positions(keys: Seq<Seq<char>>, n: nat) -> Seq<usize>
    decreases n,
{
    if n == 0 {
        Seq::empty()
    } else {
        let r = sorted_positions(keys, (n - 1) as nat);
        r.insert(insert_pos(keys, r, n - 1, r.len() as int), (n - 1) as usize)
    }
}

/// The order in which a dictionary's entries are listed by key.
pub open spec fn entry_order(es: Entries) -> Seq<usize> {
    sorted_positions(keys_of(es), es.len())
}

/// The positions of a dictionary's entries, ordered by their keys in
/// natural order (a stable sort).
pub fn natural_order_of(d: &Dictionary) -> (r: Vec<usize>)
    ensures
        naturally_sorted(keys_of(d@), r@),
        r@ == entry_order(d@),
{
    let es = d.iter();
    let n = es.len();
    let ghost keys = keys_of(d@);
    assert forall|i: int| 0 <= i < n implies keys[i] == (#[trigger] es@[i]).0@ by {}
    let mut r: Vec<usize> = Vec::new();
    let mut k: usize = 0;
    while k < n
        invariant
            n == es@.len() == keys.len(),
            keys == keys_of(d@),
            forall|i: int| 0 <= i < n ==> keys[i] == (#[trigger] es@[i]).0@,
            k <= n,
            r@.len() == k,
            r@ == sorted_positions(keys, k as nat),
            forall|i: int| 0 <= i < r@.len() ==> r@[i] < k,
            forall|i: int, j: int| 0 <= i < j < r@.len() ==> r@[i] != r@[j],
            forall|i: int|
                0 <= i < r@.len() - 1 ==> #[trigger] natural_rank(
                    keys[r@[i] as int],
                    keys[r@[i + 1] as int],
                ) <= 0,
            forall|i: int, j: int|
                0 <= i < j < r@.len() ==> r@[i] < r@[j] || natural_rank(
                    keys[r@[i] as int],
                    keys[r@[j] as int],
                ) < 0,
        decreases n - k,
    {
        let mut p = r.len();
        while p > 0 && natural_compare(es[r[p - 1]].0.as_str(), es[k].0.as_str()) > 0
            invariant
                k < n == es@.len() == keys.len(),
                forall|i: int| 0 <= i < n ==> keys[i] == (#[trigger] es@[i]).0@,
                r@.len() == k,
                forall|i: int| 0 <= i < r@.len() ==> r@[i] < k,
                p <= r@.len(),
                insert_pos(keys, r@, k as int, r@.len() as int) == insert_pos(keys, r@, k as int, p as int),
                forall|q: int| p <= q < r@.len() ==> natural_rank(keys[r@[q] as int], keys[k as int]) > 0,
            decreases p,
        {
            p -= 1;
        }
        proof {
            if p > 0 {
                assert(natural_rank(keys[r@[p - 1] as int], keys[k as int]) <= 0);
            }
            assert forall|q: int| p <= q < r@.len() implies natural_rank(
                keys[k as int],
                keys[r@[q] as int],
            ) < 0 by {
                law_natural_antisymmetric(keys[r@[q] as int], keys[k as int]);
            }
        }
        let ghost r0 = r@;
        assert(insert_pos(keys, r0, k as int, p as int) == p);
        r.insert(p, k);
        assert(r@ == r0.insert(p as int, k));
        assert forall|i: int| 0 <= i < r@.len() implies r@[i] < k + 1 by {
            if i > p {
                assert(r@[i] == r0[i - 1]);
            }
        }
        assert forall|i: int, j: int| 0 <= i < j < r@.len() implies r@[i] != r@[j] by {
            if i < p && j > p {
                assert(r@[j] == r0[j - 1]);
            } else if i > p {
                assert(r@[i] == r0[i - 1]);
                assert(r@[j] == r0[j - 1]);
            } else if j > p {
                assert(r@[j] == r0[j - 1]);
            }
        }
        assert forall|i: int|
            0 <= i < r@.len() - 1 implies #[trigger] natural_rank(
                keys[r@[i] as int],
                keys[r@[i + 1] as int],
            ) <= 0 by {
            if i + 1 < p {
                assert(r@[i] == r0[i] && r@[i + 1] == r0[i + 1]);
                assert(natural_rank(keys[r0[i] as int], keys[r0[i + 1] as int]) <= 0);
            } else if i + 1 == p {
                assert(r@[i] == r0[i] && r@[i + 1] == k);
            } else if i == p {
                assert(r@[i + 1] == r0[p as int]);
            } else {
                assert(r@[i] == r0[i - 1]);
                assert(r@[i + 1] == r0[i]);
                let h = i - 1;
                assert(natural_rank(keys[r0[h] as int], keys[r0[h + 1] as int]) <= 0);
            }
        }
        assert forall|i: int, j: int|
            0 <= i < j < r@.len() implies r@[i] < r@[j] || natural_rank(
                keys[r@[i] as int],
                keys[r@[j] as int],
            ) < 0 by {
            if j < p {
            } else if j == p {
            } else if i < p {
                assert(r@[j] == r0[j - 1]);
            } else if i == p {
                assert(r@[j] == r0[j - 1]);
            } else {
                assert(r@[i] == r0[i - 1]);
                assert(r@[j] == r0[j - 1]);
            }
        }
        k += 1;
    }
    r
}

} // verus!
