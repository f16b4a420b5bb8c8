use vstd::prelude::*;

verus! {

pub open spec fn is_digit(c: char) -> bool {
    '0' <= c <= '9'
}

pub open spec fn digit_val(c: char) -> int {
    (c as int) - ('0' as int)
}

/// The number that a string of decimal digits spells.
pub open spec fn digits_value(s: Seq<char>) -> int
    decreases s.len(),
{
    if s.len() == 0 {
        0
    } else {
        digits_value(s.drop_last()) * 10 + digit_val(s.last())
    }
}

pub open spec fn all_digits(s: Seq<char>) -> bool {
    forall|i: int| 0 <= i < s.len() ==> is_digit(#[trigger] s[i])
}

/// What `from_str` gives for an unsigned type whose largest value is `max`:
/// an optional `+`, then one or more digits, the number at most `max`.
pub open spec fn parse_unsigned(s: Seq<char>, max: int) -> Option<int> {
    let d = if s.len() > 0 && s[0] == '+' {
        s.skip(1)
    } else {
        s
    };
    if d.len() > 0 && all_digits(d) && digits_value(d) <= max {
        Some(digits_value(d))
    } else {
        None
    }
}

/// What `i64::from_str` gives: an optional sign, then one or more digits,
/// the number within range.
pub open spec fn parse_i64(s: Seq<char>) -> Option<int> {
    if s.len() > 0 && s[0] == '-' {
        let d = s.skip(1);
        if d.len() > 0 && all_digits(d) && digits_value(d) <= 0x8000_0000_0000_0000 {
            Some(-digits_value(d))
        } else {
            None
        }
    } else {
        parse_unsigned(s, 0x7fff_ffff_ffff_ffff)
    }
}

pub proof fn lemma_digits_value_nonneg(s: Seq<char>)
    requires
        all_digits(s),
    ensures
        digits_value(s) >= 0,
    decreases s.len(),
{
    if s.len() > 0 {
        assert(is_digit(s[s.len() - 1]));
        lemma_digits_value_nonneg(s.drop_last());
    }
}

/// A longer run of digits spells at least as large a number.
pub proof fn lemma_digits_value_grows(s: Seq<char>, i: int)
    requires
        all_digits(s),
        0 <= i <= s.len(),
    ensures
        digits_value(s.take(i)) <= digits_value(s),
    decreases s.len() - i,
{
    if i < s.len() {
        let t = s.drop_last();
        assert(all_digits(t));
        if i < s.len() {
            assert(t.take(i) =~= s.take(i));
            lemma_digits_value_grows(t, i);
            lemma_digits_value_nonneg(t);
            assert(is_digit(s.last()));
        }
    } else {
        assert(s.take(i) =~= s);
    }
}

/// `digits_value` of `s` over `v[from..from + k + 1]`, one step further.
proof fn lemma_digits_step(v: Seq<char>, from: int, k: int)
    requires
        0 <= from,
        0 <= k,
        from + k < v.len(),
    ensures
        digits_value(v.subrange(from, from + k + 1)) == digits_value(v.subrange(from, from + k))
            * 10 + digit_val(v[from + k]),
{
    assert(v.subrange(from, from + k + 1).drop_last() =~= v.subrange(from, from + k));
}

/// Parses the digits `v[from..to]` as an unsigned number of at most `max`.
pub fn digits_at_most(v: &[char], from: usize, to: usize, max: u64) -> (r: Option<u64>)
    requires
        from <= to <= v@.len(),
        max >= 9,
    ensures
        match r {
            Some(x) => all_digits(v@.subrange(from as int, to as int)) && x == digits_value(
                v@.subrange(from as int, to as int),
            ) && x <= max,
            None => !(all_digits(v@.subrange(from as int, to as int)) && digits_value(
                v@.subrange(from as int, to as int),
            ) <= max),
        },
{
    let ghost d = v@.subrange(from as int, to as int);
    let mut i = from;
    while i < to
        invariant
            from <= i <= to <= v@.len(),
            d == v@.subrange(from as int, to as int),
            forall|j: int| from <= j < i ==> is_digit(#[trigger] v@[j]),
        decreases to - i,
    {
        if !('0' <= v[i] && v[i] <= '9') {
            assert(d[i - from] == v@[i as int]);
            return None;
        }
        i += 1;
    }
    assert(all_digits(d)) by {
        assert forall|j: int| 0 <= j < d.len() implies is_digit(#[trigger] d[j]) by {
            assert(d[j] == v@[from + j]);
        }
    }
    let mut acc: u64 = 0;
    let mut k = from;
    while k < to
        invariant
            from <= k <= to <= v@.len(),
            all_digits(d),
            d == v@.subrange(from as int, to as int),
            acc == digits_value(v@.subrange(from as int, k as int)),
            acc <= max,
            max >= 9,
        decreases to - k,
    {
        proof {
            assert(d[k - from] == v@[k as int]);
            assert(is_digit(v@[k as int]));
        }
        let dig = ((v[k] as u32) - ('0' as u32)) as u64;
        proof {
            lemma_digits_step(v@, from as int, k - from);
            assert(v@.subrange(from as int, k + 1) =~= d.take(k + 1 - from));
        }
        if acc > (max - dig) / 10 {
            proof {
                assert(acc * 10 + dig > max) by (nonlinear_arith)
                    requires
                        acc > (max - dig) / 10,
                        dig <= max,
                ;
                lemma_digits_value_grows(d, k + 1 - from);
            }
            return None;
        }
        assert(acc * 10 + dig <= max) by (nonlinear_arith)
            requires
                acc <= (max - dig) / 10,
                dig <= max,
        ;
        acc = acc * 10 + dig;
        k += 1;
    }
    assert(v@.subrange(from as int, to as int) =~= d);
    Some(acc)
}

/// `usize::from_str` on `v[from..to]`.
pub fn parse_usize_at(v: &[char], from: usize, to: usize) -> (r: Option<usize>)
    requires
        from <= to <= v@.len(),
    ensures
        match r {
            Some(x) => parse_unsigned(v@.subrange(from as int, to as int), usize::MAX as int) == Some(
                x as int,
            ),
            None => parse_unsigned(v@.subrange(from as int, to as int), usize::MAX as int) is None,
        },
{
    let ghost s = v@.subrange(from as int, to as int);
    let start = if from < to && v[from] == '+' {
        from + 1
    } else {
        from
    };
    assert(v@.subrange(start as int, to as int) =~= if s.len() > 0 && s[0] == '+' {
        s.skip(1)
    } else {
        s
    });
    if start == to {
        return None;
    }
    match digits_at_most(v, start, to, usize::MAX as u64) {
        Some(x) => Some(x as usize),
        None => None,
    }
}

/// `i64::from_str` on `v[from..to]`.
pub fn parse_i64_at(v: &[char], from: usize, to: usize) -> (r: Option<i64>)
    requires
        from <= to <= v@.len(),
    ensures
        match r {
            Some(x) => parse_i64(v@.subrange(from as int, to as int)) == Some(x as int),
            None => parse_i64(v@.subrange(from as int, to as int)) is None,
        },
{
    let ghost s = v@.subrange(from as int, to as int);
    if from < to && v[from] == '-' {
        assert(v@.subrange(from + 1, to as int) =~= s.skip(1));
        if from + 1 == to {
            return None;
        }
        match digits_at_most(v, from + 1, to, 0x8000_0000_0000_0000u64) {
            Some(x) => {
                if x == 0x8000_0000_0000_0000u64 {
                    Some(i64::MIN)
                } else {
                    Some(-(x as i64))
                }
            },
            None => None,
        }
    } else {
        let start = if from < to && v[from] == '+' {
            from + 1
        } else {
            from
        };
        assert(v@.subrange(start as int, to as int) =~= if s.len() > 0 && s[0] == '+' {
            s.skip(1)
        } else {
            s
        });
        if start == to {
            return None;
        }
        match digits_at_most(v, start, to, 0x7fff_ffff_ffff_ffffu64) {
            Some(x) => Some(x as i64),
            None => None,
        }
    }
}

} // verus!
