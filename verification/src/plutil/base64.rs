use vstd::prelude::*;
use vstd::utf8::encode_utf8;
use crate::text::push_char;

verus! {

/// The ASCII code of the base-64 digit for `i` (`A`-`Z`, `a`-`z`, `0`-`9`,
/// `+`, `/`).
pub open spec fn b64_code(i: int) -> u8 {
    if i < 26 {
        (65 + i) as u8
    } else if i < 52 {
        (97 + (i - 26)) as u8
    } else if i < 62 {
        (48 + (i - 52)) as u8
    } else if i == 62 {
        43u8
    } else {
        47u8
    }
}

pub open spec fn b64_char(i: int) -> char {
    b64_code(i) as char
}

/// The standard base-64 text of `d`, padded with `=` to whole groups of four.
pub open spec fn base64_of(d: Seq<u8>) -> Seq<char>
    decreases d.len(),
{
    if d.len() == 0 {
        seq![]
    } else if d.len() == 1 {
        seq![b64_char(d[0] as int / 4), b64_char((d[0] as int % 4) * 16), '=', '=']
    } else if d.len() == 2 {
        seq![
            b64_char(d[0] as int / 4),
            b64_char((d[0] % 4) * 16 + d[1] / 16),
            b64_char((d[1] % 16) * 4),
            '=',
        ]
    } else {
        seq![
            b64_char(d[0] as int / 4),
            b64_char((d[0] % 4) * 16 + d[1] / 16),
            b64_char((d[1] % 16) * 4 + d[2] / 64),
            b64_char(d[2] as int % 64),
        ] + base64_of(d.skip(3))
    }
}

fn digit(i: u8) -> (c: char)
    requires
        i < 64,
    ensures
        c == b64_char(i as int),
{
    let code: u8 = if i < 26 {
        65 + i
    } else if i < 52 {
        97 + (i - 26)
    } else if i < 62 {
        48 + (i - 52)
    } else if i == 62 {
        43
    } else {
        47
    };
    code as char
}

/// Encodes bytes as standard base 64 with padding.
pub fn base64_encode(data: &[u8]) -> (r: String)
    ensures
        r@ == base64_of(data@),
{
    let n = data.len();
    let mut r = String::new();
    let mut i: usize = 0;
    assert(data@.skip(0) =~= data@);
    assert(r@ + base64_of(data@) =~= base64_of(data@));
    while n - i >= 3
        invariant
            i <= n == data@.len(),
            base64_of(data@) == r@ + base64_of(data@.skip(i as int)),
        decreases n - i,
    {
        let ghost rest = data@.skip(i as int);
        let b0 = data[i];
        let b1 = data[i + 1];
        let b2 = data[i + 2];
        assert(rest[0] == b0 && rest[1] == b1 && rest[2] == b2);
        push_char(&mut r, digit(b0 / 4));
        push_char(&mut r, digit((b0 % 4) * 16 + b1 / 16));
        push_char(&mut r, digit((b1 % 16) * 4 + b2 / 64));
        push_char(&mut r, digit(b2 % 64));
        assert(rest.skip(3) =~= data@.skip(i + 3));
        i += 3;
    }
    let ghost rest = data@.skip(i as int);
    if n - i == 1 {
        let b0 = data[i];
        assert(rest[0] == b0);
        push_char(&mut r, digit(b0 / 4));
        push_char(&mut r, digit((b0 % 4) * 16));
        push_char(&mut r, '=');
        push_char(&mut r, '=');
    } else if n - i == 2 {
        let b0 = data[i];
        let b1 = data[i + 1];
        assert(rest[0] == b0 && rest[1] == b1);
        push_char(&mut r, digit(b0 / 4));
        push_char(&mut r, digit((b0 % 4) * 16 + b1 / 16));
        push_char(&mut r, digit((b1 % 16) * 4));
        push_char(&mut r, '=');
    }
    assert(r@ == base64_of(data@));
    r
}

/// The number a base-64 digit stands for.
pub open spec fn b64_value(c: u8) -> Option<int> {
    if 65 <= c <= 90 {
        Some(c - 65)
    } else if 97 <= c <= 122 {
        Some(c - 97 + 26)
    } else if 48 <= c <= 57 {
        Some(c - 48 + 52)
    } else if c == 43 {
        Some(62)
    } else if c == 47 {
        Some(63)
    } else {
        None
    }
}

/// The bytes without line feeds, carriage returns and spaces.
pub open spec fn unspaced(b: Seq<u8>) -> Seq<u8>
    decreases b.len(),
{
    if b.len() == 0 {
        b
    } else if b.last() == 10 || b.last() == 13 || b.last() == 32 {
        unspaced(b.drop_last())
    } else {
        unspaced(b.drop_last()).push(b.last())
    }
}

/// The bytes a group of four base-64 bytes stands for: a third byte `=`
/// ends the group after one byte, a fourth `=` after two.
pub open spec fn decode_group(g: Seq<u8>) -> Option<Seq<u8>> {
    match (b64_value(g[0]), b64_value(g[1])) {
        (Some(a), Some(b)) => {
            let x = (a * 4 + b / 16) as u8;
            if g[2] == 61 {
                Some(seq![x])
            } else {
                match b64_value(g[2]) {
                    None => None,
                    Some(c) => {
                        let y = ((b % 16) * 16 + c / 4) as u8;
                        if g[3] == 61 {
                            Some(seq![x, y])
                        } else {
                            match b64_value(g[3]) {
                                None => None,
                                Some(e) => Some(seq![x, y, ((c % 4) * 64 + e) as u8]),
                            }
                        }
                    },
                }
            }
        },
        _ => None,
    }
}

/// The bytes that whole groups of four base-64 bytes stand for.
pub open spec fn decode_groups(b: Seq<u8>) -> Option<Seq<u8>>
    decreases b.len(),
{
    if b.len() < 4 {
        Some(seq![])
    } else {
        match decode_group(b.take(4)) {
            None => None,
            Some(x) => match decode_groups(b.skip(4)) {
                None => None,
                Some(y) => Some(x + y),
            },
        }
    }
}

/// What a base-64 text decodes to: its UTF-8 bytes, less line feeds,
/// carriage returns and spaces, must come in whole groups of four.
pub open spec fn base64_decoded(s: Seq<char>) -> Option<Seq<u8>> {
    let b = unspaced(encode_utf8(s));
    if b.len() % 4 != 0 {
        None
    } else {
        decode_groups(b)
    }
}

fn value_of(c: u8) -> (r: Option<u8>)
    ensures
        match r {
            Some(v) => b64_value(c) == Some(v as int) && v < 64,
            None => b64_value(c) is None,
        },
{
    if 65 <= c && c <= 90 {
        Some(c - 65)
    } else if 97 <= c && c <= 122 {
        Some(c - 97 + 26)
    } else if 48 <= c && c <= 57 {
        Some(c - 48 + 52)
    } else if c == 43 {
        Some(62)
    } else if c == 47 {
        Some(63)
    } else {
        None
    }
}

/// Decodes standard base 64, passing over line feeds, carriage returns and
/// spaces; none when the text is not base 64.
pub fn base64_decode(s: &str) -> (r: Option<Vec<u8>>)
    ensures
        match r {
            Some(v) => base64_decoded(s@) == Some(v@),
            None => base64_decoded(s@) is None,
        },
{
    let bytes = s.as_bytes();
    let ghost all = encode_utf8(s@);
    let mut b: Vec<u8> = Vec::new();
    let mut i: usize = 0;
    while i < bytes.len()
        invariant
            i <= bytes@.len(),
            bytes@ == all,
            b@ == unspaced(all.take(i as int)),
        decreases bytes@.len() - i,
    {
        let x = bytes[i];
        assert(all.take(i + 1).drop_last() =~= all.take(i as int));
        if x != 10 && x != 13 && x != 32 {
            b.push(x);
        }
        i += 1;
    }
    assert(all.take(bytes@.len() as int) =~= all);
    if b.len() % 4 != 0 {
        return None;
    }
    let n = b.len();
    let mut out: Vec<u8> = Vec::new();
    let mut k: usize = 0;
    assert(b@.skip(0) =~= b@);
    proof {
        if let Some(y) = decode_groups(b@) {
            assert(out@ + y =~= y);
        }
    }
    while k < n
        invariant
            k <= n == b@.len(),
            b@ == unspaced(encode_utf8(s@)),
            n % 4 == 0,
            k % 4 == 0,
            decode_groups(b@) == match decode_groups(b@.skip(k as int)) {
                Some(y) => Some(out@ + y),
                None => None,
            },
        decreases n - k,
    {
        let ghost g = b@.skip(k as int).take(4);
        assert(n - k >= 4);
        assert(b@.skip(k as int).skip(4) =~= b@.skip(k + 4));
        assert(g[0] == b@[k as int] && g[1] == b@[k + 1] && g[2] == b@[k + 2] && g[3] == b@[k
            + 3]);
        let a = match value_of(b[k]) {
            Some(v) => v,
            None => {
                assert(decode_group(g) is None);
                assert(decode_groups(b@.skip(k as int)) is None);
                return None;
            },
        };
        let bv = match value_of(b[k + 1]) {
            Some(v) => v,
            None => {
                assert(decode_group(g) is None);
                assert(decode_groups(b@.skip(k as int)) is None);
                return None;
            },
        };
        let ghost o0 = out@;
        out.push(a * 4 + bv / 16);
        if b[k + 2] != 61 {
            let c = match value_of(b[k + 2]) {
                Some(v) => v,
                None => {
                    return None;
                },
            };
            out.push((bv % 16) * 16 + c / 4);
            if b[k + 3] != 61 {
                let e = match value_of(b[k + 3]) {
                    Some(v) => v,
                    None => {
                        assert(decode_group(g) is None);
                        assert(decode_groups(b@.skip(k as int)) is None);
                        return None;
                    },
                };
                out.push((c % 4) * 64 + e);
            }
        }
        assert(decode_group(g) == Some(out@.skip(o0.len() as int)));
        assert(out@ =~= o0 + out@.skip(o0.len() as int));
        k += 4;
    }
    assert(b@.skip(n as int) =~= Seq::<u8>::empty());
    assert(decode_groups(Seq::<u8>::empty()) == Some(Seq::<u8>::empty()));
    assert(out@ + Seq::<u8>::empty() =~= out@);
    Some(out)
}

/// The byte codes of characters below 256.
pub open spec fn codes(cs: Seq<char>) -> Seq<u8> {
    Seq::new(cs.len(), |i: int| (cs[i] as u32) as u8)
}

proof fn lemma_digit_code(i: int)
    requires
        0 <= i < 64,
    ensures
        b64_char(i) as u32 == b64_code(i) as u32,
        (b64_char(i) as u32) as u8 == b64_code(i),
        b64_value(b64_code(i)) == Some(i),
        b64_code(i) != 61 && b64_code(i) != 10 && b64_code(i) != 13 && b64_code(i) != 32,
        b64_code(i) < 128,
{
}

proof fn lemma_base64_shape(d: Seq<u8>)
    ensures
        base64_of(d).len() % 4 == 0,
        forall|j: int|
            0 <= j < base64_of(d).len() ==> (#[trigger] base64_of(d)[j] as u32) < 128 && (
            base64_of(d)[j] as u32) != 10 && (base64_of(d)[j] as u32) != 13 && (base64_of(d)[j]
                as u32) != 32,
    decreases d.len(),
{
    let pad = '=';
    assert(pad as u32 == 61u32);
    if d.len() == 1 {
        lemma_digit_code(d[0] as int / 4);
        lemma_digit_code((d[0] as int % 4) * 16);
    } else if d.len() == 2 {
        lemma_digit_code(d[0] as int / 4);
        lemma_digit_code((d[0] as int % 4) * 16 + d[1] as int / 16);
        lemma_digit_code((d[1] as int % 16) * 4);
    } else if d.len() >= 3 {
        lemma_digit_code(d[0] as int / 4);
        lemma_digit_code((d[0] as int % 4) * 16 + d[1] as int / 16);
        lemma_digit_code((d[1] as int % 16) * 4 + d[2] as int / 64);
        lemma_digit_code(d[2] as int % 64);
        lemma_base64_shape(d.skip(3));
        let rest = base64_of(d.skip(3));
        assert forall|j: int| 4 <= j < base64_of(d).len() implies base64_of(d)[j] == rest[j - 4] by {}
    }
}

/// Characters below 128 are encoded in UTF-8 as one byte each.
proof fn lemma_encode_codes(cs: Seq<char>)
    requires
        forall|j: int| 0 <= j < cs.len() ==> (#[trigger] cs[j] as u32) < 128,
    ensures
        encode_utf8(cs) == codes(cs),
    decreases cs.len(),
{
    if cs.len() > 0 {
        let u = cs[0] as u32;
        assert(u < 128);
        assert((u & 0x7F) as u8 == u as u8) by (bit_vector)
            requires
                u < 128,
        ;
        lemma_encode_codes(cs.drop_first());
        assert(encode_utf8(cs) =~= codes(cs));
    }
}

/// Removing no byte leaves the bytes as they are.
proof fn lemma_unspaced_same(b: Seq<u8>)
    requires
        forall|j: int| 0 <= j < b.len() ==> #[trigger] b[j] != 10 && b[j] != 13 && b[j] != 32,
    ensures
        unspaced(b) == b,
    decreases b.len(),
{
    if b.len() > 0 {
        lemma_unspaced_same(b.drop_last());
        assert(b.drop_last().push(b.last()) =~= b);
    }
}

proof fn lemma_group_bytes(d0: u8, d1: u8, d2: u8)
    ensures
        ((d0 as int / 4) * 4 + ((d0 as int % 4) * 16 + d1 as int / 16) / 16) == d0,
        (((d0 as int % 4) * 16 + d1 as int / 16) % 16) * 16 + ((d1 as int % 16) * 4 + d2 as int
            / 64) / 4 == d1,
        (((d1 as int % 16) * 4 + d2 as int / 64) % 4) * 64 + d2 as int % 64 == d2,
        ((d0 as int / 4) * 4 + ((d0 as int % 4) * 16) / 16) == d0,
        (((d0 as int % 4) * 16 + d1 as int / 16) % 16) * 16 + ((d1 as int % 16) * 4) / 4 == d1,
{
    assert(((d0 as int / 4) * 4 + ((d0 as int % 4) * 16 + d1 as int / 16) / 16) == d0)
        by (nonlinear_arith);
    assert((((d0 as int % 4) * 16 + d1 as int / 16) % 16) * 16 + ((d1 as int % 16) * 4 + d2 as int
        / 64) / 4 == d1) by (nonlinear_arith);
    assert((((d1 as int % 16) * 4 + d2 as int / 64) % 4) * 64 + d2 as int % 64 == d2)
        by (nonlinear_arith);
    assert(((d0 as int / 4) * 4 + ((d0 as int % 4) * 16) / 16) == d0) by (nonlinear_arith);
    assert((((d0 as int % 4) * 16 + d1 as int / 16) % 16) * 16 + ((d1 as int % 16) * 4) / 4 == d1)
        by (nonlinear_arith);
}

proof fn lemma_decode_codes(d: Seq<u8>)
    ensures
        decode_groups(codes(base64_of(d))) == Some(d),
    decreases d.len(),
{
    let b = codes(base64_of(d));
    let pad = '=';
    assert(pad as u32 == 61u32);
    if d.len() == 0 {
        assert(d =~= Seq::<u8>::empty());
    } else {
        let d0 = d[0];
        let d1: u8 = if d.len() > 1 {
            d[1]
        } else {
            0
        };
        let d2: u8 = if d.len() > 2 {
            d[2]
        } else {
            0
        };
        lemma_group_bytes(d0, d1, d2);
        lemma_digit_code(d0 as int / 4);
        if d.len() == 1 {
            lemma_digit_code((d0 as int % 4) * 16);
            assert(b.take(4) =~= b);
            assert(b.skip(4) =~= Seq::<u8>::empty());
            assert(decode_group(b) == Some(seq![d0]));
            assert(seq![d0] + Seq::<u8>::empty() =~= d);
            assert(decode_groups(b.skip(4)) == Some(Seq::<u8>::empty()));
            assert(b.len() == 4);
        } else if d.len() == 2 {
            lemma_digit_code((d0 as int % 4) * 16 + d1 as int / 16);
            lemma_digit_code((d1 as int % 16) * 4);
            assert(b.take(4) =~= b);
            assert(b.skip(4) =~= Seq::<u8>::empty());
            assert(decode_group(b) == Some(seq![d0, d1]));
            assert(seq![d0, d1] + Seq::<u8>::empty() =~= d);
            assert(decode_groups(b.skip(4)) == Some(Seq::<u8>::empty()));
            assert(b.len() == 4);
        } else {
            lemma_digit_code((d0 as int % 4) * 16 + d1 as int / 16);
            lemma_digit_code((d1 as int % 16) * 4 + d2 as int / 64);
            lemma_digit_code(d2 as int % 64);
            lemma_decode_codes(d.skip(3));
            let g = b.take(4);
            assert(b.skip(4) =~= codes(base64_of(d.skip(3))));
            assert(decode_group(g) == Some(seq![d0, d1, d2]));
            assert(seq![d0, d1, d2] + d.skip(3) =~= d);
            assert(b.len() >= 4);
        }
    }
}

/// Text in base 64 decodes to the bytes it was made from.
pub proof fn law_base64_round_trip(d: Seq<u8>)
    ensures
        base64_decoded(base64_of(d)) == Some(d),
{
    let cs = base64_of(d);
    lemma_base64_shape(d);
    lemma_encode_codes(cs);
    lemma_unspaced_same(codes(cs));
    lemma_decode_codes(d);
}

} // verus!
