use vstd::prelude::*;
use vstd::string::*;
use vstd::utf8::encode_utf8;
use crate::num::{is_digit, parse_i64, parse_i64_at};
use crate::plutil::natural::{digit_run, lemma_digit_run};
use crate::text::{
    cat2, chars_of, count_lead_ws, count_trail_ws, lead_ws, push_char, string_between, trim,
    trim_end,
};
use crate::value::{lemma_array_model, model, models, put, Dictionary, Entries, Node, Value};

verus! {

broadcast use lemma_array_model;

// ---------------------------------------------------------------------------
// Strings
// ---------------------------------------------------------------------------

/// The number a hexadecimal digit stands for.
pub open spec fn hex_val(c: char) -> Option<int> {
    if '0' <= c <= '9' {
        Some(c as int - '0' as int)
    } else if 'a' <= c <= 'f' {
        Some(c as int - 'a' as int + 10)
    } else if 'A' <= c <= 'F' {
        Some(c as int - 'A' as int + 10)
    } else {
        None
    }
}

pub open spec fn all_hex(d: Seq<char>) -> bool {
    forall|i: int| 0 <= i < d.len() ==> #[trigger] hex_val(d[i]) is Some
}

pub open spec fn hex_value(d: Seq<char>) -> int
    decreases d.len(),
{
    if d.len() == 0 {
        0
    } else {
        hex_value(d.drop_last()) * 16 + hex_val(d.last())->Some_0
    }
}

/// What `u32::from_str_radix(h, 16)` gives for a text of at most four
/// characters: an optional `+`, then one or more hexadecimal digits.
pub open spec fn parse_hex(h: Seq<char>) -> Option<int> {
    let d = if h.len() > 0 && h[0] == '+' {
        h.skip(1)
    } else {
        h
    };
    if d.len() > 0 && all_hex(d) {
        Some(hex_value(d))
    } else {
        None
    }
}

/// Codes that `char::from_u32` turns into a character.
pub open spec fn is_scalar_code(code: int) -> bool {
    (0 <= code < 0xD800) || (0xE000 <= code <= 0x10FFFF)
}

/// The character a one-letter escape stands for.
pub open spec fn escaped_char(e: char) -> Option<char> {
    if e == '"' {
        Some('"')
    } else if e == '\\' {
        Some('\\')
    } else if e == '/' {
        Some('/')
    } else if e == 'n' {
        Some('\n')
    } else if e == 'r' {
        Some('\r')
    } else if e == 't' {
        Some('\t')
    } else {
        None
    }
}

/// Reads the body of a JSON string from position `j` (after the opening
/// quote), `acc` holding what was read so far: the text and the position
/// after the closing quote, or the message.  A `\u` escape takes the next
/// four characters (fewer at the end); a code that is no character is
/// dropped.
pub open spec fn string_body(s: Seq<char>, j: int, acc: Seq<char>) -> Result<
    (Seq<char>, int),
    Seq<char>,
>
    decreases s.len() - j,
{
    if j < 0 || j >= s.len() {
        Err("unterminated string"@)
    } else if s[j] == '"' {
        Ok((acc, j + 1))
    } else if s[j] == '\\' {
        if j + 1 >= s.len() {
            Err("invalid escape"@)
        } else if s[j + 1] == 'u' {
            let end = if j + 6 <= s.len() {
                j + 6
            } else {
                s.len() as int
            };
            match parse_hex(s.subrange(j + 2, end)) {
                None => Err("invalid unicode escape"@),
                Some(code) => string_body(
                    s,
                    end,
                    if is_scalar_code(code) {
                        acc.push(code as char)
                    } else {
                        acc
                    },
                ),
            }
        } else {
            match escaped_char(s[j + 1]) {
                Some(c) => string_body(s, j + 2, acc.push(c)),
                None => Err("invalid escape"@),
            }
        }
    } else {
        string_body(s, j + 1, acc.push(s[j]))
    }
}

/// Reads a JSON string that starts at position `i`.
pub open spec fn string_at_spec(s: Seq<char>, i: int) -> Result<(Seq<char>, int), Seq<char>> {
    if 0 <= i < s.len() && s[i] == '"' {
        string_body(s, i + 1, Seq::empty())
    } else {
        Err("expected string"@)
    }
}

pub proof fn lemma_string_body_bounds(s: Seq<char>, j: int, acc: Seq<char>)
    ensures
        string_body(s, j, acc) matches Ok((t, e)) ==> j < e <= s.len(),
    decreases s.len() - j,
{
    if 0 <= j < s.len() && s[j] != '"' {
        if s[j] == '\\' {
            if j + 1 < s.len() {
                if s[j + 1] == 'u' {
                    let end = if j + 6 <= s.len() {
                        j + 6
                    } else {
                        s.len() as int
                    };
                    match parse_hex(s.subrange(j + 2, end)) {
                        Some(code) => lemma_string_body_bounds(
                            s,
                            end,
                            if is_scalar_code(code) {
                                acc.push(code as char)
                            } else {
                                acc
                            },
                        ),
                        None => {},
                    }
                } else if let Some(c) = escaped_char(s[j + 1]) {
                    lemma_string_body_bounds(s, j + 2, acc.push(c));
                }
            }
        } else {
            lemma_string_body_bounds(s, j + 1, acc.push(s[j]));
        }
    }
}

fn hex_digit(c: char) -> (r: Option<u32>)
    ensures
        match r {
            Some(x) => hex_val(c) == Some(x as int) && x < 16,
            None => hex_val(c) is None,
        },
{
    if '0' <= c && c <= '9' {
        Some((c as u32) - ('0' as u32))
    } else if 'a' <= c && c <= 'f' {
        Some((c as u32) - ('a' as u32) + 10)
    } else if 'A' <= c && c <= 'F' {
        Some((c as u32) - ('A' as u32) + 10)
    } else {
        None
    }
}

/// `u32::from_str_radix(v[from..to], 16)` for at most four characters.
fn hex_at(v: &[char], from: usize, to: usize) -> (r: Option<u32>)
    requires
        from <= to <= v@.len(),
        to - from <= 4,
    ensures
        match r {
            Some(x) => parse_hex(v@.subrange(from as int, to as int)) == Some(x as int),
            None => parse_hex(v@.subrange(from as int, to as int)) is None,
        },
{
    let ghost h = v@.subrange(from as int, to as int);
    let start = if from < to && v[from] == '+' {
        from + 1
    } else {
        from
    };
    let ghost d = v@.subrange(start as int, to as int);
    assert(d =~= if h.len() > 0 && h[0] == '+' {
        h.skip(1)
    } else {
        h
    });
    if start == to {
        return None;
    }
    let mut x: u32 = 0;
    let mut i = start;
    while i < to
        invariant
            start <= i <= to <= v@.len(),
            to - start <= 4,
            d == v@.subrange(start as int, to as int),
            h == v@.subrange(from as int, to as int),
            d == (if h.len() > 0 && h[0] == '+' {
                h.skip(1)
            } else {
                h
            }),
            all_hex(v@.subrange(start as int, i as int)),
            x as int == hex_value(v@.subrange(start as int, i as int)),
            i - start == 0 ==> x == 0,
            i - start == 1 ==> x < 16,
            i - start == 2 ==> x < 256,
            i - start == 3 ==> x < 4096,
            x < 65536,
        decreases to - i,
    {
        let ghost before = v@.subrange(start as int, i as int);
        assert(v@.subrange(start as int, i + 1).drop_last() =~= before);
        match hex_digit(v[i]) {
            Some(h) => {
                x = x * 16 + h;
            },
            None => {
                assert(!all_hex(d)) by {
                    assert(d[i - start] == v@[i as int]);
                    assert(hex_val(d[i - start]) is None);
                }
                return None;
            },
        }
        i += 1;
    }
    assert(v@.subrange(start as int, to as int) == d);
    Some(x)
}

/// `char::from_u32`: the character with the given code, where the code is a
/// Unicode scalar value (below 0xD800, or from 0xE000 to 0x10FFFF).
#[verifier::external_body]
fn char_from_code(code: u32) -> (r: Option<char>)
    ensures
        match r {
            Some(c) => is_scalar_code(code as int) && c as u32 == code,
            None => !is_scalar_code(code as int),
        },
{
    char::from_u32(code)
}

/// Reads a JSON string starting at `i` in `v`.
fn string_at(v: &[char], i: usize) -> (r: Result<(String, usize), String>)
    requires
        i <= v@.len(),
    ensures
        match string_at_spec(v@, i as int) {
            Ok((t, e)) => r is Ok && r->Ok_0.0@ == t && r->Ok_0.1 == e,
            Err(m) => r is Err && r->Err_0@ == m,
        },
{
    if i >= v.len() || v[i] != '"' {
        return Err(String::from_str("expected string"));
    }
    let n = v.len();
    let mut acc = String::new();
    let mut j = i + 1;
    while j < n
        invariant
            i < j <= n == v@.len(),
            string_at_spec(v@, i as int) == string_body(v@, j as int, acc@),
        decreases n - j,
    {
        let c = v[j];
        if c == '"' {
            return Ok((acc, j + 1));
        } else if c == '\\' {
            if j + 1 >= n {
                return Err(String::from_str("invalid escape"));
            }
            let e = v[j + 1];
            if e == 'u' {
                let end = if n - j >= 6 {
                    j + 6
                } else {
                    n
                };
                match hex_at(v, j + 2, end) {
                    None => {
                        return Err(String::from_str("invalid unicode escape"));
                    },
                    Some(code) => {
                        match char_from_code(code) {
                            Some(ch) => {
                                proof {
                                    vstd::utf8::char_u32_cast(ch, code);
                                }
                                push_char(&mut acc, ch);
                            },
                            None => {},
                        }
                        j = end;
                    },
                }
            } else {
                let m: Option<char> = if e == '"' {
                    Some('"')
                } else if e == '\\' {
                    Some('\\')
                } else if e == '/' {
                    Some('/')
                } else if e == 'n' {
                    Some('\n')
                } else if e == 'r' {
                    Some('\r')
                } else if e == 't' {
                    Some('\t')
                } else {
                    None
                };
                match m {
                    Some(x) => {
                        push_char(&mut acc, x);
                        j += 2;
                    },
                    None => {
                        return Err(String::from_str("invalid escape"));
                    },
                }
            }
        } else {
            push_char(&mut acc, c);
            j += 1;
        }
    }
    Err(String::from_str("unterminated string"))
}

/// Reads a JSON string at the start of `s`: its text and what follows the
/// closing quote.
pub fn parse_json_string(s: &str) -> (r: Result<(String, String), String>)
    ensures
        match string_at_spec(s@, 0) {
            Ok((t, e)) => r is Ok && r->Ok_0.0@ == t && r->Ok_0.1@ == s@.skip(e),
            Err(m) => r is Err && r->Err_0@ == m,
        },
{
    let v = chars_of(s);
    match string_at(v.as_slice(), 0) {
        Ok((t, e)) => {
            proof {
                lemma_string_body_bounds(s@, 1, Seq::empty());
            }
            let rest = string_between(v.as_slice(), e, v.len());
            assert(v@.subrange(e as int, v@.len() as int) =~= s@.skip(e as int));
            Ok((t, rest))
        },
        Err(m) => Err(m),
    }
}

// ---------------------------------------------------------------------------
// Values
// ---------------------------------------------------------------------------

/// Where reading a JSON value got to: the value, the position after it and
/// how many reals it has taken from the caller; or the message it failed
/// with; or the text of a real that the caller has not yet read.
pub enum JsonOut {
    Done(Node, int, int),
    Failed(Seq<char>),
    Needs(Seq<char>),
}

/// The position of the first non-whitespace character from `i` on.
pub open spec fn skip_ws(s: Seq<char>, i: int) -> int {
    i + lead_ws(s.subrange(i, s.len() as int))
}

pub proof fn lemma_skip_ws(s: Seq<char>, i: int)
    requires
        0 <= i <= s.len(),
    ensures
        i <= skip_ws(s, i) <= s.len(),
{
    crate::text::lemma_first_where_found(s.subrange(i, s.len() as int), crate::text::non_ws_pred());
}

pub open spec fn starts_at(s: Seq<char>, j: int, w: Seq<char>) -> bool {
    j + w.len() <= s.len() && s.subrange(j, j + w.len()) == w
}

/// The first byte of the UTF-8 encoding of `c`.
pub open spec fn lead_byte(c: char) -> u8 {
    encode_utf8(seq![c])[0]
}

/// Where a number that starts at `i` ends, and whether it is read as a real:
/// an optional `-` and digits, then for a real an optional `.` and digits
/// and an optional exponent (`e` or `E`, a sign, digits).
pub open spec fn number_end(s: Seq<char>, i: int) -> (int, bool) {
    let e0 = if s[i] == '-' {
        i + 1
    } else {
        i
    };
    let e1 = e0 + digit_run(s.skip(e0));
    if e1 < s.len() && (s[e1] == '.' || s[e1] == 'e' || s[e1] == 'E') {
        let e2 = if s[e1] == '.' {
            e1 + 1
        } else {
            e1
        };
        let e3 = e2 + digit_run(s.skip(e2));
        let e4 = if e3 < s.len() && (s[e3] == 'e' || s[e3] == 'E') {
            let f = e3 + 1;
            let g = if f < s.len() && (s[f] == '+' || s[f] == '-') {
                f + 1
            } else {
                f
            };
            g + digit_run(s.skip(g))
        } else {
            e3
        };
        (e4, true)
    } else {
        (e1, false)
    }
}

/// Reads the number at `i`: an integer is read here; the `k`-th real is
/// what the caller read from its text (`reals[k]`, none where the text is
/// no real).
pub open spec fn number_spec(s: Seq<char>, i: int, k: int, reals: Seq<Option<u64>>) -> JsonOut {
    let (e, is_real) = number_end(s, i);
    let lit = s.subrange(i, e);
    if is_real {
        if 0 <= k < reals.len() {
            match reals[k] {
                Some(b) => JsonOut::Done(Node::Real(b), e, k + 1),
                None => JsonOut::Failed("invalid number: "@ + lit),
            }
        } else {
            JsonOut::Needs(lit)
        }
    } else {
        match parse_i64(lit) {
            Some(x) => JsonOut::Done(Node::Int(x as i64), e, k),
            None => JsonOut::Failed("invalid number: "@ + lit),
        }
    }
}

/// Reads the JSON value that starts after the whitespace at `i`: `null`
/// reads as the empty string.
pub open spec fn value_spec(s: Seq<char>, i: int, k: int, reals: Seq<Option<u64>>) -> JsonOut
    decreases s.len() - i, 1int,
{
    if i < 0 || i > s.len() {
        JsonOut::Failed("unexpected end of input"@)
    } else {
        let j = skip_ws(s, i);
        proof {
            lemma_skip_ws(s, i);
        }
        if j >= s.len() {
            JsonOut::Failed("unexpected end of input"@)
        } else if s[j] == '"' {
            match string_at_spec(s, j) {
                Ok((t, e)) => JsonOut::Done(Node::Str(t), e, k),
                Err(m) => JsonOut::Failed(m),
            }
        } else if s[j] == '{' {
            object_spec(s, j + 1, k, reals)
        } else if s[j] == '[' {
            array_spec(s, j + 1, k, reals)
        } else if starts_at(s, j, seq!['t', 'r', 'u', 'e']) {
            JsonOut::Done(Node::Bool(true), j + 4, k)
        } else if starts_at(s, j, seq!['f', 'a', 'l', 's', 'e']) {
            JsonOut::Done(Node::Bool(false), j + 5, k)
        } else if starts_at(s, j, seq!['n', 'u', 'l', 'l']) {
            JsonOut::Done(Node::Str(Seq::empty()), j + 4, k)
        } else if s[j] == '-' || is_digit(s[j]) {
            number_spec(s, j, k, reals)
        } else {
            JsonOut::Failed("unexpected character: "@ + seq![lead_byte(s[j]) as char])
        }
    }
}

/// Reads an object after its `{`.
pub open spec fn object_spec(s: Seq<char>, i: int, k: int, reals: Seq<Option<u64>>) -> JsonOut
    decreases s.len() - i, 3int,
{
    if i < 0 || i > s.len() {
        JsonOut::Failed("unexpected end of input"@)
    } else {
        let j = skip_ws(s, i);
        proof {
            lemma_skip_ws(s, i);
        }
        if j < s.len() && s[j] == '}' {
            JsonOut::Done(Node::Dict(Seq::empty()), j + 1, k)
        } else {
            members_spec(s, j, k, reals, Seq::empty())
        }
    }
}

/// Reads the members of an object from `i` on, `acc` holding those read so
/// far (a repeated key keeps its first place and takes the later value).
pub open spec fn members_spec(
    s: Seq<char>,
    i: int,
    k: int,
    reals: Seq<Option<u64>>,
    acc: Entries,
) -> JsonOut
    decreases s.len() - i, 2int,
{
    if i < 0 || i > s.len() {
        JsonOut::Failed("unexpected end of input"@)
    } else {
        let j = skip_ws(s, i);
        proof {
            lemma_skip_ws(s, i);
            lemma_string_body_bounds(s, j + 1, Seq::empty());
        }
        match string_at_spec(s, j) {
            Err(m) => JsonOut::Failed(m),
            Ok((key, e)) => {
                let c = skip_ws(s, e);
                proof {
                    lemma_skip_ws(s, e);
                }
                if c >= s.len() || s[c] != ':' {
                    JsonOut::Failed("expected ':' in object"@)
                } else {
                    match value_spec(s, c + 1, k, reals) {
                        JsonOut::Done(v, m, k2) => {
                            let acc2 = put(acc, key, v);
                            let p = skip_ws(s, m);
                            if p < s.len() && s[p] == '}' {
                                JsonOut::Done(Node::Dict(acc2), p + 1, k2)
                            } else if p < s.len() && s[p] == ',' {
                                if i <= p {
                                    members_spec(s, p + 1, k2, reals, acc2)
                                } else {
                                    JsonOut::Failed(Seq::empty())
                                }
                            } else {
                                JsonOut::Failed("expected ',' or '}' in object"@)
                            }
                        },
                        other => other,
                    }
                }
            },
        }
    }
}

/// Reads an array after its `[`.
pub open spec fn array_spec(s: Seq<char>, i: int, k: int, reals: Seq<Option<u64>>) -> JsonOut
    decreases s.len() - i, 3int,
{
    if i < 0 || i > s.len() {
        JsonOut::Failed("unexpected end of input"@)
    } else {
        let j = skip_ws(s, i);
        proof {
            lemma_skip_ws(s, i);
        }
        if j < s.len() && s[j] == ']' {
            JsonOut::Done(Node::Array(Seq::empty()), j + 1, k)
        } else {
            elements_spec(s, j, k, reals, Seq::empty())
        }
    }
}

/// Reads the elements of an array from `i` on, after those in `acc`.
pub open spec fn elements_spec(
    s: Seq<char>,
    i: int,
    k: int,
    reals: Seq<Option<u64>>,
    acc: Seq<Node>,
) -> JsonOut
    decreases s.len() - i, 2int,
{
    match value_spec(s, i, k, reals) {
        JsonOut::Done(v, m, k2) => {
            let acc2 = acc.push(v);
            let p = skip_ws(s, m);
            if p < s.len() && s[p] == ']' {
                JsonOut::Done(Node::Array(acc2), p + 1, k2)
            } else if p < s.len() && s[p] == ',' {
                if i <= p {
                    elements_spec(s, p + 1, k2, reals, acc2)
                } else {
                    JsonOut::Failed(Seq::empty())
                }
            } else {
                JsonOut::Failed("expected ',' or ']' in array"@)
            }
        },
        other => other,
    }
}

pub proof fn lemma_number_end(s: Seq<char>, i: int)
    requires
        0 <= i < s.len(),
        s[i] == '-' || is_digit(s[i]),
    ensures
        i < number_end(s, i).0 <= s.len(),
{
    let e0 = if s[i] == '-' {
        i + 1
    } else {
        i
    };
    lemma_digit_run(s.skip(e0));
    if is_digit(s[i]) {
        assert(s.skip(e0)[0] == s[i]);
    }
    let e1 = e0 + digit_run(s.skip(e0));
    if e1 < s.len() && (s[e1] == '.' || s[e1] == 'e' || s[e1] == 'E') {
        let e2 = if s[e1] == '.' {
            e1 + 1
        } else {
            e1
        };
        lemma_digit_run(s.skip(e2));
        let e3 = e2 + digit_run(s.skip(e2));
        if e3 < s.len() && (s[e3] == 'e' || s[e3] == 'E') {
            let f = e3 + 1;
            let g = if f < s.len() && (s[f] == '+' || s[f] == '-') {
                f + 1
            } else {
                f
            };
            lemma_digit_run(s.skip(g));
        }
    }
}

/// A value read from `i` ends after `i` and within the text, having taken
/// no reals back.
pub proof fn lemma_value_bounds(s: Seq<char>, i: int, k: int, reals: Seq<Option<u64>>)
    ensures
        value_spec(s, i, k, reals) matches JsonOut::Done(v, m, k2) ==> i < m <= s.len() && k <= k2,
    decreases s.len() - i, 1int,
{
    if 0 <= i <= s.len() {
        lemma_skip_ws(s, i);
        let j = skip_ws(s, i);
        if j < s.len() {
            if s[j] == '"' {
                lemma_string_body_bounds(s, j + 1, Seq::empty());
            } else if s[j] == '{' {
                lemma_object_bounds(s, j + 1, k, reals);
            } else if s[j] == '[' {
                lemma_array_bounds(s, j + 1, k, reals);
            } else if s[j] == '-' || is_digit(s[j]) {
                lemma_number_end(s, j);
            }
        }
    }
}

pub proof fn lemma_object_bounds(s: Seq<char>, i: int, k: int, reals: Seq<Option<u64>>)
    ensures
        object_spec(s, i, k, reals) matches JsonOut::Done(v, m, k2) ==> i < m <= s.len() && k <= k2,
    decreases s.len() - i, 3int,
{
    if 0 <= i <= s.len() {
        lemma_skip_ws(s, i);
        lemma_members_bounds(s, skip_ws(s, i), k, reals, Seq::empty());
    }
}

pub proof fn lemma_members_bounds(
    s: Seq<char>,
    i: int,
    k: int,
    reals: Seq<Option<u64>>,
    acc: Entries,
)
    ensures
        members_spec(s, i, k, reals, acc) matches JsonOut::Done(v, m, k2) ==> i < m <= s.len() && k
            <= k2,
    decreases s.len() - i, 2int,
{
    if 0 <= i <= s.len() {
        lemma_skip_ws(s, i);
        let j = skip_ws(s, i);
        lemma_string_body_bounds(s, j + 1, Seq::empty());
        if let Ok((key, e)) = string_at_spec(s, j) {
            lemma_skip_ws(s, e);
            let c = skip_ws(s, e);
            if c < s.len() && s[c] == ':' {
                lemma_value_bounds(s, c + 1, k, reals);
                if let JsonOut::Done(v, m, k2) = value_spec(s, c + 1, k, reals) {
                    lemma_skip_ws(s, m);
                    let p = skip_ws(s, m);
                    if p < s.len() && s[p] == ',' && i <= p {
                        lemma_members_bounds(s, p + 1, k2, reals, put(acc, key, v));
                    }
                }
            }
        }
    }
}

pub proof fn lemma_array_bounds(s: Seq<char>, i: int, k: int, reals: Seq<Option<u64>>)
    ensures
        array_spec(s, i, k, reals) matches JsonOut::Done(v, m, k2) ==> i < m <= s.len() && k <= k2,
    decreases s.len() - i, 3int,
{
    if 0 <= i <= s.len() {
        lemma_skip_ws(s, i);
        lemma_elements_bounds(s, skip_ws(s, i), k, reals, Seq::empty());
    }
}

pub proof fn lemma_elements_bounds(
    s: Seq<char>,
    i: int,
    k: int,
    reals: Seq<Option<u64>>,
    acc: Seq<Node>,
)
    ensures
        elements_spec(s, i, k, reals, acc) matches JsonOut::Done(v, m, k2) ==> i < m <= s.len() && k
            <= k2,
    decreases s.len() - i, 2int,
{
    lemma_value_bounds(s, i, k, reals);
    if let JsonOut::Done(v, m, k2) = value_spec(s, i, k, reals) {
        if 0 <= m <= s.len() {
            lemma_skip_ws(s, m);
            let p = skip_ws(s, m);
            if p < s.len() && s[p] == ',' && i <= p {
                lemma_elements_bounds(s, p + 1, k2, reals, acc.push(v));
            }
        }
    }
}

/// How reading a value ended (see `JsonOut`).
pub enum JsonStep {
    Done(Value, usize, usize),
    Failed(String),
    NeedsReal(String),
}

impl View for JsonStep {
    type V = JsonOut;

    open spec fn view(&self) -> JsonOut {
        match self {
            JsonStep::Done(v, m, k) => JsonOut::Done(model(*v), *m as int, *k as int),
            JsonStep::Failed(s) => JsonOut::Failed(s@),
            JsonStep::NeedsReal(s) => JsonOut::Needs(s@),
        }
    }
}

fn skip_spaces(v: &[char], i: usize) -> (r: usize)
    requires
        i <= v@.len(),
    ensures
        r == skip_ws(v@, i as int),
        i <= r <= v@.len(),
{
    i + count_lead_ws(v, i, v.len())
}

fn starts_with_at(v: &[char], j: usize, w: &str) -> (b: bool)
    requires
        j <= v@.len(),
    ensures
        b == starts_at(v@, j as int, w@),
{
    let wc = chars_of(w);
    let m = wc.len();
    let n = v.len();
    if n - j < m {
        return false;
    }
    let mut t: usize = 0;
    while t < m
        invariant
            m == wc@.len(),
            n == v@.len(),
            j + m <= v@.len(),
            wc@ == w@,
            t <= m,
            v@.subrange(j as int, j + t) == wc@.take(t as int),
        decreases m - t,
    {
        if v[j + t] != wc[t] {
            assert(v@.subrange(j as int, j + m)[t as int] != w@[t as int]);
            return false;
        }
        assert(v@.subrange(j as int, j + t + 1) =~= wc@.take(t + 1));
        t += 1;
    }
    assert(wc@.take(m as int) =~= w@);
    true
}

/// The first byte of the UTF-8 encoding of `c`, as a character.
fn lead_byte_char(c: char) -> (r: char)
    ensures
        r == lead_byte(c) as char,
{
    let mut t = String::new();
    push_char(&mut t, c);
    let b = t.as_str().as_bytes();
    assert(t@ == seq![c]);
    assert(encode_utf8(seq![c]).len() > 0) by {
        assert(seq![c].drop_first() =~= Seq::<char>::empty());
    }
    b[0] as char
}

/// Reads the number at `i` (see `number_spec`).
fn number_at(v: &[char], i: usize, reals: &[Option<u64>], k: usize) -> (r: JsonStep)
    requires
        i < v@.len(),
        v@[i as int] == '-' || is_digit(v@[i as int]),
    ensures
        r@ == number_spec(v@, i as int, k as int, reals@),
{
    let ghost s = v@;
    proof {
        lemma_number_end(s, i as int);
    }
    let n = v.len();
    let e0 = if v[i] == '-' {
        i + 1
    } else {
        i
    };
    let e1 = crate::plutil::natural::digit_end(v, e0);
    let is_real = e1 < n && (v[e1] == '.' || v[e1] == 'e' || v[e1] == 'E');
    if is_real {
        let e2 = if v[e1] == '.' {
            e1 + 1
        } else {
            e1
        };
        let e3 = crate::plutil::natural::digit_end(v, e2);
        let e4 = if e3 < n && (v[e3] == 'e' || v[e3] == 'E') {
            let f = e3 + 1;
            let g = if f < n && (v[f] == '+' || v[f] == '-') {
                f + 1
            } else {
                f
            };
            crate::plutil::natural::digit_end(v, g)
        } else {
            e3
        };
        assert(number_end(s, i as int) == (e4 as int, true));
        if k < reals.len() {
            match reals[k] {
                Some(b) => JsonStep::Done(Value::Real(b), e4, k + 1),
                None => {
                    let lit = string_between(v, i, e4);
                    JsonStep::Failed(cat2("invalid number: ", lit.as_str()))
                },
            }
        } else {
            JsonStep::NeedsReal(string_between(v, i, e4))
        }
    } else {
        assert(number_end(s, i as int) == (e1 as int, false));
        match parse_i64_at(v, i, e1) {
            Some(x) => JsonStep::Done(Value::Integer(x), e1, k),
            None => {
                let lit = string_between(v, i, e1);
                JsonStep::Failed(cat2("invalid number: ", lit.as_str()))
            },
        }
    }
}

/// Reads the JSON value after the whitespace at `i` (see `value_spec`).
fn value_at(v: &[char], i: usize, reals: &[Option<u64>], k: usize) -> (r: JsonStep)
    requires
        i <= v@.len(),
    ensures
        r@ == value_spec(v@, i as int, k as int, reals@),
    decreases v@.len() - i, 1int,
{
    let n = v.len();
    let j = skip_spaces(v, i);
    if j >= n {
        return JsonStep::Failed(String::from_str("unexpected end of input"));
    }
    let c = v[j];
    if c == '"' {
        match string_at(v, j) {
            Ok((t, e)) => JsonStep::Done(Value::String(t), e, k),
            Err(m) => JsonStep::Failed(m),
        }
    } else if c == '{' {
        object_at(v, j + 1, reals, k)
    } else if c == '[' {
        array_at(v, j + 1, reals, k)
    } else {
        proof {
            reveal_strlit("true");
            reveal_strlit("false");
            reveal_strlit("null");
            assert("true"@ =~= seq!['t', 'r', 'u', 'e']);
            assert("false"@ =~= seq!['f', 'a', 'l', 's', 'e']);
            assert("null"@ =~= seq!['n', 'u', 'l', 'l']);
        }
        if starts_with_at(v, j, "true") {
            JsonStep::Done(Value::Boolean(true), j + 4, k)
        } else if starts_with_at(v, j, "false") {
            JsonStep::Done(Value::Boolean(false), j + 5, k)
        } else if starts_with_at(v, j, "null") {
            JsonStep::Done(Value::String(String::new()), j + 4, k)
        } else if c == '-' || ('0' <= c && c <= '9') {
            number_at(v, j, reals, k)
        } else {
            let b = lead_byte_char(c);
            let mut m = String::from_str("unexpected character: ");
            push_char(&mut m, b);
            assert(m@ =~= "unexpected character: "@ + seq![b]);
            JsonStep::Failed(m)
        }
    }
}

/// Reads an object after its `{` (see `object_spec`).
fn object_at(v: &[char], i: usize, reals: &[Option<u64>], k: usize) -> (r: JsonStep)
    requires
        i <= v@.len(),
    ensures
        r@ == object_spec(v@, i as int, k as int, reals@),
    decreases v@.len() - i, 3int,
{
    let ghost s = v@;
    let n = v.len();
    let j = skip_spaces(v, i);
    if j < n && v[j] == '}' {
        let d = Dictionary::new();
        return JsonStep::Done(Value::Dictionary(d), j + 1, k);
    }
    let mut d = Dictionary::new();
    let mut p = j;
    let mut kk = k;
    loop
        invariant
            i <= p <= n == s.len(),
            s == v@,
            object_spec(s, i as int, k as int, reals@) == members_spec(
                s,
                p as int,
                kk as int,
                reals@,
                d@,
            ),
        decreases n - p,
    {
        let q = skip_spaces(v, p);
        proof {
            lemma_string_body_bounds(s, q + 1, Seq::empty());
        }
        let (key, e) = match string_at(v, q) {
            Ok(x) => x,
            Err(m) => {
                return JsonStep::Failed(m);
            },
        };
        let c = skip_spaces(v, e);
        if c >= n || v[c] != ':' {
            return JsonStep::Failed(String::from_str("expected ':' in object"));
        }
        let (val, m, k2) = match value_at(v, c + 1, reals, kk) {
            JsonStep::Done(x, m, k2) => (x, m, k2),
            other => {
                return other;
            },
        };
        proof {
            lemma_value_bounds(s, c + 1, kk as int, reals@);
        }
        d.insert(key, val);
        let r = skip_spaces(v, m);
        if r < n && v[r] == '}' {
            return JsonStep::Done(Value::Dictionary(d), r + 1, k2);
        } else if r < n && v[r] == ',' {
            p = r + 1;
            kk = k2;
        } else {
            return JsonStep::Failed(String::from_str("expected ',' or '}' in object"));
        }
    }
}

/// Reads an array after its `[` (see `array_spec`).
fn array_at(v: &[char], i: usize, reals: &[Option<u64>], k: usize) -> (r: JsonStep)
    requires
        i <= v@.len(),
    ensures
        r@ == array_spec(v@, i as int, k as int, reals@),
    decreases v@.len() - i, 3int,
{
    let ghost s = v@;
    let n = v.len();
    let j = skip_spaces(v, i);
    if j < n && v[j] == ']' {
        let a: Vec<Value> = Vec::new();
        assert(models(a@) =~= Seq::<Node>::empty());
        return JsonStep::Done(Value::Array(a), j + 1, k);
    }
    let mut a: Vec<Value> = Vec::new();
    let mut p = j;
    let mut kk = k;
    assert(models(a@) =~= Seq::<Node>::empty());
    loop
        invariant
            i <= p <= n == s.len(),
            s == v@,
            array_spec(s, i as int, k as int, reals@) == elements_spec(
                s,
                p as int,
                kk as int,
                reals@,
                models(a@),
            ),
        decreases n - p,
    {
        let (val, m, k2) = match value_at(v, p, reals, kk) {
            JsonStep::Done(x, m, k2) => (x, m, k2),
            other => {
                return other;
            },
        };
        proof {
            lemma_value_bounds(s, p as int, kk as int, reals@);
        }
        let ghost before = models(a@);
        a.push(val);
        assert(models(a@) =~= before.push(model(val)));
        let r = skip_spaces(v, m);
        if r < n && v[r] == ']' {
            return JsonStep::Done(Value::Array(a), r + 1, k2);
        } else if r < n && v[r] == ',' {
            p = r + 1;
            kk = k2;
        } else {
            return JsonStep::Failed(String::from_str("expected ',' or ']' in array"));
        }
    }
}

/// What reading a whole JSON text gives.
pub enum JsonResult {
    Parsed(Node),
    Failed(Seq<char>),
    Needs(Seq<char>),
}

/// Reads a whole JSON text: a value with nothing but whitespace around it.
/// Trailing whitespace is set aside before reading.
pub open spec fn json_parsed(s: Seq<char>, reals: Seq<Option<u64>>) -> JsonResult {
    let t = trim_end(s);
    match value_spec(t, 0, 0, reals) {
        JsonOut::Done(v, m, _) => {
            let rest = trim(t.subrange(m, t.len() as int));
            if rest.len() > 0 {
                JsonResult::Failed("trailing content: "@ + rest)
            } else {
                JsonResult::Parsed(v)
            }
        },
        JsonOut::Failed(msg) => JsonResult::Failed(msg),
        JsonOut::Needs(lit) => JsonResult::Needs(lit),
    }
}

/// The outcome of reading a JSON text: the value, the message, or the text
/// of the next real that the caller is to read (as `f64::from_str`
/// does) and hand back in `reals` before reading again.
pub enum JsonParse {
    Parsed(Value),
    Failed(String),
    NeedsReal(String),
}

impl View for JsonParse {
    type V = JsonResult;

    open spec fn view(&self) -> JsonResult {
        match self {
            JsonParse::Parsed(v) => JsonResult::Parsed(model(*v)),
            JsonParse::Failed(s) => JsonResult::Failed(s@),
            JsonParse::NeedsReal(s) => JsonResult::Needs(s@),
        }
    }
}

/// Reads a JSON text into a value; `reals[k]` is the caller's reading of
/// the `k`-th real the text holds (none where that text is no real).
pub fn parse_json_value(s: &str, reals: &[Option<u64>]) -> (r: JsonParse)
    ensures
        r@ == json_parsed(s@, reals@),
{
    let mut v = chars_of(s);
    let tail = count_trail_ws(v.as_slice(), 0, v.len());
    let n = v.len() - tail;
    v.truncate(n);
    assert(s@.subrange(0, s@.len() as int) =~= s@);
    assert(v@ == trim_end(s@));
    match value_at(v.as_slice(), 0, reals, 0) {
        JsonStep::Done(val, m, _) => {
            proof {
                lemma_value_bounds(v@, 0, 0, reals@);
            }
            let rest = string_between(v.as_slice(), m, v.len());
            let rv = chars_of(rest.as_str());
            let (a, b) = crate::text::trim_bounds(rv.as_slice(), 0, rv.len());
            if a < b {
                let t = string_between(rv.as_slice(), a, b);
                assert(rv@.subrange(0, rv@.len() as int) =~= rv@);
                JsonParse::Failed(cat2("trailing content: ", t.as_str()))
            } else {
                assert(rv@.subrange(0, rv@.len() as int) =~= rv@);
                JsonParse::Parsed(val)
            }
        },
        JsonStep::Failed(m) => JsonParse::Failed(m),
        JsonStep::NeedsReal(l) => JsonParse::NeedsReal(l),
    }
}

} // verus!
