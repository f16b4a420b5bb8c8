use vstd::prelude::*;
use vstd::string::*;
use vstd::utf8::encode_utf8;
use crate::num::{parse_i64, parse_i64_at};
use crate::plutil::args::opt_view;
use crate::plutil::base64::{base64_decode, base64_decoded};
use crate::plutil::json::{json_parsed, parse_json_value, JsonParse, JsonResult};
use crate::text::{cat2, chars_of, text_is};
use crate::value::{lemma_array_model, model, models, Dictionary, Node, Value};

verus! {

broadcast use lemma_array_model;

/// What plutil leaves to the caller to read, once asked: reals (in the
/// order asked; none where the text is no real), a date (seconds since
/// 2001 as the bits of a double; none where the text is no date) and a
/// property list in XML (or the message reading it gave).
pub struct Readings {
    pub reals: Vec<Option<u64>>,
    pub date: Option<Option<u64>>,
    pub plist: Option<Result<Value, String>>,
}

pub struct ReadingsModel {
    pub reals: Seq<Option<u64>>,
    pub date: Option<Option<u64>>,
    pub plist: Option<Result<Node, Seq<char>>>,
}

impl View for Readings {
    type V = ReadingsModel;

    open spec fn view(&self) -> ReadingsModel {
        ReadingsModel {
            reals: self.reals@,
            date: self.date,
            plist: match self.plist {
                Some(Ok(v)) => Some(Ok(model(v))),
                Some(Err(e)) => Some(Err(e@)),
                None => None,
            },
        }
    }
}

/// How making a value from `-type value` ended: the value, the message, or
/// a text the caller is to read (as `f64::from_str` does, as an ISO 8601
/// date, or as an XML property list) before making it again.
pub enum Made {
    Value(Value),
    Failed(String),
    ReadReal(String),
    ReadDate(String),
    ReadPlist(String),
}

pub enum MadeModel {
    Value(Node),
    Failed(Seq<char>),
    ReadReal(Seq<char>),
    ReadDate(Seq<char>),
    ReadPlist(Seq<char>),
}

impl View for Made {
    type V = MadeModel;

    open spec fn view(&self) -> MadeModel {
        match self {
            Made::Value(v) => MadeModel::Value(model(*v)),
            Made::Failed(s) => MadeModel::Failed(s@),
            Made::ReadReal(s) => MadeModel::ReadReal(s@),
            Made::ReadDate(s) => MadeModel::ReadDate(s@),
            Made::ReadPlist(s) => MadeModel::ReadPlist(s@),
        }
    }
}

pub open spec fn or_text(v: Option<Seq<char>>, d: Seq<char>) -> Seq<char> {
    match v {
        Some(s) => s,
        None => d,
    }
}

/// The value that `-insert`/`-replace` make of a type and an optional text.
pub open spec fn made(t: Seq<char>, v: Option<Seq<char>>, rd: ReadingsModel) -> MadeModel {
    if t == "bool"@ {
        let s = or_text(v, "false"@);
        MadeModel::Value(Node::Bool(s == "YES"@ || s == "true"@))
    } else if t == "integer"@ {
        let s = or_text(v, "0"@);
        match parse_i64(s) {
            Some(x) => MadeModel::Value(Node::Int(x as i64)),
            None => MadeModel::Failed("Invalid integer: "@ + s),
        }
    } else if t == "float"@ {
        let s = or_text(v, "0"@);
        if rd.reals.len() > 0 {
            match rd.reals[0] {
                Some(b) => MadeModel::Value(Node::Real(b)),
                None => MadeModel::Failed("Invalid float: "@ + s),
            }
        } else {
            MadeModel::ReadReal(s)
        }
    } else if t == "string"@ {
        MadeModel::Value(Node::Str(or_text(v, Seq::empty())))
    } else if t == "date"@ {
        match v {
            None => MadeModel::Failed("Missing date value"@),
            Some(s) => match rd.date {
                None => MadeModel::ReadDate(s),
                Some(None) => MadeModel::Failed("Invalid date format: "@ + s),
                Some(Some(b)) => MadeModel::Value(Node::Date(b)),
            },
        }
    } else if t == "data"@ {
        match base64_decoded(or_text(v, Seq::empty())) {
            Some(b) => MadeModel::Value(Node::Data(b)),
            None => MadeModel::Failed("Invalid base64 data"@),
        }
    } else if t == "dictionary"@ {
        MadeModel::Value(Node::Dict(Seq::empty()))
    } else if t == "array"@ {
        MadeModel::Value(Node::Array(Seq::empty()))
    } else if t == "xml"@ {
        match v {
            None => MadeModel::Failed("Missing XML value"@),
            Some(s) => match rd.plist {
                None => MadeModel::ReadPlist(s),
                Some(Ok(n)) => MadeModel::Value(n),
                Some(Err(e)) => MadeModel::Failed(e),
            },
        }
    } else if t == "json"@ {
        match v {
            None => MadeModel::Failed("Missing JSON value"@),
            Some(s) => match json_parsed(s, rd.reals) {
                JsonResult::Parsed(n) => MadeModel::Value(n),
                JsonResult::Failed(e) => MadeModel::Failed("Invalid JSON: "@ + e),
                JsonResult::Needs(l) => MadeModel::ReadReal(l),
            },
        }
    } else {
        MadeModel::Failed("Unknown type: "@ + t)
    }
}

fn text_or(v: &Option<String>, d: &str) -> (r: String)
    ensures
        r@ == or_text(opt_view(*v), d@),
{
    match v {
        Some(s) => s.clone(),
        None => String::from_str(d),
    }
}

/// Makes the value for `-insert`/`-replace` (see `made`); `readings` holds
/// what the caller has read so far of what earlier calls asked for.
pub fn make_value(value_type: &str, value: &Option<String>, readings: &Readings) -> (r: Made)
    ensures
        r@ == made(value_type@, opt_view(*value), readings@),
{
    proof {
        reveal_strlit("");
        assert(""@ =~= Seq::<char>::empty());
    }
    if text_is(value_type, "bool") {
        let s = text_or(value, "false");
        Made::Value(Value::Boolean(text_is(s.as_str(), "YES") || text_is(s.as_str(), "true")))
    } else if text_is(value_type, "integer") {
        let s = text_or(value, "0");
        let v = chars_of(s.as_str());
        assert(v@.subrange(0, v@.len() as int) =~= s@);
        match parse_i64_at(v.as_slice(), 0, v.len()) {
            Some(x) => Made::Value(Value::Integer(x)),
            None => Made::Failed(cat2("Invalid integer: ", s.as_str())),
        }
    } else if text_is(value_type, "float") {
        let s = text_or(value, "0");
        if readings.reals.len() > 0 {
            match readings.reals[0] {
                Some(b) => Made::Value(Value::Real(b)),
                None => Made::Failed(cat2("Invalid float: ", s.as_str())),
            }
        } else {
            Made::ReadReal(s)
        }
    } else if text_is(value_type, "string") {
        Made::Value(Value::String(text_or(value, "")))
    } else if text_is(value_type, "date") {
        match value {
            None => Made::Failed(String::from_str("Missing date value")),
            Some(s) => match readings.date {
                None => Made::ReadDate(s.clone()),
                Some(None) => Made::Failed(cat2("Invalid date format: ", s.as_str())),
                Some(Some(b)) => Made::Value(Value::Date(b)),
            },
        }
    } else if text_is(value_type, "data") {
        let s = text_or(value, "");
        match base64_decode(s.as_str()) {
            Some(b) => Made::Value(Value::Data(b)),
            None => Made::Failed(String::from_str("Invalid base64 data")),
        }
    } else if text_is(value_type, "dictionary") {
        Made::Value(Value::Dictionary(Dictionary::new()))
    } else if text_is(value_type, "array") {
        let a: Vec<Value> = Vec::new();
        assert(models(a@) =~= Seq::<Node>::empty());
        Made::Value(Value::Array(a))
    } else if text_is(value_type, "xml") {
        match value {
            None => Made::Failed(String::from_str("Missing XML value")),
            Some(s) => match &readings.plist {
                None => Made::ReadPlist(s.clone()),
                Some(Ok(v)) => Made::Value(v.duplicate()),
                Some(Err(e)) => Made::Failed(e.clone()),
            },
        }
    } else if text_is(value_type, "json") {
        match value {
            None => Made::Failed(String::from_str("Missing JSON value")),
            Some(s) => match parse_json_value(s.as_str(), readings.reals.as_slice()) {
                JsonParse::Parsed(v) => Made::Value(v),
                JsonParse::Failed(e) => Made::Failed(cat2("Invalid JSON: ", e.as_str())),
                JsonParse::NeedsReal(l) => Made::ReadReal(l),
            },
        }
    } else {
        Made::Failed(cat2("Unknown type: ", value_type))
    }
}

// ---------------------------------------------------------------------------
// ISO 8601 dates
// ---------------------------------------------------------------------------

/// The calendar fields of a `YYYY-MM-DDTHH:MM:SSZ` date, as written.
pub struct IsoFields {
    pub year: i32,
    pub month: i32,
    pub day: i32,
    pub hour: i32,
    pub minute: i32,
    pub second: i32,
}

/// The number that `i32::from_str` reads from at most four bytes: an
/// optional sign, then one or more ASCII digits.
pub open spec fn small_int(b: Seq<u8>) -> Option<int> {
    let neg = b.len() > 0 && b[0] == 45;
    let d = unsigned_part(b);
    if d.len() > 0 && ascii_digits(d) {
        let v = bytes_value(d);
        Some(
            if neg {
                -v
            } else {
                v
            },
        )
    } else {
        None
    }
}

/// The bytes after a leading sign.
pub open spec fn unsigned_part(b: Seq<u8>) -> Seq<u8> {
    if b.len() > 0 && (b[0] == 45 || b[0] == 43) {
        b.skip(1)
    } else {
        b
    }
}

pub open spec fn ascii_digits(d: Seq<u8>) -> bool {
    forall|i: int| 0 <= i < d.len() ==> 48 <= #[trigger] d[i] <= 57
}

pub open spec fn bytes_value(d: Seq<u8>) -> int
    decreases d.len(),
{
    if d.len() == 0 {
        0
    } else {
        bytes_value(d.drop_last()) * 10 + (d.last() - 48)
    }
}

/// The byte positions at which the fields of an ISO 8601 date begin and
/// end.
pub open spec fn iso_cuts() -> Seq<int> {
    seq![0, 4, 5, 7, 8, 10, 11, 13, 14, 16, 17, 19]
}

/// The fields that `YYYY-MM-DDTHH:MM:SSZ` gives: each number read from its
/// place in the text's bytes (the characters between are not checked), or
/// none when the text is shorter than 20 bytes or a field is no number.
pub open spec fn iso_fields(b: Seq<u8>) -> Option<Seq<int>> {
    if b.len() < 20 {
        None
    } else {
        let f = Seq::new(6, |k: int| small_int(b.subrange(iso_cuts()[2 * k], iso_cuts()[2 * k + 1])));
        if forall|k: int| 0 <= k < 6 ==> #[trigger] f[k] is Some {
            Some(Seq::new(6, |k: int| f[k]->Some_0))
        } else {
            None
        }
    }
}

fn small_int_at(b: &[u8], from: usize, to: usize) -> (r: Option<i32>)
    requires
        from <= to <= b@.len(),
        to - from <= 4,
    ensures
        match r {
            Some(x) => small_int(b@.subrange(from as int, to as int)) == Some(x as int),
            None => small_int(b@.subrange(from as int, to as int)) is None,
        },
{
    let ghost s = b@.subrange(from as int, to as int);
    let neg = from < to && b[from] == 45;
    let start = if from < to && (b[from] == 45 || b[from] == 43) {
        from + 1
    } else {
        from
    };
    let ghost d = b@.subrange(start as int, to as int);
    assert(d =~= unsigned_part(s));
    if start == to {
        return None;
    }
    let mut v: i32 = 0;
    let mut i = start;
    while i < to
        invariant
            start <= i <= to <= b@.len(),
            to - start <= 4,
            d == b@.subrange(start as int, to as int),
            s == b@.subrange(from as int, to as int),
            d == unsigned_part(s),
            forall|j: int| start <= j < i ==> 48 <= #[trigger] b@[j] <= 57,
            v as int == bytes_value(b@.subrange(start as int, i as int)),
            0 <= v < 10000,
            i - start == 0 ==> v == 0,
            i - start == 1 ==> v < 10,
            i - start == 2 ==> v < 100,
            i - start == 3 ==> v < 1000,
        decreases to - i,
    {
        let c = b[i];
        if c < 48 || c > 57 {
            assert(d[i - start] == c);
            return None;
        }
        assert(b@.subrange(start as int, i + 1).drop_last() =~= b@.subrange(start as int, i as int));
        v = v * 10 + (c - 48) as i32;
        i += 1;
    }
    assert forall|j: int| 0 <= j < d.len() implies 48 <= #[trigger] d[j] <= 57 by {
        assert(d[j] == b@[start + j]);
    }
    Some(
        if neg {
            -v
        } else {
            v
        },
    )
}

/// Reads the fields of a `YYYY-MM-DDTHH:MM:SSZ` date (see `iso_fields`);
/// any text at all may be given.
pub fn parse_iso_fields(s: &str) -> (r: Option<IsoFields>)
    ensures
        match iso_fields(encode_utf8(s@)) {
            Some(f) => r matches Some(x) && x.year == f[0] && x.month == f[1] && x.day == f[2]
                && x.hour == f[3] && x.minute == f[4] && x.second == f[5],
            None => r is None,
        },
{
    let b = s.as_bytes();
    let ghost bs = b@;
    if b.len() < 20 {
        return None;
    }
    let ghost f = Seq::new(
        6,
        |k: int| small_int(bs.subrange(iso_cuts()[2 * k], iso_cuts()[2 * k + 1])),
    );
    assert(f[0] == small_int(bs.subrange(0, 4)));
    assert(f[1] == small_int(bs.subrange(5, 7)));
    assert(f[2] == small_int(bs.subrange(8, 10)));
    assert(f[3] == small_int(bs.subrange(11, 13)));
    assert(f[4] == small_int(bs.subrange(14, 16)));
    assert(f[5] == small_int(bs.subrange(17, 19)));
    let year = small_int_at(b, 0, 4);
    let month = small_int_at(b, 5, 7);
    let day = small_int_at(b, 8, 10);
    let hour = small_int_at(b, 11, 13);
    let minute = small_int_at(b, 14, 16);
    let second = small_int_at(b, 17, 19);
    match (year, month, day, hour, minute, second) {
        (Some(y), Some(mo), Some(d), Some(h), Some(mi), Some(se)) => {
            assert(forall|k: int| 0 <= k < 6 ==> #[trigger] f[k] is Some) by {
                assert forall|k: int| 0 <= k < 6 implies #[trigger] f[k] is Some by {
                    if k == 0 {
                    } else if k == 1 {
                    } else if k == 2 {
                    } else if k == 3 {
                    } else if k == 4 {
                    } else {
                    }
                }
            }
            Some(IsoFields { year: y, month: mo, day: d, hour: h, minute: mi, second: se })
        },
        _ => {
            assert(!(forall|k: int| 0 <= k < 6 ==> #[trigger] f[k] is Some)) by {
                if year is None {
                    assert(f[0] is None);
                } else if month is None {
                    assert(f[1] is None);
                } else if day is None {
                    assert(f[2] is None);
                } else if hour is None {
                    assert(f[3] is None);
                } else if minute is None {
                    assert(f[4] is None);
                } else {
                    assert(f[5] is None);
                }
            }
            None
        },
    }
}

} // verus!
