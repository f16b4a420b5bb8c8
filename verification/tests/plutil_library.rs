use std::cmp::Ordering;

use re_plistbuddy::dates::{format_date, format_utc_stamp, CivilTime};
use re_plistbuddy::output::Piece;
use re_plistbuddy::plutil::args::{parse_args, parse_format, strip_leading_dashes, Command, Format};
use re_plistbuddy::plutil::base64::{base64_decode, base64_encode};
use re_plistbuddy::plutil::codegen::{
    array_needs_any_annotation, dict_needs_any_annotation, objc_string_literal,
    swift_string_literal, swift_type_tag, value_contains_objc_invalid, value_to_objc,
    value_to_objc_header, value_to_swift,
};
use re_plistbuddy::plutil::json::{parse_json_string, parse_json_value, JsonParse};
use re_plistbuddy::plutil::json_write::{
    is_json_invalid, is_json_invalid_nested, json_escape, value_to_json_compact,
    value_to_json_readable,
};
use re_plistbuddy::plutil::keypath::{
    insert_at_keypath, remove_at_keypath, replace_at_keypath, resolve_keypath, split_keypath,
};
use re_plistbuddy::plutil::make::{make_value, parse_iso_fields, Made, Readings};
use re_plistbuddy::plutil::natural::{natural_cmp, natural_compare, natural_order_of};
use re_plistbuddy::plutil::paths::{resolve_output_path, source_file_name, var_name_from_path};
use re_plistbuddy::plutil::process::{
    blank_for_lint, lint_asks, lint_file, lint_outcome_of, missing_file_message, output_path_refused, process_file, read_fallback,
    write_value_as_format,
    Fallback, Output, Style,
};
use re_plistbuddy::plutil::run::{extract_target, launch, lint_report, Launch};
use re_plistbuddy::plutil::show::{check_type, format_raw, pretty_print, sorted_keys, type_label};
use re_plistbuddy::value::{Dictionary, Value};

fn s(x: &str) -> String {
    x.to_string()
}

fn args(xs: &[&str]) -> Vec<String> {
    xs.iter().map(|x| x.to_string()).collect()
}

/// The text of pieces, reals written as `R<value>` and dates as `D<value>`.
fn text_of(pieces: &[Piece]) -> String {
    let mut out = String::new();
    for p in pieces {
        match p {
            Piece::Text(t) => out.push_str(t),
            Piece::Bytes(b) => out.push_str(&String::from_utf8_lossy(b)),
            Piece::Real(bits) => out.push_str(&format!("R{}", f64::from_bits(*bits))),
            Piece::Date(bits) => out.push_str(&format!("D{}", f64::from_bits(*bits))),
        }
    }
    out
}

fn sample() -> Value {
    let mut d = Dictionary::new();
    d.insert(s("name"), Value::String(s("app")));
    d.insert(s("count"), Value::Integer(3));
    d.insert(
        s("items"),
        Value::Array(vec![Value::String(s("a")), Value::String(s("b"))]),
    );
    let mut inner = Dictionary::new();
    inner.insert(s("flag"), Value::Boolean(true));
    d.insert(s("nested"), Value::Dictionary(inner));
    Value::Dictionary(d)
}

fn dict(v: &Value) -> &Dictionary {
    v.as_dictionary().unwrap()
}

// --- Arguments ---

#[test]
fn plutil_args_convert() {
    let o = parse_args(&args(&["-convert", "json", "-r", "f.plist"])).ok().unwrap();
    assert!(matches!(o.command, Command::Convert { format: Format::Json }));
    assert_eq!(o.files, vec![s("f.plist")]);
    assert!(o.readable);
}

#[test]
fn plutil_args_default_is_lint() {
    let o = parse_args(&args(&["f.plist"])).ok().unwrap();
    assert!(matches!(o.command, Command::Lint));
}

#[test]
fn plutil_args_extract_with_expect() {
    let o = parse_args(&args(&["-extract", "a.b", "raw", "-expect", "string", "f"])).ok().unwrap();
    match o.command {
        Command::Extract { keypath, format, expect } => {
            assert_eq!(keypath, "a.b");
            assert!(format == Format::Raw);
            assert_eq!(expect, Some(s("string")));
        }
        _ => panic!("expected extract"),
    }
    assert_eq!(o.files, vec![s("f")]);
}

#[test]
fn plutil_args_insert_takes_value_and_append() {
    let o = parse_args(&args(&["-insert", "k", "-string", "v", "-append", "f"])).ok().unwrap();
    match o.command {
        Command::Insert { keypath, value_type, value, append } => {
            assert_eq!(keypath, "k");
            assert_eq!(value_type, "string");
            assert_eq!(value, Some(s("v")));
            assert!(append);
        }
        _ => panic!("expected insert"),
    }
}

#[test]
fn plutil_args_errors() {
    assert_eq!(parse_args(&args(&["-o"])).err().unwrap(), "Missing path for -o");
    assert_eq!(parse_args(&args(&["-bogus"])).err().unwrap(), "unrecognized option: -bogus");
    assert_eq!(parse_args(&args(&["-p", "-lint"])).err().unwrap(), "unrecognized option: -lint");
    assert_eq!(
        parse_args(&args(&["-convert", "yaml", "f"])).err().unwrap(),
        "Unknown format specifier: yaml"
    );
    assert_eq!(
        parse_args(&args(&["-extract", "k"])).err().unwrap(),
        "'Extract' requires a key path and a plist format."
    );
}

#[test]
fn plutil_args_end_of_options() {
    let o = parse_args(&args(&["--", "-p"])).ok().unwrap();
    assert_eq!(o.files, vec![s("-p")]);
}

#[test]
fn plutil_parse_format_and_dashes() {
    assert!(parse_format("swift").ok().unwrap() == Format::Swift);
    assert!(parse_format("xml").is_err());
    assert_eq!(strip_leading_dashes("--integer"), "integer");
    assert_eq!(strip_leading_dashes("---"), "");
}

#[test]
fn plutil_launch() {
    assert!(matches!(launch(&args(&["-help"])), Launch::Help));
    assert!(matches!(launch(&args(&["-lint"])), Launch::NoFiles));
    assert!(matches!(launch(&args(&["-x"])), Launch::Refused(m) if m == "unrecognized option: -x"));
    assert!(matches!(launch(&args(&["f"])), Launch::Run(_)));
}

// --- Key paths ---

#[test]
fn plutil_resolve_keypath() {
    let v = sample();
    assert_eq!(resolve_keypath(&v, "items.1").unwrap().as_string(), Some("b"));
    assert_eq!(resolve_keypath(&v, "nested.flag").unwrap().as_boolean(), Some(true));
    assert!(resolve_keypath(&v, "items.2").is_none());
    assert!(resolve_keypath(&v, "").is_none());
    assert!(resolve_keypath(&v, "name.x").is_none());
    assert_eq!(resolve_keypath(&v, "items.+0").unwrap().as_string(), Some("a"));
}

#[test]
fn plutil_split_keypath() {
    let (p, k) = split_keypath("a.b.c");
    assert_eq!(p, vec![s("a"), s("b")]);
    assert_eq!(k, "c");
    let (p, k) = split_keypath(".x");
    assert!(p.is_empty());
    assert_eq!(k, "x");
}

#[test]
fn plutil_insert_into_dictionary() {
    let mut v = sample();
    insert_at_keypath(&mut v, "nested.new", Value::Integer(7), false).unwrap();
    assert_eq!(resolve_keypath(&v, "nested.new").unwrap().as_signed_integer(), Some(7));
    assert_eq!(
        insert_at_keypath(&mut v, "name", Value::Integer(1), false).err().unwrap(),
        "Value already exists at key path name"
    );
    assert_eq!(
        insert_at_keypath(&mut v, "missing.x", Value::Integer(1), false).err().unwrap(),
        "Key path not found missing.x"
    );
    assert_eq!(
        insert_at_keypath(&mut v, "name.x", Value::Integer(1), false).err().unwrap(),
        "Cannot insert into non-container at keypath"
    );
}

#[test]
fn plutil_insert_into_array() {
    let mut v = sample();
    insert_at_keypath(&mut v, "items.0", Value::String(s("z")), false).unwrap();
    insert_at_keypath(&mut v, "items.99", Value::String(s("end")), false).unwrap();
    let items = resolve_keypath(&v, "items").unwrap().as_array().unwrap();
    let texts: Vec<&str> = items.iter().map(|x| x.as_string().unwrap()).collect();
    assert_eq!(texts, vec!["z", "a", "b", "end"]);
    assert_eq!(
        insert_at_keypath(&mut v, "items.x", Value::Integer(1), false).err().unwrap(),
        "Invalid array index: x"
    );
}

#[test]
fn plutil_insert_append() {
    let mut v = sample();
    insert_at_keypath(&mut v, "items", Value::String(s("c")), true).unwrap();
    assert_eq!(resolve_keypath(&v, "items.2").unwrap().as_string(), Some("c"));
    assert_eq!(
        insert_at_keypath(&mut v, "name", Value::Integer(1), true).err().unwrap(),
        "Appending to a non-array at key path name"
    );
    assert_eq!(
        insert_at_keypath(&mut v, "nope", Value::Integer(1), true).err().unwrap(),
        "Key path not found nope"
    );
}

#[test]
fn plutil_replace_and_remove() {
    let mut v = sample();
    replace_at_keypath(&mut v, "items.0", Value::Integer(5)).unwrap();
    assert_eq!(resolve_keypath(&v, "items.0").unwrap().as_signed_integer(), Some(5));
    assert_eq!(
        replace_at_keypath(&mut v, "nope", Value::Integer(5)).err().unwrap(),
        "No value at that key path or invalid key path: nope"
    );
    remove_at_keypath(&mut v, "count").unwrap();
    assert!(resolve_keypath(&v, "count").is_none());
    assert_eq!(
        remove_at_keypath(&mut v, "count").err().unwrap(),
        "No value to remove at key path count"
    );
    assert_eq!(
        remove_at_keypath(&mut v, "items.007").err().unwrap(),
        "Array index out of bounds: 7"
    );
    assert_eq!(
        remove_at_keypath(&mut v, "name.x").err().unwrap(),
        "Cannot remove from non-container"
    );
}

#[test]
fn plutil_replace_root() {
    let mut v = sample();
    replace_at_keypath(&mut v, "", Value::Integer(1)).unwrap();
    assert_eq!(v.as_signed_integer(), Some(1));
}

#[test]
fn plutil_remove_undoes_insert() {
    let mut v = sample();
    insert_at_keypath(&mut v, "nested.tmp", Value::Boolean(false), false).unwrap();
    remove_at_keypath(&mut v, "nested.tmp").unwrap();
    let n = dict(resolve_keypath(&v, "nested").unwrap());
    assert_eq!(n.len(), 1);
    insert_at_keypath(&mut v, "items.1", Value::Integer(0), false).unwrap();
    remove_at_keypath(&mut v, "items.1").unwrap();
    let items = resolve_keypath(&v, "items").unwrap().as_array().unwrap();
    assert_eq!(items.len(), 2);
    assert_eq!(items[1].as_string(), Some("b"));
}

// --- Natural order ---

#[test]
fn plutil_natural_cmp() {
    assert_eq!(natural_cmp("file9", "file10"), Ordering::Less);
    assert_eq!(natural_cmp("file10", "file9"), Ordering::Greater);
    assert_eq!(natural_cmp("a", "B"), Ordering::Less);
    assert_eq!(natural_cmp("B", "a"), Ordering::Greater);
    assert_eq!(natural_cmp("abc", "ABC"), Ordering::Equal);
    assert_eq!(natural_cmp("", "a"), Ordering::Less);
    assert_eq!(natural_cmp("x", "x"), Ordering::Equal);
    assert_eq!(natural_cmp("01", "1"), Ordering::Equal);
    // Comparing goes on after a run of digits.
    assert_eq!(natural_cmp("a1b", "a1c"), Ordering::Less);
    assert_eq!(natural_cmp("a1c", "a1b"), Ordering::Greater);
    assert_eq!(natural_cmp("a01b", "a1b"), Ordering::Equal);
    assert_eq!(natural_compare("x2", "x10"), -1);
}

#[test]
fn plutil_natural_order_is_transitive() {
    let chain = ["-x", "0", "1a", "1b", "1c", "item2", "Item10", "item10b", "item11", "~"];
    for i in 0..chain.len() {
        for j in i + 1..chain.len() {
            assert_eq!(natural_cmp(chain[i], chain[j]), Ordering::Less, "{} < {}", chain[i], chain[j]);
            assert_eq!(natural_cmp(chain[j], chain[i]), Ordering::Greater);
        }
    }
}

#[test]
fn plutil_natural_order_of_dictionary() {
    let mut d = Dictionary::new();
    for k in ["item10", "Item2", "item1", "apple"] {
        d.insert(s(k), Value::Integer(0));
    }
    let order = natural_order_of(&d);
    let keys: Vec<&str> = order.iter().map(|&i| d.iter()[i].0.as_str()).collect();
    assert_eq!(keys, vec!["apple", "item1", "Item2", "item10"]);
}

// --- Base 64 ---

#[test]
fn plutil_base64_encode() {
    assert_eq!(base64_encode(b"Man"), "TWFu");
    assert_eq!(base64_encode(b"Ma"), "TWE=");
    assert_eq!(base64_encode(b"M"), "TQ==");
    assert_eq!(base64_encode(b""), "");
    assert_eq!(base64_encode(&[0xff, 0xfe]), "//4=");
}

#[test]
fn plutil_base64_decode() {
    assert_eq!(base64_decode("TWFu").unwrap(), b"Man");
    assert_eq!(base64_decode("TW\nE=").unwrap(), b"Ma");
    assert_eq!(base64_decode(" TQ== ").unwrap(), b"M");
    assert!(base64_decode("TWF").is_none());
    assert!(base64_decode("T!Fu").is_none());
    assert_eq!(base64_decode("").unwrap(), b"");
}

#[test]
fn plutil_base64_round_trip() {
    let data: Vec<u8> = (0..=255u8).collect();
    assert_eq!(base64_decode(&base64_encode(&data)).unwrap(), data);
}

// --- JSON ---

#[test]
fn plutil_parse_json_string() {
    let (t, rest) = parse_json_string("\"a\\nb\\u0041\\/\" tail").ok().unwrap();
    assert_eq!(t, "a\nbA/");
    assert_eq!(rest, " tail");
    assert_eq!(parse_json_string("x").err().unwrap(), "expected string");
    assert_eq!(parse_json_string("\"abc").err().unwrap(), "unterminated string");
    assert_eq!(parse_json_string("\"\\q\"").err().unwrap(), "invalid escape");
    assert_eq!(parse_json_string("\"\\uzz00\"").err().unwrap(), "invalid unicode escape");
    // A code that is no character is dropped.
    assert_eq!(parse_json_string("\"a\\ud800b\"").ok().unwrap().0, "ab");
}

fn parse_json_fully(text: &str) -> Result<Value, String> {
    let mut reals: Vec<Option<u64>> = Vec::new();
    loop {
        match parse_json_value(text, &reals) {
            JsonParse::Parsed(v) => return Ok(v),
            JsonParse::Failed(e) => return Err(e),
            JsonParse::NeedsReal(lit) => reals.push(lit.parse::<f64>().ok().map(f64::to_bits)),
        }
    }
}

#[test]
fn plutil_parse_json_value() {
    let v = parse_json_fully(" {\"a\": [1, -2, true, null], \"b\": {\"c\": \"d\"}} ").unwrap();
    let a = resolve_keypath(&v, "a").unwrap().as_array().unwrap();
    assert_eq!(a[0].as_signed_integer(), Some(1));
    assert_eq!(a[1].as_signed_integer(), Some(-2));
    assert_eq!(a[2].as_boolean(), Some(true));
    assert_eq!(a[3].as_string(), Some(""));
    assert_eq!(resolve_keypath(&v, "b.c").unwrap().as_string(), Some("d"));
}

#[test]
fn plutil_parse_json_reals_asked_in_order() {
    match parse_json_value("[2.5, 1e3]", &[]) {
        JsonParse::NeedsReal(l) => assert_eq!(l, "2.5"),
        _ => panic!("expected a request"),
    }
    match parse_json_value("[2.5, 1e3]", &[Some(2.5f64.to_bits())]) {
        JsonParse::NeedsReal(l) => assert_eq!(l, "1e3"),
        _ => panic!("expected a request"),
    }
    let v = parse_json_fully("[2.5, 1e3]").unwrap();
    let a = v.as_array().unwrap();
    assert_eq!(f64::from_bits(a[1].as_real().unwrap()), 1000.0);
}

#[test]
fn plutil_parse_json_errors() {
    assert_eq!(parse_json_fully("[1] x").err().unwrap(), "trailing content: x");
    assert_eq!(parse_json_fully("").err().unwrap(), "unexpected end of input");
    assert_eq!(parse_json_fully("[1,]").err().unwrap(), "unexpected character: ]");
    assert_eq!(parse_json_fully("{\"a\" 1}").err().unwrap(), "expected ':' in object");
    assert_eq!(parse_json_fully("{\"a\":1 \"b\":2}").err().unwrap(), "expected ',' or '}' in object");
    assert_eq!(parse_json_fully("[1 2]").err().unwrap(), "expected ',' or ']' in array");
    assert_eq!(parse_json_fully("[-]").err().unwrap(), "invalid number: -");
    assert_eq!(parse_json_fully("[1e]").err().unwrap(), "invalid number: 1e");
    assert_eq!(parse_json_fully("{1:2}").err().unwrap(), "expected string");
    assert_eq!(parse_json_fully("é").err().unwrap(), "unexpected character: \u{c3}");
}

#[test]
fn plutil_json_escape() {
    assert_eq!(json_escape("a\"b\\c\nd\te\u{1}"), "\"a\\\"b\\\\c\\nd\\te\\u0001\"");
    let text = "q\"\\\r\u{1f}é";
    let (back, rest) = parse_json_string(&json_escape(text)).ok().unwrap();
    assert_eq!(back, text);
    assert_eq!(rest, "");
}

#[test]
fn plutil_json_compact() {
    let mut v = sample();
    insert_at_keypath(&mut v, "r", Value::Real(1.5f64.to_bits()), false).unwrap();
    assert_eq!(
        text_of(&value_to_json_compact(&v)),
        "{\"name\":\"app\",\"count\":3,\"items\":[\"a\",\"b\"],\"nested\":{\"flag\":true},\"r\":R1.5}"
    );
}

#[test]
fn plutil_json_readable() {
    let mut d = Dictionary::new();
    d.insert(s("b2"), Value::Array(vec![Value::Integer(1)]));
    d.insert(s("a10"), Value::Array(vec![]));
    d.insert(s("a9"), Value::Dictionary(Dictionary::new()));
    let v = Value::Dictionary(d);
    assert_eq!(
        text_of(&value_to_json_readable(&v, 0)),
        "{\n  \"a9\" : {\n\n},\n  \"a10\" : [\n\n],\n  \"b2\" : [\n    1\n  ]\n}"
    );
}

#[test]
fn plutil_json_invalid() {
    assert!(is_json_invalid(&Value::Integer(1)));
    assert!(!is_json_invalid(&sample()));
    let v = Value::Array(vec![Value::Array(vec![Value::Date(0)])]);
    assert!(is_json_invalid(&v));
    assert!(is_json_invalid_nested(&Value::Data(vec![])));
    assert!(!is_json_invalid_nested(&Value::String(s("x"))));
}

// --- Generated code ---

#[test]
fn plutil_string_literals() {
    assert_eq!(swift_string_literal("a\"b\\c\nd\0"), "\"a\\\"b\\\\c\\nd\\0\"");
    assert_eq!(objc_string_literal("a\"b\\c\nd\0"), "@\"a\\\"b\\\\c\nd\\0\"");
}

#[test]
fn plutil_swift_kinds() {
    assert_eq!(swift_type_tag(&Value::Real(0)), "real");
    assert_eq!(swift_type_tag(&sample()), "dict");
    assert!(!array_needs_any_annotation(&[Value::Integer(1), Value::Integer(2)]));
    assert!(array_needs_any_annotation(&[Value::Integer(1), Value::String(s("x"))]));
    assert!(!array_needs_any_annotation(&[]));
    assert!(dict_needs_any_annotation(dict(&sample())));
}

#[test]
fn plutil_swift_source() {
    let mut d = Dictionary::new();
    d.insert(s("k2"), Value::Integer(2));
    d.insert(s("k10"), Value::Integer(10));
    let v = Value::Dictionary(d);
    assert_eq!(
        text_of(&value_to_swift(&v, "/tmp/my-file.plist")),
        "/// Generated from my-file.plist\nlet my_file = [\n    \"k2\" : 2,\n    \"k10\" : 10,\n]\n"
    );
    let a = Value::Array(vec![Value::Boolean(true), Value::Data(vec![1, 0xab])]);
    assert_eq!(
        text_of(&value_to_swift(&a, "x.plist")),
        "/// Generated from x.plist\nlet x : [Any] = [\n    true,\n    Data(bytes: [0x01,0xab,]),\n]\n"
    );
}

#[test]
fn plutil_objc_source() {
    let mut d = Dictionary::new();
    d.insert(s("n"), Value::Integer(-3));
    d.insert(s("list"), Value::Array(vec![Value::Boolean(false)]));
    let v = Value::Dictionary(d);
    assert_eq!(
        text_of(&value_to_objc(&v, "cfg.plist", true)),
        "#import \"cfg.h\"\n\n/// Generated from cfg.plist\n__attribute__((visibility(\"hidden\")))\nNSDictionary * const cfg = @{\n    @\"list\" : @[\n        @NO,\n    ],\n    @\"n\" : @-3,\n};\n"
    );
    assert_eq!(
        value_to_objc_header(&v, "cfg.plist", "cfg"),
        "#import <Foundation/Foundation.h>\n\n/// Generated from cfg.plist\n__attribute__((visibility(\"hidden\")))\nextern NSDictionary * const cfg;\n"
    );
    assert!(value_contains_objc_invalid(&Value::Array(vec![Value::Date(0)])));
}

// --- Paths ---

#[test]
fn plutil_paths() {
    assert_eq!(var_name_from_path("/a/b/my file-x.json"), "my_file_x");
    assert_eq!(var_name_from_path("/"), "plist");
    assert_eq!(source_file_name("/a/b/c.plist"), "c.plist");
    let mut o = parse_args(&args(&["-convert", "json", "-e", "json", "a/f.plist"])).ok().unwrap();
    assert_eq!(resolve_output_path("a/f.plist", &o), "a/f.json");
    o.output_path = Some(s("-"));
    assert_eq!(resolve_output_path("a/f.plist", &o), "-");
}

// --- Showing values ---

#[test]
fn plutil_type_and_check() {
    assert_eq!(type_label(&Value::Real(0)), "float");
    assert_eq!(type_label(&sample()), "dictionary");
    assert!(check_type(&Value::Integer(1), "integer", "k").is_ok());
    assert_eq!(
        check_type(&Value::Integer(1), "string", "a.b").err().unwrap(),
        "Value at [a.b] expected to be string but is integer"
    );
}

#[test]
fn plutil_format_raw() {
    assert_eq!(text_of(&format_raw(&Value::String(s("hi")))), "hi");
    assert_eq!(text_of(&format_raw(&Value::Boolean(false))), "false");
    assert_eq!(text_of(&format_raw(&Value::Data(b"Man".to_vec()))), "TWFu");
    assert_eq!(text_of(&format_raw(&Value::Array(vec![Value::Integer(1), Value::Integer(2), Value::Integer(3)]))), "3");
    let mut d = Dictionary::new();
    for k in ["b", "B", "a10", "a9"] {
        d.insert(s(k), Value::Integer(0));
    }
    assert_eq!(text_of(&format_raw(&Value::Dictionary(d))), "B\na10\na9\nb");
}

#[test]
fn plutil_sorted_keys() {
    let mut d = Dictionary::new();
    for k in ["z", "é", "a", "Z"] {
        d.insert(s(k), Value::Integer(0));
    }
    assert_eq!(sorted_keys(&d), vec![s("Z"), s("a"), s("z"), s("é")]);
}

#[test]
fn plutil_pretty_print() {
    let mut d = Dictionary::new();
    d.insert(s("x10"), Value::Data(vec![1, 0xab]));
    d.insert(s("x9"), Value::Array(vec![Value::String(s("q\""))]));
    let v = Value::Dictionary(d);
    assert_eq!(
        text_of(&pretty_print(&v)),
        "{\n  \"x9\" => [\n    0 => \"q\"\"\n  ]\n  \"x10\" => {length = 2, bytes = 0x1ab}\n}\n"
    );
}

// --- Making values ---

fn made(t: &str, v: Option<&str>) -> Made {
    let rd = Readings { reals: vec![], date: None, plist: None };
    make_value(t, &v.map(s), &rd)
}

#[test]
fn plutil_make_value() {
    assert!(matches!(made("bool", Some("YES")), Made::Value(Value::Boolean(true))));
    assert!(matches!(made("bool", Some("yes")), Made::Value(Value::Boolean(false))));
    assert!(matches!(made("integer", Some("-5")), Made::Value(Value::Integer(-5))));
    assert!(matches!(made("integer", None), Made::Value(Value::Integer(0))));
    assert!(matches!(made("integer", Some("x")), Made::Failed(m) if m == "Invalid integer: x"));
    assert!(matches!(made("string", None), Made::Value(Value::String(t)) if t.is_empty()));
    assert!(matches!(made("data", Some("TWFu")), Made::Value(Value::Data(b)) if b == b"Man"));
    assert!(matches!(made("data", Some("T")), Made::Failed(m) if m == "Invalid base64 data"));
    assert!(matches!(made("date", None), Made::Failed(m) if m == "Missing date value"));
    assert!(matches!(made("date", Some("2001-01-01T00:00:00Z")), Made::ReadDate(_)));
    assert!(matches!(made("float", Some("1.5")), Made::ReadReal(t) if t == "1.5"));
    assert!(matches!(made("xml", Some("<x/>")), Made::ReadPlist(_)));
    assert!(matches!(made("json", Some("[1")), Made::Failed(m) if m == "Invalid JSON: expected ',' or ']' in array"));
    assert!(matches!(made("json", Some("{\"a\":1}")), Made::Value(Value::Dictionary(_))));
    assert!(matches!(made("widget", None), Made::Failed(m) if m == "Unknown type: widget"));
}

#[test]
fn plutil_make_value_with_readings() {
    let rd = Readings { reals: vec![None], date: Some(None), plist: Some(Err(s("bad xml"))) };
    assert!(matches!(make_value("float", &Some(s("x")), &rd), Made::Failed(m) if m == "Invalid float: x"));
    assert!(matches!(make_value("date", &Some(s("x")), &rd), Made::Failed(m) if m == "Invalid date format: x"));
    assert!(matches!(make_value("xml", &Some(s("x")), &rd), Made::Failed(m) if m == "bad xml"));
    let rd = Readings { reals: vec![Some(2.0f64.to_bits())], date: Some(Some(9)), plist: None };
    assert!(matches!(make_value("float", &None, &rd), Made::Value(Value::Real(b)) if f64::from_bits(b) == 2.0));
    assert!(matches!(make_value("date", &Some(s("x")), &rd), Made::Value(Value::Date(9))));
}

#[test]
fn plutil_iso_fields() {
    let f = parse_iso_fields("2024-02-29T13:05:09Z").unwrap();
    assert_eq!((f.year, f.month, f.day, f.hour, f.minute, f.second), (2024, 2, 29, 13, 5, 9));
    assert!(parse_iso_fields("2024-02-29T13:05:09").is_none());
    assert!(parse_iso_fields("2024-0x-29T13:05:09Z").is_none());
}

// --- Dates ---

#[test]
fn plutil_dates() {
    let t = CivilTime { year: 2024, month: 3, day: 5, hour: 7, minute: 8, second: 9, weekday: 2 };
    assert_eq!(format_date(&t, "PST"), "Tue Mar 05 07:08:09 PST 2024");
    assert_eq!(format_utc_stamp(&t, "T"), "2024-03-05T07:08:09");
    let early = CivilTime { year: 7, month: 1, day: 1, hour: 0, minute: 0, second: 0, weekday: 0 };
    assert_eq!(format_utc_stamp(&early, " "), "0007-01-01 00:00:00");
}

// --- Running ---

#[test]
fn plutil_lint_report() {
    assert_eq!(lint_report("f", &Ok(()), false), (Some(s("f: OK")), None));
    assert_eq!(lint_report("-", &Ok(()), true), (None, None));
    assert_eq!(lint_report("-", &Err(s("bad")), false), (None, Some(s("<stdin>: (bad)"))));
    assert_eq!(lint_report("f", &Err(s("(gone)")), false), (None, Some(s("f: (gone)"))));
}

#[test]
fn plutil_extract_target() {
    let v = sample();
    assert_eq!(extract_target(&v, "name", &None).ok().unwrap().as_string(), Some("app"));
    assert_eq!(
        extract_target(&v, "zz", &None).err().unwrap(),
        "Could not extract value, error: No value at that key path or invalid key path: zz"
    );
    assert_eq!(
        extract_target(&v, "count", &Some(s("bool"))).err().unwrap(),
        "Value at [count] expected to be bool but is integer"
    );
}

#[test]
fn plutil_write_value_as_format() {
    let v = sample();
    assert!(matches!(&write_value_as_format(v.duplicate(), "o", &Format::Xml1, false, "f").unwrap()[..], [Output::Xml(p, _)] if p == "o"));
    assert!(matches!(&write_value_as_format(v.duplicate(), "-", &Format::Binary1, false, "f").unwrap()[..], [Output::Binary(p, _)] if p == "-"));
    assert_eq!(write_value_as_format(v.duplicate(), "o", &Format::Objc, false, "f").err().unwrap(), "use process_file for objc format");
    assert_eq!(write_value_as_format(v.duplicate(), "o", &Format::Raw, false, "f").err().unwrap(), "raw format is only valid for -extract");
    assert_eq!(write_value_as_format(Value::Integer(1), "o", &Format::Json, false, "f").err().unwrap(), "Invalid object in plist for JSON format");
    match &write_value_as_format(v.duplicate(), "-", &Format::Json, false, "f").unwrap()[..] {
        [Output::Pieces(p, ps, st, nl)] => {
            assert_eq!(p, "-");
            assert!(*st == Style::Json && !*nl);
            assert_eq!(text_of(ps), "{\"name\":\"app\",\"count\":3,\"items\":[\"a\",\"b\"],\"nested\":{\"flag\":true}}");
        }
        _ => panic!("expected JSON"),
    }
}

fn plan(argv: &[&str], input: Value, made: Option<Value>) -> Result<Vec<Output>, String> {
    let opts = parse_args(&args(argv)).unwrap();
    let file = opts.files[0].clone();
    process_file(input, &file, &opts, made)
}

#[test]
fn plutil_process_print_and_type() {
    match &plan(&["-p", "f.plist"], sample(), None).unwrap()[..] {
        [Output::Pieces(p, ps, st, nl)] => {
            assert_eq!(p, "-");
            assert!(*st == Style::Shown && !*nl);
            assert!(text_of(ps).starts_with("{\n"));
            assert!(text_of(ps).ends_with("}\n"));
        }
        _ => panic!("expected one output"),
    }
    match &plan(&["-type", "items", "f.plist"], sample(), None).unwrap()[..] {
        [Output::Pieces(p, ps, st, nl)] => {
            assert_eq!(p, "-");
            assert!(*st == Style::Raw && *nl);
            assert_eq!(text_of(ps), "array");
        }
        _ => panic!("expected one output"),
    }
    assert_eq!(
        plan(&["-type", "items", "-expect", "string", "f.plist"], sample(), None).err().unwrap(),
        "Value at [items] expected to be string but is array"
    );
}

#[test]
fn plutil_process_extract() {
    match &plan(&["-extract", "items", "raw", "-o", "-", "f.plist"], sample(), None).unwrap()[..] {
        [Output::Pieces(p, ps, st, nl)] => {
            assert_eq!(p, "-");
            assert!(*st == Style::Raw && *nl);
            assert_eq!(text_of(ps), "2");
        }
        _ => panic!("expected one output"),
    }
    match &plan(&["-extract", "nested", "raw", "-n", "-o", "-", "f.plist"], sample(), None).unwrap()[..] {
        [Output::Pieces(_, ps, _, nl)] => {
            assert!(!*nl);
            assert_eq!(text_of(ps), "flag");
        }
        _ => panic!("expected one output"),
    }
    match &plan(&["-extract", "nested", "xml1", "-o", "x.plist", "f.plist"], sample(), None).unwrap()[..] {
        [Output::Xml(p, v)] => {
            assert_eq!(p, "x.plist");
            assert_eq!(v.as_dictionary().unwrap().get("flag").unwrap().as_boolean(), Some(true));
        }
        _ => panic!("expected one output"),
    }
    let mut d = Dictionary::new();
    d.insert(s("when"), Value::Date(0f64.to_bits()));
    assert_eq!(
        plan(&["-extract", "when", "json", "-o", "-", "f.plist"], Value::Dictionary(d), None).err().unwrap(),
        "Invalid object in plist for JSON format"
    );
    assert_eq!(
        plan(&["-extract", "nope", "json", "f.plist"], sample(), None).err().unwrap(),
        "Could not extract value, error: No value at that key path or invalid key path: nope"
    );
}

#[test]
fn plutil_process_convert_objc() {
    match &plan(&["-convert", "objc", "-header", "-o", "out/My.m", "in.plist"], sample(), None).unwrap()[..] {
        [Output::Pieces(h, hs, _, _), Output::Pieces(m, ms, st, _)] => {
            assert_eq!(h, "out/My.h");
            assert_eq!(m, "out/My.m");
            assert!(*st == Style::Objc);
            assert!(text_of(hs).starts_with("#import <Foundation/Foundation.h>"));
            assert!(text_of(hs).contains("NSDictionary * const in;"));
            assert!(text_of(ms).starts_with("#import \"in.h\""));
        }
        _ => panic!("expected two outputs"),
    }
    match &plan(&["-convert", "objc", "-o", "-", "in.plist"], sample(), None).unwrap()[..] {
        [Output::Pieces(p, ps, _, _)] => {
            assert_eq!(p, "-");
            assert!(text_of(ps).starts_with("/// Generated from in.plist"));
        }
        _ => panic!("expected one output"),
    }
    let mut d = Dictionary::new();
    d.insert(s("blob"), Value::Data(vec![1, 2]));
    assert_eq!(
        plan(&["-convert", "objc", "in.plist"], Value::Dictionary(d), None).err().unwrap(),
        "Input contains an object that cannot be represented in Obj-C literal syntax"
    );
    assert!(matches!(&plan(&["-convert", "binary1", "-e", "bin", "in.plist"], sample(), None).unwrap()[..], [Output::Binary(p, _)] if p == "in.bin"));
}

#[test]
fn plutil_process_edits() {
    match &plan(&["-insert", "extra", "-string", "v", "f.plist"], sample(), Some(Value::String(s("v")))).unwrap()[..] {
        [Output::Xml(p, v)] => {
            assert_eq!(p, "f.plist");
            assert_eq!(v.as_dictionary().unwrap().get("extra").unwrap().as_string(), Some("v"));
        }
        _ => panic!("expected one output"),
    }
    match &plan(&["-replace", "count", "-integer", "9", "f.plist"], sample(), Some(Value::Integer(9))).unwrap()[..] {
        [Output::Xml(_, v)] => {
            assert_eq!(v.as_dictionary().unwrap().get("count").unwrap().as_signed_integer(), Some(9));
        }
        _ => panic!("expected one output"),
    }
    match &plan(&["-remove", "items", "f.plist"], sample(), None).unwrap()[..] {
        [Output::Xml(_, v)] => assert!(v.as_dictionary().unwrap().get("items").is_none()),
        _ => panic!("expected one output"),
    }
    assert_eq!(
        plan(&["-remove", "zz", "f.plist"], sample(), None).err().unwrap(),
        "No value to remove at key path zz"
    );
    match &plan(&["-create", "xml1", "new.plist"], Value::Integer(0), None).unwrap()[..] {
        [Output::Xml(p, v)] => {
            assert_eq!(p, "new.plist");
            assert_eq!(v.as_dictionary().unwrap().len(), 0);
        }
        _ => panic!("expected one output"),
    }
}

#[test]
fn plutil_output_path_refused() {
    let o = |argv: &[&str]| parse_args(&args(argv)).unwrap();
    let v = sample();
    assert!(output_path_refused(&v, &o(&["-convert", "json", "-e", "a/b", "f.plist"]), &None));
    assert!(!output_path_refused(&v, &o(&["-convert", "json", "-e", "ab", "f.plist"]), &None));
    assert!(!output_path_refused(&v, &o(&["-convert", "json", "-e", "a/b", "-o", "x", "f.plist"]), &None));
    assert!(output_path_refused(&v, &o(&["-extract", "count", "raw", "-e", "a/b", "f.plist"]), &None));
    assert!(!output_path_refused(&v, &o(&["-extract", "zz", "raw", "-e", "a/b", "f.plist"]), &None));
    assert!(!output_path_refused(&v, &o(&["-p", "-e", "a/b", "f.plist"]), &None));
    assert!(output_path_refused(&v, &o(&["-remove", "count", "-e", "a/b", "f.plist"]), &None));
    assert!(!output_path_refused(&v, &o(&["-remove", "zz", "-e", "a/b", "f.plist"]), &None));
}

#[test]
fn plutil_iso_fields_any_text() {
    let s = format!("2024{}", "\u{e9}".repeat(8));
    assert_eq!(s.len(), 20);
    assert!(parse_iso_fields(&s).is_none());
    assert!(parse_iso_fields("2024-01-0\u{e9}T00:00:00Z").is_none());
    let f = parse_iso_fields("2024-02-29T23:59:58Z").unwrap();
    assert_eq!((f.year, f.month, f.day, f.hour, f.minute, f.second), (2024, 2, 29, 23, 59, 58));
}

#[test]
fn plutil_lint_decisions() {
    let blank = Some(b" \n\n".to_vec());
    let full = Some(b"<plist/>".to_vec());
    assert!(!lint_asks("f.plist", &blank));
    assert!(lint_asks("f.plist", &full));
    assert!(!lint_asks("f.plist", &None));
    assert!(lint_asks("-", &blank));
    let bad: Result<(), String> = Err(s("stream had too few bytes"));
    assert_eq!(lint_outcome_of("f.plist", &blank, &bad), Ok(()));
    assert_eq!(lint_outcome_of("f.plist", &full, &bad), bad);
    assert_eq!(lint_outcome_of("-", &blank, &bad), bad);
    assert_eq!(
        lint_outcome_of("d/f.plist", &None, &Ok(())).err().unwrap(),
        "(The file \u{201c}f.plist\u{201d} couldn\u{2019}t be opened because there is no such file.)"
    );
    let (out, err) = lint_report("f.plist", &lint_outcome_of("f.plist", &blank, &bad), false);
    assert_eq!(out.unwrap(), "f.plist: OK");
    assert!(err.is_none());
    let loud = parse_args(&args(&["-lint", "f.plist"])).unwrap();
    let quiet = parse_args(&args(&["-lint", "-s", "f.plist"])).unwrap();
    assert_eq!(lint_file("f.plist", &loud, &blank, &bad), (Some(s("f.plist: OK")), None, false));
    assert_eq!(lint_file("f.plist", &quiet, &blank, &bad), (None, None, false));
    assert_eq!(
        lint_file("f.plist", &loud, &full, &bad),
        (None, Some(s("f.plist: (stream had too few bytes)")), true)
    );
}

#[test]
fn plutil_reading_decisions() {
    assert!(matches!(read_fallback("  \n\t"), Fallback::Empty));
    assert!(matches!(read_fallback(" {\"a\": 1}\n"), Fallback::Json(t) if t == "{\"a\": 1}"));
    assert!(matches!(read_fallback("\n[1]"), Fallback::Json(t) if t == "[1]"));
    assert!(matches!(read_fallback("junk"), Fallback::Refused));
    assert!(blank_for_lint(b""));
    assert!(blank_for_lint(b" \n \n"));
    assert!(!blank_for_lint(b" \t"));
    assert_eq!(
        missing_file_message("dir/x.plist"),
        "(The file \u{201c}x.plist\u{201d} couldn\u{2019}t be opened because there is no such file.)"
    );
}
