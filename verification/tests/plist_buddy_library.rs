use re_plistbuddy::output::Piece;
use re_plistbuddy::plist_buddy::args::{parse_args, Launch};
use re_plistbuddy::plist_buddy::commands::{
    cmd_add, cmd_copy, cmd_delete, cmd_set, import_apply, import_request, merge_apply,
    merge_request,
};
use re_plistbuddy::plist_buddy::dispatch::{cmd_print, conversion_needed, execute_command, Step};
use re_plistbuddy::plist_buddy::render::print_value;
use re_plistbuddy::plist_buddy::session::{
    handle_result, CommandResult, Conversion, Next, PlistState, Reading,
};
use re_plistbuddy::plist_buddy::tokens::{next_token, strip_quotes};
use re_plistbuddy::value::{Dictionary, Value};

fn s(x: &str) -> String {
    x.to_string()
}

fn state() -> PlistState {
    let mut d = Dictionary::new();
    d.insert(s("Name"), Value::String(s("App")));
    d.insert(s("List"), Value::Array(vec![Value::Integer(1), Value::Integer(2)]));
    let mut inner = Dictionary::new();
    inner.insert(s("k"), Value::Boolean(true));
    d.insert(s("Sub"), Value::Dictionary(inner));
    d.insert(s("When"), Value::Date(0));
    d.insert(s("Pi"), Value::Real(3.0f64.to_bits()));
    PlistState { root: Value::Dictionary(d), xml_output: false, dirty: false }
}

fn text_of(pieces: &[Piece]) -> String {
    let mut out = String::new();
    for p in pieces {
        match p {
            Piece::Text(t) => out.push_str(t),
            Piece::Bytes(b) => out.push_str(&format!("<{} bytes>", b.len())),
            Piece::Real(bits) => out.push_str(&format!("R{}", f64::from_bits(*bits))),
            Piece::Date(bits) => out.push_str(&format!("D{}", f64::from_bits(*bits))),
        }
    }
    out
}

fn root(st: &PlistState) -> &Dictionary {
    st.root.as_dictionary().unwrap()
}

fn args(xs: &[&str]) -> Vec<String> {
    xs.iter().map(|x| x.to_string()).collect()
}

#[test]
fn buddy_dictionary_keeps_first_place() {
    let mut d = Dictionary::new();
    d.insert(s("a"), Value::Integer(1));
    d.insert(s("b"), Value::Integer(2));
    d.insert(s("a"), Value::Integer(3));
    assert_eq!(d.len(), 2);
    assert_eq!(d.iter()[0].0, "a");
    assert_eq!(d.get("a").unwrap().as_signed_integer(), Some(3));
    assert_eq!(d.remove("a").unwrap().as_signed_integer(), Some(3));
    assert!(d.get("a").is_none());
    assert!(d.remove("a").is_none());
    assert_eq!(d.get("b").unwrap().as_signed_integer(), Some(2));
}

#[test]
fn buddy_tokens() {
    let (t, rest) = next_token("  \"a b\" rest of it");
    assert_eq!(t, "a b");
    assert_eq!(rest, "rest of it");
    let (t, rest) = next_token("'x' y");
    assert_eq!(t, "x");
    assert_eq!(rest, "y");
    assert_eq!(strip_quotes("  \"quoted\"  "), "  quoted  ");
    assert_eq!(strip_quotes("plain"), "plain");
    // A character whose code ends in the quote's byte is no closing quote.
    let (t, rest) = next_token("\"a\u{122}b\" tail");
    assert_eq!(t, "a\u{122}b");
    assert_eq!(rest, "tail");
    let (t, rest) = next_token("'\u{127}x");
    assert_eq!(t, "\u{127}x");
    assert_eq!(rest, "");
}

#[test]
fn buddy_args() {
    let (a, l) = parse_args(&args(&["-x", "-c", "Print", "f.plist"]));
    assert!(matches!(l, Launch::Run));
    assert!(a.xml_output);
    assert_eq!(a.commands, vec![s("Print")]);
    assert_eq!(a.file_path, Some(s("f.plist")));
    assert!(matches!(parse_args(&args(&["-c"])).1, Launch::MissingCommand));
    assert!(matches!(parse_args(&args(&["a", "b"])).1, Launch::ExtraArguments));
    assert!(matches!(parse_args(&args(&["-xc", "Print :Name", "f.plist"])).1, Launch::ExtraArguments));
    assert!(matches!(parse_args(&args(&["-c", "Print", "f.plist", "g.plist"])).1, Launch::ExtraArguments));
    assert!(matches!(parse_args(&args(&["-c", "Print", "f.plist"])).1, Launch::Run));
    assert!(matches!(parse_args(&args(&["-h"])).1, Launch::HelpOnly));
    assert!(matches!(parse_args(&args(&[])).1, Launch::Usage));
    assert!(matches!(parse_args(&args(&["-h", "f"])).1, Launch::HelpWithFile));
}

#[test]
fn buddy_print_rendering() {
    let st = state();
    let mut out: Vec<Piece> = Vec::new();
    print_value(&st.root, "", &mut out);
    assert_eq!(
        text_of(&out),
        "Dict {\n    Name = App\n    List = Array {\n        1\n        2\n    }\n    Sub = Dict {\n        k = true\n    }\n    When = D0\n    Pi = R3\n}\n"
    );
}

#[test]
fn buddy_print_xml_step() {
    let mut st = state();
    st.xml_output = true;
    let mut out: Vec<Piece> = Vec::new();
    match cmd_print(&st, ":Sub", &mut out) {
        Step::PrintXml(v) => assert!(v.as_dictionary().is_some()),
        _ => panic!("expected XML output"),
    }
    assert!(out.is_empty());
}

#[test]
fn buddy_conversions() {
    let st = state();
    assert!(matches!(conversion_needed(&st, "Set :Pi 2.5"), Some(Conversion::Real(t)) if t == "2.5"));
    assert!(matches!(conversion_needed(&st, "Set :When \"Mon Jan 01 00:00:00 2001\""), Some(Conversion::Date(_))));
    assert!(matches!(conversion_needed(&st, "Add :X real 1.5"), Some(Conversion::Real(t)) if t == "1.5"));
    assert!(conversion_needed(&st, "Set :Name x").is_none());
    let mut st2 = state();
    let mut out: Vec<Piece> = Vec::new();
    let r = cmd_set(&mut st2, ":Pi 2.5", &Reading::Real(2.5f64.to_bits()), &mut out);
    assert!(matches!(r, CommandResult::Success));
    assert_eq!(f64::from_bits(root(&st2).get("Pi").unwrap().as_real().unwrap()), 2.5);
    let r = cmd_set(&mut st2, ":Pi nope", &Reading::Unreadable, &mut out);
    assert!(matches!(r, CommandResult::Success));
    assert_eq!(text_of(&out), "Unrecognized Real Format\n");
}

#[test]
fn buddy_add_then_delete_restores() {
    let mut st = state();
    let before = text_of(&{
        let mut o = Vec::new();
        print_value(&st.root, "", &mut o);
        o
    });
    let mut out: Vec<Piece> = Vec::new();
    assert!(matches!(cmd_add(&mut st, ":Sub:new string v", &Reading::Unreadable, &mut out), CommandResult::Success));
    assert!(matches!(cmd_delete(&mut st, ":Sub:new", &mut out), CommandResult::Success));
    assert!(matches!(cmd_add(&mut st, ":List:1 integer 9", &Reading::Unreadable, &mut out), CommandResult::Success));
    assert!(matches!(cmd_delete(&mut st, ":List:1", &mut out), CommandResult::Success));
    let after = text_of(&{
        let mut o = Vec::new();
        print_value(&st.root, "", &mut o);
        o
    });
    assert_eq!(before, after);
}

#[test]
fn buddy_add_makes_missing_dictionaries() {
    let mut st = state();
    let mut out: Vec<Piece> = Vec::new();
    let r = cmd_add(&mut st, ":A:B:C integer 5", &Reading::Unreadable, &mut out);
    assert!(matches!(r, CommandResult::Success));
    let a = root(&st).get("A").unwrap().as_dictionary().unwrap();
    let b = a.get("B").unwrap().as_dictionary().unwrap();
    assert_eq!(b.get("C").unwrap().as_signed_integer(), Some(5));
}

#[test]
fn buddy_copy_then_get() {
    let mut st = state();
    let mut out: Vec<Piece> = Vec::new();
    let r = cmd_copy(&mut st, ":Sub :New:Copy", &mut out);
    assert!(matches!(r, CommandResult::Success));
    let c = root(&st).get("New").unwrap().as_dictionary().unwrap().get("Copy").unwrap();
    assert_eq!(c.as_dictionary().unwrap().get("k").unwrap().as_boolean(), Some(true));
}

#[test]
fn buddy_merge_apply() {
    let mut st = state();
    let mut src = Dictionary::new();
    src.insert(s("k"), Value::Boolean(false));
    src.insert(s("extra"), Value::Integer(1));
    let r = merge_apply(&mut st, ":Sub", &Value::Dictionary(src));
    assert!(matches!(r, CommandResult::Success));
    let sub = root(&st).get("Sub").unwrap().as_dictionary().unwrap();
    assert_eq!(sub.get("k").unwrap().as_boolean(), Some(true));
    assert_eq!(sub.get("extra").unwrap().as_signed_integer(), Some(1));
    let r = merge_apply(&mut st, ":List", &Value::Array(vec![Value::Integer(3)]));
    assert!(matches!(r, CommandResult::Success));
    assert_eq!(root(&st).get("List").unwrap().as_array().unwrap().len(), 3);
    let r = merge_apply(&mut st, ":Name", &Value::Array(vec![]));
    assert!(matches!(r, CommandResult::StderrError(m) if m == "Merge: Can't Add array Entries to scalar"));
    assert_eq!(merge_request("other.plist :Sub"), (s("other.plist"), s(":Sub")));
}

#[test]
fn buddy_import_apply() {
    let mut st = state();
    let r = import_apply(&mut st, ":Blob", b"hello".to_vec());
    assert!(matches!(r, CommandResult::Success));
    assert_eq!(root(&st).get("Blob").unwrap().as_data().unwrap(), b"hello");
    assert!(matches!(import_request(&st, ":Sub f.txt"), Err(CommandResult::StderrError(m)) if m == "Import: Specified Entry Must Not Be a Container"));
    assert!(matches!(import_request(&st, ":Name f.txt"), Ok((e, f)) if e == ":Name" && f == "f.txt"));
}

#[test]
fn buddy_execute_merge_step() {
    let mut st = state();
    let mut out: Vec<Piece> = Vec::new();
    match execute_command(&mut st, "Merge /tmp/x.plist :Sub", &Reading::Unreadable, &mut out) {
        Step::ReadMerge { file, entry } => {
            assert_eq!(file, "/tmp/x.plist");
            assert_eq!(entry, ":Sub");
        }
        _ => panic!("expected a merge request"),
    }
}

#[test]
fn buddy_handle_result() {
    let h = handle_result(CommandResult::StdoutError(s("bad")));
    assert_eq!(h.stdout, Some(s("bad")));
    assert!(h.failed);
    assert!(matches!(h.next, Next::Continue));
    let h = handle_result(CommandResult::Save);
    assert_eq!(h.stdout, Some(s("Saving...")));
    assert!(!h.failed);
    assert!(matches!(h.next, Next::Save));
    let h = handle_result(CommandResult::Revert);
    assert_eq!(h.stdout, Some(s("Reverting to last saved state...")));
    assert!(matches!(h.next, Next::Revert));
    let h = handle_result(CommandResult::StderrError(s("e")));
    assert_eq!(h.stderr, Some(s("e")));
    assert!(h.stdout.is_none());
    assert!(matches!(handle_result(CommandResult::Exit).next, Next::Exit));
}
