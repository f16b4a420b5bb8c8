use re_plistbuddy::output::Piece;
use re_plistbuddy::plist_buddy::commands::{
    cmd_add, cmd_clear, cmd_copy, cmd_delete, cmd_set, coerce_value, import_read_failed,
    make_value_from_type, merge_read_failed,
};
use re_plistbuddy::plist_buddy::dispatch::{cmd_print, execute_command, Step};
use re_plistbuddy::plist_buddy::session::{CommandResult, PlistState, Reading};
use re_plistbuddy::plist_buddy::tokens::{format_entry_for_error, parse_entry_path, split_first_word};
use re_plistbuddy::value::{Dictionary, Value};

fn make_test_state() -> PlistState {
    let mut dict = Dictionary::new();
    dict.insert("Name".to_string(), Value::String("Test App".to_string()));
    dict.insert("Version".to_string(), Value::Integer(42));
    dict.insert("Enabled".to_string(), Value::Boolean(true));
    dict.insert("Rating".to_string(), Value::Real(3.14f64.to_bits()));
    dict.insert(
        "Tags".to_string(),
        Value::Array(vec![
            Value::String("alpha".to_string()),
            Value::String("beta".to_string()),
        ]),
    );
    let mut inner = Dictionary::new();
    inner.insert("Inner".to_string(), Value::String("value".to_string()));
    dict.insert("Nested".to_string(), Value::Dictionary(inner));
    dict.insert("Icon".to_string(), Value::Data(vec![1, 2, 3, 4]));
    PlistState { root: Value::Dictionary(dict), xml_output: false, dirty: false }
}

fn root_dict(state: &PlistState) -> &Dictionary {
    match &state.root {
        Value::Dictionary(d) => d,
        _ => panic!("Expected dict"),
    }
}

fn is_success(r: &CommandResult) -> bool {
    matches!(r, CommandResult::Success)
}

fn print(state: &PlistState, args: &str) -> Step {
    let mut out: Vec<Piece> = Vec::new();
    cmd_print(state, args, &mut out)
}

fn set(state: &mut PlistState, args: &str, reading: Reading) -> CommandResult {
    let mut out: Vec<Piece> = Vec::new();
    cmd_set(state, args, &reading, &mut out)
}

fn add(state: &mut PlistState, args: &str, reading: Reading) -> CommandResult {
    let mut out: Vec<Piece> = Vec::new();
    cmd_add(state, args, &reading, &mut out)
}

fn delete(state: &mut PlistState, args: &str) -> CommandResult {
    let mut out: Vec<Piece> = Vec::new();
    cmd_delete(state, args, &mut out)
}

fn copy(state: &mut PlistState, args: &str) -> CommandResult {
    let mut out: Vec<Piece> = Vec::new();
    cmd_copy(state, args, &mut out)
}

fn clear(state: &mut PlistState, args: &str) -> CommandResult {
    let mut out: Vec<Piece> = Vec::new();
    cmd_clear(state, args, &mut out)
}

fn execute(state: &mut PlistState, input: &str) -> Step {
    let mut out: Vec<Piece> = Vec::new();
    execute_command(state, input, &Reading::Unreadable, &mut out)
}

fn make(type_str: &str, value_str: &str, reading: Reading) -> Result<Option<Value>, String> {
    let mut out: Vec<Piece> = Vec::new();
    make_value_from_type(type_str, value_str, &reading, &mut out)
}

fn coerce(existing: &Value, input: &str, reading: Reading) -> Value {
    let mut out: Vec<Piece> = Vec::new();
    coerce_value(existing, input, &reading, &mut out)
}

// --- Entry path parsing ---

#[test]
fn test_parse_entry_path_with_colon() {
    assert_eq!(parse_entry_path(":Name"), vec!["Name"]);
}

#[test]
fn test_parse_entry_path_without_colon() {
    assert_eq!(parse_entry_path("Name"), vec!["Name"]);
}

#[test]
fn test_parse_entry_path_nested() {
    assert_eq!(parse_entry_path(":Nested:Inner"), vec!["Nested", "Inner"]);
}

#[test]
fn test_parse_entry_path_empty() {
    assert!(parse_entry_path("").is_empty());
    assert!(parse_entry_path(":").is_empty());
}

#[test]
fn test_parse_entry_path_array_index() {
    assert_eq!(parse_entry_path(":Tags:0"), vec!["Tags", "0"]);
}

#[test]
fn test_parse_entry_path_trailing_colon() {
    assert_eq!(parse_entry_path(":Tags:"), vec!["Tags", ""]);
}

// --- Print ---

#[test]
fn test_print_string() {
    let state = make_test_state();
    let result = print(&state, ":Name");
    assert!(matches!(result, Step::Finished(CommandResult::Success)));
}

#[test]
fn test_print_nonexistent() {
    let state = make_test_state();
    let result = print(&state, ":Nonexistent");
    match result {
        Step::Finished(CommandResult::StderrError(msg)) => {
            assert_eq!(msg, "Print: Entry, \":Nonexistent\", Does Not Exist");
        }
        _ => panic!("Expected error"),
    }
}

#[test]
fn test_print_empty_prints_all() {
    let state = make_test_state();
    let result = print(&state, "");
    assert!(matches!(result, Step::Finished(CommandResult::Success)));
}

// --- Set ---

#[test]
fn test_set_string() {
    let mut state = make_test_state();
    let result = set(&mut state, ":Name NewName", Reading::Unreadable);
    assert!(is_success(&result));
    assert_eq!(root_dict(&state).get("Name").unwrap().as_string().unwrap(), "NewName");
}

#[test]
fn test_set_integer() {
    let mut state = make_test_state();
    let result = set(&mut state, ":Version 99", Reading::Unreadable);
    assert!(is_success(&result));
    assert_eq!(root_dict(&state).get("Version").unwrap().as_signed_integer().unwrap(), 99);
}

#[test]
fn test_set_bool() {
    let mut state = make_test_state();
    let result = set(&mut state, ":Enabled false", Reading::Unreadable);
    assert!(is_success(&result));
    assert!(!root_dict(&state).get("Enabled").unwrap().as_boolean().unwrap());
}

#[test]
fn test_set_nonexistent() {
    let mut state = make_test_state();
    let result = set(&mut state, ":Nonexistent foo", Reading::Unreadable);
    match result {
        CommandResult::StderrError(msg) => {
            assert_eq!(msg, "Set: Entry, \":Nonexistent\", Does Not Exist");
        }
        _ => panic!("Expected error"),
    }
}

#[test]
fn test_set_container_fails() {
    let mut state = make_test_state();
    let result = set(&mut state, ":Tags foo", Reading::Unreadable);
    match result {
        CommandResult::StderrError(msg) => {
            assert_eq!(msg, "Set: Cannot Perform Set On Containers");
        }
        _ => panic!("Expected error"),
    }
}

// --- Add ---

#[test]
fn test_add_string() {
    let mut state = make_test_state();
    let result = add(&mut state, ":NewKey string hello", Reading::Unreadable);
    assert!(is_success(&result));
    assert_eq!(root_dict(&state).get("NewKey").unwrap().as_string().unwrap(), "hello");
}

#[test]
fn test_add_existing_fails() {
    let mut state = make_test_state();
    let result = add(&mut state, ":Name string foo", Reading::Unreadable);
    match result {
        CommandResult::StderrError(msg) => {
            assert_eq!(msg, "Add: \":Name\" Entry Already Exists");
        }
        _ => panic!("Expected error"),
    }
}

#[test]
fn test_add_dict() {
    let mut state = make_test_state();
    let result = add(&mut state, ":NewDict dict", Reading::Unreadable);
    assert!(is_success(&result));
    assert!(root_dict(&state).get("NewDict").unwrap().as_dictionary().is_some());
}

#[test]
fn test_add_array_append() {
    let mut state = make_test_state();
    let result = add(&mut state, ":Tags: string gamma", Reading::Unreadable);
    assert!(is_success(&result));
    let arr = root_dict(&state).get("Tags").unwrap().as_array().unwrap();
    assert_eq!(arr.len(), 3);
    assert_eq!(arr[2].as_string().unwrap(), "gamma");
}

#[test]
fn test_add_array_insert_at_index() {
    let mut state = make_test_state();
    let result = add(&mut state, ":Tags:0 string first", Reading::Unreadable);
    assert!(is_success(&result));
    let arr = root_dict(&state).get("Tags").unwrap().as_array().unwrap();
    assert_eq!(arr.len(), 3);
    assert_eq!(arr[0].as_string().unwrap(), "first");
    assert_eq!(arr[1].as_string().unwrap(), "alpha");
}

#[test]
fn test_add_integer() {
    let mut state = make_test_state();
    let result = add(&mut state, ":NewInt integer 99", Reading::Unreadable);
    assert!(is_success(&result));
    assert_eq!(root_dict(&state).get("NewInt").unwrap().as_signed_integer().unwrap(), 99);
}

#[test]
fn test_add_bool() {
    let mut state = make_test_state();
    let result = add(&mut state, ":NewBool bool true", Reading::Unreadable);
    assert!(is_success(&result));
    assert!(root_dict(&state).get("NewBool").unwrap().as_boolean().unwrap());
}

#[test]
fn test_add_real() {
    let mut state = make_test_state();
    let result = add(&mut state, ":NewReal real 2.718", Reading::Real(2.718f64.to_bits()));
    assert!(is_success(&result));
    let v = f64::from_bits(root_dict(&state).get("NewReal").unwrap().as_real().unwrap());
    assert!((v - 2.718).abs() < 1e-6);
}

#[test]
fn test_add_data() {
    let mut state = make_test_state();
    let result = add(&mut state, ":NewData data AQID", Reading::Unreadable);
    assert!(is_success(&result));
    assert_eq!(root_dict(&state).get("NewData").unwrap().as_data().unwrap(), b"AQID");
}

#[test]
fn test_add_unrecognized_type() {
    let mut state = make_test_state();
    let result = add(&mut state, ":Foo badtype bar", Reading::Unreadable);
    match result {
        CommandResult::StdoutError(msg) => {
            assert_eq!(msg, "Unrecognized Type: badtype");
        }
        _ => panic!("Expected error"),
    }
}

#[test]
fn test_add_empty_string() {
    let mut state = make_test_state();
    let result = add(&mut state, ":EmptyStr string", Reading::Unreadable);
    assert!(is_success(&result));
    assert_eq!(root_dict(&state).get("EmptyStr").unwrap().as_string().unwrap(), "");
}

// --- Delete ---

#[test]
fn test_delete_key() {
    let mut state = make_test_state();
    let result = delete(&mut state, ":Name");
    assert!(is_success(&result));
    assert!(!root_dict(&state).contains_key("Name"));
}

#[test]
fn test_delete_array_element() {
    let mut state = make_test_state();
    let result = delete(&mut state, ":Tags:0");
    assert!(is_success(&result));
    let arr = root_dict(&state).get("Tags").unwrap().as_array().unwrap();
    assert_eq!(arr.len(), 1);
    assert_eq!(arr[0].as_string().unwrap(), "beta");
}

#[test]
fn test_delete_nonexistent() {
    let mut state = make_test_state();
    let result = delete(&mut state, ":Nonexistent");
    match result {
        CommandResult::StderrError(msg) => {
            assert_eq!(msg, "Delete: Entry, \":Nonexistent\", Does Not Exist");
        }
        _ => panic!("Expected error"),
    }
}

// --- Copy ---

#[test]
fn test_copy_entry() {
    let mut state = make_test_state();
    let result = copy(&mut state, ":Name :NameCopy");
    assert!(is_success(&result));
    assert_eq!(root_dict(&state).get("NameCopy").unwrap().as_string().unwrap(), "Test App");
}

#[test]
fn test_copy_to_existing_fails() {
    let mut state = make_test_state();
    let result = copy(&mut state, ":Name :Version");
    match result {
        CommandResult::StderrError(msg) => {
            assert_eq!(msg, "Copy: \":Version\" Entry Already Exists");
        }
        _ => panic!("Expected error"),
    }
}

#[test]
fn test_copy_nonexistent_source() {
    let mut state = make_test_state();
    let result = copy(&mut state, ":Nonexistent :Foo");
    match result {
        CommandResult::StderrError(msg) => {
            assert_eq!(msg, "Copy: Entry, \":Nonexistent\", Does Not Exist");
        }
        _ => panic!("Expected error"),
    }
}

// --- Clear ---

#[test]
fn test_clear_dict() {
    let mut state = make_test_state();
    let result = clear(&mut state, "dict");
    assert!(is_success(&result));
    assert!(state.root.as_dictionary().unwrap().is_empty());
}

#[test]
fn test_clear_array() {
    let mut state = make_test_state();
    let result = clear(&mut state, "array");
    assert!(is_success(&result));
    assert!(state.root.as_array().unwrap().is_empty());
}

#[test]
fn test_clear_no_type_defaults_to_dict() {
    let mut state = make_test_state();
    let result = clear(&mut state, "");
    assert!(is_success(&result));
    assert!(state.root.as_dictionary().unwrap().is_empty());
}

// --- Command parsing ---

#[test]
fn test_command_case_insensitive() {
    let mut state = make_test_state();
    let result = execute(&mut state, "print :Name");
    assert!(matches!(result, Step::Finished(CommandResult::Success)));
    let result = execute(&mut state, "PRINT :Name");
    assert!(matches!(result, Step::Finished(CommandResult::Success)));
}

#[test]
fn test_unknown_command() {
    let mut state = make_test_state();
    let result = execute(&mut state, "Foo bar");
    match result {
        Step::Finished(CommandResult::StdoutError(msg)) => {
            assert_eq!(msg, "Unrecognized Command");
        }
        _ => panic!("Expected error"),
    }
}

#[test]
fn test_empty_command() {
    let mut state = make_test_state();
    let result = execute(&mut state, "");
    match result {
        Step::Finished(CommandResult::StdoutError(msg)) => {
            assert_eq!(msg, "Unrecognized Command");
        }
        _ => panic!("Expected error"),
    }
}

// --- Merge and import that cannot read their file ---

#[test]
fn test_merge_nonexistent_file() {
    let result = merge_read_failed("/tmp/no_such_file_merge.plist");
    assert!(matches!(result, CommandResult::StderrError(_)));
}

#[test]
fn test_import_nonexistent_file() {
    let result = import_read_failed("/tmp/no_such_file_import.txt");
    assert!(matches!(result, CommandResult::StderrError(_)));
}

// --- Make value from type ---

#[test]
fn test_make_value_string() {
    let v = make("string", "hello", Reading::Unreadable).unwrap().unwrap();
    assert_eq!(v.as_string().unwrap(), "hello");
}

#[test]
fn test_make_value_integer() {
    let v = make("integer", "42", Reading::Unreadable).unwrap().unwrap();
    assert_eq!(v.as_signed_integer().unwrap(), 42);
}

#[test]
fn test_make_value_real() {
    let v = make("real", "3.14", Reading::Real(3.14f64.to_bits())).unwrap().unwrap();
    assert!((f64::from_bits(v.as_real().unwrap()) - 3.14).abs() < 1e-6);
}

#[test]
fn test_make_value_bool_true() {
    let v = make("bool", "true", Reading::Unreadable).unwrap().unwrap();
    assert!(v.as_boolean().unwrap());
}

#[test]
fn test_make_value_bool_false() {
    let v = make("bool", "false", Reading::Unreadable).unwrap().unwrap();
    assert!(!v.as_boolean().unwrap());
}

#[test]
fn test_make_value_dict() {
    let v = make("dict", "", Reading::Unreadable).unwrap().unwrap();
    assert!(v.as_dictionary().unwrap().is_empty());
}

#[test]
fn test_make_value_array() {
    let v = make("array", "", Reading::Unreadable).unwrap().unwrap();
    assert!(v.as_array().unwrap().is_empty());
}

#[test]
fn test_make_value_data() {
    let v = make("data", "AQID", Reading::Unreadable).unwrap().unwrap();
    assert_eq!(v.as_data().unwrap(), b"AQID");
}

#[test]
fn test_make_value_unknown_type() {
    let result = make("badtype", "", Reading::Unreadable);
    assert!(result.is_err());
}

#[test]
fn test_type_case_insensitive() {
    assert!(make("String", "hi", Reading::Unreadable).is_ok());
    assert!(make("STRING", "hi", Reading::Unreadable).is_ok());
    assert!(make("Integer", "1", Reading::Unreadable).is_ok());
    assert!(make("BOOL", "true", Reading::Unreadable).is_ok());
}

// --- Nested entries ---

#[test]
fn test_set_nested_value() {
    let mut state = make_test_state();
    let result = set(&mut state, ":Nested:Inner newvalue", Reading::Unreadable);
    assert!(is_success(&result));
    let nested = root_dict(&state).get("Nested").unwrap().as_dictionary().unwrap();
    assert_eq!(nested.get("Inner").unwrap().as_string().unwrap(), "newvalue");
}

#[test]
fn test_set_array_element() {
    let mut state = make_test_state();
    let result = set(&mut state, ":Tags:0 newval", Reading::Unreadable);
    assert!(is_success(&result));
    let arr = root_dict(&state).get("Tags").unwrap().as_array().unwrap();
    assert_eq!(arr[0].as_string().unwrap(), "newval");
}

#[test]
fn test_delete_nested_key() {
    let mut state = make_test_state();
    let result = delete(&mut state, ":Nested:Inner");
    assert!(is_success(&result));
    let nested = root_dict(&state).get("Nested").unwrap().as_dictionary().unwrap();
    assert!(!nested.contains_key("Inner"));
}

// --- Format entry for error ---

#[test]
fn test_format_entry_for_error_with_colon() {
    assert_eq!(format_entry_for_error(":Name"), ":Name");
}

#[test]
fn test_format_entry_for_error_without_colon() {
    assert_eq!(format_entry_for_error("Name"), "Name");
}

// --- Coerce value ---

#[test]
fn test_coerce_string() {
    let existing = Value::String("old".to_string());
    let new = coerce(&existing, "new", Reading::Unreadable);
    assert_eq!(new.as_string().unwrap(), "new");
}

#[test]
fn test_coerce_integer() {
    let existing = Value::Integer(0);
    let new = coerce(&existing, "42", Reading::Unreadable);
    assert_eq!(new.as_signed_integer().unwrap(), 42);
}

#[test]
fn test_coerce_real() {
    let existing = Value::Real(0.0f64.to_bits());
    let new = coerce(&existing, "3.14", Reading::Real(3.14f64.to_bits()));
    assert!((f64::from_bits(new.as_real().unwrap()) - 3.14).abs() < 1e-6);
}

#[test]
fn test_coerce_bool() {
    let existing = Value::Boolean(false);
    let new = coerce(&existing, "true", Reading::Unreadable);
    assert!(new.as_boolean().unwrap());
}

#[test]
fn test_add_to_nested_dict() {
    let mut state = make_test_state();
    let result = add(&mut state, ":Nested:NewKey string newval", Reading::Unreadable);
    assert!(is_success(&result));
    let nested = root_dict(&state).get("Nested").unwrap().as_dictionary().unwrap();
    assert_eq!(nested.get("NewKey").unwrap().as_string().unwrap(), "newval");
}

#[test]
fn test_copy_nested() {
    let mut state = make_test_state();
    let result = copy(&mut state, ":Nested:Inner :CopiedInner");
    assert!(is_success(&result));
    assert_eq!(root_dict(&state).get("CopiedInner").unwrap().as_string().unwrap(), "value");
}

// --- execute_command dispatching ---

#[test]
fn test_execute_help() {
    let mut state = make_test_state();
    let result = execute(&mut state, "Help");
    assert!(matches!(result, Step::Finished(CommandResult::Success)));
}

#[test]
fn test_execute_exit() {
    let mut state = make_test_state();
    let result = execute(&mut state, "Exit");
    assert!(matches!(result, Step::Finished(CommandResult::Exit)));
}

#[test]
fn test_execute_save() {
    let mut state = make_test_state();
    let result = execute(&mut state, "Save");
    assert!(matches!(result, Step::Finished(CommandResult::Save)));
}

#[test]
fn test_execute_revert() {
    let mut state = make_test_state();
    let result = execute(&mut state, "Revert");
    assert!(matches!(result, Step::Finished(CommandResult::Revert)));
}

// --- split_first_word ---

#[test]
fn test_split_first_word() {
    assert_eq!(split_first_word("hello world"), ("hello", "world"));
    assert_eq!(split_first_word("hello"), ("hello", ""));
    assert_eq!(split_first_word("  hello  world  "), ("hello", "world"));
}
