//! The command grammar, the name arithmetic and the reply mapping.
use rsheet::coordinator::Coordinator;
use rsheet::names::{cell_name_of, parse_cell_name, parse_range_name};
use rsheet::protocol::{parse_command, process_message, reply_for_get, Command, Reply};
use rsheet::value::Value;

#[test]
fn get_with_argument_parses() {
    assert_eq!(
        parse_command("get A1"),
        Command::GetCell("A1".to_string())
    );
    // The rest of the line, spaces included, is the name.
    assert_eq!(
        parse_command("get A1 B2"),
        Command::GetCell("A1 B2".to_string())
    );
}

#[test]
fn set_with_formula_parses() {
    assert_eq!(
        parse_command("set A1 1 + 2"),
        Command::SetCell("A1".to_string(), "1 + 2".to_string())
    );
}

#[test]
fn surrounding_blanks_are_ignored() {
    assert_eq!(
        parse_command("  get A1\n"),
        Command::GetCell("A1".to_string())
    );
}

#[test]
fn unicode_blanks_are_ignored_too() {
    // No-break space and ideographic space trim away, as std's trim has it.
    assert_eq!(
        parse_command("\u{00A0}get A1\u{3000}"),
        Command::GetCell("A1".to_string())
    );
}

#[test]
fn bare_get_is_invalid() {
    assert_eq!(
        parse_command("get"),
        Command::Invalid("Invalid get command".to_string())
    );
}

#[test]
fn bare_set_is_invalid() {
    assert_eq!(
        parse_command("set"),
        Command::Invalid("Invalid set command".to_string())
    );
}

#[test]
fn set_without_formula_is_invalid() {
    assert_eq!(
        parse_command("set A1"),
        Command::Invalid("Invalid command".to_string())
    );
    assert_eq!(
        parse_command("set A1 "),
        Command::Invalid("Invalid command".to_string())
    );
}

#[test]
fn unknown_command_is_invalid() {
    assert_eq!(
        parse_command("frobnicate A1"),
        Command::Invalid("Invalid command".to_string())
    );
}

#[test]
fn malformed_commands_leave_the_store_unchanged() {
    let mut c = Coordinator::new();
    c.set_cell("A1", "1");
    let (reply, changed) = process_message(&mut c, "set A1");
    assert!(changed.is_none());
    assert_eq!(reply, Some(Reply::Error("Invalid command".to_string())));
    let (reply, changed) = process_message(&mut c, "get");
    assert!(changed.is_none());
    assert_eq!(reply, Some(Reply::Error("Invalid get command".to_string())));
    assert_eq!(c.get_cell("A1"), Value::Int(1));
}

#[test]
fn set_reports_the_changed_cell() {
    let mut c = Coordinator::new();
    let (reply, changed) = process_message(&mut c, "set B2 41 + 1");
    assert!(reply.is_none());
    assert_eq!(changed, Some("B2".to_string()));
    assert_eq!(c.get_cell("B2"), Value::Int(42));
}

#[test]
fn column_names_round_the_alphabet() {
    assert_eq!(cell_name_of(0, 1), "A1");
    assert_eq!(cell_name_of(25, 10), "Z10");
    assert_eq!(cell_name_of(26, 1), "AA1");
    assert_eq!(cell_name_of(701, 2), "ZZ2");
    assert_eq!(cell_name_of(702, 3), "AAA3");
}

#[test]
fn cell_names_parse_back() {
    assert_eq!(parse_cell_name("A1"), Some((0, 1)));
    assert_eq!(parse_cell_name("Z10"), Some((25, 10)));
    assert_eq!(parse_cell_name("AAA703"), Some((702, 703)));
}

#[test]
fn malformed_cell_names_do_not_parse() {
    assert_eq!(parse_cell_name("a1"), None);
    assert_eq!(parse_cell_name("A"), None);
    assert_eq!(parse_cell_name("1A"), None);
    assert_eq!(parse_cell_name(""), None);
    assert_eq!(parse_cell_name("A1B"), None);
    // A row beyond u32 does not parse.
    assert_eq!(parse_cell_name("A99999999999"), None);
}

#[test]
fn range_names_parse_into_endpoints() {
    assert_eq!(parse_range_name("A1_B2"), Some(((0, 1), (1, 2))));
    assert_eq!(parse_range_name("A1_A3"), Some(((0, 1), (0, 3))));
    assert_eq!(parse_range_name("A1"), None);
    assert_eq!(parse_range_name("A1_"), None);
    assert_eq!(parse_range_name("sum_sleep"), None);
}

#[test]
fn sentinel_errors_map_to_short_replies() {
    let rt = "Runtime error: Unknown value: \"Circular dependency detected\" (line 1, position 1)";
    assert_eq!(
        reply_for_get("A1".to_string(), Value::Text(rt.to_string())),
        Reply::Error("Circular dependency".to_string())
    );
    assert_eq!(
        reply_for_get("A1".to_string(), Value::Error(rt.to_string())),
        Reply::Error("Circular dependency".to_string())
    );
    assert_eq!(
        reply_for_get(
            "A1".to_string(),
            Value::Text("'this' can only be used in functions (line 1, position 7)".to_string())
        ),
        Reply::Error("this err".to_string())
    );
    assert_eq!(
        reply_for_get(
            "A1".to_string(),
            Value::Text("Circular dependency detected".to_string())
        ),
        Reply::Error("Circular dependency".to_string())
    );
}

#[test]
fn ordinary_values_pass_through_as_value_replies() {
    assert_eq!(
        reply_for_get("B7".to_string(), Value::Int(3)),
        Reply::Value("B7".to_string(), Value::Int(3))
    );
    // Only the engine's exact sentinel texts are rewritten; a plain error
    // value under the short message passes through.
    assert_eq!(
        reply_for_get(
            "B7".to_string(),
            Value::Error("Circular dependency detected".to_string())
        ),
        Reply::Value(
            "B7".to_string(),
            Value::Error("Circular dependency detected".to_string())
        )
    );
}
