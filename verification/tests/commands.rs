//! Tests of the command layer: meta commands and statement-line parsing.

use lildb::table::Table;
use lildb::{do_meta_command, parsing_statement, MetaCommandResult, Statement,
    StatementCommandResult};

#[test]
fn exit_meta_command_is_recognized() {
    assert_eq!(do_meta_command(".exit"), MetaCommandResult::Success);
}

#[test]
fn other_meta_commands_are_not() {
    assert_eq!(do_meta_command(".quit"), MetaCommandResult::UnrecognizedCommand);
    assert_eq!(do_meta_command(".exit "), MetaCommandResult::UnrecognizedCommand);
    assert_eq!(do_meta_command(""), MetaCommandResult::UnrecognizedCommand);
}

#[test]
fn statement_keywords() {
    let mut table = Table::new();
    let result = parsing_statement(&mut table, "insert 1 a b");
    match result {
        StatementCommandResult::Success(statement) => {
            assert_eq!(statement.keyword(), "insert");
        }
        _ => panic!("insert line did not succeed"),
    }
    assert_eq!(Statement::Select.keyword(), "select");
}

#[test]
fn insert_line_stores_a_row() {
    let mut table = Table::new();
    let result = parsing_statement(&mut table, "insert 1 alice a@example.com");
    assert!(matches!(
        result,
        StatementCommandResult::Success(Statement::Insert(_))
    ));
    let rows = table.scan();
    assert_eq!(rows.len(), 1);
    assert_eq!(rows[0].id(), 1);
    assert_eq!(rows[0].username(), "alice");
    assert_eq!(rows[0].email(), "a@example.com");
}

#[test]
fn insert_with_wrong_arity_is_a_syntax_error() {
    let mut table = Table::new();
    for line in ["insert", "insert 1", "insert 1 a", "insert 1 a b c"] {
        match parsing_statement(&mut table, line) {
            StatementCommandResult::SyntaxError(message) => {
                assert_eq!(message, "Insert command takes exactly 3 args.");
            }
            _ => panic!("line {line:?} was not a syntax error"),
        }
    }
    assert_eq!(table.scan().len(), 0);
}

#[test]
fn insert_with_long_username_is_a_syntax_error() {
    let mut table = Table::new();
    let line = format!("insert 1 {} a@example.com", "u".repeat(33));
    match parsing_statement(&mut table, &line) {
        StatementCommandResult::SyntaxError(message) => {
            assert_eq!(message, "Username is too long.");
        }
        _ => panic!("long username was not a syntax error"),
    }
}

#[test]
fn insert_with_long_email_is_a_syntax_error() {
    let mut table = Table::new();
    let line = format!("insert 1 alice {}", "e".repeat(256));
    match parsing_statement(&mut table, &line) {
        StatementCommandResult::SyntaxError(message) => {
            assert_eq!(message, "Email is too long.");
        }
        _ => panic!("long email was not a syntax error"),
    }
}

#[test]
fn insert_with_bad_id_is_a_syntax_error() {
    let mut table = Table::new();
    match parsing_statement(&mut table, "insert x alice a@example.com") {
        StatementCommandResult::SyntaxError(message) => {
            assert_eq!(message, "Error: Invalid id.");
        }
        _ => panic!("bad id was not a syntax error"),
    }
}

#[test]
fn insert_into_full_table_reports_table_full() {
    let mut table = Table::with_max_pages(1);
    for id in 1..=14u32 {
        let line = format!("insert {id} user user@example.com");
        assert!(matches!(
            parsing_statement(&mut table, &line),
            StatementCommandResult::Success(_)
        ));
    }
    match parsing_statement(&mut table, "insert 15 user user@example.com") {
        StatementCommandResult::SyntaxError(message) => {
            assert_eq!(message, "Error: Table full.");
        }
        _ => panic!("full table insert was not reported"),
    }
    assert_eq!(table.scan().len(), 14);
}

#[test]
fn select_line_succeeds_on_empty_table() {
    let mut table = Table::new();
    let result = parsing_statement(&mut table, "select");
    assert!(matches!(
        result,
        StatementCommandResult::Success(Statement::Select)
    ));
}

#[test]
fn unknown_line_is_unrecognized() {
    let mut table = Table::new();
    let result = parsing_statement(&mut table, "update 1 a b");
    assert!(matches!(result, StatementCommandResult::Unrecognized));
    assert_eq!(table.scan().len(), 0);
}

#[test]
fn extra_whitespace_between_tokens_is_ignored() {
    let mut table = Table::new();
    let result = parsing_statement(&mut table, "  insert \t 3   carol  c@example.com ");
    assert!(matches!(result, StatementCommandResult::Success(_)));
    let rows = table.scan();
    assert_eq!(rows[0].id(), 3);
    assert_eq!(rows[0].username(), "carol");
}

#[test]
fn end_to_end_insert_and_select() {
    let mut table = Table::new();
    assert!(matches!(
        parsing_statement(&mut table, "insert 1 alice a@example.com"),
        StatementCommandResult::Success(_)
    ));
    assert!(matches!(
        parsing_statement(&mut table, "insert 2 bob b@example.com"),
        StatementCommandResult::Success(_)
    ));
    assert!(matches!(
        parsing_statement(&mut table, "select"),
        StatementCommandResult::Success(Statement::Select)
    ));
    let lines = table.select_lines();
    assert_eq!(lines.len(), 3);
    assert_eq!(lines[0], "| id     | username        | email                |");
    assert_eq!(lines[1], "| 1      | alice           | a@example.com        |");
    assert_eq!(lines[2], "| 2      | bob             | b@example.com        |");
}
