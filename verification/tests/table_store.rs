//! Tests of the paged table: placement policy, capacity, scanning, and the
//! statement executor's rendering.

use lildb::page::{Page, ROWS_PER_PAGE};
use lildb::row::Row;
use lildb::table::{Table, TABLE_MAX_PAGES};
use lildb::{DbError, Statement, StatementCommandResult};

fn row(id: u32) -> Row {
    Row::new(&id.to_string(), "user", "user@example.com").unwrap()
}

#[test]
fn page_constants() {
    assert_eq!(ROWS_PER_PAGE, 14);
    assert_eq!(TABLE_MAX_PAGES, 3);
}

#[test]
fn new_page_is_empty() {
    let page = Page::new();
    assert_eq!(page.rows.len(), 0);
}

#[test]
fn new_table_is_empty() {
    let table = Table::new();
    assert_eq!(table.pages.len(), 0);
    assert_eq!(table.scan().len(), 0);
}

#[test]
fn insert_ordering_is_kept() {
    let mut table = Table::new();
    for id in [1u32, 2, 3] {
        table.insert_row(row(id)).unwrap();
    }
    let ids: Vec<u32> = table.scan().iter().map(|r| r.id()).collect();
    assert_eq!(ids, vec![1, 2, 3]);
}

#[test]
fn fourteen_rows_fill_one_page() {
    let mut table = Table::new();
    for id in 1..=14u32 {
        table.insert_row(row(id)).unwrap();
    }
    assert_eq!(table.pages.len(), 1);
    assert_eq!(table.pages[0].rows.len(), 14);
}

#[test]
fn fifteenth_row_opens_second_page() {
    let mut table = Table::new();
    for id in 1..=15u32 {
        table.insert_row(row(id)).unwrap();
    }
    assert_eq!(table.pages.len(), 2);
    assert_eq!(table.pages[1].rows.len(), 1);
    assert_eq!(table.pages[1].rows[0].id(), 15);
}

#[test]
fn full_table_rejects_insert_and_keeps_rows() {
    let mut table = Table::with_max_pages(1);
    for id in 1..=14u32 {
        table.insert_row(row(id)).unwrap();
    }
    let err = table.insert_row(row(15)).unwrap_err();
    assert_eq!(err, DbError::TableFull);
    let ids: Vec<u32> = table.scan().iter().map(|r| r.id()).collect();
    assert_eq!(ids, (1..=14).collect::<Vec<u32>>());
}

#[test]
fn zero_page_table_is_always_full() {
    let mut table = Table::with_max_pages(0);
    let err = table.insert_row(row(1)).unwrap_err();
    assert_eq!(err, DbError::TableFull);
}

#[test]
fn default_bound_holds_three_pages() {
    let mut table = Table::new();
    for id in 1..=42u32 {
        table.insert_row(row(id)).unwrap();
    }
    assert_eq!(table.pages.len(), 3);
    let err = table.insert_row(row(43)).unwrap_err();
    assert_eq!(err, DbError::TableFull);
    assert_eq!(table.scan().len(), 42);
}

#[test]
fn execute_insert_reports_row_back() {
    let mut table = Table::new();
    let result = table.execute(Statement::Insert(row(9)));
    match result {
        StatementCommandResult::Success(Statement::Insert(reported)) => {
            assert_eq!(reported.id(), 9);
        }
        _ => panic!("insert did not succeed"),
    }
    assert_eq!(table.scan().len(), 1);
}

#[test]
fn execute_insert_on_full_table_reports_error() {
    let mut table = Table::with_max_pages(1);
    for id in 1..=14u32 {
        table.insert_row(row(id)).unwrap();
    }
    let result = table.execute(Statement::Insert(row(15)));
    match result {
        StatementCommandResult::SyntaxError(message) => {
            assert_eq!(message, "Error: Table full.");
        }
        _ => panic!("insert on a full table did not fail"),
    }
    assert_eq!(table.scan().len(), 14);
}

#[test]
fn execute_select_leaves_table_unchanged() {
    let mut table = Table::new();
    table.insert_row(row(1)).unwrap();
    let result = table.execute(Statement::Select);
    assert!(matches!(result, StatementCommandResult::Success(Statement::Select)));
    assert_eq!(table.scan().len(), 1);
}

#[test]
fn select_renders_header_and_rows_in_order() {
    let mut table = Table::new();
    table
        .insert_row(Row::new("1", "alice", "a@example.com").unwrap())
        .unwrap();
    table
        .insert_row(Row::new("2", "bob", "b@example.com").unwrap())
        .unwrap();
    let lines = table.select_lines();
    assert_eq!(
        lines,
        vec![
            "| id     | username        | email                |".to_string(),
            "| 1      | alice           | a@example.com        |".to_string(),
            "| 2      | bob             | b@example.com        |".to_string(),
        ]
    );
}

#[test]
fn select_on_empty_table_renders_header_only() {
    let table = Table::new();
    let lines = table.select_lines();
    assert_eq!(lines, vec!["| id     | username        | email                |".to_string()]);
}

#[test]
fn wide_fields_are_not_truncated_in_render() {
    let mut table = Table::new();
    table
        .insert_row(Row::new("4294967295", "a-very-long-username-here", "e").unwrap())
        .unwrap();
    let lines = table.select_lines();
    assert_eq!(lines[1], "| 4294967295 | a-very-long-username-here | e                    |");
}
