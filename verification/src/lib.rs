//! A small in-memory record store: fixed-width row codec, paged table
//! storage, and a statement executor over both.

pub mod command;
pub mod error;
pub mod page;
pub mod row;
pub mod table;
pub mod text;
pub mod util;

pub use command::{
    do_meta_command, parsing_statement, MetaCommandResult, Statement, StatementCommandResult,
};
pub use error::DbError;
pub use page::Page;
pub use row::Row;
pub use table::Table;
