//! A page: a bounded, append-only group of rows sized to a fixed byte
//! budget.

use vstd::prelude::*;

use crate::row::{Row, RowV, ROW_SIZE};

verus! {

/// Byte budget of one page.
pub const PAGE_SIZE: usize = 4096;

/// Rows that fit in one page: the byte budget divided by the row width
/// (4096 / 291 = 14).
pub const ROWS_PER_PAGE: usize = PAGE_SIZE / ROW_SIZE;

/// An ordered, append-only sequence of rows, holding at most
/// `ROWS_PER_PAGE` of them.
#[derive(Debug)]
pub struct Page {
    pub rows: Vec<Row>,
}

impl Page {
    /// At most `ROWS_PER_PAGE` rows, each well-formed.
    pub open spec fn wf(self) -> bool {
        &&& self.rows@.len() <= ROWS_PER_PAGE
        &&& forall|i: int| 0 <= i < self.rows@.len() ==> (#[trigger] self.rows@[i]).wf()
    }

    /// The values of this page's rows, in order.
    pub open spec fn row_views(self) -> Seq<RowV> {
        self.rows@.map(|i: int, r: Row| r@)
    }

    /// An empty page, with capacity reserved for a full page of rows.
    pub fn new() -> (p: Page)
        ensures
            p.rows@ == Seq::<Row>::empty(),
            p.wf(),
    {
        Page { rows: Vec::with_capacity(ROWS_PER_PAGE) }
    }

    /// Appends a row. The caller keeps the page under its capacity: the
    /// table never pushes into a full page.
    pub fn push(&mut self, row: Row)
        requires
            old(self).wf(),
            old(self).rows@.len() < ROWS_PER_PAGE,
            row.wf(),
        ensures
            final (self).rows@ == old(self).rows@.push(row),
            final (self).row_views() == old(self).row_views().push(row@),
            final (self).wf(),
    {
        self.rows.push(row);
        proof {
            assert(self.row_views() =~= old(self).row_views().push(row@));
        }
    }
}

} // verus!
