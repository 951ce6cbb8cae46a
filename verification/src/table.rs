//! The table: an ordered, append-only sequence of pages, bounded by a page
//! budget, with an insert placement policy and a full scan.

use vstd::prelude::*;
use vstd::string::StringExecFns;

use crate::command::{Statement, StatementCommandResult};
use crate::error::DbError;
use crate::page::{Page, ROWS_PER_PAGE};
use crate::row::{header_chars, render_row_chars, Row, RowV, ROW_SIZE};

verus! {

/// Pages a table may hold at most.
pub const TABLE_MAX_PAGES: usize = 3;

/// The values of all rows of `pages`, page by page, in order.
pub open spec fn flat_views(pages: Seq<Page>) -> Seq<RowV>
    decreases pages.len(),
{
    if pages.len() == 0 {
        Seq::empty()
    } else {
        flat_views(pages.drop_last()) + pages.last().row_views()
    }
}

/// Splitting off the page at `p` splits the flattened rows accordingly.
proof fn lemma_flat_views_snoc(pages: Seq<Page>, p: int)
    requires
        0 <= p < pages.len(),
    ensures
        flat_views(pages.subrange(0, p + 1)) == flat_views(pages.subrange(0, p)) + pages[p].row_views(),
{
    let front = pages.subrange(0, p + 1);
    assert(front.drop_last() =~= pages.subrange(0, p));
    assert(front.last() == pages[p]);
}

/// The whole in-memory dataset: pages in insertion order. Only the last
/// page may be partially filled; earlier pages are full.
#[derive(Debug)]
pub struct Table {
    pub pages: Vec<Page>,
    pub max_pages: usize,
}

impl Table {
    /// Every page is well-formed and non-empty, every page but the last is
    /// full, and the page count is within the bound.
    pub open spec fn wf(self) -> bool {
        &&& self.pages@.len() <= self.max_pages
        &&& forall|i: int| 0 <= i < self.pages@.len() ==> (#[trigger] self.pages@[i]).wf()
        &&& forall|i: int| 0 <= i < self.pages@.len() ==> (#[trigger] self.pages@[i]).rows@.len()
            >= 1
        &&& forall|i: int|
            0 <= i < self.pages@.len() - 1 ==> (#[trigger] self.pages@[i]).rows@.len()
                == ROWS_PER_PAGE
    }

    /// The values of all stored rows, in insertion order.
    pub open spec fn rows(self) -> Seq<RowV> {
        flat_views(self.pages@)
    }

    /// No further row can be stored: every allowed page exists and the last
    /// one is full (with a zero page budget the table is always full).
    pub open spec fn is_full(self) -> bool {
        &&& self.pages@.len() == self.max_pages
        &&& (self.pages@.len() == 0 || self.pages@.last().rows@.len() == ROWS_PER_PAGE)
    }

    /// The next insert opens a new page: there is none yet, or the last one
    /// is full.
    pub open spec fn needs_new_page(self) -> bool {
        self.pages@.len() == 0 || self.pages@.last().rows@.len() == ROWS_PER_PAGE
    }

    /// An empty table with the default page bound.
    pub fn new() -> (t: Table)
        ensures
            t.pages@ == Seq::<Page>::empty(),
            t.max_pages == TABLE_MAX_PAGES,
            t.wf(),
            t.rows() == Seq::<RowV>::empty(),
    {
        Table { pages: Vec::with_capacity(TABLE_MAX_PAGES), max_pages: TABLE_MAX_PAGES }
    }

    /// An empty table bounded by `max_pages` pages.
    pub fn with_max_pages(max_pages: usize) -> (t: Table)
        ensures
            t.pages@ == Seq::<Page>::empty(),
            t.max_pages == max_pages,
            t.wf(),
            t.rows() == Seq::<RowV>::empty(),
    {
        Table { pages: Vec::new(), max_pages }
    }

    /// Whether the table can take no further row.
    pub fn full(&self) -> (b: bool)
        requires
            self.wf(),
        ensures
            b == self.is_full(),
    {
        let n = self.pages.len();
        n == self.max_pages && (n == 0 || self.pages[n - 1].rows.len() == ROWS_PER_PAGE)
    }

    /// Stores a row after every earlier one.
    ///
    /// Fails with `TableFull`, leaving the table unchanged, exactly when
    /// the page bound is exhausted. Otherwise the row goes to the last page
    /// if it has spare capacity, else into a fresh page appended to the
    /// table.
    pub fn insert_row(&mut self, row: Row) -> (res: Result<(), DbError>)
        requires
            old(self).wf(),
            row.wf(),
        ensures
            final (self).wf(),
            final (self).max_pages == old(self).max_pages,
            old(self).is_full() ==> res == Err::<(), DbError>(DbError::TableFull) && *final (self)
                == *old(self),
            !old(self).is_full() ==> {
                &&& res == Ok::<(), DbError>(())
                &&& final (self).rows() == old(self).rows().push(row@)
                &&& final (self).pages@.len() == old(self).pages@.len() + (
                if old(self).needs_new_page() {
                    1int
                } else {
                    0int
                })
                &&& final (self).pages@.last().row_views() == (if old(self).needs_new_page() {
                    seq![row@]
                } else {
                    old(self).pages@.last().row_views().push(row@)
                })
            },
    {
        let n = self.pages.len();
        if n == self.max_pages && (n == 0 || self.pages[n - 1].rows.len() == ROWS_PER_PAGE) {
            return Err(DbError::TableFull);
        }
        if n > 0 && self.pages[n - 1].rows.len() < ROWS_PER_PAGE {
            let mut last = self.pages.pop().unwrap();
            last.push(row);
            self.pages.push(last);
            proof {
                assert(self.pages@.drop_last() =~= old(self).pages@.drop_last());
                assert(self.pages@.last() == last);
                assert(flat_views(self.pages@) == flat_views(self.pages@.drop_last())
                    + last.row_views());
                assert(old(self).rows() == flat_views(old(self).pages@.drop_last()) + old(
                    self,
                ).pages@.last().row_views());
                assert(final (self).rows() =~= old(self).rows().push(row@));
                assert forall|i: int| 0 <= i < self.pages@.len() implies (
                #[trigger] self.pages@[i]).wf() && self.pages@[i].rows@.len() >= 1 by {
                    if i < n - 1 {
                        assert(self.pages@[i] == old(self).pages@[i]);
                    }
                }
                assert forall|i: int|
                    0 <= i < self.pages@.len() - 1 implies (#[trigger] self.pages@[i]).rows@.len()
                    == ROWS_PER_PAGE by {
                    assert(self.pages@[i] == old(self).pages@[i]);
                }
            }
            Ok(())
        } else {
            let mut fresh = Page::new();
            proof {
                assert(ROW_SIZE == 291);
                assert(4096usize / 291usize == 14) by (nonlinear_arith);
                assert(ROWS_PER_PAGE == 14);
            }
            fresh.push(row);
            self.pages.push(fresh);
            proof {
                assert(self.pages@.drop_last() =~= old(self).pages@);
                assert(self.pages@.last() == fresh);
                assert(flat_views(self.pages@) == flat_views(old(self).pages@)
                    + fresh.row_views());
                assert(fresh.row_views() =~= seq![row@]);
                assert(final (self).rows() =~= old(self).rows().push(row@));
                assert forall|i: int| 0 <= i < self.pages@.len() implies (
                #[trigger] self.pages@[i]).wf() && self.pages@[i].rows@.len() >= 1 by {
                    if i < n {
                        assert(self.pages@[i] == old(self).pages@[i]);
                    }
                }
                assert forall|i: int|
                    0 <= i < self.pages@.len() - 1 implies (#[trigger] self.pages@[i]).rows@.len()
                    == ROWS_PER_PAGE by {
                    assert(self.pages@[i] == old(self).pages@[i]);
                }
            }
            Ok(())
        }
    }

    /// Copies out every stored row, page by page, in insertion order.
    pub fn scan(&self) -> (out: Vec<Row>)
        requires
            self.wf(),
        ensures
            out@.map(|i: int, r: Row| r@) == self.rows(),
            forall|i: int| 0 <= i < out@.len() ==> (#[trigger] out@[i]).wf(),
    {
        let mut out: Vec<Row> = Vec::new();
        let mut p: usize = 0;
        while p < self.pages.len()
            invariant
                self.wf(),
                p <= self.pages@.len(),
                out@.map(|i: int, r: Row| r@) == flat_views(self.pages@.subrange(0, p as int)),
                forall|i: int| 0 <= i < out@.len() ==> (#[trigger] out@[i]).wf(),
            decreases self.pages@.len() - p,
        {
            let rows_in_page = self.pages[p].rows.len();
            let mut j: usize = 0;
            while j < rows_in_page
                invariant
                    self.wf(),
                    p < self.pages@.len(),
                    rows_in_page == self.pages@[p as int].rows@.len(),
                    j <= rows_in_page,
                    out@.map(|i: int, r: Row| r@) == flat_views(self.pages@.subrange(0, p as int))
                        + self.pages@[p as int].row_views().subrange(0, j as int),
                    forall|i: int| 0 <= i < out@.len() ==> (#[trigger] out@[i]).wf(),
                decreases rows_in_page - j,
            {
                let cloned = self.pages[p].rows[j].clone();
                let ghost cv = cloned@;
                let ghost snap = out@;
                out.push(cloned);
                proof {
                    assert(cv == self.pages@[p as int].rows@[j as int]@);
                    assert(self.pages@[p as int].row_views()[j as int] == cv);
                    assert(self.pages@[p as int].row_views().subrange(0, j + 1)
                        =~= self.pages@[p as int].row_views().subrange(0, j as int).push(cv));
                    assert(out@.map(|i: int, r: Row| r@) =~= snap.map(|i: int, r: Row| r@).push(
                        cv,
                    ));
                    assert(out@.map(|i: int, r: Row| r@) =~= flat_views(
                        self.pages@.subrange(0, p as int),
                    ) + self.pages@[p as int].row_views().subrange(0, j + 1));
                }
                j = j + 1;
            }
            proof {
                lemma_flat_views_snoc(self.pages@, p as int);
                assert(self.pages@[p as int].row_views().subrange(
                    0,
                    self.pages@[p as int].rows@.len() as int,
                ) =~= self.pages@[p as int].row_views());
            }
            p = p + 1;
        }
        proof {
            assert(self.pages@.subrange(0, self.pages@.len() as int) =~= self.pages@);
        }
        out
    }

    /// Runs one statement against the table.
    ///
    /// An insert stores the row after every earlier one and reports it
    /// back, or reports "Error: Table full." and leaves the table
    /// unchanged exactly when the page bound is exhausted. A select leaves
    /// the table unchanged; its rendering is read through
    /// [`Table::select_lines`].
    pub fn execute(&mut self, statement: Statement) -> (r: StatementCommandResult)
        requires
            old(self).wf(),
            statement.wf(),
        ensures
            final (self).wf(),
            final (self).max_pages == old(self).max_pages,
            ({
                match statement {
                    Statement::Insert(row) => {
                        if old(self).is_full() {
                            &&& (r matches StatementCommandResult::SyntaxError(m) && m@
                                == "Error: Table full."@)
                            &&& *final (self) == *old(self)
                        } else {
                            &&& (r matches StatementCommandResult::Success(st)
                                && st matches Statement::Insert(row_back) && row_back@ == row@)
                            &&& final (self).rows() == old(self).rows().push(row@)
                            &&& final (self).pages@.len() == old(self).pages@.len() + (
                            if old(self).needs_new_page() {
                                1int
                            } else {
                                0int
                            })
                        }
                    },
                    Statement::Select => {
                        &&& (r matches StatementCommandResult::Success(st) && st is Select)
                        &&& *final (self) == *old(self)
                    },
                }
            }),
    {
        match statement {
            Statement::Insert(row) => {
                if self.full() {
                    return StatementCommandResult::SyntaxError(
                        String::from_str("Error: Table full."),
                    );
                }
                let stored = row.clone();
                let res = self.insert_row(stored);
                proof {
                    assert(res == Ok::<(), DbError>(()));
                }
                StatementCommandResult::Success(Statement::Insert(row))
            },
            Statement::Select => StatementCommandResult::Success(Statement::Select),
        }
    }

    /// Renders a select: the header line, then one line per stored row, in
    /// insertion order.
    pub fn select_lines(&self) -> (lines: Vec<String>)
        requires
            self.wf(),
        ensures
            lines@.len() == 1 + self.rows().len(),
            lines@[0]@ == header_chars(),
            forall|i: int|
                1 <= i < lines@.len() ==> (#[trigger] lines@[i])@ == render_row_chars(
                    self.rows()[i - 1],
                ),
    {
        let mut lines: Vec<String> = Vec::new();
        lines.push(Row::render_header());
        let rows = self.scan();
        let mut i: usize = 0;
        while i < rows.len()
            invariant
                rows@.map(|k: int, r: Row| r@) == self.rows(),
                i <= rows@.len(),
                lines@.len() == 1 + i,
                lines@[0]@ == header_chars(),
                forall|k: int|
                    1 <= k < lines@.len() ==> (#[trigger] lines@[k])@ == render_row_chars(
                        rows@[k - 1]@,
                    ),
            decreases rows@.len() - i,
        {
            lines.push(rows[i].render());
            i = i + 1;
        }
        proof {
            assert(rows@.len() == rows@.map(|k: int, r: Row| r@).len());
            assert forall|i2: int|
                1 <= i2 < lines@.len() implies (#[trigger] lines@[i2])@ == render_row_chars(
                self.rows()[i2 - 1],
            ) by {
                assert(self.rows()[i2 - 1] == rows@.map(|k: int, r: Row| r@)[i2 - 1]);
                assert(rows@.map(|k: int, r: Row| r@)[i2 - 1] == rows@[i2 - 1]@);
            }
        }
        lines
    }
}

} // verus!
