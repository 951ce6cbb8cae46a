//! Commands of the line-oriented loop: the statement and result types, the
//! meta-command check, and the verified tokenizing/parsing of a statement
//! line.

use vstd::prelude::*;
use vstd::slice::{slice_subrange, slice_to_vec};
use vstd::string::{StringExecFns, StringSliceAdditionalSpecFns};

use crate::row::{Row, RowV, EMAIL_SIZE, USERNAME_SIZE};
use crate::table::Table;
use crate::text::{parse_u32, spec_parse_u32};
use crate::util::{bytes_eq, pad_field};

verus! {

/// Outcome of a meta command (a line starting with `.`).
#[derive(Clone, Copy, Debug, PartialEq, Eq, Structural)]
pub enum MetaCommandResult {
    Success,
    UnrecognizedCommand,
}

/// Outcome of executing a statement line.
pub enum StatementCommandResult {
    Success(Statement),
    SyntaxError(String),
    Unrecognized,
}

/// A parsed statement: insert one row, or list every row.
pub enum Statement {
    Insert(Row),
    Select,
}

impl Statement {
    /// A carried row is well-formed.
    pub open spec fn wf(self) -> bool {
        match self {
            Statement::Insert(row) => row.wf(),
            Statement::Select => true,
        }
    }

    /// The statement's keyword, as shown to the user.
    pub fn keyword(&self) -> (s: String)
        ensures
            self is Insert ==> s@ == "insert"@,
            self is Select ==> s@ == "select"@,
    {
        match self {
            Statement::Insert(_) => String::from_str("insert"),
            Statement::Select => String::from_str("select"),
        }
    }
}

/// Decides a meta command: only `.exit` is recognized. The caller owns the
/// exit itself.
pub fn do_meta_command(line: &str) -> (r: MetaCommandResult)
    ensures
        r is Success <==> line.spec_bytes() == ".exit".spec_bytes(),
{
    if bytes_eq(line.as_bytes(), ".exit".as_bytes()) {
        MetaCommandResult::Success
    } else {
        MetaCommandResult::UnrecognizedCommand
    }
}

/// `n` occurs as a contiguous run of bytes somewhere in `h`.
pub open spec fn spec_contains(h: Seq<u8>, n: Seq<u8>) -> bool {
    exists|i: int| 0 <= i && i + n.len() <= h.len() && #[trigger] h.subrange(i, i + n.len()) == n
}

/// Naive substring search, per [`spec_contains`].
pub fn contains_bytes(h: &[u8], n: &[u8]) -> (r: bool)
    ensures
        r == spec_contains(h@, n@),
{
    if n.len() == 0 {
        proof {
            assert(h@.subrange(0, 0 + n@.len() as int) =~= n@);
        }
        return true;
    }
    if n.len() > h.len() {
        return false;
    }
    let last_start = h.len() - n.len();
    let mut i: usize = 0;
    while i <= last_start
        invariant
            1 <= n@.len() <= h@.len(),
            h@.len() <= usize::MAX,
            last_start == h@.len() - n@.len(),
            i <= last_start + 1,
            forall|k: int| 0 <= k < i ==> #[trigger] h@.subrange(k, k + n@.len()) != n@,
        decreases last_start + 1 - i,
    {
        let window = slice_subrange(h, i, i + n.len());
        if bytes_eq(window, n) {
            return true;
        }
        i = i + 1;
    }
    false
}

/// `b` is an ASCII whitespace byte.
pub open spec fn is_ws(b: u8) -> bool {
    b == 32 || b == 9 || b == 10 || b == 11 || b == 12 || b == 13
}

/// The position of the first whitespace byte of `b`, or `b.len()` if none.
pub open spec fn ws_index(b: Seq<u8>) -> int
    decreases b.len(),
{
    if b.len() == 0 {
        0
    } else if is_ws(b[0]) {
        0
    } else {
        1 + ws_index(b.drop_first())
    }
}

/// `ws_index` points at the first whitespace byte, or past the end.
pub proof fn lemma_ws_index(b: Seq<u8>)
    ensures
        0 <= ws_index(b) <= b.len(),
        forall|j: int| 0 <= j < ws_index(b) ==> !is_ws(b[j]),
        ws_index(b) < b.len() ==> is_ws(b[ws_index(b)]),
    decreases b.len(),
{
    if b.len() > 0 && !is_ws(b[0]) {
        lemma_ws_index(b.drop_first());
        assert forall|j: int| 0 <= j < ws_index(b) implies !is_ws(b[j]) by {
            if j > 0 {
                assert(!is_ws(b.drop_first()[j - 1]));
            }
        }
        if ws_index(b) < b.len() {
            assert(b[ws_index(b)] == b.drop_first()[ws_index(b.drop_first())]);
        }
    }
}

/// The maximal runs of non-whitespace bytes of `b`, in order.
pub open spec fn spec_tokens(b: Seq<u8>) -> Seq<Seq<u8>>
    decreases b.len(),
        via spec_tokens_decreases
{
    if b.len() == 0 {
        Seq::empty()
    } else if is_ws(b[0]) {
        spec_tokens(b.drop_first())
    } else {
        seq![b.subrange(0, ws_index(b))] + spec_tokens(b.subrange(ws_index(b), b.len() as int))
    }
}

#[via_fn]
proof fn spec_tokens_decreases(b: Seq<u8>) {
    if b.len() > 0 && !is_ws(b[0]) {
        lemma_ws_index(b);
    }
}

/// Splits `b` into its maximal non-whitespace runs, per [`spec_tokens`].
pub fn split_ws(b: &[u8]) -> (toks: Vec<Vec<u8>>)
    ensures
        toks.deep_view() == spec_tokens(b@),
{
    let mut toks: Vec<Vec<u8>> = Vec::new();
    let mut i: usize = 0;
    proof {
        assert(b@.subrange(0, b@.len() as int) =~= b@);
        assert(toks.deep_view() + spec_tokens(b@) =~= spec_tokens(b@));
    }
    while i < b.len()
        invariant
            i <= b@.len(),
            spec_tokens(b@) == toks.deep_view() + spec_tokens(
                b@.subrange(i as int, b@.len() as int),
            ),
        decreases b@.len() - i,
    {
        let ghost rest = b@.subrange(i as int, b@.len() as int);
        if is_ws_byte(b[i]) {
            proof {
                assert(rest.drop_first() =~= b@.subrange(i + 1, b@.len() as int));
                assert(spec_tokens(rest) == spec_tokens(b@.subrange(i + 1, b@.len() as int)));
            }
            i = i + 1;
        } else {
            let start = i;
            i = i + 1;
            while i < b.len() && !is_ws_byte(b[i])
                invariant
                    start < i <= b@.len(),
                    forall|j: int| start < j < i ==> !is_ws(b@[j]),
                decreases b@.len() - i,
            {
                i = i + 1;
            }
            let tok = slice_subrange(b, start, i);
            let ghost snap = toks.deep_view();
            toks.push(slice_to_vec(tok));
            proof {
                lemma_ws_index(rest);
                assert forall|j: int| 0 <= j < i - start implies !is_ws(rest[j]) by {
                    assert(rest[j] == b@[start + j]);
                }
                if i < b@.len() {
                    assert(is_ws(rest[i - start]));
                }
                assert(ws_index(rest) == i - start);
                assert(rest.subrange(0, ws_index(rest)) =~= b@.subrange(
                    start as int,
                    i as int,
                ));
                assert(rest.subrange(ws_index(rest), rest.len() as int) =~= b@.subrange(
                    i as int,
                    b@.len() as int,
                ));
                assert(spec_tokens(rest) == seq![b@.subrange(start as int, i as int)]
                    + spec_tokens(b@.subrange(i as int, b@.len() as int)));
                assert(toks.deep_view() =~~= snap.push(b@.subrange(start as int, i as int)));
                assert(toks.deep_view() + spec_tokens(b@.subrange(i as int, b@.len() as int))
                    =~~= snap + spec_tokens(rest));
            }
        }
    }
    proof {
        assert(b@.subrange(i as int, b@.len() as int) =~= Seq::<u8>::empty());
        assert(spec_tokens(Seq::<u8>::empty()) == Seq::<Seq<u8>>::empty());
        assert(toks.deep_view() + Seq::<Seq<u8>>::empty() =~= toks.deep_view());
    }
    toks
}

/// The row an insert line stores: the parsed id and the two token byte
/// strings, zero-padded to their field widths.
pub open spec fn insert_row_value(toks: Seq<Seq<u8>>) -> RowV
    recommends
        toks.len() == 4,
{
    RowV {
        id: spec_parse_u32(toks[1])->Some_0,
        username: pad_field(toks[2], USERNAME_SIZE as int),
        email: pad_field(toks[3], EMAIL_SIZE as int),
    }
}

/// Parses one input line and runs the statement it holds on the table.
///
/// A line containing `insert` must split into exactly four whitespace
/// separated tokens, `insert <id> <username> <email>`; each failed check is
/// reported in order (argument count, username width, email width, id,
/// table capacity) and leaves the table unchanged, and otherwise the row is
/// stored. A line containing `select` (and no `insert`) always succeeds.
/// Any other line is unrecognized.
pub fn parsing_statement(table: &mut Table, line: &str) -> (r: StatementCommandResult)
    requires
        old(table).wf(),
    ensures
        final (table).wf(),
        final (table).max_pages == old(table).max_pages,
        ({
            let b = line.spec_bytes();
            let toks = spec_tokens(b);
            if spec_contains(b, "insert".spec_bytes()) {
                if toks.len() != 4 {
                    &&& (r matches StatementCommandResult::SyntaxError(m) && m@
                        == "Insert command takes exactly 3 args."@)
                    &&& *final (table) == *old(table)
                } else if toks[2].len() > USERNAME_SIZE {
                    &&& (r matches StatementCommandResult::SyntaxError(m) && m@
                        == "Username is too long."@)
                    &&& *final (table) == *old(table)
                } else if toks[3].len() > EMAIL_SIZE {
                    &&& (r matches StatementCommandResult::SyntaxError(m) && m@
                        == "Email is too long."@)
                    &&& *final (table) == *old(table)
                } else if spec_parse_u32(toks[1]) is None {
                    &&& (r matches StatementCommandResult::SyntaxError(m) && m@
                        == "Error: Invalid id."@)
                    &&& *final (table) == *old(table)
                } else if old(table).is_full() {
                    &&& (r matches StatementCommandResult::SyntaxError(m) && m@
                        == "Error: Table full."@)
                    &&& *final (table) == *old(table)
                } else {
                    &&& (r matches StatementCommandResult::Success(st) && st matches
                        Statement::Insert(row) && row@ == insert_row_value(toks))
                    &&& final (table).rows() == old(table).rows().push(insert_row_value(toks))
                }
            } else if spec_contains(b, "select".spec_bytes()) {
                &&& (r matches StatementCommandResult::Success(st) && st is Select)
                &&& *final (table) == *old(table)
            } else {
                &&& r is Unrecognized
                &&& *final (table) == *old(table)
            }
        }),
{
    let bytes = line.as_bytes();
    if contains_bytes(bytes, "insert".as_bytes()) {
        let toks = split_ws(bytes);
        proof {
            assert(toks.deep_view().len() == toks@.len());
            assert forall|k: int| 0 <= k < toks@.len() implies (#[trigger] toks@[k])@
                == spec_tokens(line.spec_bytes())[k] by {
                assert(toks.deep_view()[k] == toks@[k].deep_view());
                assert(toks@[k].deep_view() =~= toks@[k]@);
            }
        }
        if toks.len() != 4 {
            return StatementCommandResult::SyntaxError(
                String::from_str("Insert command takes exactly 3 args."),
            );
        }
        if toks[2].len() > USERNAME_SIZE {
            return StatementCommandResult::SyntaxError(
                String::from_str("Username is too long."),
            );
        }
        if toks[3].len() > EMAIL_SIZE {
            return StatementCommandResult::SyntaxError(String::from_str("Email is too long."));
        }
        let id = match parse_u32(toks[1].as_slice()) {
            Some(v) => v,
            None => {
                return StatementCommandResult::SyntaxError(
                    String::from_str("Error: Invalid id."),
                );
            },
        };
        let row = Row::from_parts(id, toks[2].as_slice(), toks[3].as_slice());
        proof {
            assert(row@ == insert_row_value(spec_tokens(line.spec_bytes())));
        }
        table.execute(Statement::Insert(row))
    } else if contains_bytes(bytes, "select".as_bytes()) {
        table.execute(Statement::Select)
    } else {
        StatementCommandResult::Unrecognized
    }
}

/// Whether one byte is ASCII whitespace, per [`is_ws`].
fn is_ws_byte(b: u8) -> (r: bool)
    ensures
        r == is_ws(b),
{
    b == 32 || b == 9 || b == 10 || b == 11 || b == 12 || b == 13
}

} // verus!
