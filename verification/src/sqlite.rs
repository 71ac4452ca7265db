//! Answers of the `sqlite3` command line tool in list mode: one row on each
//! line, its columns separated by `|`, an absent quantity written as an
//! empty column.

use crate::text::{
    fields_of, is_blank, lines, lines_of, parse_i64, parse_usize, signed_number, split, texts,
    trim, trimmed, unsigned_number,
};
use vstd::prelude::*;

verus! {

/// The byte that separates the columns of a row, `|`.
pub const COLUMN_MARK: u8 = 124;

/// The number of rows that a write is known to have added: the number by
/// which the table grew from `before` to `after`, and none where it did not
/// grow.
pub fn rows_inserted(before: usize, after: usize) -> (added: usize)
    ensures
        added == (if after >= before {
            after - before
        } else {
            0
        }),
{
    if after >= before {
        after - before
    } else {
        0
    }
}

/// Why the answer to a write gives no number of inserted rows.
#[derive(Debug, PartialEq, Eq, Clone, Copy)]
pub enum CountError {
    /// The answer has fewer than two lines.
    TooFewLines,
    /// The first line, taken without the blanks around it, is no count.
    InitialCount,
    /// The last line, taken without the blanks around it, is no count.
    FinalCount,
}

/// What the answer to a write says of the rows that it inserted: the growth
/// of the table from the count on the first line, taken before the write,
/// to the count on the last line, taken after it.
pub open spec fn inserted_count_of(output: Seq<u8>) -> Result<usize, CountError> {
    let found = lines_of(output);
    let before = unsigned_number(trimmed(found[0]), usize::MAX as int);
    let after = unsigned_number(trimmed(found.last()), usize::MAX as int);
    if found.len() < 2 {
        Err(CountError::TooFewLines)
    } else if before is None {
        Err(CountError::InitialCount)
    } else if after is None {
        Err(CountError::FinalCount)
    } else if after.unwrap() >= before.unwrap() {
        Ok((after.unwrap() - before.unwrap()) as usize)
    } else {
        Ok(0usize)
    }
}

/// Reads the number of rows that a write inserted from the tool's answer to
/// it.
pub fn inserted_count(output: &[u8]) -> (r: Result<usize, CountError>)
    ensures
        r == inserted_count_of(output@),
{
    let found = lines(output);
    assert(found@.len() == lines_of(output@).len());
    if found.len() < 2 {
        return Err(CountError::TooFewLines);
    }
    assert(found@[0]@ == texts(found@)[0]);
    assert(found@[found@.len() - 1]@ == texts(found@)[found@.len() - 1]);
    let before = match parse_usize(trim(found[0])) {
        Some(before) => before,
        None => { return Err(CountError::InitialCount) },
    };
    let after = match parse_usize(trim(found[found.len() - 1])) {
        Some(after) => after,
        None => { return Err(CountError::FinalCount) },
    };
    Ok(rows_inserted(before, after))
}

/// A row of a table as the tool prints it: the timestamp, and the text of
/// each quantity that is present.
pub struct TextRow<'a> {
    pub timestamp: i64,
    pub cells: Vec<Option<&'a [u8]>>,
}

/// The text of the column at index `k` of a row with the columns `fields`:
/// none where the row has no such column or the column is blank.
pub open spec fn cell_of(fields: Seq<Seq<u8>>, k: int) -> Option<Seq<u8>> {
    if 0 <= k < fields.len() && trimmed(fields[k]).len() > 0 {
        Some(fields[k])
    } else {
        None
    }
}

/// The timestamp that a row begins with, where its first column is a whole
/// number.
pub open spec fn row_timestamp(line: Seq<u8>) -> Option<int> {
    signed_number(fields_of(line, COLUMN_MARK)[0], i64::MIN as int, i64::MAX as int)
}

/// Reads a row with `quantities` columns after the timestamp. Returns
/// `None` where the first column is no timestamp.
pub fn read_row<'a>(line: &'a [u8], quantities: usize) -> (row: Option<TextRow<'a>>)
    ensures
        row is Some == row_timestamp(line@) is Some,
        row matches Some(r) ==> {
            &&& row_timestamp(line@) == Some(r.timestamp as int)
            &&& r.cells@.len() == quantities
            &&& forall|k: int|
                0 <= k < quantities ==> (#[trigger] r.cells@[k] is Some) == (cell_of(
                    fields_of(line@, COLUMN_MARK),
                    k + 1,
                ) is Some)
            &&& forall|k: int|
                0 <= k < quantities && r.cells@[k] is Some ==> Some(
                    (#[trigger] r.cells@[k]).unwrap()@,
                ) == cell_of(fields_of(line@, COLUMN_MARK), k + 1)
        },
{
    let cols = split(line, COLUMN_MARK);
    let ghost fields = fields_of(line@, COLUMN_MARK);
    assert(cols@.len() == fields.len());
    assert(fields.len() >= 1);
    assert(cols@[0]@ == texts(cols@)[0]);
    let timestamp = match parse_i64(cols[0]) {
        Some(ts) => ts,
        None => { return None },
    };
    let mut cells: Vec<Option<&'a [u8]>> = Vec::new();
    let mut k: usize = 0;
    while k < quantities
        invariant
            k <= quantities,
            cells@.len() == k,
            cols@.len() >= 1,
            fields == fields_of(line@, COLUMN_MARK),
            texts(cols@) == fields,
            forall|j: int|
                0 <= j < k ==> (#[trigger] cells@[j] is Some) == (cell_of(fields, j + 1) is Some),
            forall|j: int|
                0 <= j < k && cells@[j] is Some ==> Some((#[trigger] cells@[j]).unwrap()@)
                    == cell_of(fields, j + 1),
        decreases quantities - k,
    {
        let cell = if k < cols.len() - 1 {
            assert(cols@[k + 1]@ == texts(cols@)[k + 1]);
            if is_blank(cols[k + 1]) {
                None
            } else {
                Some(cols[k + 1])
            }
        } else {
            None
        };
        cells.push(cell);
        k += 1;
    }
    Some(TextRow { timestamp, cells })
}

} // verus!
