//! The check that a raw row has a field for every column.

use crate::error::{Error, ErrorView};
use vstd::prelude::*;

verus! {

/// A raw row with exactly one field for each column of its table.
#[derive(Debug, PartialEq, Eq)]
pub struct RawRow<'a> {
    pub fields: &'a [String],
}

impl<'a> View for RawRow<'a> {
    type V = Seq<Seq<char>>;

    open spec fn view(&self) -> Seq<Seq<char>> {
        self.fields.deep_view()
    }
}

/// What normalizing the fields of the row at `row_index` yields for a table of
/// `expected_column_count` columns: the first `expected_column_count` fields,
/// or `DeserIncompleteRow` where the row has fewer. Fields beyond those of the
/// columns are dropped.
pub open spec fn normalized(
    raw_fields: Seq<Seq<char>>,
    expected_column_count: nat,
    row_index: usize,
) -> Result<Seq<Seq<char>>, ErrorView> {
    if raw_fields.len() < expected_column_count {
        Err(ErrorView::DeserIncompleteRow { row: row_index })
    } else {
        Ok(raw_fields.take(expected_column_count as int))
    }
}

/// Checks that the row at `row_index`, counted from 0, has a field for each of
/// the `expected_column_count` columns, and drops the fields that follow them.
///
/// Fails with `DeserIncompleteRow(row_index)` where the row has fewer fields
/// than there are columns. No field is read or changed.
pub fn normalize<'a>(
    raw_fields: &'a [String],
    expected_column_count: usize,
    row_index: usize,
) -> (result: Result<RawRow<'a>, Error>)
    ensures
        match result {
            Ok(row) => normalized(raw_fields.deep_view(), expected_column_count as nat, row_index)
                == Ok::<Seq<Seq<char>>, ErrorView>(row@),
            Err(e) => normalized(raw_fields.deep_view(), expected_column_count as nat, row_index)
                == Err::<Seq<Seq<char>>, ErrorView>(e@),
        },
        result matches Ok(row) ==> row@.len() == expected_column_count,
{
    if raw_fields.len() < expected_column_count {
        Err(Error::DeserIncompleteRow(row_index))
    } else {
        let fields = &raw_fields[0..expected_column_count];
        assert(fields.deep_view() =~= raw_fields.deep_view().take(expected_column_count as int));
        Ok(RawRow { fields })
    }
}

} // verus!
