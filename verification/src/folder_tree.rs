//! The rows the folder tree holds in memory, counted to decide when a
//! collapsed folder's children are released.

use vstd::prelude::*;

verus! {

/// A row of the folder tree.
pub enum TreeRow {
    /// Stands in for a page of siblings that was evicted; it has no children.
    Placeholder,
    /// A folder, with its children when they were loaded.
    Folder(Option<Vec<TreeRow>>),
}

/// Rows held by `row` and everything loaded under it.
pub open spec fn row_count(row: TreeRow) -> nat
    decreases row,
{
    match row {
        TreeRow::Placeholder => 1,
        TreeRow::Folder(None) => 1,
        TreeRow::Folder(Some(children)) => 1 + rows_count(children@),
    }
}

/// Rows held by `rows` and everything loaded under them.
pub open spec fn rows_count(rows: Seq<TreeRow>) -> nat
    decreases rows,
{
    if rows.len() == 0 {
        0
    } else {
        rows_count(rows.drop_last()) + row_count(rows.last())
    }
}

/// Counts the rows of a level of the folder tree and every level loaded
/// below it: placeholders count once, folders once plus their loaded
/// children.
pub fn count_loaded_child_rows(rows: &Vec<TreeRow>) -> (total: usize)
    requires
        rows_count(rows@) <= usize::MAX,
    ensures
        total == rows_count(rows@),
    decreases rows@,
{
    let mut total: usize = 0;
    let mut k: usize = 0;
    while k < rows.len()
        invariant
            k <= rows@.len(),
            rows_count(rows@) <= usize::MAX,
            total == rows_count(rows@.take(k as int)),
        decreases rows@.len() - k,
    {
        proof {
            assert(rows@.take(k + 1).drop_last() =~= rows@.take(k as int));
            assert(rows@.take(k + 1).last() == rows@[k as int]);
            lemma_rows_count_prefix(rows@, k + 1);
            assert(rows_count(rows@.take(k + 1)) == total + row_count(rows@[k as int]));
        }
        match &rows[k] {
            TreeRow::Placeholder => {
                total += 1;
            },
            TreeRow::Folder(None) => {
                total += 1;
            },
            TreeRow::Folder(Some(children)) => {
                proof {
                    assert(decreases_to!(rows@ => rows@[k as int]));
                }
                let below = count_loaded_child_rows(children);
                total += 1 + below;
            },
        }
        k += 1;
    }
    proof {
        assert(rows@.take(k as int) =~= rows@);
    }
    total
}

proof fn lemma_rows_count_prefix(rows: Seq<TreeRow>, n: int)
    requires
        0 <= n <= rows.len(),
    ensures
        rows_count(rows.take(n)) <= rows_count(rows),
    decreases rows.len(),
{
    if n < rows.len() {
        assert(rows.drop_last().take(n) =~= rows.take(n));
        lemma_rows_count_prefix(rows.drop_last(), n);
    } else {
        assert(rows.take(n) =~= rows);
    }
}

} // verus!
