//! Shape checks for record batches built from named columns.
use vstd::prelude::*;
use crate::error::RelayError;
use crate::text::{nat_text, push_u64, str_eq};

verus! {

/// Message for names and columns of different counts.
pub open spec fn count_mismatch_text(names: nat, arrays: nat) -> Seq<char> {
    "column count mismatch: "@ + nat_text(names) + " names but "@ + nat_text(arrays) + " arrays"@
}

/// Message for a column whose length differs from the first column's.
pub open spec fn row_mismatch_text(name: Seq<char>, len: nat, expected: nat) -> Seq<char> {
    "row count mismatch: column '"@ + name + "' has "@ + nat_text(len) + " rows but expected "@
        + nat_text(expected)
}

/// `i` is the first column whose length differs from the first column's.
pub open spec fn first_short_column(lens: Seq<usize>, i: int) -> bool {
    &&& 0 < i < lens.len()
    &&& lens[i] != lens[0]
    &&& forall|j: int| 0 <= j < i ==> #[trigger] lens[j] == lens[0]
}

/// Checks the columns of a batch to be: as many names as columns, and all
/// columns of one length. Gives the row count (0 without columns).
pub fn check_batch_columns(names: &Vec<String>, column_lens: &[usize]) -> (r: Result<usize, RelayError>)
    ensures
        names@.len() != column_lens@.len() ==> (r matches Err(RelayError::Schema(m)) && m@
            == count_mismatch_text(names@.len(), column_lens@.len())),
        names@.len() == column_lens@.len() ==> match r {
            Ok(n) => (column_lens@.len() == 0 && n == 0) || (column_lens@.len() > 0 && n
                == column_lens@[0] && forall|j: int| 0 <= j < column_lens@.len() ==> column_lens@[j] == n),
            Err(e) => exists|i: int|
                first_short_column(column_lens@, i) && (e matches RelayError::Schema(m) && m@
                    == row_mismatch_text(names@[i]@, column_lens@[i] as nat, column_lens@[0] as nat)),
        },
{
    if names.len() != column_lens.len() {
        let mut m = String::from_str("column count mismatch: ");
        push_u64(&mut m, names.len() as u64);
        m.append(" names but ");
        push_u64(&mut m, column_lens.len() as u64);
        m.append(" arrays");
        return Err(RelayError::Schema(m));
    }
    if column_lens.len() == 0 {
        return Ok(0);
    }
    let num_rows = column_lens[0];
    let mut i: usize = 0;
    while i < column_lens.len()
        invariant
            names@.len() == column_lens@.len(),
            column_lens@.len() > 0,
            num_rows == column_lens@[0],
            i <= column_lens@.len(),
            forall|j: int| 0 <= j < i ==> column_lens@[j] == num_rows,
        decreases column_lens@.len() - i,
    {
        if column_lens[i] != num_rows {
            let mut m = String::from_str("row count mismatch: column '");
            m.append(names[i].as_str());
            m.append("' has ");
            push_u64(&mut m, column_lens[i] as u64);
            m.append(" rows but expected ");
            push_u64(&mut m, num_rows as u64);
            proof {
                assert(first_short_column(column_lens@, i as int));
            }
            return Err(RelayError::Schema(m));
        }
        i += 1;
    }
    Ok(num_rows)
}

/// Position of the first column called `name`; fails with `column not found`.
pub fn column_position(names: &Vec<String>, name: &str) -> (r: Result<usize, RelayError>)
    ensures
        match r {
            Ok(i) => i < names@.len() && names@[i as int]@ == name@ && forall|j: int|
                0 <= j < i ==> names@[j]@ != name@,
            Err(e) => (e matches RelayError::Schema(m) && m@ == "column not found: "@ + name@)
                && forall|j: int| 0 <= j < names@.len() ==> names@[j]@ != name@,
        },
{
    let mut i: usize = 0;
    while i < names.len()
        invariant
            i <= names@.len(),
            forall|j: int| 0 <= j < i ==> names@[j]@ != name@,
        decreases names@.len() - i,
    {
        if str_eq(names[i].as_str(), name) {
            return Ok(i);
        }
        i += 1;
    }
    let mut m = String::from_str("column not found: ");
    m.append(name);
    Err(RelayError::Schema(m))
}

} // verus!
