use vstd::prelude::*;

use crate::error::Error;

verus! {

/// Whether all the cells of a row, given by whether each one is empty, are empty.
pub open spec fn all_empty(cells: Seq<bool>) -> bool {
    forall|i: int| 0 <= i < cells.len() ==> #[trigger] cells[i]
}

/// Whether a row, given by whether each of its cells is empty, is empty.
pub fn is_empty_row(cells: &[bool]) -> (result: bool)
    ensures
        result == all_empty(cells@),
{
    let mut i: usize = 0;
    while i < cells.len()
        invariant
            i <= cells@.len(),
            forall|k: int| 0 <= k < i ==> #[trigger] cells@[k],
        decreases cells.len() - i,
    {
        if !cells[i] {
            return false;
        }
        i = i + 1;
    }
    true
}

/// Why a row doesn't fit a table's columns.
pub enum MappingFailure {
    MissingColumn(int, int),
    CellsBetweenColumns(int, int),
    CellsAfterColumns(int),
}

pub open spec fn is_mapping_failure(error: Error, failure: MappingFailure) -> bool {
    match failure {
        MappingFailure::MissingColumn(column, cell) => error == Error::MissingColumn(column as usize, cell as usize),
        MappingFailure::CellsBetweenColumns(from, to) => error == Error::CellsBetweenColumns(from as usize, to as usize),
        MappingFailure::CellsAfterColumns(from) => error == Error::CellsAfterColumns(from as usize),
    }
}

/// The cells of the columns from the one numbered `k` on, after `cells`, in a row given by
/// whether each of its cells is empty; `current` is the first cell after the last column's one.
/// Cells between and after the columns' ones must be empty.
pub open spec fn map_from(mapping: Seq<usize>, row: Seq<bool>, k: int, current: int, cells: Seq<int>) -> Result<
    Seq<int>,
    MappingFailure,
>
    decreases mapping.len() - k,
{
    if k < 0 || k >= mapping.len() {
        if all_empty(row.subrange(current, row.len() as int)) {
            Ok(cells)
        } else {
            Err(MappingFailure::CellsAfterColumns(current))
        }
    } else {
        let cell = mapping[k] as int;
        if cell >= row.len() {
            Err(MappingFailure::MissingColumn(k, cell))
        } else if current < cell && !all_empty(row.subrange(current, cell)) {
            Err(MappingFailure::CellsBetweenColumns(current, cell))
        } else {
            map_from(mapping, row, k + 1, cell + 1, cells.push(cell))
        }
    }
}

/// Where the columns of a table are among the cells of its rows.
pub struct ColumnsMapping {
    pub mapping: Vec<usize>,
}

impl ColumnsMapping {
    /// Each column's cell follows the previous column's one.
    pub open spec fn wf(&self) -> bool {
        forall|i: int, j: int| 0 <= i < j < self.mapping@.len() ==> self.mapping@[i] < self.mapping@[j]
    }

    /// The positions of the columns' cells in a row given by whether each of its cells is empty.
    pub fn map(&self, row: &[bool]) -> (result: Result<Vec<usize>, Error>)
        requires
            self.wf(),
        ensures
            match map_from(self.mapping@, row@, 0, 0, Seq::empty()) {
                Ok(cells) => result matches Ok(mapped) && mapped@.map_values(|cell: usize| cell as int) == cells,
                Err(failure) => result matches Err(e) && is_mapping_failure(e, failure),
            },
    {
        let mut mapped: Vec<usize> = Vec::new();
        let mut current: usize = 0;
        let mut k: usize = 0;
        assert(mapped@.map_values(|cell: usize| cell as int) =~= Seq::<int>::empty());
        while k < self.mapping.len()
            invariant
                self.wf(),
                k <= self.mapping@.len(),
                current <= row@.len(),
                k > 0 ==> current == self.mapping@[k - 1] + 1,
                k == 0 ==> current == 0,
                map_from(self.mapping@, row@, 0, 0, Seq::empty()) == map_from(self.mapping@, row@, k as int,
                    current as int, mapped@.map_values(|cell: usize| cell as int)),
            decreases self.mapping.len() - k,
        {
            let cell = self.mapping[k];
            if cell >= row.len() {
                return Err(Error::MissingColumn(k, cell));
            }
            if current < cell {
                let spare = &row[current..cell];
                if !is_empty_row(spare) {
                    return Err(Error::CellsBetweenColumns(current, cell));
                }
            }
            let ghost before = mapped@.map_values(|c: usize| c as int);
            mapped.push(cell);
            assert(mapped@.map_values(|c: usize| c as int) =~= before.push(cell as int));
            current = cell + 1;
            k = k + 1;
        }
        let spare = &row[current..row.len()];
        if !is_empty_row(spare) {
            return Err(Error::CellsAfterColumns(current));
        }
        Ok(mapped)
    }
}

} // verus!
