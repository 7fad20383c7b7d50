use vstd::prelude::*;

verus! {

/// A rectangular matrix of fixed-point values, stored as rows.
/// Row index = time period (oldest first), column index = asset.
pub struct Matrix {
    pub rows: Vec<Vec<i64>>,
    pub cols: usize,
}

impl Matrix {
    /// Every row has exactly `cols` entries.
    pub open spec fn wf(self) -> bool {
        forall|i: int|
            0 <= i < self.rows@.len() ==> (#[trigger] self.rows@[i])@.len() == self.cols
    }

    /// The matrix as a sequence of row sequences.
    pub open spec fn entries(self) -> Seq<Seq<i64>> {
        Seq::new(self.rows@.len(), |i: int| self.rows@[i]@)
    }

    pub open spec fn entry(self, i: int, j: int) -> i64 {
        self.rows@[i]@[j]
    }

    /// Builds a matrix from rows; rejects an empty set of rows, an empty
    /// first row, and rows of unequal length.
    pub fn from_rows(rows: Vec<Vec<i64>>) -> (r: Option<Matrix>)
        ensures
            r is Some <==> (rows@.len() > 0 && rows@[0]@.len() > 0 && forall|i: int|
                0 <= i < rows@.len() ==> (#[trigger] rows@[i])@.len() == rows@[0]@.len()),
            r is Some ==> {
                let m = r->Some_0;
                &&& m.wf()
                &&& m.cols == rows@[0]@.len()
                &&& m.rows@ == rows@
            },
    {
        if rows.len() == 0 {
            return None;
        }
        let cols = rows[0].len();
        if cols == 0 {
            return None;
        }
        let mut i: usize = 1;
        while i < rows.len()
            invariant
                1 <= i <= rows@.len(),
                cols == rows@[0]@.len(),
                forall|k: int| 0 <= k < i ==> (#[trigger] rows@[k])@.len() == cols,
            decreases rows@.len() - i,
        {
            if rows[i].len() != cols {
                return None;
            }
            i += 1;
        }
        Some(Matrix { rows, cols })
    }

    pub fn nrows(&self) -> (n: usize)
        ensures
            n == self.rows@.len(),
    {
        self.rows.len()
    }

    pub fn ncols(&self) -> (n: usize)
        ensures
            n == self.cols,
    {
        self.cols
    }

    pub fn get(&self, i: usize, j: usize) -> (v: i64)
        requires
            self.wf(),
            i < self.rows@.len(),
            j < self.cols,
        ensures
            v == self.entry(i as int, j as int),
    {
        self.rows[i][j]
    }
}

} // verus!
