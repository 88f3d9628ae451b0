//! A rectangular matrix backed by rows of vectors, with bounds-checked
//! access and directional walks along a row or column from a starting cell.

use vstd::prelude::*;

verus! {

/// A direction of travel through the matrix.
#[derive(Clone, Copy, Debug, PartialEq, Eq, Structural)]
pub enum Direction {
    Left,
    Right,
    Top,
    Bottom,
}

/// A row/column index pair.
#[derive(Clone, Copy, Debug, PartialEq, Eq, Structural)]
struct InnerIndex(usize, usize);

impl InnerIndex {
    /// The row of the cell.
    fn row(&self) -> (r: usize)
        ensures
            r == self.0,
    {
        self.0
    }

    /// The column of the cell.
    fn col(&self) -> (r: usize)
        ensures
            r == self.1,
    {
        self.1
    }
}

/// A non-empty rectangular grid of values.
pub struct Matrix<T> {
    data: Vec<Vec<T>>,
    rows: usize,
    cols: usize,
}

impl<T> Matrix<T> {
    /// The cached dimensions describe the data: every row has the same
    /// length and neither dimension is zero.
    pub closed spec fn wf(&self) -> bool {
        &&& self.data@.len() == self.rows
        &&& self.rows > 0
        &&& self.cols > 0
        &&& forall|i: int| 0 <= i < self.data@.len() ==> (#[trigger] self.data@[i])@.len() == self.cols
    }

    /// Number of rows, as a mathematical integer.
    pub closed spec fn spec_rows(&self) -> int {
        self.rows as int
    }

    /// Number of columns, as a mathematical integer.
    pub closed spec fn spec_cols(&self) -> int {
        self.cols as int
    }

    /// The value stored at row `i`, column `j`.
    pub closed spec fn spec_at(&self, i: int, j: int) -> T {
        self.data@[i]@[j]
    }

    /// The cell one step from `(i, j)` in the given direction, `None` at
    /// the matrix edge.
    pub open spec fn spec_step(&self, i: int, j: int, direction: Direction) -> Option<(int, int)> {
        match direction {
            Direction::Left => if j == 0 {
                None
            } else {
                Some((i, j - 1))
            },
            Direction::Right => if j >= self.spec_cols() - 1 {
                None
            } else {
                Some((i, j + 1))
            },
            Direction::Top => if i == 0 {
                None
            } else {
                Some((i - 1, j))
            },
            Direction::Bottom => if i >= self.spec_rows() - 1 {
                None
            } else {
                Some((i + 1, j))
            },
        }
    }

    /// Build a matrix from a non-empty list of equally long, non-empty
    /// rows.
    pub fn from_rows(data: Vec<Vec<T>>) -> (m: Matrix<T>)
        requires
            data@.len() > 0,
            data@[0]@.len() > 0,
            forall|i: int| 0 <= i < data@.len() ==> (#[trigger] data@[i])@.len() == data@[0]@.len(),
        ensures
            m.wf(),
            m.spec_rows() == data@.len(),
            m.spec_cols() == data@[0]@.len(),
            forall|i: int, j: int|
                0 <= i < data@.len() && 0 <= j < data@[0]@.len() ==> #[trigger] m.spec_at(i, j)
                    == data@[i]@[j],
    {
        let rows = data.len();
        let cols = data[0].len();
        Matrix { data, rows, cols }
    }

    /// Number of rows.
    pub fn number_of_rows(&self) -> (r: usize)
        ensures
            r == self.spec_rows(),
    {
        self.rows
    }

    /// Number of columns.
    pub fn number_of_cols(&self) -> (r: usize)
        ensures
            r == self.spec_cols(),
    {
        self.cols
    }

    /// The element at the index, `None` when the index lies outside the
    /// matrix.
    pub fn get(&self, idx: (usize, usize)) -> (r: Option<&T>)
        requires
            self.wf(),
        ensures
            r is Some <==> idx.0 < self.spec_rows() && idx.1 < self.spec_cols(),
            r matches Some(e) ==> *e == self.spec_at(idx.0 as int, idx.1 as int),
    {
        let (i, j) = idx;
        if i < self.rows && j < self.cols {
            Some(&self.data[i][j])
        } else {
            None
        }
    }

    /// Walk rightward from the cell.
    pub fn elements_to_right(&self, idx: (usize, usize)) -> (it: ElementsInDirection<T>)
        requires
            self.wf(),
            idx.0 < self.spec_rows(),
            idx.1 < self.spec_cols(),
        ensures
            it.wf(),
            it.spec_matrix() == *self,
            it.spec_direction() == Direction::Right,
            it.spec_current() == self.spec_step(idx.0 as int, idx.1 as int, Direction::Right),
    {
        self.elements_in_direction(idx, Direction::Right)
    }

    /// Walk leftward from the cell.
    pub fn elements_to_left(&self, idx: (usize, usize)) -> (it: ElementsInDirection<T>)
        requires
            self.wf(),
            idx.0 < self.spec_rows(),
            idx.1 < self.spec_cols(),
        ensures
            it.wf(),
            it.spec_matrix() == *self,
            it.spec_direction() == Direction::Left,
            it.spec_current() == self.spec_step(idx.0 as int, idx.1 as int, Direction::Left),
    {
        self.elements_in_direction(idx, Direction::Left)
    }

    /// Walk upward from the cell.
    pub fn elements_to_top(&self, idx: (usize, usize)) -> (it: ElementsInDirection<T>)
        requires
            self.wf(),
            idx.0 < self.spec_rows(),
            idx.1 < self.spec_cols(),
        ensures
            it.wf(),
            it.spec_matrix() == *self,
            it.spec_direction() == Direction::Top,
            it.spec_current() == self.spec_step(idx.0 as int, idx.1 as int, Direction::Top),
    {
        self.elements_in_direction(idx, Direction::Top)
    }

    /// Walk downward from the cell.
    pub fn elements_to_bottom(&self, idx: (usize, usize)) -> (it: ElementsInDirection<T>)
        requires
            self.wf(),
            idx.0 < self.spec_rows(),
            idx.1 < self.spec_cols(),
        ensures
            it.wf(),
            it.spec_matrix() == *self,
            it.spec_direction() == Direction::Bottom,
            it.spec_current() == self.spec_step(idx.0 as int, idx.1 as int, Direction::Bottom),
    {
        self.elements_in_direction(idx, Direction::Bottom)
    }

    /// The cell one step away in the direction, `None` at the edge.
    fn next_in_direction(&self, current_index: InnerIndex, direction: Direction) -> (r: Option<
        InnerIndex,
    >)
        requires
            self.wf(),
            current_index.0 < self.spec_rows(),
            current_index.1 < self.spec_cols(),
        ensures
            match self.spec_step(current_index.0 as int, current_index.1 as int, direction) {
                None => r is None,
                Some(step) => r matches Some(ix) && ix.0 == step.0 && ix.1 == step.1 && ix.0
                    < self.spec_rows() && ix.1 < self.spec_cols(),
            },
    {
        match direction {
            Direction::Left => {
                if current_index.col() == 0 {
                    None
                } else {
                    Some(InnerIndex(current_index.row(), current_index.col() - 1))
                }
            },
            Direction::Right => {
                if current_index.col() >= self.number_of_cols() - 1 {
                    None
                } else {
                    Some(InnerIndex(current_index.row(), current_index.col() + 1))
                }
            },
            Direction::Top => {
                if current_index.row() == 0 {
                    None
                } else {
                    Some(InnerIndex(current_index.row() - 1, current_index.col()))
                }
            },
            Direction::Bottom => {
                if current_index.row() >= self.number_of_rows() - 1 {
                    None
                } else {
                    Some(InnerIndex(current_index.row() + 1, current_index.col()))
                }
            },
        }
    }

    /// Walk from the cell in the direction; the walk starts one step away
    /// and ends at the matrix edge.
    pub fn elements_in_direction(&self, idx: (usize, usize), direction: Direction) -> (it:
        ElementsInDirection<T>)
        requires
            self.wf(),
            idx.0 < self.spec_rows(),
            idx.1 < self.spec_cols(),
        ensures
            it.wf(),
            it.spec_matrix() == *self,
            it.spec_direction() == direction,
            it.spec_current() == self.spec_step(idx.0 as int, idx.1 as int, direction),
    {
        let (i, j) = idx;
        let current_index = self.next_in_direction(InnerIndex(i, j), direction);
        ElementsInDirection { data: self, current_index, direction }
    }
}

/// A walk through matrix cells in one direction, yielding each element
/// until the edge of the matrix.
pub struct ElementsInDirection<'a, T> {
    data: &'a Matrix<T>,
    current_index: Option<InnerIndex>,
    direction: Direction,
}

impl<'a, T> ElementsInDirection<'a, T> {
    /// The underlying matrix is well formed and the cursor, when present,
    /// lies inside it.
    pub closed spec fn wf(&self) -> bool {
        &&& self.data.wf()
        &&& match self.current_index {
            Some(ix) => ix.0 < self.data.spec_rows() && ix.1 < self.data.spec_cols(),
            None => true,
        }
    }

    /// The matrix being walked.
    pub closed spec fn spec_matrix(&self) -> Matrix<T> {
        *self.data
    }

    /// The direction of the walk.
    pub closed spec fn spec_direction(&self) -> Direction {
        self.direction
    }

    /// The cell the walk will yield next, `None` once past the edge.
    pub closed spec fn spec_current(&self) -> Option<(int, int)> {
        match self.current_index {
            Some(ix) => Some((ix.0 as int, ix.1 as int)),
            None => None,
        }
    }

    /// Yield the element under the cursor and advance one step, or `None`
    /// once the walk has left the matrix.
    pub fn next(&mut self) -> (r: Option<&'a T>)
        requires
            old(self).wf(),
        ensures
            final(self).wf(),
            final(self).spec_matrix() == old(self).spec_matrix(),
            final(self).spec_direction() == old(self).spec_direction(),
            match old(self).spec_current() {
                None => r is None && final(self).spec_current() is None,
                Some(ij) => {
                    &&& r matches Some(e) && *e == old(self).spec_matrix().spec_at(ij.0, ij.1)
                    &&& final(self).spec_current() == old(self).spec_matrix().spec_step(
                        ij.0,
                        ij.1,
                        old(self).spec_direction(),
                    )
                },
            },
    {
        if let Some(current_index) = self.current_index {
            if let Some(element) = self.data.get((current_index.row(), current_index.col())) {
                self.current_index = self.data.next_in_direction(current_index, self.direction);
                Some(element)
            } else {
                None
            }
        } else {
            None
        }
    }
}

} // verus!
