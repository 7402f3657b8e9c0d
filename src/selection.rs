use vstd::prelude::*;

use crate::text::push_char;

verus! {

/// Selections whose rectangle holds more cells than this are not rendered as text.
pub const MAX_SELECTION_CELLS: usize = 100000;

/// The text returned in place of a selection that is too large to render.
pub open spec fn too_large_notice() -> Seq<char> {
    "[Selection too large]"@
}

/// The rows of a grid of characters, each seen as a sequence.
pub open spec fn grid_view(m: Seq<Vec<char>>) -> Seq<Seq<char>> {
    Seq::new(m.len(), |i: int| m[i]@)
}

pub open spec fn min_int(a: int, b: int) -> int {
    if a <= b {
        a
    } else {
        b
    }
}

pub open spec fn max_int(a: int, b: int) -> int {
    if a <= b {
        b
    } else {
        a
    }
}

/// The index of the last row of a grid of `len` rows (0 for an empty grid).
pub open spec fn last_row(len: int) -> int {
    if len == 0 {
        0
    } else {
        len - 1
    }
}

/// The cells `left ..= right` of a row, as far as the row reaches.
pub open spec fn row_part(row: Seq<char>, left: int, right: int) -> Seq<char> {
    if left < row.len() {
        row.subrange(left, min_int(right + 1, row.len() as int))
    } else {
        seq![]
    }
}

/// The number of the rows `top ..= bottom` that a grid of `len` rows has.
pub open spec fn rows_present(len: int, top: int, bottom: int) -> int {
    let n = min_int(bottom + 1, len) - top;
    if n < 0 {
        0
    } else {
        n
    }
}

/// The rectangle `top ..= bottom` x `left ..= right` of a grid, clipped to the cells it has:
/// one entry per present row, each as long as that row reaches.
pub open spec fn block(m: Seq<Seq<char>>, top: int, bottom: int, left: int, right: int) -> Seq<
    Seq<char>,
> {
    Seq::new(rows_present(m.len() as int, top, bottom) as nat, |i: int| row_part(m[top + i], left, right))
}

/// The text of `k` rows starting at `top`: each row's part, followed by a newline unless the
/// row is `bottom`.
pub open spec fn rows_text(m: Seq<Seq<char>>, top: int, k: nat, bottom: int, left: int, right: int) -> Seq<char>
    decreases k,
{
    if k == 0 {
        seq![]
    } else {
        let r = top + k - 1;
        rows_text(m, top, (k - 1) as nat, bottom, left, right) + row_part(m[r], left, right) + if r
            < bottom {
            seq!['\n']
        } else {
            seq![]
        }
    }
}

/// Appends the cells `left ..= right` of `row`, as far as the row reaches, to `out`.
fn push_row_part(out: &mut String, row: &Vec<char>, left: usize, right: usize)
    requires
        left <= right,
    ensures
        final(out)@ == old(out)@ + row_part(row@, left as int, right as int),
{
    let mut c = left;
    while c <= right && c < row.len()
        invariant
            left <= c,
            c > left ==> c <= row.len() && c <= right + 1,
            out@ == old(out)@ + if c == left {
                Seq::<char>::empty()
            } else {
                row@.subrange(left as int, c as int)
            },
        decreases row.len() - c,
    {
        push_char(out, row[c]);
        proof {
            if c > left {
                assert(row@.subrange(left as int, c + 1) =~= row@.subrange(left as int, c as int).push(
                    row@[c as int],
                ));
            } else {
                assert(row@.subrange(left as int, c + 1) =~= seq![row@[c as int]]);
            }
        }
        c = c + 1;
    }
    proof {
        if c == left {
            assert(out@ =~= old(out)@ + row_part(row@, left as int, right as int));
        } else {
            assert(row@.subrange(left as int, c as int) =~= row_part(row@, left as int, right as int));
        }
    }
}

/// The smaller of two indices.
pub fn min_usize(a: usize, b: usize) -> (r: usize)
    ensures
        r == min_int(a as int, b as int),
{
    if a <= b {
        a
    } else {
        b
    }
}

/// The larger of two indices.
pub fn max_usize(a: usize, b: usize) -> (r: usize)
    ensures
        r == max_int(a as int, b as int),
{
    if a <= b {
        b
    } else {
        a
    }
}

/// A rectangle of interest over a grid, given by two corners in either order.
#[derive(Clone, Copy, Debug)]
pub struct MatrixSelection {
    pub start: Option<(usize, usize)>,
    pub end: Option<(usize, usize)>,
}

impl MatrixSelection {
    /// Both corners are set.
    pub open spec fn is_active(self) -> bool {
        self.start is Some && self.end is Some
    }

    pub open spec fn top(self) -> int {
        min_int((self.start->0).0 as int, (self.end->0).0 as int)
    }

    pub open spec fn bottom(self) -> int {
        max_int((self.start->0).0 as int, (self.end->0).0 as int)
    }

    pub open spec fn left(self) -> int {
        min_int((self.start->0).1 as int, (self.end->0).1 as int)
    }

    pub open spec fn right(self) -> int {
        max_int((self.start->0).1 as int, (self.end->0).1 as int)
    }

    /// The cell `(row, col)` lies in the normalized rectangle of an active selection.
    pub open spec fn selects(self, row: int, col: int) -> bool {
        &&& self.is_active()
        &&& self.top() <= row <= self.bottom()
        &&& self.left() <= col <= self.right()
    }

    /// The first row of the rectangle, clamped to a grid of `len` rows.
    pub open spec fn first_row(self, len: int) -> int {
        min_int(self.top(), last_row(len))
    }

    /// The last row of the rectangle, clamped to a grid of `len` rows.
    pub open spec fn final_row(self, len: int) -> int {
        min_int(self.bottom(), last_row(len))
    }

    /// The number of cells of the rectangle with its rows clamped to a grid of `len` rows.
    pub open spec fn cell_count(self, len: int) -> int {
        (self.final_row(len) - self.first_row(len) + 1) * (self.right() - self.left() + 1)
    }

    /// The rectangle is larger than a selection may be when it is rendered or copied.
    pub open spec fn too_large(self, len: int) -> bool {
        self.cell_count(len) > MAX_SELECTION_CELLS
    }

    /// The cells of the grid that the rectangle covers, row by row.
    pub open spec fn selected_block(self, m: Seq<Seq<char>>) -> Seq<Seq<char>> {
        block(
            m,
            self.first_row(m.len() as int),
            self.final_row(m.len() as int),
            self.left(),
            self.right(),
        )
    }

    /// The text of the selection: its rows joined by newlines, or a fixed notice when the
    /// selection is too large, or nothing when it is not active.
    pub open spec fn selected_text(self, m: Seq<Seq<char>>) -> Seq<char> {
        let len = m.len() as int;
        if !self.is_active() {
            seq![]
        } else if self.too_large(len) {
            too_large_notice()
        } else if len == 0 {
            seq![]
        } else {
            rows_text(
                m,
                self.first_row(len),
                (self.final_row(len) - self.first_row(len) + 1) as nat,
                self.final_row(len),
                self.left(),
                self.right(),
            )
        }
    }

    /// An empty selection.
    pub fn new() -> (r: Self)
        ensures
            r.start is None,
            r.end is None,
    {
        MatrixSelection { start: None, end: None }
    }

    /// Whether the cell `(row, col)` is highlighted by this selection.
    pub fn is_selected(&self, row: usize, col: usize) -> (r: bool)
        ensures
            r == self.selects(row as int, col as int),
    {
        match (self.start, self.end) {
            (Some(s), Some(e)) => {
                let min_row = if s.0 <= e.0 { s.0 } else { e.0 };
                let max_row = if s.0 <= e.0 { e.0 } else { s.0 };
                let min_col = if s.1 <= e.1 { s.1 } else { e.1 };
                let max_col = if s.1 <= e.1 { e.1 } else { s.1 };
                row >= min_row && row <= max_row && col >= min_col && col <= max_col
            },
            _ => false,
        }
    }

    /// The rectangle of an active selection with its rows clamped to a grid of `len` rows:
    /// `(first row, last row, first column, last column)`, all inclusive.
    pub fn clamped_bounds(&self, len: usize) -> (r: (usize, usize, usize, usize))
        requires
            self.is_active(),
        ensures
            r.0 == self.first_row(len as int),
            r.1 == self.final_row(len as int),
            r.2 == self.left(),
            r.3 == self.right(),
            r.0 <= r.1,
            r.2 <= r.3,
    {
        let s = self.start.unwrap();
        let e = self.end.unwrap();
        let last = if len == 0 {
            0
        } else {
            len - 1
        };
        (
            min_usize(min_usize(s.0, e.0), last),
            min_usize(max_usize(s.0, e.0), last),
            min_usize(s.1, e.1),
            max_usize(s.1, e.1),
        )
    }

    /// Whether an active selection, rows clamped to a grid of `len` rows, holds more than
    /// `MAX_SELECTION_CELLS` cells.
    pub fn exceeds_cell_limit(&self, len: usize) -> (r: bool)
        requires
            self.is_active(),
        ensures
            r == self.too_large(len as int),
    {
        let (top, bottom, left, right) = self.clamped_bounds(len);
        let rows = bottom - top + 1;
        let span = right - left;
        if span >= MAX_SELECTION_CELLS || rows > MAX_SELECTION_CELLS {
            assert(self.too_large(len as int)) by (nonlinear_arith)
                requires
                    self.cell_count(len as int) == rows * (span + 1),
                    rows >= 1,
                    span + 1 >= 1,
                    span >= MAX_SELECTION_CELLS || rows > MAX_SELECTION_CELLS,
            ;
            return true;
        }
        assert(rows * (span + 1) <= MAX_SELECTION_CELLS * MAX_SELECTION_CELLS) by (nonlinear_arith)
            requires
                rows <= MAX_SELECTION_CELLS,
                span + 1 <= MAX_SELECTION_CELLS,
        ;
        (rows as u64) * ((span + 1) as u64) > MAX_SELECTION_CELLS as u64
    }

    /// The selected rectangle rendered as text: the present part of each row, rows joined by
    /// newlines, rows clamped to the grid. A selection of more than `MAX_SELECTION_CELLS`
    /// cells yields a fixed notice instead; an inactive one yields the empty string.
    pub fn get_selected_text(&self, matrix: &[Vec<char>]) -> (r: String)
        ensures
            r@ == self.selected_text(grid_view(matrix@)),
    {
        let ghost m = grid_view(matrix@);
        if self.start.is_none() || self.end.is_none() {
            return String::new();
        }
        let len = matrix.len();
        if self.exceeds_cell_limit(len) {
            return String::from_str("[Selection too large]");
        }
        let mut out = String::new();
        if len == 0 {
            return out;
        }
        let (top, bottom, left, right) = self.clamped_bounds(len);
        let mut r = top;
        while r <= bottom
            invariant
                top <= r <= bottom + 1,
                bottom < len,
                left <= right,
                len == matrix@.len(),
                m == grid_view(matrix@),
                out@ == rows_text(m, top as int, (r - top) as nat, bottom as int, left as int, right as int),
            decreases bottom + 1 - r,
        {
            push_row_part(&mut out, &matrix[r], left, right);
            if r < bottom {
                push_char(&mut out, '\n');
            }
            proof {
                assert(m[r as int] == matrix@[r as int]@);
                let ghost k = (r + 1 - top) as nat;
                assert(top + k - 1 == r);
                assert((k - 1) as nat == (r - top) as nat);
            }
            r = r + 1;
        }
        out
    }
}

/// A selection does not depend on the direction in which it was dragged: the selection from
/// `p` to `q`, the one from `q` to `p`, and the one between the other two corners of the same
/// rectangle highlight the same cells and render the same text.
pub proof fn lemma_selection_direction_invariant(
    p: (usize, usize),
    q: (usize, usize),
    m: Seq<Seq<char>>,
    row: int,
    col: int,
)
    ensures
        ({
            let forward = MatrixSelection { start: Some(p), end: Some(q) };
            let backward = MatrixSelection { start: Some(q), end: Some(p) };
            let crosswise = MatrixSelection { start: Some((q.0, p.1)), end: Some((p.0, q.1)) };
            &&& forward.selects(row, col) == backward.selects(row, col)
            &&& forward.selects(row, col) == crosswise.selects(row, col)
            &&& forward.selected_text(m) == backward.selected_text(m)
            &&& forward.selected_text(m) == crosswise.selected_text(m)
            &&& forward.selected_block(m) == backward.selected_block(m)
            &&& forward.selected_block(m) == crosswise.selected_block(m)
        }),
{
}

} // verus!
