use vstd::prelude::*;

use crate::selection::{block, grid_view, row_part, rows_present, MatrixSelection};
use crate::text::{lines_of, push_char, text_lines};

verus! {

/// The grid with every present cell of the rectangle `top ..= bottom` x `left ..= right` set to
/// a space.
pub open spec fn blank_rect(m: Seq<Seq<char>>, top: int, bottom: int, left: int, right: int) -> Seq<
    Seq<char>,
> {
    Seq::new(
        m.len(),
        |r: int|
            Seq::new(
                m[r].len(),
                |c: int|
                    if top <= r <= bottom && left <= c <= right {
                        ' '
                    } else {
                        m[r][c]
                    },
            ),
    )
}

/// The grid with the block `b` written over it, its first cell at `(top, left)`; cells of `b`
/// that fall outside the grid are dropped.
pub open spec fn paste_block(m: Seq<Seq<char>>, b: Seq<Seq<char>>, top: int, left: int) -> Seq<
    Seq<char>,
> {
    Seq::new(
        m.len(),
        |r: int|
            Seq::new(
                m[r].len(),
                |c: int|
                    if top <= r < top + b.len() && left <= c < left + b[r - top].len() {
                        b[r - top][c - left]
                    } else {
                        m[r][c]
                    },
            ),
    )
}

/// Copies the present cells of the rectangle `top ..= bottom` x `left ..= right`.
fn copy_block(m: &Vec<Vec<char>>, top: usize, bottom: usize, left: usize, right: usize) -> (r: Vec<
    Vec<char>,
>)
    requires
        top <= bottom,
        left <= right,
    ensures
        grid_view(r@) == block(grid_view(m@), top as int, bottom as int, left as int, right as int),
{
    let ghost g = grid_view(m@);
    let mut out: Vec<Vec<char>> = Vec::new();
    let mut r = top;
    while r <= bottom && r < m.len()
        invariant
            top <= r,
            r > top ==> r <= m@.len() && r <= bottom + 1,
            g == grid_view(m@),
            left <= right,
            out@.len() == r - top,
            forall|i: int|
                0 <= i < out@.len() ==> (#[trigger] out@[i])@ == row_part(g[top + i], left as int, right as int),
        decreases m@.len() - r,
    {
        let mut row: Vec<char> = Vec::new();
        let mut c = left;
        while c <= right && c < m[r].len()
            invariant
                r < m@.len(),
                left <= c,
                c > left ==> c <= m@[r as int]@.len() && c <= right + 1,
                row@ == if c == left {
                    Seq::<char>::empty()
                } else {
                    m@[r as int]@.subrange(left as int, c as int)
                },
            decreases m@[r as int]@.len() - c,
        {
            row.push(m[r][c]);
            proof {
                if c > left {
                    assert(m@[r as int]@.subrange(left as int, c + 1) =~= m@[r as int]@.subrange(
                        left as int,
                        c as int,
                    ).push(m@[r as int]@[c as int]));
                } else {
                    assert(m@[r as int]@.subrange(left as int, c + 1) =~= seq![m@[r as int]@[c as int]]);
                }
            }
            c = c + 1;
        }
        proof {
            assert(g[r as int] == m@[r as int]@);
            if c == left {
                assert(row@ =~= row_part(g[r as int], left as int, right as int));
            } else {
                assert(row@ =~= row_part(g[r as int], left as int, right as int));
            }
        }
        out.push(row);
        r = r + 1;
    }
    proof {
        let n = rows_present(g.len() as int, top as int, bottom as int);
        assert(out@.len() == n);
        assert(grid_view(out@) =~= block(g, top as int, bottom as int, left as int, right as int));
    }
    out
}

/// Sets every present cell of the rectangle `top ..= bottom` x `left ..= right` to a space.
fn blank_cells(m: &mut Vec<Vec<char>>, top: usize, bottom: usize, left: usize, right: usize)
    ensures
        grid_view(final(m)@) == blank_rect(
            grid_view(old(m)@),
            top as int,
            bottom as int,
            left as int,
            right as int,
        ),
{
    let ghost g = grid_view(old(m)@);
    let mut r = top;
    while r <= bottom && r < m.len()
        invariant
            top <= r,
            r > top ==> r <= bottom + 1,
            g == grid_view(old(m)@),
            m@.len() == g.len(),
            forall|i: int| 0 <= i < g.len() ==> (#[trigger] m@[i])@.len() == g[i].len(),
            forall|i: int, j: int|
                0 <= i < g.len() && 0 <= j < g[i].len() ==> (#[trigger] m@[i]@[j]) == if top <= i
                    < r && left <= j <= right {
                    ' '
                } else {
                    g[i][j]
                },
        decreases m@.len() - r,
    {
        let mut c = left;
        while c <= right && c < m[r].len()
            invariant
                top <= r < g.len(),
                left <= c,
                c == left || c <= right + 1,
                g == grid_view(old(m)@),
                m@.len() == g.len(),
                forall|i: int| 0 <= i < g.len() ==> (#[trigger] m@[i])@.len() == g[i].len(),
                forall|i: int, j: int|
                    0 <= i < g.len() && 0 <= j < g[i].len() ==> (#[trigger] m@[i]@[j]) == if (top
                        <= i < r && left <= j <= right) || (i == r && left <= j < c) {
                        ' '
                    } else {
                        g[i][j]
                    },
            decreases g[r as int].len() - c,
        {
            m[r][c] = ' ';
            c = c + 1;
        }
        assert forall|i: int, j: int| 0 <= i < g.len() && 0 <= j < g[i].len() implies (#[trigger] m@[i]@[j])
            == if top <= i < r + 1 && left <= j <= right {
            ' '
        } else {
            g[i][j]
        } by {
            assert(c > right || c >= g[r as int].len());
        }
        r = r + 1;
    }
    assert(grid_view(m@) =~~= blank_rect(g, top as int, bottom as int, left as int, right as int));
}

/// Writes the block `b` over the grid with its first cell at `(top, left)`, dropping the cells
/// that fall outside the grid.
fn paste_cells(m: &mut Vec<Vec<char>>, b: &Vec<Vec<char>>, top: usize, left: usize)
    ensures
        grid_view(final(m)@) == paste_block(
            grid_view(old(m)@),
            grid_view(b@),
            top as int,
            left as int,
        ),
{
    let ghost g = grid_view(old(m)@);
    let ghost gb = grid_view(b@);
    if top >= m.len() {
        assert(grid_view(m@) =~~= paste_block(g, gb, top as int, left as int));
        return;
    }
    let room = m.len() - top;
    let mut i: usize = 0;
    while i < b.len() && i < room
        invariant
            top < g.len(),
            g.len() <= usize::MAX,
            room == g.len() - top,
            i <= b@.len(),
            g == grid_view(old(m)@),
            gb == grid_view(b@),
            m@.len() == g.len(),
            forall|k: int| 0 <= k < g.len() ==> (#[trigger] m@[k])@.len() == g[k].len(),
            forall|r: int, c: int|
                0 <= r < g.len() && 0 <= c < g[r].len() ==> (#[trigger] m@[r]@[c]) == if top <= r
                    < top + i && left <= c < left + gb[r - top].len() {
                    gb[r - top][c - left]
                } else {
                    g[r][c]
                },
        decreases b@.len() - i,
    {
        let tr = top + i;
        if left < m[tr].len() {
            assert(m@[tr as int]@.len() == g[tr as int].len());
            let width = m[tr].len() - left;
            let mut j: usize = 0;
            while j < b[i].len() && j < width
                invariant
                    top < g.len(),
                    i < b@.len(),
                    tr == top + i,
                    tr < g.len(),
                    left < g[tr as int].len(),
                    g[tr as int].len() <= usize::MAX,
                    width == g[tr as int].len() - left,
                    j <= b@[i as int]@.len(),
                    g == grid_view(old(m)@),
                    gb == grid_view(b@),
                    m@.len() == g.len(),
                    forall|k: int| 0 <= k < g.len() ==> (#[trigger] m@[k])@.len() == g[k].len(),
                    forall|r: int, c: int|
                        0 <= r < g.len() && 0 <= c < g[r].len() ==> (#[trigger] m@[r]@[c]) == if (
                        top <= r < top + i && left <= c < left + gb[r - top].len()) || (r == tr
                            && left <= c < left + j) {
                            gb[r - top][c - left]
                        } else {
                            g[r][c]
                        },
                decreases b@[i as int]@.len() - j,
            {
                let ch = b[i][j];
                m[tr][left + j] = ch;
                j = j + 1;
            }
        }
        i = i + 1;
    }
    assert(grid_view(m@) =~~= paste_block(g, gb, top as int, left as int));
}

/// The index of the first space of `l` at or after `from`, or the length of `l` if none.
pub open spec fn first_space_from(l: Seq<char>, from: int) -> int
    decreases l.len() - from,
{
    if from >= l.len() || from < 0 {
        l.len() as int
    } else if l[from] == ' ' {
        from
    } else {
        first_space_from(l, from + 1)
    }
}

/// A line without its leading label: what follows its first space, or the whole line if it
/// has no space.
pub open spec fn strip_label(l: Seq<char>) -> Seq<char> {
    let k = first_space_from(l, 0);
    if k < l.len() {
        l.subrange(k + 1, l.len() as int)
    } else {
        l
    }
}

/// A grid as plain text: each row's characters followed by a newline.
pub open spec fn grid_text(m: Seq<Seq<char>>) -> Seq<char>
    decreases m.len(),
{
    if m.len() == 0 {
        seq![]
    } else {
        grid_text(m.drop_last()) + m.last() + seq!['\n']
    }
}

proof fn lemma_first_space_bounds(l: Seq<char>, from: int)
    requires
        0 <= from <= l.len(),
    ensures
        from <= first_space_from(l, from) <= l.len(),
        first_space_from(l, from) < l.len() ==> l[first_space_from(l, from)] == ' ',
    decreases l.len() - from,
{
    if from < l.len() && l[from] != ' ' {
        lemma_first_space_bounds(l, from + 1);
    }
}

/// A line without its leading label.
fn strip_line_label(l: &Vec<char>) -> (r: Vec<char>)
    ensures
        r@ == strip_label(l@),
{
    let mut k: usize = 0;
    while k < l.len() && l[k] != ' '
        invariant
            k <= l@.len(),
            first_space_from(l@, 0) == first_space_from(l@, k as int),
        decreases l@.len() - k,
    {
        k = k + 1;
    }
    let start = if k < l.len() {
        k + 1
    } else {
        0
    };
    let mut out: Vec<char> = Vec::new();
    let mut j = start;
    while j < l.len()
        invariant
            start <= j <= l@.len(),
            out@ == l@.subrange(start as int, j as int),
        decreases l@.len() - j,
    {
        out.push(l[j]);
        j = j + 1;
        assert(out@ =~= l@.subrange(start as int, j as int));
    }
    proof {
        if k < l@.len() {
            assert(first_space_from(l@, k as int) == k);
        } else {
            assert(first_space_from(l@, k as int) == l@.len());
            assert(l@.subrange(0, l@.len() as int) =~= l@);
        }
    }
    out
}

/// A grid as plain text: each row's characters followed by a newline.
pub fn grid_to_text(matrix: &[Vec<char>]) -> (r: String)
    ensures
        r@ == grid_text(grid_view(matrix@)),
{
    let ghost g = grid_view(matrix@);
    let mut out = String::new();
    let mut r: usize = 0;
    while r < matrix.len()
        invariant
            r <= matrix@.len(),
            g == grid_view(matrix@),
            out@ == grid_text(g.subrange(0, r as int)),
        decreases matrix@.len() - r,
    {
        let ghost before = out@;
        let row = &matrix[r];
        let mut c: usize = 0;
        while c < row.len()
            invariant
                c <= row@.len(),
                out@ == before + row@.subrange(0, c as int),
            decreases row@.len() - c,
        {
            push_char(&mut out, row[c]);
            c = c + 1;
            assert(out@ =~= before + row@.subrange(0, c as int));
        }
        push_char(&mut out, '\n');
        proof {
            assert(g.subrange(0, r + 1).drop_last() =~= g.subrange(0, r as int));
            assert(g.subrange(0, r + 1).last() == row@);
            assert(row@.subrange(0, row@.len() as int) =~= row@);
            assert(out@ =~= grid_text(g.subrange(0, r + 1)));
        }
        r = r + 1;
    }
    assert(g.subrange(0, g.len() as int) =~= g);
    out
}

/// An editable grid of characters together with a selection, a cursor, a rectangular
/// clipboard and the state of a drag that moves the selected cells.
pub struct MatrixGrid {
    pub matrix: Vec<Vec<char>>,
    pub selection: MatrixSelection,
    pub cursor_pos: Option<(usize, usize)>,
    pub clipboard: Vec<Vec<char>>,
    pub modified: bool,
    pub is_dragging_selection: bool,
    pub drag_start_pos: Option<(usize, usize)>,
    pub drag_content: Vec<Vec<char>>,
}

impl MatrixGrid {
    /// The grid's characters, row by row.
    pub open spec fn cells(self) -> Seq<Seq<char>> {
        grid_view(self.matrix@)
    }

    /// The cell `(row, col)` exists in the grid.
    pub open spec fn in_grid(self, row: int, col: int) -> bool {
        0 <= row < self.matrix@.len() && 0 <= col < self.matrix@[row]@.len()
    }

    /// The cells that the active selection covers, rows clamped to the grid.
    pub open spec fn selected_cells(self) -> Seq<Seq<char>> {
        self.selection.selected_block(self.cells())
    }

    /// The grid with the cells that the active selection covers set to spaces.
    pub open spec fn selection_blanked(self) -> Seq<Seq<char>> {
        let len = self.matrix@.len() as int;
        blank_rect(
            self.cells(),
            self.selection.first_row(len),
            self.selection.final_row(len),
            self.selection.left(),
            self.selection.right(),
        )
    }

    /// Where a paste lands: the cursor, else the selection's start corner, else the origin.
    pub open spec fn paste_anchor(self) -> (usize, usize) {
        if self.cursor_pos is Some {
            self.cursor_pos->0
        } else if self.selection.start is Some {
            self.selection.start->0
        } else {
            (0, 0)
        }
    }

    /// The selection may be copied: it is active and not larger than `MAX_SELECTION_CELLS`.
    pub open spec fn can_copy(self) -> bool {
        self.selection.is_active() && !self.selection.too_large(self.matrix@.len() as int)
    }

    /// A grid over a text of labelled rows: each line of the text, without the label that
    /// ends at its first space, is a row.
    pub fn new(text: &str) -> (r: Self)
        ensures
            r.cells() == lines_of(text@).map_values(|l: Seq<char>| strip_label(l)),
            r.selection.start is None,
            r.selection.end is None,
            r.cursor_pos is None,
            r.clipboard@.len() == 0,
            !r.modified,
            !r.is_dragging_selection,
            r.drag_start_pos is None,
            r.drag_content@.len() == 0,
    {
        let lines = text_lines(text);
        let ghost ls = lines@.map_values(|l: Vec<char>| l@);
        let mut rows: Vec<Vec<char>> = Vec::new();
        let mut k: usize = 0;
        while k < lines.len()
            invariant
                k <= lines@.len(),
                ls == lines@.map_values(|l: Vec<char>| l@),
                grid_view(rows@) == ls.subrange(0, k as int).map_values(|l: Seq<char>| strip_label(l)),
            decreases lines@.len() - k,
        {
            let row = strip_line_label(&lines[k]);
            assert(ls[k as int] == lines@[k as int]@);
            let ghost before = grid_view(rows@);
            rows.push(row);
            assert(grid_view(rows@) =~= before.push(strip_label(ls[k as int])));
            assert(ls.subrange(0, k + 1) =~= ls.subrange(0, k as int).push(ls[k as int]));
            k = k + 1;
            assert(grid_view(rows@) =~= ls.subrange(0, k as int).map_values(|l: Seq<char>| strip_label(l)));
        }
        assert(ls.subrange(0, ls.len() as int) =~= ls);
        Self::from_matrix(rows)
    }

    /// A grid over the given rows, with no selection, cursor, clipboard or drag.
    pub fn from_matrix(matrix: Vec<Vec<char>>) -> (r: Self)
        ensures
            r.matrix == matrix,
            r.selection.start is None,
            r.selection.end is None,
            r.cursor_pos is None,
            r.clipboard@.len() == 0,
            !r.modified,
            !r.is_dragging_selection,
            r.drag_start_pos is None,
            r.drag_content@.len() == 0,
    {
        MatrixGrid {
            matrix,
            selection: MatrixSelection::new(),
            cursor_pos: None,
            clipboard: Vec::new(),
            modified: false,
            is_dragging_selection: false,
            drag_start_pos: None,
            drag_content: Vec::new(),
        }
    }

    /// A click on a cell: places the cursor there and clears the selection, if the cell exists;
    /// otherwise nothing changes.
    pub fn click(&mut self, row: usize, col: usize)
        ensures
            old(self).in_grid(row as int, col as int) ==> *final(self) == (MatrixGrid {
                cursor_pos: Some((row, col)),
                selection: MatrixSelection { start: None, end: None },
                ..*old(self)
            }),
            !old(self).in_grid(row as int, col as int) ==> *final(self) == *old(self),
    {
        if row < self.matrix.len() && col < self.matrix[row].len() {
            self.cursor_pos = Some((row, col));
            self.selection.start = None;
            self.selection.end = None;
        }
    }

    /// A drag begins on a cell. Inside an active selection it picks the selected cells up:
    /// they go to the drag payload and are blanked in the grid. Elsewhere it starts a new
    /// selection at that cell and removes the cursor.
    pub fn drag_start(&mut self, row: usize, col: usize)
        ensures
            old(self).selection.selects(row as int, col as int) ==> {
                &&& final(self).cells() == old(self).selection_blanked()
                &&& grid_view(final(self).drag_content@) == old(self).selected_cells()
                &&& final(self).is_dragging_selection
                &&& final(self).drag_start_pos == Some((row, col))
                &&& final(self).modified
                &&& final(self).selection == old(self).selection
                &&& final(self).cursor_pos == old(self).cursor_pos
                &&& final(self).clipboard == old(self).clipboard
            },
            !old(self).selection.selects(row as int, col as int) ==> *final(self) == (MatrixGrid {
                selection: MatrixSelection { start: Some((row, col)), end: Some((row, col)) },
                cursor_pos: None,
                is_dragging_selection: false,
                ..*old(self)
            }),
    {
        if self.selection.is_selected(row, col) {
            let (top, bottom, left, right) = self.selection.clamped_bounds(self.matrix.len());
            self.is_dragging_selection = true;
            self.drag_start_pos = Some((row, col));
            self.drag_content = copy_block(&self.matrix, top, bottom, left, right);
            blank_cells(&mut self.matrix, top, bottom, left, right);
            self.modified = true;
        } else {
            self.selection.start = Some((row, col));
            self.selection.end = Some((row, col));
            self.cursor_pos = None;
            self.is_dragging_selection = false;
        }
    }

    /// The pointer moves during a drag: a selection in progress follows it with its end
    /// corner; a drag that moves cells changes nothing.
    pub fn drag_continue(&mut self, row: usize, col: usize)
        ensures
            old(self).is_dragging_selection ==> *final(self) == *old(self),
            !old(self).is_dragging_selection ==> *final(self) == (MatrixGrid {
                selection: MatrixSelection { start: old(self).selection.start, end: Some((row, col)) },
                ..*old(self)
            }),
    {
        if !self.is_dragging_selection {
            self.selection.end = Some((row, col));
        }
    }

    /// A drag ends, over the cell `pos` if the pointer is over the grid. A drag that moves
    /// cells drops its payload there, its first cell at `pos`, and clears the selection; in
    /// any case the drag state is reset.
    pub fn drag_release(&mut self, pos: Option<(usize, usize)>)
        ensures
            !old(self).is_dragging_selection ==> *final(self) == *old(self),
            old(self).is_dragging_selection ==> {
                &&& !final(self).is_dragging_selection
                &&& final(self).drag_start_pos is None
                &&& final(self).drag_content@.len() == 0
                &&& final(self).cursor_pos == old(self).cursor_pos
                &&& final(self).clipboard == old(self).clipboard
                &&& match pos {
                    Some(p) => {
                        &&& final(self).cells() == paste_block(
                            old(self).cells(),
                            grid_view(old(self).drag_content@),
                            p.0 as int,
                            p.1 as int,
                        )
                        &&& final(self).selection.start is None
                        &&& final(self).selection.end is None
                        &&& final(self).modified
                    },
                    None => {
                        &&& final(self).matrix == old(self).matrix
                        &&& final(self).selection == old(self).selection
                        &&& final(self).modified == old(self).modified
                    },
                }
            },
    {
        if self.is_dragging_selection {
            if let Some(p) = pos {
                paste_cells(&mut self.matrix, &self.drag_content, p.0, p.1);
                self.modified = true;
                self.selection.start = None;
                self.selection.end = None;
            }
            self.is_dragging_selection = false;
            self.drag_start_pos = None;
            self.drag_content = Vec::new();
        }
    }

    /// Copies the selected cells to the clipboard, if a selection is active and not larger
    /// than `MAX_SELECTION_CELLS`; the grid is not changed.
    pub fn copy(&mut self)
        ensures
            old(self).can_copy() ==> {
                &&& grid_view(final(self).clipboard@) == old(self).selected_cells()
                &&& final(self).matrix == old(self).matrix
                &&& final(self).selection == old(self).selection
                &&& final(self).cursor_pos == old(self).cursor_pos
                &&& final(self).modified == old(self).modified
                &&& final(self).is_dragging_selection == old(self).is_dragging_selection
                &&& final(self).drag_start_pos == old(self).drag_start_pos
                &&& final(self).drag_content == old(self).drag_content
            },
            !old(self).can_copy() ==> *final(self) == *old(self),
    {
        if self.selection.start.is_some() && self.selection.end.is_some() {
            let len = self.matrix.len();
            if !self.selection.exceeds_cell_limit(len) {
                let (top, bottom, left, right) = self.selection.clamped_bounds(len);
                self.clipboard = copy_block(&self.matrix, top, bottom, left, right);
            }
        }
    }

    /// Copies the selected cells to the clipboard and blanks them, under the same condition
    /// as `copy`.
    pub fn cut(&mut self)
        ensures
            old(self).can_copy() ==> {
                &&& grid_view(final(self).clipboard@) == old(self).selected_cells()
                &&& final(self).cells() == old(self).selection_blanked()
                &&& final(self).modified
                &&& final(self).selection == old(self).selection
                &&& final(self).cursor_pos == old(self).cursor_pos
                &&& final(self).is_dragging_selection == old(self).is_dragging_selection
                &&& final(self).drag_start_pos == old(self).drag_start_pos
                &&& final(self).drag_content == old(self).drag_content
            },
            !old(self).can_copy() ==> *final(self) == *old(self),
    {
        if self.selection.start.is_some() && self.selection.end.is_some() {
            let len = self.matrix.len();
            if !self.selection.exceeds_cell_limit(len) {
                let (top, bottom, left, right) = self.selection.clamped_bounds(len);
                self.clipboard = copy_block(&self.matrix, top, bottom, left, right);
                blank_cells(&mut self.matrix, top, bottom, left, right);
                self.modified = true;
            }
        }
    }

    /// Writes a non-empty clipboard over the grid at the paste anchor, clipped to the grid,
    /// and clears the selection; the cursor stays where it is.
    pub fn paste(&mut self)
        ensures
            old(self).clipboard@.len() > 0 ==> {
                &&& final(self).cells() == paste_block(
                    old(self).cells(),
                    grid_view(old(self).clipboard@),
                    old(self).paste_anchor().0 as int,
                    old(self).paste_anchor().1 as int,
                )
                &&& final(self).selection.start is None
                &&& final(self).selection.end is None
                &&& final(self).modified
                &&& final(self).cursor_pos == old(self).cursor_pos
                &&& final(self).clipboard == old(self).clipboard
                &&& final(self).is_dragging_selection == old(self).is_dragging_selection
                &&& final(self).drag_start_pos == old(self).drag_start_pos
                &&& final(self).drag_content == old(self).drag_content
            },
            old(self).clipboard@.len() == 0 ==> *final(self) == *old(self),
    {
        let anchor = match self.cursor_pos {
            Some(p) => p,
            None => match self.selection.start {
                Some(p) => p,
                None => (0, 0),
            },
        };
        if self.clipboard.len() > 0 {
            paste_cells(&mut self.matrix, &self.clipboard, anchor.0, anchor.1);
            self.selection.start = None;
            self.selection.end = None;
            self.modified = true;
        }
    }

    /// Typed text: its first character overwrites the cell under the cursor, and the cursor
    /// moves one cell right unless it is at the end of its row. Nothing changes without a
    /// cursor on an existing cell or for empty text.
    pub fn type_text(&mut self, text: &str)
        ensures
            ({
                let p = old(self).cursor_pos->0;
                if old(self).cursor_pos is Some && old(self).in_grid(p.0 as int, p.1 as int)
                    && text@.len() > 0 {
                    &&& final(self).cells() == old(self).cells().update(
                        p.0 as int,
                        old(self).cells()[p.0 as int].update(p.1 as int, text@[0]),
                    )
                    &&& final(self).cursor_pos == if p.1 + 1 < old(self).cells()[p.0 as int].len() {
                        Some((p.0, (p.1 + 1) as usize))
                    } else {
                        Some(p)
                    }
                    &&& final(self).modified
                    &&& final(self).selection == old(self).selection
                    &&& final(self).clipboard == old(self).clipboard
                    &&& final(self).is_dragging_selection == old(self).is_dragging_selection
                    &&& final(self).drag_start_pos == old(self).drag_start_pos
                    &&& final(self).drag_content == old(self).drag_content
                } else {
                    *final(self) == *old(self)
                }
            }),
    {
        if let Some(p) = self.cursor_pos {
            if p.0 < self.matrix.len() && p.1 < self.matrix[p.0].len() && !text.is_empty() {
                let ch = text.get_char(0);
                let ghost before = self.cells();
                self.matrix[p.0][p.1] = ch;
                assert(self.cells() =~~= before.update(p.0 as int, before[p.0 as int].update(p.1 as int, ch)));
                if p.1 + 1 < self.matrix[p.0].len() {
                    self.cursor_pos = Some((p.0, p.1 + 1));
                }
                self.modified = true;
            }
        }
    }
}

/// Copying a selection and pasting it at `(row, col)` reproduces every copied cell at the
/// same offset from the anchor, wherever that destination cell exists in the grid.
pub proof fn lemma_clipboard_round_trip(
    m: Seq<Seq<char>>,
    sel: MatrixSelection,
    row: int,
    col: int,
    i: int,
    j: int,
)
    requires
        sel.is_active(),
        0 <= i,
        0 <= j,
        sel.first_row(m.len() as int) + i <= sel.final_row(m.len() as int),
        sel.left() + j <= sel.right(),
        sel.first_row(m.len() as int) + i < m.len(),
        sel.left() + j < m[sel.first_row(m.len() as int) + i].len(),
        0 <= row + i < m.len(),
        0 <= col + j < m[row + i].len(),
    ensures
        paste_block(m, sel.selected_block(m), row, col)[row + i][col + j] == m[sel.first_row(
            m.len() as int,
        ) + i][sel.left() + j],
{
}

/// Dragging a selection to `(row, col)` leaves every cell of the source rectangle blank,
/// except those the moved block lands on, and puts each moved cell at the same offset from
/// `(row, col)`, wherever that destination cell exists in the grid.
pub proof fn lemma_drag_move(
    m: Seq<Seq<char>>,
    sel: MatrixSelection,
    row: int,
    col: int,
    r: int,
    c: int,
)
    requires
        sel.is_active(),
        0 <= r < m.len(),
        0 <= c < m[r].len(),
    ensures
        ({
            let len = m.len() as int;
            let top = sel.first_row(len);
            let bottom = sel.final_row(len);
            let payload = sel.selected_block(m);
            let moved = paste_block(
                blank_rect(m, top, bottom, sel.left(), sel.right()),
                payload,
                row,
                col,
            );
            let landed = row <= r < row + payload.len() && col <= c < col + payload[r - row].len();
            &&& top <= r <= bottom && sel.left() <= c <= sel.right() && !landed ==> moved[r][c]
                == ' '
            &&& landed ==> moved[r][c] == m[top + (r - row)][sel.left() + (c - col)]
        }),
{
}

} // verus!
