use vstd::prelude::*;

use crate::calibrate::{
    cell_height_for, cell_size_for, cell_width_for, median_font_size, median_size, positive_sizes,
    DEFAULT_CHAR_HEIGHT, DEFAULT_CHAR_WIDTH, MAX_FONT_SIZE, MILLIPOINTS_PER_POINT,
};
use crate::geometry::CharBBox;
use crate::matrix::{
    blank_grid, lemma_unit_regions_within, string_views, unit_regions, CharacterMatrix,
};
use crate::placement::{
    bottom_extent, calibrated_height, calibrated_width, ceil_div, column_of, grid_cell,
    grid_height, grid_side, grid_width, lands, left_extent, lemma_painted_shape,
    modal_font_points, page_extents, painted, right_extent, row_of, top_extent, MIN_GRID_SIDE,
};
use crate::raster::{
    document_objects, page_objects, rasterize_page, rasterize_pages, PageText, PreciseTextObject,
    MAX_OBJECT_COORD,
};
use crate::regions::{
    lemma_merged_within, merge_adjacent_regions, region_views, spans_fit, TextRegion,
    FULL_CONFIDENCE,
};
use crate::selection::grid_view;
use crate::text::{lines_of, push_char, text_lines};

verus! {

/// The side of the grid built from no characters at all.
pub const EMPTY_GRID_SIDE: usize = 50;

/// How long the fast, line-oriented text path may take before the precise path runs instead,
/// in milliseconds.
pub const PRIMARY_BUDGET_MILLIS: u64 = 60000;

/// What to do once the fast text path has finished or failed.
#[derive(Clone, Copy, Debug, PartialEq, Eq, Structural)]
pub enum FallbackStep {
    /// Use the matrix of the fast path.
    KeepPrimary,
    /// Run the precise, coordinate-based path; only its failure is reported.
    RunPrecise,
}

/// The step after the fast path: keep its matrix if it succeeded within
/// `PRIMARY_BUDGET_MILLIS`, and otherwise fall back to the precise path.
pub fn after_primary(primary_ok: bool, elapsed_millis: u64) -> (r: FallbackStep)
    ensures
        r == (if primary_ok && elapsed_millis <= PRIMARY_BUDGET_MILLIS {
            FallbackStep::KeepPrimary
        } else {
            FallbackStep::RunPrecise
        }),
{
    if primary_ok && elapsed_millis <= PRIMARY_BUDGET_MILLIS {
        FallbackStep::KeepPrimary
    } else {
        FallbackStep::RunPrecise
    }
}

/// Why no matrix could be built.
#[derive(Clone, Copy, Debug, PartialEq, Eq, Structural)]
pub enum ExtractionError {
    /// The page holds no text.
    NoTextFound,
    /// The requested page is not in the document.
    PageOutOfRange { index: usize, page_count: usize },
}

/// Builds character matrices from the placed text of pages, with a calibrated cell size.
pub struct CharacterMatrixEngine {
    /// The width of a cell on the page, in millipoints.
    pub char_width: i64,
    /// The height of a cell on the page, in millipoints.
    pub char_height: i64,
}

/// How many cells of size `cell` cover `span`, but at least `MIN_GRID_SIDE`.
fn side_for(span: i64, cell: i64) -> (r: usize)
    requires
        0 <= span <= 2 * MAX_OBJECT_COORD,
        4000 <= cell <= 2 * MAX_OBJECT_COORD,
    ensures
        r == grid_side(span as int, cell as int),
        r <= 0x1_0000_0000 - 1,
{
    let cells = (span + cell - 1) / cell;
    proof {
        let s = span as int;
        let c = cell as int;
        let q = (s + c - 1) / c;
        assert(q * c <= s + c - 1) by (nonlinear_arith)
            requires
                c > 0,
                q == (s + c - 1) / c,
        ;
        assert(q <= 2200000000) by (nonlinear_arith)
            requires
                q * c <= s + c - 1,
                4000 <= c,
                s <= 2 * MAX_OBJECT_COORD,
        ;
    }
    if cells < MIN_GRID_SIDE as i64 {
        MIN_GRID_SIDE
    } else {
        cells as usize
    }
}

/// A string of one character.
fn char_string(c: char) -> (r: String)
    ensures
        r@ == seq![c],
{
    let mut s = String::new();
    push_char(&mut s, c);
    assert(Seq::<char>::empty().push(c) =~= seq![c]);
    s
}

impl CharacterMatrixEngine {
    /// An engine with the default cell size of 6 by 12 points.
    pub fn new() -> (r: Self)
        ensures
            r.char_width == DEFAULT_CHAR_WIDTH,
            r.char_height == DEFAULT_CHAR_HEIGHT,
    {
        CharacterMatrixEngine { char_width: DEFAULT_CHAR_WIDTH, char_height: DEFAULT_CHAR_HEIGHT }
    }

    /// The cell size for a sample of font sizes (in millipoints): derived from the median of the
    /// positive sizes, or the default of 6 by 12 points when none is positive.
    pub fn find_optimal_character_dimensions(&self, font_sizes: &Vec<i64>) -> (r: (i64, i64))
        requires
            forall|k: int| 0 <= k < font_sizes@.len() ==> #[trigger] font_sizes@[k] <= MAX_FONT_SIZE,
        ensures
            positive_sizes(font_sizes@).len() == 0 ==> r == (DEFAULT_CHAR_WIDTH, DEFAULT_CHAR_HEIGHT),
            positive_sizes(font_sizes@).len() > 0 ==> r.0 == cell_width_for(
                median_size(font_sizes@) as int,
            ) && r.1 == cell_height_for(median_size(font_sizes@) as int),
    {
        match median_font_size(font_sizes) {
            Some(m) => cell_size_for(m),
            None => (DEFAULT_CHAR_WIDTH, DEFAULT_CHAR_HEIGHT),
        }
    }

    /// An engine whose cell size is calibrated from a sample of font sizes, falling back to
    /// the default size.
    pub fn new_optimized(font_sizes: &Vec<i64>) -> (r: Self)
        requires
            forall|k: int| 0 <= k < font_sizes@.len() ==> #[trigger] font_sizes@[k] <= MAX_FONT_SIZE,
        ensures
            positive_sizes(font_sizes@).len() == 0 ==> r.char_width == DEFAULT_CHAR_WIDTH
                && r.char_height == DEFAULT_CHAR_HEIGHT,
            positive_sizes(font_sizes@).len() > 0 ==> r.char_width == cell_width_for(
                median_size(font_sizes@) as int,
            ) && r.char_height == cell_height_for(median_size(font_sizes@) as int),
    {
        let mut engine = Self::new();
        let (w, h) = engine.find_optimal_character_dimensions(font_sizes);
        engine.char_width = w;
        engine.char_height = h;
        engine
    }

    /// Lays placed characters out on a grid: calibrates the cell size from their modal font
    /// size, sizes the grid to their extent, writes each character into the cell nearest to
    /// its start (dropping those that fall outside), and merges the one-cell regions of the
    /// characters written. With no characters the matrix is `EMPTY_GRID_SIDE` by
    /// `EMPTY_GRID_SIDE` spaces with the default cell size, no regions and no text.
    pub fn build_matrix(&self, objs: &Vec<PreciseTextObject>) -> (r: CharacterMatrix)
        requires
            forall|k: int| 0 <= k < objs@.len() ==> (#[trigger] objs@[k]).fits(),
        ensures
            objs@.len() > 0 ==> r.built_from(objs@),
            objs@.len() == 0 ==> {
                &&& r.width == EMPTY_GRID_SIDE
                &&& r.height == EMPTY_GRID_SIDE
                &&& grid_view(r.matrix@) == Seq::new(
                    EMPTY_GRID_SIDE as nat,
                    |i: int| Seq::new(EMPTY_GRID_SIDE as nat, |j: int| ' '),
                )
                &&& r.text_regions@.len() == 0
                &&& r.original_text@.len() == 0
                &&& r.char_width == DEFAULT_CHAR_WIDTH
                &&& r.char_height == DEFAULT_CHAR_HEIGHT
            },
            r.is_well_formed(),
    {
        if objs.len() == 0 {
            return CharacterMatrix {
                width: EMPTY_GRID_SIDE,
                height: EMPTY_GRID_SIDE,
                matrix: blank_grid(EMPTY_GRID_SIDE, EMPTY_GRID_SIDE),
                text_regions: Vec::new(),
                original_text: Vec::new(),
                char_width: DEFAULT_CHAR_WIDTH,
                char_height: DEFAULT_CHAR_HEIGHT,
            };
        }
        let ghost os = objs@;
        let n = objs.len();
        let modal = modal_font_points(objs);
        let (cw, ch) = cell_size_for(modal * MILLIPOINTS_PER_POINT);
        assert(cw <= 2 * MAX_OBJECT_COORD && ch <= 2 * MAX_OBJECT_COORD);
        let (min_x, max_x, min_y, max_y) = page_extents(objs);
        proof {
            let xs0 = os.map_values(|o: PreciseTextObject| o.bbox.x0 as int);
            let xs1 = os.map_values(|o: PreciseTextObject| o.bbox.x1 as int);
            let ys0 = os.map_values(|o: PreciseTextObject| o.bbox.y0 as int);
            let ys1 = os.map_values(|o: PreciseTextObject| o.bbox.y1 as int);
            xs0.min_ensures();
            xs1.max_ensures();
            ys0.min_ensures();
            ys1.max_ensures();
            assert(xs0[0] == os[0].bbox.x0 as int);
            assert(xs1[0] == os[0].bbox.x1 as int);
            assert(ys0[0] == os[0].bbox.y0 as int);
            assert(ys1[0] == os[0].bbox.y1 as int);
            assert forall|k: int| 0 <= k < os.len() implies min_x <= (#[trigger] os[k]).bbox.x0 && os[k].bbox.y0 >= min_y by {
                assert(xs0[k] == os[k].bbox.x0 as int);
                assert(ys0[k] == os[k].bbox.y0 as int);
            }
        }
        let width = side_for(max_x - min_x, cw);
        let height = side_for(max_y - min_y, ch);
        assert(width == grid_width(os));
        assert(height == grid_height(os));
        let mut matrix = blank_grid(width, height);
        let mut regions: Vec<TextRegion> = Vec::new();
        let mut original: Vec<String> = Vec::new();
        let mut k: usize = 0;
        while k < n
            invariant
                os == objs@,
                n == os.len(),
                k <= n,
                forall|i: int| 0 <= i < os.len() ==> (#[trigger] os[i]).fits(),
                forall|i: int| 0 <= i < os.len() ==> min_x <= (#[trigger] os[i]).bbox.x0 && os[i].bbox.y0 >= min_y,
                min_x == left_extent(os),
                min_y == top_extent(os),
                -MAX_OBJECT_COORD <= min_x,
                -MAX_OBJECT_COORD <= min_y,
                cw == calibrated_width(os),
                ch == calibrated_height(os),
                4000 <= cw <= 2 * MAX_OBJECT_COORD,
                8000 <= ch <= 2 * MAX_OBJECT_COORD,
                width == grid_width(os),
                height == grid_height(os),
                width <= 0x1_0000_0000 - 1,
                height <= 0x1_0000_0000 - 1,
                grid_view(matrix@) == painted(os, k as nat),
                region_views(regions@) == unit_regions(os, k as nat),
                string_views(original@) == os.subrange(0, k as int).map_values(
                    |o: PreciseTextObject| seq![o.character],
                ),
            decreases n - k,
        {
            let o = objs[k];
            proof {
                lemma_painted_shape(os, k as nat);
                lemma_unit_regions_within(os, k as nat);
            }
            let (row, col) = grid_cell(&o.bbox, min_x, min_y, cw, ch);
            assert(row == row_of(os, o));
            assert(col == column_of(os, o));
            if row < height as i64 && col < width as i64 {
                let ghost before = grid_view(matrix@);
                assert(before[row as int] == matrix@[row as int]@);
                matrix[row as usize][col as usize] = o.character;
                assert(grid_view(matrix@) =~~= before.update(
                    row as int,
                    before[row as int].update(col as int, o.character),
                ));
                let id = regions.len();
                let region = TextRegion {
                    bbox: CharBBox { x: col as usize, y: row as usize, width: 1, height: 1 },
                    confidence: FULL_CONFIDENCE,
                    text_content: char_string(o.character),
                    region_id: id,
                };
                let ghost rbefore = regions@;
                regions.push(region);
                assert(region_views(regions@) =~= region_views(rbefore).push(region@));
            }
            let ghost obefore = original@;
            original.push(char_string(o.character));
            assert(string_views(original@) =~= string_views(obefore).push(seq![o.character]));
            assert(os.subrange(0, k + 1) =~= os.subrange(0, k as int).push(o));
            assert(os.subrange(0, k + 1).map_values(|o: PreciseTextObject| seq![o.character])
                =~= os.subrange(0, k as int).map_values(|o: PreciseTextObject| seq![o.character]).push(seq![o.character]));
            k = k + 1;
        }
        proof {
            lemma_painted_shape(os, n as nat);
            lemma_unit_regions_within(os, n as nat);
            let units = unit_regions(os, n as nat);
            assert forall|a: int| 0 <= a < units.len() implies crate::regions::right_edge(
                #[trigger] units[a].bbox,
            ) <= usize::MAX by {
                assert(crate::regions::within(units[a].bbox, width as int, height as int));
            }
            assert(spans_fit(units));
            lemma_merged_within(units, width as int, height as int);
            assert(os.subrange(0, n as int) =~= os);
        }
        let merged = merge_adjacent_regions(regions.as_slice());
        proof {
            let units = unit_regions(os, n as nat);
            assert forall|a: int| 0 <= a < merged@.len() implies crate::regions::within(
                (#[trigger] merged@[a]).bbox,
                width as int,
                height as int,
            ) by {
                assert(region_views(regions@) == units);
                assert(region_views(merged@) == crate::regions::merged(units));
                assert(region_views(merged@).len() == merged@.len());
                assert(region_views(merged@)[a] == merged@[a]@);
                assert(crate::regions::merged(units)[a] == merged@[a]@);
                assert(crate::regions::within(crate::regions::merged(units)[a].bbox, width as int, height as int));
            }
            assert forall|r: int| 0 <= r < height implies (#[trigger] matrix@[r])@.len() == width by {
                assert(grid_view(matrix@)[r] == matrix@[r]@);
            }
        }
        CharacterMatrix {
            width,
            height,
            matrix,
            text_regions: merged,
            original_text: original,
            char_width: cw,
            char_height: ch,
        }
    }

    /// Builds the matrix of one page from its text segments, or fails with `NoTextFound`
    /// when they hold no character to place.
    pub fn process_pdf_page(&self, page: &PageText) -> (r: Result<CharacterMatrix, ExtractionError>)
        requires
            page.well_formed(),
        ensures
            page_objects(page.segments@, page.height as int).len() == 0 <==> r is Err,
            r is Err ==> r == Err::<CharacterMatrix, ExtractionError>(ExtractionError::NoTextFound),
            r matches Ok(m) ==> m.built_from(page_objects(page.segments@, page.height as int))
                && m.is_well_formed(),
    {
        let objs = rasterize_page(page);
        if objs.len() == 0 {
            return Err(ExtractionError::NoTextFound);
        }
        Ok(self.build_matrix(&objs))
    }
    /// Builds one matrix from the text segments of all pages of a document, their characters
    /// placed page after page, or fails with `NoTextFound` when there is no character to place.
    pub fn process_pdf(&self, pages: &[PageText]) -> (r: Result<CharacterMatrix, ExtractionError>)
        requires
            forall|k: int| 0 <= k < pages@.len() ==> (#[trigger] pages@[k]).well_formed(),
        ensures
            document_objects(pages@).len() == 0 <==> r is Err,
            r is Err ==> r == Err::<CharacterMatrix, ExtractionError>(ExtractionError::NoTextFound),
            r matches Ok(m) ==> m.built_from(document_objects(pages@)) && m.is_well_formed(),
    {
        let objs = rasterize_pages(pages);
        if objs.len() == 0 {
            return Err(ExtractionError::NoTextFound);
        }
        Ok(self.build_matrix(&objs))
    }

    /// The same as `process_pdf`: the layout model adds nothing to the text segments yet.
    pub fn process_pdf_with_ferrules(&self, pages: &[PageText]) -> (r: Result<
        CharacterMatrix,
        ExtractionError,
    >)
        requires
            forall|k: int| 0 <= k < pages@.len() ==> (#[trigger] pages@[k]).well_formed(),
        ensures
            document_objects(pages@).len() == 0 <==> r is Err,
            r is Err ==> r == Err::<CharacterMatrix, ExtractionError>(ExtractionError::NoTextFound),
            r matches Ok(m) ==> m.built_from(document_objects(pages@)) && m.is_well_formed(),
    {
        self.process_pdf(pages)
    }
}


impl Default for CharacterMatrixEngine {
    fn default() -> (r: Self)
        ensures
            r.char_width == DEFAULT_CHAR_WIDTH,
            r.char_height == DEFAULT_CHAR_HEIGHT,
    {
        Self::new()
    }
}

/// The fewest rows of a grid read from plain text.
pub const TEXT_MIN_HEIGHT: usize = 25;

/// The width of a grid read from a text with no lines.
pub const TEXT_EMPTY_WIDTH: usize = 80;

/// The cell width assumed for plain text, in millipoints (8 points).
pub const TEXT_CHAR_WIDTH: i64 = 8000;

/// The cell height assumed for plain text, in millipoints (12 points).
pub const TEXT_CHAR_HEIGHT: i64 = 12000;

/// The length of the longest line.
pub open spec fn longest_line(ls: Seq<Seq<char>>) -> nat
    decreases ls.len(),
{
    if ls.len() == 0 {
        0
    } else if longest_line(ls.drop_last()) >= ls.last().len() {
        longest_line(ls.drop_last())
    } else {
        ls.last().len()
    }
}

/// The width of the grid read from lines: the longest line, or `TEXT_EMPTY_WIDTH` for no lines.
pub open spec fn text_width(ls: Seq<Seq<char>>) -> nat {
    if ls.len() == 0 {
        TEXT_EMPTY_WIDTH as nat
    } else {
        longest_line(ls)
    }
}

/// The height of the grid read from lines: one row per line, at least `TEXT_MIN_HEIGHT`.
pub open spec fn text_height(ls: Seq<Seq<char>>) -> nat {
    if ls.len() >= TEXT_MIN_HEIGHT {
        ls.len()
    } else {
        TEXT_MIN_HEIGHT as nat
    }
}

/// The grid read from lines: line `r`, character `c` in row `r`, column `c`; spaces elsewhere.
pub open spec fn text_cells(ls: Seq<Seq<char>>) -> Seq<Seq<char>> {
    Seq::new(
        text_height(ls),
        |r: int|
            Seq::new(
                text_width(ls),
                |c: int|
                    if r < ls.len() && c < ls[r].len() {
                        ls[r][c]
                    } else {
                        ' '
                    },
            ),
    )
}

/// A string of the given characters.
fn string_of(cs: &Vec<char>) -> (r: String)
    ensures
        r@ == cs@,
{
    let mut s = String::new();
    let mut k: usize = 0;
    while k < cs.len()
        invariant
            k <= cs@.len(),
            s@ == cs@.subrange(0, k as int),
        decreases cs@.len() - k,
    {
        push_char(&mut s, cs[k]);
        k = k + 1;
        assert(s@ =~= cs@.subrange(0, k as int));
    }
    assert(cs@.subrange(0, cs@.len() as int) =~= cs@);
    s
}

/// A matrix read from a plain-text rendering of a page, one character per cell: line `r`
/// fills row `r` from the left. There are no regions; the lines are kept as the original text.
pub fn extract_simple_text_matrix(text: &str) -> (r: CharacterMatrix)
    ensures
        r.width == text_width(lines_of(text@)),
        r.height == text_height(lines_of(text@)),
        grid_view(r.matrix@) == text_cells(lines_of(text@)),
        r.text_regions@.len() == 0,
        string_views(r.original_text@) == lines_of(text@),
        r.char_width == TEXT_CHAR_WIDTH,
        r.char_height == TEXT_CHAR_HEIGHT,
        r.is_well_formed(),
{
    let lines = text_lines(text);
    let ghost ls = lines_of(text@);
    assert(ls.len() == lines@.len());
    let n = lines.len();
    let mut longest: usize = 0;
    let mut k: usize = 0;
    while k < n
        invariant
            n == lines@.len(),
            k <= n,
            ls == lines@.map_values(|l: Vec<char>| l@),
            longest == longest_line(ls.subrange(0, k as int)),
        decreases n - k,
    {
        assert(ls.subrange(0, k + 1).drop_last() =~= ls.subrange(0, k as int));
        assert(ls[k as int] == lines@[k as int]@);
        if lines[k].len() > longest {
            longest = lines[k].len();
        }
        k = k + 1;
    }
    assert(ls.subrange(0, n as int) =~= ls);
    let width = if n == 0 {
        TEXT_EMPTY_WIDTH
    } else {
        longest
    };
    let height = if n >= TEXT_MIN_HEIGHT {
        n
    } else {
        TEXT_MIN_HEIGHT
    };
    let ghost cells = text_cells(ls);
    let mut matrix: Vec<Vec<char>> = Vec::new();
    let mut r: usize = 0;
    while r < height
        invariant
            n == lines@.len(),
            ls == lines@.map_values(|l: Vec<char>| l@),
            width == text_width(ls),
            height == text_height(ls),
            cells == text_cells(ls),
            r <= height,
            grid_view(matrix@) == cells.subrange(0, r as int),
        decreases height - r,
    {
        let mut row: Vec<char> = Vec::new();
        let mut c: usize = 0;
        while c < width
            invariant
                n == lines@.len(),
                ls == lines@.map_values(|l: Vec<char>| l@),
                width == text_width(ls),
                height == text_height(ls),
                cells == text_cells(ls),
                r < height,
                c <= width,
                row@ == cells[r as int].subrange(0, c as int),
            decreases width - c,
        {
            let ch = if r < n && c < lines[r].len() {
                lines[r][c]
            } else {
                ' '
            };
            proof {
                if r < n {
                    assert(ls[r as int] == lines@[r as int]@);
                }
            }
            row.push(ch);
            c = c + 1;
            assert(row@ =~= cells[r as int].subrange(0, c as int));
        }
        let ghost before = grid_view(matrix@);
        assert(cells[r as int].subrange(0, width as int) =~= cells[r as int]);
        matrix.push(row);
        assert(grid_view(matrix@) =~= before.push(cells[r as int]));
        assert(cells.subrange(0, r + 1) =~= cells.subrange(0, r as int).push(cells[r as int]));
        r = r + 1;
    }
    assert(cells.subrange(0, height as int) =~= cells);
    let mut original: Vec<String> = Vec::new();
    let mut j: usize = 0;
    while j < n
        invariant
            n == lines@.len(),
            ls == lines@.map_values(|l: Vec<char>| l@),
            j <= n,
            string_views(original@) == ls.subrange(0, j as int),
        decreases n - j,
    {
        let line = string_of(&lines[j]);
        assert(ls[j as int] == lines@[j as int]@);
        let ghost before = string_views(original@);
        original.push(line);
        assert(string_views(original@) =~= before.push(ls[j as int]));
        assert(ls.subrange(0, j + 1) =~= ls.subrange(0, j as int).push(ls[j as int]));
        j = j + 1;
    }
    assert(ls.subrange(0, n as int) =~= ls);
    proof {
        assert forall|i: int| 0 <= i < height implies (#[trigger] matrix@[i])@.len() == width by {
            assert(grid_view(matrix@)[i] == matrix@[i]@);
        }
    }
    CharacterMatrix {
        width,
        height,
        matrix,
        text_regions: Vec::new(),
        original_text: original,
        char_width: TEXT_CHAR_WIDTH,
        char_height: TEXT_CHAR_HEIGHT,
    }
}

/// Checks that a page index names a page of a document of `page_count` pages.
pub fn check_page_index(index: usize, page_count: usize) -> (r: Result<(), ExtractionError>)
    ensures
        index < page_count <==> r is Ok,
        index >= page_count ==> r == Err::<(), ExtractionError>(
            ExtractionError::PageOutOfRange { index, page_count },
        ),
{
    if index >= page_count {
        Err(ExtractionError::PageOutOfRange { index, page_count })
    } else {
        Ok(())
    }
}

} // verus!
