use vstd::prelude::*;

use crate::geometry::CharBBox;
use crate::placement::{
    calibrated_height, calibrated_width, column_of, grid_height, grid_width, lands, painted,
    row_of,
};
use crate::raster::PreciseTextObject;
use crate::regions::{merged, region_views, within, RegionView, TextRegion, FULL_CONFIDENCE};
use crate::selection::grid_view;

verus! {

/// The cell width of a new, empty matrix, in millipoints (7.2 points).
pub const EMPTY_MATRIX_CHAR_WIDTH: i64 = 7200;

/// The cell height of a new, empty matrix, in millipoints (12 points).
pub const EMPTY_MATRIX_CHAR_HEIGHT: i64 = 12000;

/// A page of text laid out on a grid of characters, with the regions of text found on it.
pub struct CharacterMatrix {
    pub width: usize,
    pub height: usize,
    pub matrix: Vec<Vec<char>>,
    pub text_regions: Vec<TextRegion>,
    pub original_text: Vec<String>,
    /// The width of a cell on the page, in millipoints.
    pub char_width: i64,
    /// The height of a cell on the page, in millipoints.
    pub char_height: i64,
}

/// The views of a list of strings.
pub open spec fn string_views(v: Seq<String>) -> Seq<Seq<char>> {
    Seq::new(v.len(), |i: int| v[i]@)
}

impl CharacterMatrix {
    /// The grid has `height` rows of `width` cells, and every region lies within it.
    pub open spec fn is_well_formed(self) -> bool {
        &&& self.matrix@.len() == self.height
        &&& forall|r: int| 0 <= r < self.height ==> (#[trigger] self.matrix@[r])@.len() == self.width
        &&& forall|k: int|
            0 <= k < self.text_regions@.len() ==> within(
                (#[trigger] self.text_regions@[k]).bbox,
                self.width as int,
                self.height as int,
            )
    }

    /// The matrix is the one built from the placed characters `objs`: the grid and cell size
    /// calibrated from them, each character written into its cell in order, the one-cell
    /// regions of the characters that landed merged, and one string per character.
    pub open spec fn built_from(self, objs: Seq<PreciseTextObject>) -> bool {
        &&& self.width == grid_width(objs)
        &&& self.height == grid_height(objs)
        &&& self.char_width == calibrated_width(objs)
        &&& self.char_height == calibrated_height(objs)
        &&& grid_view(self.matrix@) == painted(objs, objs.len())
        &&& region_views(self.text_regions@) == merged(unit_regions(objs, objs.len()))
        &&& string_views(self.original_text@) == objs.map_values(|o: PreciseTextObject| seq![o.character])
    }

    /// A matrix of `height` rows of `width` spaces, with no regions and no text.
    pub fn new(width: usize, height: usize) -> (r: Self)
        ensures
            r.width == width,
            r.height == height,
            grid_view(r.matrix@) == Seq::new(height as nat, |i: int| Seq::new(width as nat, |j: int| ' ')),
            r.text_regions@.len() == 0,
            r.original_text@.len() == 0,
            r.char_width == EMPTY_MATRIX_CHAR_WIDTH,
            r.char_height == EMPTY_MATRIX_CHAR_HEIGHT,
            r.is_well_formed(),
    {
        let matrix = blank_grid(width, height);
        CharacterMatrix {
            width,
            height,
            matrix,
            text_regions: Vec::new(),
            original_text: Vec::new(),
            char_width: EMPTY_MATRIX_CHAR_WIDTH,
            char_height: EMPTY_MATRIX_CHAR_HEIGHT,
        }
    }
}

/// A grid of `height` rows of `width` spaces.
pub fn blank_grid(width: usize, height: usize) -> (r: Vec<Vec<char>>)
    ensures
        grid_view(r@) == Seq::new(height as nat, |i: int| Seq::new(width as nat, |j: int| ' ')),
        r@.len() == height,
        forall|i: int| 0 <= i < height ==> (#[trigger] r@[i])@.len() == width,
{
    let mut row: Vec<char> = Vec::new();
    let mut c: usize = 0;
    while c < width
        invariant
            c <= width,
            row@ == Seq::new(c as nat, |j: int| ' '),
        decreases width - c,
    {
        row.push(' ');
        c = c + 1;
        assert(row@ =~= Seq::new(c as nat, |j: int| ' '));
    }
    let mut grid: Vec<Vec<char>> = Vec::new();
    let mut r: usize = 0;
    while r < height
        invariant
            r <= height,
            row@ == Seq::new(width as nat, |j: int| ' '),
            grid@.len() == r,
            forall|i: int| 0 <= i < r ==> (#[trigger] grid@[i])@ == row@,
        decreases height - r,
    {
        grid.push(row.clone());
        r = r + 1;
    }
    assert(grid_view(grid@) =~~= Seq::new(height as nat, |i: int| Seq::new(width as nat, |j: int| ' ')));
    grid
}

/// The one-cell regions of the first `k` characters that land in the grid, numbered in the
/// order in which they land.
pub open spec fn unit_regions(objs: Seq<PreciseTextObject>, k: nat) -> Seq<RegionView>
    decreases k,
{
    if k == 0 || k > objs.len() {
        seq![]
    } else {
        let rs = unit_regions(objs, (k - 1) as nat);
        let o = objs[k - 1];
        if lands(objs, o) {
            rs.push(
                RegionView {
                    bbox: CharBBox {
                        x: column_of(objs, o) as usize,
                        y: row_of(objs, o) as usize,
                        width: 1,
                        height: 1,
                    },
                    confidence: FULL_CONFIDENCE,
                    text: seq![o.character],
                    region_id: rs.len() as usize,
                },
            )
        } else {
            rs
        }
    }
}

/// Every one-cell region of the characters that land lies within the grid.
pub proof fn lemma_unit_regions_within(objs: Seq<PreciseTextObject>, k: nat)
    requires
        0 <= grid_width(objs) <= usize::MAX,
        0 <= grid_height(objs) <= usize::MAX,
        k <= objs.len(),
    ensures
        forall|a: int|
            0 <= a < unit_regions(objs, k).len() ==> within(
                #[trigger] unit_regions(objs, k)[a].bbox,
                grid_width(objs),
                grid_height(objs),
            ),
        unit_regions(objs, k).len() <= k,
    decreases k,
{
    if k > 0 {
        lemma_unit_regions_within(objs, (k - 1) as nat);
    }
}

} // verus!
