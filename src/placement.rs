use vstd::prelude::*;

use crate::calibrate::{cell_height_for, cell_width_for, max_of, MILLIPOINTS_PER_POINT};
use crate::geometry::PDFBBox;
use crate::raster::{PreciseTextObject, MAX_OBJECT_COORD};

verus! {

/// The fewest rows and columns a built grid has.
pub const MIN_GRID_SIDE: usize = 10;

/// A font size in millipoints rounded to whole points, halves rounded up.
pub open spec fn rounded_points(size: int) -> int {
    (size + MILLIPOINTS_PER_POINT / 2) / MILLIPOINTS_PER_POINT as int
}

/// How many of the characters have a font size that rounds to `p` points.
pub open spec fn size_tally(objs: Seq<PreciseTextObject>, p: int) -> nat
    decreases objs.len(),
{
    if objs.len() == 0 {
        0
    } else {
        size_tally(objs.drop_last(), p) + if rounded_points(objs.last().font_size as int) == p {
            1nat
        } else {
            0nat
        }
    }
}

/// The rounded size `p` is at least as frequent as `q`, and not larger when equally frequent.
pub open spec fn outranks(objs: Seq<PreciseTextObject>, p: int, q: int) -> bool {
    ||| size_tally(objs, q) < size_tally(objs, p)
    ||| size_tally(objs, q) == size_tally(objs, p) && p <= q
}

/// `p` is the modal font size of the characters in whole points: the most frequent rounded
/// size, the smallest of them when several are equally frequent.
pub open spec fn is_modal_points(objs: Seq<PreciseTextObject>, p: int) -> bool {
    &&& exists|k: int| 0 <= k < objs.len() && rounded_points(#[trigger] objs[k].font_size as int) == p
    &&& forall|k: int|
        0 <= k < objs.len() ==> outranks(objs, p, rounded_points(#[trigger] objs[k].font_size as int))
}

/// The modal font size of the characters in whole points.
pub open spec fn modal_points(objs: Seq<PreciseTextObject>) -> int {
    choose|p: int| is_modal_points(objs, p)
}

/// A list of characters has at most one modal size.
pub proof fn lemma_modal_points_unique(objs: Seq<PreciseTextObject>, p: int, q: int)
    requires
        is_modal_points(objs, p),
        is_modal_points(objs, q),
    ensures
        p == q,
{
    let kp = choose|k: int| 0 <= k < objs.len() && rounded_points(#[trigger] objs[k].font_size as int) == p;
    let kq = choose|k: int| 0 <= k < objs.len() && rounded_points(#[trigger] objs[k].font_size as int) == q;
    assert(outranks(objs, p, q));
    assert(outranks(objs, q, p));
}

/// The leftmost start of a character.
pub open spec fn left_extent(objs: Seq<PreciseTextObject>) -> int {
    objs.map_values(|o: PreciseTextObject| o.bbox.x0 as int).min()
}

/// The rightmost end of a character.
pub open spec fn right_extent(objs: Seq<PreciseTextObject>) -> int {
    objs.map_values(|o: PreciseTextObject| o.bbox.x1 as int).max()
}

/// The highest top of a character.
pub open spec fn top_extent(objs: Seq<PreciseTextObject>) -> int {
    objs.map_values(|o: PreciseTextObject| o.bbox.y0 as int).min()
}

/// The lowest bottom of a character.
pub open spec fn bottom_extent(objs: Seq<PreciseTextObject>) -> int {
    objs.map_values(|o: PreciseTextObject| o.bbox.y1 as int).max()
}

/// The cell width calibrated from the characters' modal font size.
pub open spec fn calibrated_width(objs: Seq<PreciseTextObject>) -> int {
    cell_width_for(modal_points(objs) * MILLIPOINTS_PER_POINT)
}

/// The cell height calibrated from the characters' modal font size.
pub open spec fn calibrated_height(objs: Seq<PreciseTextObject>) -> int {
    cell_height_for(modal_points(objs) * MILLIPOINTS_PER_POINT)
}

/// `num / den` rounded up.
pub open spec fn ceil_div(num: int, den: int) -> int {
    (num + den - 1) / den
}

/// `num / den` rounded to the nearest whole number, halves rounded up.
pub open spec fn round_div(num: int, den: int) -> int {
    (2 * num + den) / (2 * den)
}

/// How many cells of size `cell` cover `span`, but at least `MIN_GRID_SIDE`.
pub open spec fn grid_side(span: int, cell: int) -> int {
    max_of(ceil_div(span, cell), MIN_GRID_SIDE as int)
}

/// The number of columns of the grid built from the characters.
pub open spec fn grid_width(objs: Seq<PreciseTextObject>) -> int {
    grid_side(right_extent(objs) - left_extent(objs), calibrated_width(objs))
}

/// The number of rows of the grid built from the characters.
pub open spec fn grid_height(objs: Seq<PreciseTextObject>) -> int {
    grid_side(bottom_extent(objs) - top_extent(objs), calibrated_height(objs))
}

/// The column of a character: its distance from the leftmost start in cells, rounded.
pub open spec fn column_of(objs: Seq<PreciseTextObject>, o: PreciseTextObject) -> int {
    round_div(o.bbox.x0 - left_extent(objs), calibrated_width(objs))
}

/// The row of a character: its distance from the highest top in cells, rounded.
pub open spec fn row_of(objs: Seq<PreciseTextObject>, o: PreciseTextObject) -> int {
    round_div(o.bbox.y0 - top_extent(objs), calibrated_height(objs))
}

/// The character's cell lies in the grid.
pub open spec fn lands(objs: Seq<PreciseTextObject>, o: PreciseTextObject) -> bool {
    0 <= column_of(objs, o) < grid_width(objs) && 0 <= row_of(objs, o) < grid_height(objs)
}

/// The grid after the first `k` characters were written into their cells, in order, onto a
/// grid of spaces; a later character overwrites an earlier one in the same cell.
pub open spec fn painted(objs: Seq<PreciseTextObject>, k: nat) -> Seq<Seq<char>>
    decreases k,
{
    if k == 0 || k > objs.len() {
        Seq::new(grid_height(objs) as nat, |r: int| Seq::new(grid_width(objs) as nat, |c: int| ' '))
    } else {
        let g = painted(objs, (k - 1) as nat);
        let o = objs[k - 1];
        if lands(objs, o) {
            g.update(row_of(objs, o), g[row_of(objs, o)].update(column_of(objs, o), o.character))
        } else {
            g
        }
    }
}

pub(crate) proof fn lemma_painted_shape(objs: Seq<PreciseTextObject>, k: nat)
    requires
        grid_width(objs) >= 0,
        grid_height(objs) >= 0,
        k <= objs.len(),
    ensures
        painted(objs, k).len() == grid_height(objs),
        forall|r: int| 0 <= r < grid_height(objs) ==> (#[trigger] painted(objs, k)[r]).len() == grid_width(objs),
    decreases k,
{
    if k > 0 {
        lemma_painted_shape(objs, (k - 1) as nat);
    }
}

proof fn lemma_min_is(s: Seq<int>, v: int)
    requires
        s.contains(v),
        forall|k: int| 0 <= k < s.len() ==> v <= #[trigger] s[k],
    ensures
        v == s.min(),
{
    s.min_ensures();
}

proof fn lemma_max_is(s: Seq<int>, v: int)
    requires
        s.contains(v),
        forall|k: int| 0 <= k < s.len() ==> #[trigger] s[k] <= v,
    ensures
        v == s.max(),
{
    s.max_ensures();
}

/// A font size in millipoints rounded to whole points.
pub fn round_to_points(size: i64) -> (r: i64)
    requires
        0 <= size <= MAX_OBJECT_COORD,
    ensures
        r == rounded_points(size as int),
        0 <= r <= MAX_OBJECT_COORD / MILLIPOINTS_PER_POINT + 1,
{
    (size + MILLIPOINTS_PER_POINT / 2) / MILLIPOINTS_PER_POINT
}

/// How many of the characters have a font size that rounds to `p` points.
fn tally(objs: &Vec<PreciseTextObject>, p: i64) -> (r: usize)
    requires
        forall|k: int| 0 <= k < objs@.len() ==> (#[trigger] objs@[k]).fits(),
    ensures
        r == size_tally(objs@, p as int),
{
    let mut count: usize = 0;
    let mut j: usize = 0;
    while j < objs.len()
        invariant
            j <= objs@.len(),
            forall|k: int| 0 <= k < objs@.len() ==> (#[trigger] objs@[k]).fits(),
            count <= j,
            count == size_tally(objs@.subrange(0, j as int), p as int),
        decreases objs@.len() - j,
    {
        assert(objs@.subrange(0, j + 1).drop_last() =~= objs@.subrange(0, j as int));
        if round_to_points(objs[j].font_size) == p {
            count = count + 1;
        }
        j = j + 1;
    }
    assert(objs@.subrange(0, objs@.len() as int) =~= objs@);
    count
}

/// The modal font size of a non-empty list of characters, in whole points.
pub fn modal_font_points(objs: &Vec<PreciseTextObject>) -> (r: i64)
    requires
        objs@.len() > 0,
        forall|k: int| 0 <= k < objs@.len() ==> (#[trigger] objs@[k]).fits(),
    ensures
        r == modal_points(objs@),
        is_modal_points(objs@, r as int),
        0 <= r <= MAX_OBJECT_COORD / MILLIPOINTS_PER_POINT + 1,
{
    let mut best = round_to_points(objs[0].font_size);
    let mut best_count = tally(objs, best);
    let mut k: usize = 1;
    while k < objs.len()
        invariant
            1 <= k <= objs@.len(),
            forall|i: int| 0 <= i < objs@.len() ==> (#[trigger] objs@[i]).fits(),
            0 <= best <= MAX_OBJECT_COORD / MILLIPOINTS_PER_POINT + 1,
            best_count == size_tally(objs@, best as int),
            exists|i: int| 0 <= i < k && rounded_points(#[trigger] objs@[i].font_size as int) == best,
            forall|i: int|
                0 <= i < k ==> outranks(objs@, best as int, rounded_points(#[trigger] objs@[i].font_size as int)),
        decreases objs@.len() - k,
    {
        let p = round_to_points(objs[k].font_size);
        let c = tally(objs, p);
        if c > best_count || (c == best_count && p < best) {
            best = p;
            best_count = c;
        }
        k = k + 1;
    }
    proof {
        assert(is_modal_points(objs@, best as int));
        lemma_modal_points_unique(objs@, best as int, modal_points(objs@));
    }
    best
}

/// The leftmost start, rightmost end, highest top and lowest bottom of a non-empty list of
/// characters.
pub fn page_extents(objs: &Vec<PreciseTextObject>) -> (r: (i64, i64, i64, i64))
    requires
        objs@.len() > 0,
    ensures
        r.0 == left_extent(objs@),
        r.1 == right_extent(objs@),
        r.2 == top_extent(objs@),
        r.3 == bottom_extent(objs@),
{
    let ghost xs0 = objs@.map_values(|o: PreciseTextObject| o.bbox.x0 as int);
    let ghost xs1 = objs@.map_values(|o: PreciseTextObject| o.bbox.x1 as int);
    let ghost ys0 = objs@.map_values(|o: PreciseTextObject| o.bbox.y0 as int);
    let ghost ys1 = objs@.map_values(|o: PreciseTextObject| o.bbox.y1 as int);
    let mut min_x = objs[0].bbox.x0;
    let mut max_x = objs[0].bbox.x1;
    let mut min_y = objs[0].bbox.y0;
    let mut max_y = objs[0].bbox.y1;
    let ghost mut i0: int = 0;
    let ghost mut i1: int = 0;
    let ghost mut i2: int = 0;
    let ghost mut i3: int = 0;
    let mut k: usize = 1;
    while k < objs.len()
        invariant
            1 <= k <= objs@.len(),
            xs0 == objs@.map_values(|o: PreciseTextObject| o.bbox.x0 as int),
            xs1 == objs@.map_values(|o: PreciseTextObject| o.bbox.x1 as int),
            ys0 == objs@.map_values(|o: PreciseTextObject| o.bbox.y0 as int),
            ys1 == objs@.map_values(|o: PreciseTextObject| o.bbox.y1 as int),
            0 <= i0 < k && xs0[i0] == min_x,
            0 <= i1 < k && xs1[i1] == max_x,
            0 <= i2 < k && ys0[i2] == min_y,
            0 <= i3 < k && ys1[i3] == max_y,
            forall|i: int| 0 <= i < k ==> min_x <= #[trigger] xs0[i],
            forall|i: int| 0 <= i < k ==> #[trigger] xs1[i] <= max_x,
            forall|i: int| 0 <= i < k ==> min_y <= #[trigger] ys0[i],
            forall|i: int| 0 <= i < k ==> #[trigger] ys1[i] <= max_y,
        decreases objs@.len() - k,
    {
        let b = objs[k].bbox;
        if b.x0 < min_x {
            min_x = b.x0;
            proof {
                i0 = k as int;
            }
        }
        if b.x1 > max_x {
            max_x = b.x1;
            proof {
                i1 = k as int;
            }
        }
        if b.y0 < min_y {
            min_y = b.y0;
            proof {
                i2 = k as int;
            }
        }
        if b.y1 > max_y {
            max_y = b.y1;
            proof {
                i3 = k as int;
            }
        }
        k = k + 1;
    }
    proof {
        lemma_min_is(xs0, min_x as int);
        lemma_max_is(xs1, max_x as int);
        lemma_min_is(ys0, min_y as int);
        lemma_max_is(ys1, max_y as int);
    }
    (min_x, max_x, min_y, max_y)
}

/// The cell of a character's box on a grid whose cells are `char_width` by `char_height`
/// and whose first cell starts at `(min_x, min_y)`: `(row, column)`, each the distance in
/// cells, rounded.
pub fn grid_cell(bbox: &PDFBBox, min_x: i64, min_y: i64, char_width: i64, char_height: i64) -> (r: (
    i64,
    i64,
))
    requires
        min_x <= bbox.x0,
        min_y <= bbox.y0,
        bbox.x0 - min_x <= 2 * MAX_OBJECT_COORD,
        bbox.y0 - min_y <= 2 * MAX_OBJECT_COORD,
        0 < char_width <= 2 * MAX_OBJECT_COORD,
        0 < char_height <= 2 * MAX_OBJECT_COORD,
    ensures
        r.0 == round_div(bbox.y0 - min_y, char_height as int),
        r.1 == round_div(bbox.x0 - min_x, char_width as int),
        0 <= r.0,
        0 <= r.1,
{
    let dy = bbox.y0 - min_y;
    let dx = bbox.x0 - min_x;
    ((2 * dy + char_height) / (2 * char_height), (2 * dx + char_width) / (2 * char_width))
}

} // verus!
