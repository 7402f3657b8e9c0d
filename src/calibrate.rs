use vstd::prelude::*;
use vstd::relations::{sorted_by, total_ordering};

verus! {

/// Lengths on the page are in millipoints, thousandths of a point.
pub const MILLIPOINTS_PER_POINT: i64 = 1000;

/// The largest magnitude of a page coordinate or a font size, in millipoints.
pub const MAX_COORD: i64 = 1099511627776;

/// The largest font size that a cell size is derived from, in millipoints.
pub const MAX_FONT_SIZE: i64 = 17592186044416;

/// The cell width used when no font size is known (6 points).
pub const DEFAULT_CHAR_WIDTH: i64 = 6000;

/// The cell height used when no font size is known (12 points).
pub const DEFAULT_CHAR_HEIGHT: i64 = 12000;

/// The narrowest calibrated cell (4 points).
pub const MIN_CHAR_WIDTH: i64 = 4000;

/// The lowest calibrated cell (8 points).
pub const MIN_CHAR_HEIGHT: i64 = 8000;

/// Ascending order on sizes.
pub open spec fn size_le() -> spec_fn(i64, i64) -> bool {
    |a: i64, b: i64| a <= b
}

/// The sizes that are positive, in their order.
pub open spec fn positive_sizes(s: Seq<i64>) -> Seq<i64> {
    s.filter(|x: i64| x > 0)
}

/// The representative size of a sample: the element in the middle (the upper middle one for
/// an even count) of its positive sizes in ascending order.
pub open spec fn median_size(s: Seq<i64>) -> i64 {
    let p = positive_sizes(s).sort_by(size_le());
    p[(p.len() / 2) as int]
}

pub open spec fn max_of(a: int, b: int) -> int {
    if a >= b {
        a
    } else {
        b
    }
}

/// The cell width for a font size: six tenths of it, at least `MIN_CHAR_WIDTH`.
pub open spec fn cell_width_for(size: int) -> int {
    max_of(size * 6 / 10, MIN_CHAR_WIDTH as int)
}

/// The cell height for a font size: twelve tenths of it, at least `MIN_CHAR_HEIGHT`.
pub open spec fn cell_height_for(size: int) -> int {
    max_of(size * 12 / 10, MIN_CHAR_HEIGHT as int)
}

/// Sorts sizes in ascending order.
///
/// Relies on `slice::sort`, which sorts the slice in ascending order and keeps its elements.
#[verifier::external_body]
fn sort_ascending(v: &mut Vec<i64>)
    ensures
        sorted_by(final(v)@, size_le()),
        final(v)@.to_multiset() == old(v)@.to_multiset(),
{
    v.sort();
}

proof fn lemma_size_le_total()
    ensures
        total_ordering(size_le()),
{
}

/// The cell size for a font size, as `(width, height)`.
pub fn cell_size_for(size: i64) -> (r: (i64, i64))
    requires
        0 <= size <= MAX_FONT_SIZE,
    ensures
        r.0 == cell_width_for(size as int),
        r.1 == cell_height_for(size as int),
        MIN_CHAR_WIDTH <= r.0 <= MAX_FONT_SIZE,
        MIN_CHAR_HEIGHT <= r.1 <= 2 * MAX_FONT_SIZE,
{
    let w = size * 6 / 10;
    let h = size * 12 / 10;
    (if w >= MIN_CHAR_WIDTH {
        w
    } else {
        MIN_CHAR_WIDTH
    }, if h >= MIN_CHAR_HEIGHT {
        h
    } else {
        MIN_CHAR_HEIGHT
    })
}

/// The representative size of a sample of font sizes, if any of them is positive.
pub fn median_font_size(sizes: &Vec<i64>) -> (r: Option<i64>)
    ensures
        positive_sizes(sizes@).len() == 0 <==> r is None,
        r matches Some(m) ==> m == median_size(sizes@) && m > 0 && sizes@.contains(m),
{
    let ghost pred = |x: i64| x > 0;
    let mut positive: Vec<i64> = Vec::new();
    let mut k: usize = 0;
    while k < sizes.len()
        invariant
            k <= sizes@.len(),
            pred == (|x: i64| x > 0),
            positive@ == sizes@.subrange(0, k as int).filter(pred),
        decreases sizes@.len() - k,
    {
        let ghost before = positive@;
        if sizes[k] > 0 {
            positive.push(sizes[k]);
        }
        proof {
            sizes@.subrange(0, k as int).lemma_filter_push(sizes@[k as int], pred);
            assert(sizes@.subrange(0, k + 1) =~= sizes@.subrange(0, k as int).push(sizes@[k as int]));
            if sizes@[k as int] > 0 {
                assert(pred(sizes@[k as int]));
                assert(positive@ == before.push(sizes@[k as int]));
            } else {
                assert(!pred(sizes@[k as int]));
            }
        }
        k = k + 1;
    }
    assert(sizes@.subrange(0, sizes@.len() as int) =~= sizes@);
    assert(positive@ == positive_sizes(sizes@));
    if positive.len() == 0 {
        return None;
    }
    let ghost unsorted = positive@;
    sort_ascending(&mut positive);
    proof {
        vstd::seq_lib::to_multiset_len(unsorted);
        vstd::seq_lib::to_multiset_len(positive@);
    }
    proof {
        lemma_size_le_total();
        unsorted.lemma_sort_by_ensures(size_le());
        vstd::seq_lib::lemma_sorted_unique(positive@, unsorted.sort_by(size_le()), size_le());
        let mid = positive@.len() / 2;
        assert(positive@.to_multiset().count(positive@[mid as int]) > 0) by {
            vstd::seq_lib::to_multiset_contains(positive@, positive@[mid as int]);
            assert(positive@.contains(positive@[mid as int]));
        }
        vstd::seq_lib::to_multiset_contains(unsorted, positive@[mid as int]);
        unsorted.lemma_filter_contains_rev(pred, positive@[mid as int]);
        assert(sizes@.filter(pred).contains(positive@[mid as int]));
        sizes@.lemma_filter_contains_rev(pred, positive@[mid as int]);
    }
    Some(positive[positive.len() / 2])
}

} // verus!
