use vstd::prelude::*;

use crate::geometry::CharBBox;

verus! {

/// Confidence of a region, in thousandths; regions read directly from a document's text
/// have full confidence.
pub const FULL_CONFIDENCE: u16 = 1000;

/// A run of grid cells believed to hold one piece of the original text.
#[derive(Clone, Debug)]
pub struct TextRegion {
    pub bbox: CharBBox,
    /// Confidence in thousandths, at most `FULL_CONFIDENCE`.
    pub confidence: u16,
    pub text_content: String,
    pub region_id: usize,
}

/// What a region is, with its text as a sequence of characters.
pub struct RegionView {
    pub bbox: CharBBox,
    pub confidence: u16,
    pub text: Seq<char>,
    pub region_id: usize,
}

impl View for TextRegion {
    type V = RegionView;

    open spec fn view(&self) -> RegionView {
        RegionView {
            bbox: self.bbox,
            confidence: self.confidence,
            text: self.text_content@,
            region_id: self.region_id,
        }
    }
}

/// The views of a list of regions.
pub open spec fn region_views(rs: Seq<TextRegion>) -> Seq<RegionView> {
    rs.map_values(|r: TextRegion| r@)
}

/// The column just past a box.
pub open spec fn right_edge(b: CharBBox) -> int {
    b.x + b.width
}

pub open spec fn abs_int(a: int) -> int {
    if a < 0 {
        -a
    } else {
        a
    }
}

/// Two boxes lie on the same rows.
pub open spec fn same_band(a: CharBBox, b: CharBBox) -> bool {
    a.y == b.y && a.height == b.height
}

/// Two boxes may be merged: they lie on the same rows, and the right edge of one is at most
/// two columns from the left edge of the other.
pub open spec fn mergeable(a: CharBBox, b: CharBBox) -> bool {
    &&& same_band(a, b)
    &&& abs_int(b.x - right_edge(a)) <= 2 || abs_int(a.x - right_edge(b)) <= 2
}

/// The region `cur` after absorbing `other`: its columns cover both, its text is followed by
/// the other's, and it keeps its own rows, confidence and id.
pub open spec fn absorb(cur: RegionView, other: RegionView) -> RegionView {
    let x = if cur.bbox.x <= other.bbox.x {
        cur.bbox.x
    } else {
        other.bbox.x
    };
    let end = if right_edge(cur.bbox) >= right_edge(other.bbox) {
        right_edge(cur.bbox)
    } else {
        right_edge(other.bbox)
    };
    RegionView {
        bbox: CharBBox { x, y: cur.bbox.y, width: (end - x) as usize, height: cur.bbox.height },
        text: cur.text + other.text,
        ..cur
    }
}

/// One pass over the regions from index `j` on: each region not yet taken that may be merged
/// with the growing region `cur` is absorbed into it and taken. Gives the grown region, the
/// taken marks, and whether anything was absorbed.
pub open spec fn scan(rs: Seq<RegionView>, taken: Seq<bool>, cur: RegionView, j: int) -> (
    RegionView,
    Seq<bool>,
    bool,
)
    decreases rs.len() - j,
{
    if j >= rs.len() || j < 0 {
        (cur, taken, false)
    } else if taken[j] || !mergeable(cur.bbox, rs[j].bbox) {
        scan(rs, taken, cur, j + 1)
    } else {
        let next = scan(rs, taken.update(j, true), absorb(cur, rs[j]), j + 1);
        (next.0, next.1, true)
    }
}

/// Passes over the regions, at most `fuel` of them, until one absorbs nothing.
pub open spec fn grow(rs: Seq<RegionView>, taken: Seq<bool>, cur: RegionView, fuel: nat) -> (
    RegionView,
    Seq<bool>,
)
    decreases fuel,
{
    if fuel == 0 {
        (cur, taken)
    } else {
        let pass = scan(rs, taken, cur, 0);
        if pass.2 {
            grow(rs, pass.1, pass.0, (fuel - 1) as nat)
        } else {
            (pass.0, pass.1)
        }
    }
}

/// The merged regions seeded at indices `i` and after: each region not yet taken seeds a new
/// region, which grows until no region left may be merged with it.
pub open spec fn merge_from(rs: Seq<RegionView>, taken: Seq<bool>, i: int) -> Seq<RegionView>
    decreases rs.len() - i,
{
    if i >= rs.len() || i < 0 {
        seq![]
    } else if taken[i] {
        merge_from(rs, taken, i + 1)
    } else {
        let grown = grow(rs, taken.update(i, true), rs[i], rs.len());
        seq![grown.0] + merge_from(rs, grown.1, i + 1)
    }
}

/// The result of merging adjacent regions, in the order in which their seeds appear.
pub open spec fn merged(rs: Seq<RegionView>) -> Seq<RegionView> {
    merge_from(rs, Seq::new(rs.len(), |k: int| false), 0)
}

/// The number of marks that are not set.
pub open spec fn open_count(d: Seq<bool>) -> nat
    decreases d.len(),
{
    if d.len() == 0 {
        0
    } else {
        open_count(d.drop_last()) + if d.last() {
            0nat
        } else {
            1nat
        }
    }
}

proof fn lemma_open_count_bounds(d: Seq<bool>)
    ensures
        open_count(d) <= d.len(),
        open_count(d) == 0 ==> forall|k: int| 0 <= k < d.len() ==> d[k],
    decreases d.len(),
{
    if d.len() > 0 {
        lemma_open_count_bounds(d.drop_last());
        if open_count(d) == 0 {
            assert forall|k: int| 0 <= k < d.len() implies d[k] by {
                if k < d.len() - 1 {
                    assert(d.drop_last()[k] == d[k]);
                }
            }
        }
    }
}

proof fn lemma_open_count_take(d: Seq<bool>, k: int)
    requires
        0 <= k < d.len(),
        !d[k],
    ensures
        open_count(d.update(k, true)) + 1 == open_count(d),
    decreases d.len(),
{
    let u = d.update(k, true);
    if k == d.len() - 1 {
        assert(u.drop_last() =~= d.drop_last());
    } else {
        assert(u.drop_last() =~= d.drop_last().update(k, true));
        lemma_open_count_take(d.drop_last(), k);
    }
}

/// Every region of the list ends within the range of `usize`.
pub open spec fn spans_fit(rs: Seq<RegionView>) -> bool {
    forall|k: int| 0 <= k < rs.len() ==> right_edge(#[trigger] rs[k].bbox) <= usize::MAX
}

/// The marks of `before` are all set in `after`, which has the same length.
pub open spec fn marks_grow(before: Seq<bool>, after: Seq<bool>) -> bool {
    &&& after.len() == before.len()
    &&& forall|k: int| 0 <= k < before.len() && before[k] ==> #[trigger] after[k]
}

/// Some region taken between `before` and `after`, on the rows of `band`, starts at column `x`.
pub open spec fn left_taken(
    rs: Seq<RegionView>,
    before: Seq<bool>,
    after: Seq<bool>,
    band: CharBBox,
    x: int,
) -> bool {
    exists|k: int|
        0 <= k < rs.len() && after[k] && !before[k] && same_band(#[trigger] rs[k].bbox, band)
            && rs[k].bbox.x == x
}

/// Some region taken between `before` and `after`, on the rows of `band`, ends at column `e`.
pub open spec fn right_taken(
    rs: Seq<RegionView>,
    before: Seq<bool>,
    after: Seq<bool>,
    band: CharBBox,
    e: int,
) -> bool {
    exists|k: int|
        0 <= k < rs.len() && after[k] && !before[k] && same_band(#[trigger] rs[k].bbox, band)
            && right_edge(rs[k].bbox) == e
}

/// What a grown region `c` owes to the region `cur` it grew from and to the regions taken
/// on the way.
pub open spec fn grown_from(
    rs: Seq<RegionView>,
    before: Seq<bool>,
    after: Seq<bool>,
    cur: RegionView,
    c: RegionView,
) -> bool {
    &&& same_band(c.bbox, cur.bbox)
    &&& c.region_id == cur.region_id
    &&& c.confidence == cur.confidence
    &&& c.bbox.x == cur.bbox.x || left_taken(rs, before, after, cur.bbox, c.bbox.x as int)
    &&& right_edge(c.bbox) == right_edge(cur.bbox) || right_taken(
        rs,
        before,
        after,
        cur.bbox,
        right_edge(c.bbox),
    )
    &&& right_edge(c.bbox) <= usize::MAX
}

proof fn lemma_absorb(cur: RegionView, other: RegionView)
    requires
        right_edge(cur.bbox) <= usize::MAX,
        right_edge(other.bbox) <= usize::MAX,
    ensures
        ({
            let c = absorb(cur, other);
            &&& same_band(c.bbox, cur.bbox)
            &&& c.region_id == cur.region_id
            &&& c.confidence == cur.confidence
            &&& c.bbox.x == cur.bbox.x || c.bbox.x == other.bbox.x
            &&& right_edge(c.bbox) == right_edge(cur.bbox) || right_edge(c.bbox) == right_edge(
                other.bbox,
            )
            &&& right_edge(c.bbox) <= usize::MAX
        }),
{
}

proof fn lemma_scan(rs: Seq<RegionView>, taken: Seq<bool>, cur: RegionView, j: int)
    requires
        taken.len() == rs.len(),
        0 <= j <= rs.len(),
        spans_fit(rs),
        right_edge(cur.bbox) <= usize::MAX,
    ensures
        ({
            let (c, t, any) = scan(rs, taken, cur, j);
            &&& marks_grow(taken, t)
            &&& open_count(t) <= open_count(taken)
            &&& any ==> open_count(t) < open_count(taken)
            &&& !any ==> c == cur && t == taken
            &&& !any ==> forall|k: int|
                j <= k < rs.len() && !taken[k] ==> !mergeable(cur.bbox, #[trigger] rs[k].bbox)
            &&& grown_from(rs, taken, t, cur, c)
        }),
    decreases rs.len() - j,
{
    if j >= rs.len() {
    } else if taken[j] || !mergeable(cur.bbox, rs[j].bbox) {
        lemma_scan(rs, taken, cur, j + 1);
    } else {
        let d1 = taken.update(j, true);
        let c1 = absorb(cur, rs[j]);
        lemma_absorb(cur, rs[j]);
        lemma_open_count_take(taken, j);
        lemma_scan(rs, d1, c1, j + 1);
        let (c, t, any) = scan(rs, d1, c1, j + 1);
        assert(t[j]);
        if c.bbox.x != cur.bbox.x {
            if c.bbox.x == c1.bbox.x {
                assert(c1.bbox.x == rs[j].bbox.x);
                assert(same_band(rs[j].bbox, cur.bbox));
            } else {
                let k = choose|k: int|
                    0 <= k < rs.len() && t[k] && !d1[k] && same_band(#[trigger] rs[k].bbox, c1.bbox)
                        && rs[k].bbox.x == c.bbox.x;
                assert(!taken[k]);
            }
            assert(left_taken(rs, taken, t, cur.bbox, c.bbox.x as int));
        }
        if right_edge(c.bbox) != right_edge(cur.bbox) {
            if right_edge(c.bbox) == right_edge(c1.bbox) {
                assert(right_edge(c1.bbox) == right_edge(rs[j].bbox));
                assert(same_band(rs[j].bbox, cur.bbox));
            } else {
                let k = choose|k: int|
                    0 <= k < rs.len() && t[k] && !d1[k] && same_band(#[trigger] rs[k].bbox, c1.bbox)
                        && right_edge(rs[k].bbox) == right_edge(c.bbox);
                assert(!taken[k]);
            }
            assert(right_taken(rs, taken, t, cur.bbox, right_edge(c.bbox)));
        }
    }
}

proof fn lemma_grow(rs: Seq<RegionView>, taken: Seq<bool>, cur: RegionView, fuel: nat)
    requires
        taken.len() == rs.len(),
        fuel >= open_count(taken),
        spans_fit(rs),
        right_edge(cur.bbox) <= usize::MAX,
    ensures
        ({
            let (c, t) = grow(rs, taken, cur, fuel);
            &&& marks_grow(taken, t)
            &&& forall|k: int|
                0 <= k < rs.len() && !t[k] ==> !mergeable(c.bbox, #[trigger] rs[k].bbox)
            &&& grown_from(rs, taken, t, cur, c)
        }),
    decreases fuel,
{
    if fuel == 0 {
        lemma_open_count_bounds(taken);
    } else {
        lemma_scan(rs, taken, cur, 0);
        let pass = scan(rs, taken, cur, 0);
        if pass.2 {
            lemma_grow(rs, pass.1, pass.0, (fuel - 1) as nat);
            let (c, t) = grow(rs, pass.1, pass.0, (fuel - 1) as nat);
            if c.bbox.x != cur.bbox.x {
                if c.bbox.x == pass.0.bbox.x {
                    let k = choose|k: int|
                        0 <= k < rs.len() && pass.1[k] && !taken[k] && same_band(
                            #[trigger] rs[k].bbox,
                            cur.bbox,
                        ) && rs[k].bbox.x == pass.0.bbox.x;
                    assert(t[k]);
                } else {
                    let k = choose|k: int|
                        0 <= k < rs.len() && t[k] && !pass.1[k] && same_band(
                            #[trigger] rs[k].bbox,
                            pass.0.bbox,
                        ) && rs[k].bbox.x == c.bbox.x;
                    assert(!taken[k]);
                }
                assert(left_taken(rs, taken, t, cur.bbox, c.bbox.x as int));
            }
            if right_edge(c.bbox) != right_edge(cur.bbox) {
                if right_edge(c.bbox) == right_edge(pass.0.bbox) {
                    let k = choose|k: int|
                        0 <= k < rs.len() && pass.1[k] && !taken[k] && same_band(
                            #[trigger] rs[k].bbox,
                            cur.bbox,
                        ) && right_edge(rs[k].bbox) == right_edge(pass.0.bbox);
                    assert(t[k]);
                } else {
                    let k = choose|k: int|
                        0 <= k < rs.len() && t[k] && !pass.1[k] && same_band(
                            #[trigger] rs[k].bbox,
                            pass.0.bbox,
                        ) && right_edge(rs[k].bbox) == right_edge(c.bbox);
                    assert(!taken[k]);
                }
                assert(right_taken(rs, taken, t, cur.bbox, right_edge(c.bbox)));
            }
        }
    }
}

/// The box `o` starts where some region not taken in `taken` starts and ends where some such
/// region ends, both on the rows of `o`.
pub open spec fn drawn_from(rs: Seq<RegionView>, taken: Seq<bool>, o: CharBBox) -> bool {
    &&& exists|k: int|
        0 <= k < rs.len() && !taken[k] && same_band(#[trigger] rs[k].bbox, o) && rs[k].bbox.x
            == o.x
    &&& exists|k: int|
        0 <= k < rs.len() && !taken[k] && same_band(#[trigger] rs[k].bbox, o) && right_edge(
            rs[k].bbox,
        ) == right_edge(o)
}

/// No two regions of the list may be merged.
pub open spec fn pairwise_apart(rs: Seq<RegionView>) -> bool {
    forall|a: int, b: int|
        0 <= a < rs.len() && 0 <= b < rs.len() && a != b ==> !mergeable(
            #[trigger] rs[a].bbox,
            #[trigger] rs[b].bbox,
        )
}

proof fn lemma_apart(c: CharBBox, o: CharBBox, w1: CharBBox, w2: CharBBox)
    requires
        !mergeable(c, w1),
        !mergeable(c, w2),
        same_band(w1, o),
        same_band(w2, o),
        w1.x == o.x,
        right_edge(w2) == right_edge(o),
    ensures
        !mergeable(c, o),
        !mergeable(o, c),
{
}

proof fn lemma_merge_from(rs: Seq<RegionView>, taken: Seq<bool>, i: int)
    requires
        taken.len() == rs.len(),
        0 <= i <= rs.len(),
        spans_fit(rs),
    ensures
        ({
            let out = merge_from(rs, taken, i);
            &&& pairwise_apart(out)
            &&& forall|a: int| 0 <= a < out.len() ==> drawn_from(rs, taken, #[trigger] out[a].bbox)
        }),
    decreases rs.len() - i,
{
    if i >= rs.len() {
    } else if taken[i] {
        lemma_merge_from(rs, taken, i + 1);
    } else {
        let d0 = taken.update(i, true);
        lemma_open_count_bounds(d0);
        lemma_grow(rs, d0, rs[i], rs.len());
        let (c, t) = grow(rs, d0, rs[i], rs.len());
        lemma_merge_from(rs, t, i + 1);
        let rest = merge_from(rs, t, i + 1);
        let out = merge_from(rs, taken, i);
        assert(out == seq![c] + rest);
        assert forall|a: int| 0 <= a < rest.len() implies drawn_from(
            rs,
            taken,
            #[trigger] rest[a].bbox,
        ) by {
            let o = rest[a].bbox;
            assert(drawn_from(rs, t, o));
            let k1 = choose|k: int|
                0 <= k < rs.len() && !t[k] && same_band(#[trigger] rs[k].bbox, o) && rs[k].bbox.x
                    == o.x;
            let k2 = choose|k: int|
                0 <= k < rs.len() && !t[k] && same_band(#[trigger] rs[k].bbox, o) && right_edge(
                    rs[k].bbox,
                ) == right_edge(o);
            assert(!taken[k1] && !taken[k2]);
        }
        assert(drawn_from(rs, taken, c.bbox)) by {
            if c.bbox.x == rs[i].bbox.x {
                assert(same_band(rs[i].bbox, c.bbox));
            } else {
                let k = choose|k: int|
                    0 <= k < rs.len() && t[k] && !d0[k] && same_band(#[trigger] rs[k].bbox, rs[i].bbox)
                        && rs[k].bbox.x == c.bbox.x;
                assert(!taken[k]);
            }
            if right_edge(c.bbox) == right_edge(rs[i].bbox) {
                assert(same_band(rs[i].bbox, c.bbox));
            } else {
                let k = choose|k: int|
                    0 <= k < rs.len() && t[k] && !d0[k] && same_band(#[trigger] rs[k].bbox, rs[i].bbox)
                        && right_edge(rs[k].bbox) == right_edge(c.bbox);
                assert(!taken[k]);
            }
        }
        assert forall|b: int| 0 <= b < rest.len() implies !mergeable(c.bbox, #[trigger] rest[b].bbox)
            && !mergeable(rest[b].bbox, c.bbox) by {
            let o = rest[b].bbox;
            assert(drawn_from(rs, t, o));
            let k1 = choose|k: int|
                0 <= k < rs.len() && !t[k] && same_band(#[trigger] rs[k].bbox, o) && rs[k].bbox.x
                    == o.x;
            let k2 = choose|k: int|
                0 <= k < rs.len() && !t[k] && same_band(#[trigger] rs[k].bbox, o) && right_edge(
                    rs[k].bbox,
                ) == right_edge(o);
            lemma_apart(c.bbox, o, rs[k1].bbox, rs[k2].bbox);
        }
        assert forall|a: int, b: int|
            0 <= a < out.len() && 0 <= b < out.len() && a != b implies !mergeable(
            #[trigger] out[a].bbox,
            #[trigger] out[b].bbox,
        ) by {
            if a == 0 {
                assert(out[b] == rest[b - 1]);
            } else if b == 0 {
                assert(out[a] == rest[a - 1]);
            } else {
                assert(out[a] == rest[a - 1]);
                assert(out[b] == rest[b - 1]);
            }
        }
        assert forall|a: int| 0 <= a < out.len() implies drawn_from(rs, taken, #[trigger] out[a].bbox) by {
            if a > 0 {
                assert(out[a] == rest[a - 1]);
            }
        }
    }
}

proof fn lemma_scan_quiet(rs: Seq<RegionView>, taken: Seq<bool>, cur: RegionView, j: int)
    requires
        taken.len() == rs.len(),
        0 <= j <= rs.len(),
        forall|k: int| j <= k < rs.len() ==> taken[k] || !mergeable(cur.bbox, #[trigger] rs[k].bbox),
    ensures
        scan(rs, taken, cur, j) == (cur, taken, false),
    decreases rs.len() - j,
{
    if j < rs.len() {
        lemma_scan_quiet(rs, taken, cur, j + 1);
    }
}

proof fn lemma_merge_from_apart(rs: Seq<RegionView>, taken: Seq<bool>, i: int)
    requires
        taken.len() == rs.len(),
        0 <= i <= rs.len(),
        pairwise_apart(rs),
        forall|k: int| i <= k < rs.len() ==> !taken[k],
    ensures
        merge_from(rs, taken, i) == rs.subrange(i, rs.len() as int),
    decreases rs.len() - i,
{
    if i < rs.len() {
        let d0 = taken.update(i, true);
        assert forall|k: int| 0 <= k < rs.len() implies d0[k] || !mergeable(
            rs[i].bbox,
            #[trigger] rs[k].bbox,
        ) by {
            if k != i {
                assert(!mergeable(rs[i].bbox, rs[k].bbox));
            }
        }
        lemma_scan_quiet(rs, d0, rs[i], 0);
        assert(grow(rs, d0, rs[i], rs.len()) == (rs[i], d0));
        lemma_merge_from_apart(rs, d0, i + 1);
        assert(rs.subrange(i, rs.len() as int) =~= seq![rs[i]] + rs.subrange(i + 1, rs.len() as int));
    }
}

/// The merged regions: no two of them may be merged any further, and each one starts where
/// some input region on its rows starts and ends where some such region ends.
pub proof fn lemma_merged_apart(rs: Seq<RegionView>)
    requires
        spans_fit(rs),
    ensures
        pairwise_apart(merged(rs)),
        forall|a: int|
            0 <= a < merged(rs).len() ==> drawn_from(
                rs,
                Seq::new(rs.len(), |k: int| false),
                #[trigger] merged(rs)[a].bbox,
            ),
        spans_fit(merged(rs)),
{
    let none = Seq::new(rs.len(), |k: int| false);
    lemma_merge_from(rs, none, 0);
    let out = merged(rs);
    assert forall|a: int| 0 <= a < out.len() implies right_edge(#[trigger] out[a].bbox)
        <= usize::MAX by {
        assert(drawn_from(rs, none, out[a].bbox));
    }
}

/// A list in which no two regions may be merged is left as it is.
pub proof fn lemma_merge_keeps_apart(rs: Seq<RegionView>)
    requires
        pairwise_apart(rs),
    ensures
        merged(rs) == rs,
{
    lemma_merge_from_apart(rs, Seq::new(rs.len(), |k: int| false), 0);
    assert(rs.subrange(0, rs.len() as int) =~= rs);
}

/// Merging is idempotent: merging an already merged list gives the same list.
pub proof fn lemma_merge_idempotent(rs: Seq<RegionView>)
    requires
        spans_fit(rs),
    ensures
        merged(merged(rs)) == merged(rs),
{
    lemma_merged_apart(rs);
    lemma_merge_keeps_apart(merged(rs));
}

/// A copy of a region.
fn copy_region(r: &TextRegion) -> (c: TextRegion)
    ensures
        c@ == r@,
{
    TextRegion {
        bbox: r.bbox,
        confidence: r.confidence,
        text_content: r.text_content.clone(),
        region_id: r.region_id,
    }
}

/// Whether two columns are at most two apart.
fn near(a: usize, b: usize) -> (r: bool)
    ensures
        r == (abs_int(a - b) <= 2),
{
    if a >= b {
        a - b <= 2
    } else {
        b - a <= 2
    }
}

/// Whether two boxes may be merged.
fn can_merge(a: &CharBBox, b: &CharBBox) -> (r: bool)
    requires
        right_edge(*a) <= usize::MAX,
        right_edge(*b) <= usize::MAX,
    ensures
        r == mergeable(*a, *b),
{
    a.y == b.y && a.height == b.height && (near(b.x, a.x + a.width) || near(a.x, b.x + b.width))
}

/// Whether every region ends within the range of `usize`, as merging requires.
pub fn regions_fit(regions: &[TextRegion]) -> (r: bool)
    ensures
        r == spans_fit(region_views(regions@)),
{
    let ghost rs = region_views(regions@);
    let mut k: usize = 0;
    while k < regions.len()
        invariant
            k <= regions@.len(),
            rs == region_views(regions@),
            forall|i: int| 0 <= i < k ==> right_edge(#[trigger] rs[i].bbox) <= usize::MAX,
        decreases regions@.len() - k,
    {
        assert(rs[k as int] == regions@[k as int]@);
        if regions[k].bbox.width > usize::MAX - regions[k].bbox.x {
            assert(right_edge(rs[k as int].bbox) > usize::MAX);
            return false;
        }
        k = k + 1;
    }
    true
}

/// Coalesces adjacent regions. Regions not yet taken seed, in order, a new region; a seed
/// grows by passes over the list, absorbing every region not yet taken that it may be
/// merged with, until a pass absorbs nothing. Absorbed text is appended in the order in which
/// the regions are absorbed.
pub fn merge_adjacent_regions(regions: &[TextRegion]) -> (out: Vec<TextRegion>)
    requires
        spans_fit(region_views(regions@)),
    ensures
        region_views(out@) == merged(region_views(regions@)),
{
    let n = regions.len();
    let ghost rs = region_views(regions@);
    let mut result: Vec<TextRegion> = Vec::new();
    let mut processed: Vec<bool> = vec![false; n];
    assert(processed@ =~= Seq::new(rs.len(), |k: int| false));
    assert(region_views(result@) + merge_from(rs, processed@, 0) =~= merged(rs));
    let mut i: usize = 0;
    while i < n
        invariant
            n == regions@.len(),
            rs == region_views(regions@),
            rs.len() == n,
            spans_fit(rs),
            i <= n,
            processed@.len() == n,
            region_views(result@) + merge_from(rs, processed@, i as int) == merged(rs),
        decreases n - i,
    {
        if !processed[i] {
            let ghost before = processed@;
            let mut current = copy_region(&regions[i]);
            processed.set(i, true);
            let ghost target = grow(rs, processed@, rs[i as int], n as nat);
            let ghost mut fuel: nat = n as nat;
            proof {
                lemma_open_count_bounds(processed@);
            }
            let mut merged_any = true;
            while merged_any
                invariant
                    n == regions@.len(),
                    rs == region_views(regions@),
                    rs.len() == n,
                    spans_fit(rs),
                    processed@.len() == n,
                    right_edge(current@.bbox) <= usize::MAX,
                    merged_any ==> fuel >= open_count(processed@) && grow(
                        rs,
                        processed@,
                        current@,
                        fuel,
                    ) == target,
                    !merged_any ==> (current@, processed@) == target,
                decreases open_count(processed@) + if merged_any {
                    1int
                } else {
                    0int
                },
            {
                let ghost start_marks = processed@;
                let ghost start_cur = current@;
                let ghost pass = scan(rs, start_marks, start_cur, 0);
                proof {
                    lemma_scan(rs, start_marks, start_cur, 0);
                }
                merged_any = false;
                let mut j: usize = 0;
                while j < n
                    invariant
                        n == regions@.len(),
                        rs == region_views(regions@),
                        rs.len() == n,
                        spans_fit(rs),
                        j <= n,
                        processed@.len() == n,
                        right_edge(current@.bbox) <= usize::MAX,
                        scan(rs, processed@, current@, j as int).0 == pass.0,
                        scan(rs, processed@, current@, j as int).1 == pass.1,
                        pass.2 == (merged_any || scan(rs, processed@, current@, j as int).2),
                    decreases n - j,
                {
                    if !processed[j] && can_merge(&current.bbox, &regions[j].bbox) {
                        let ghost old_cur = current@;
                        let other = &regions[j];
                        assert(rs[j as int] == other@);
                        proof {
                            lemma_absorb(old_cur, rs[j as int]);
                        }
                        let current_end = current.bbox.x + current.bbox.width;
                        let other_end = other.bbox.x + other.bbox.width;
                        let new_x = if current.bbox.x <= other.bbox.x {
                            current.bbox.x
                        } else {
                            other.bbox.x
                        };
                        let new_end = if current_end >= other_end {
                            current_end
                        } else {
                            other_end
                        };
                        current.bbox.x = new_x;
                        current.bbox.width = new_end - new_x;
                        current.text_content.append(other.text_content.as_str());
                        processed.set(j, true);
                        merged_any = true;
                        assert(current@ == absorb(old_cur, rs[j as int]));
                    }
                    j = j + 1;
                }
                proof {
                    if fuel == 0 {
                        assert(!pass.2);
                    } else if pass.2 {
                        fuel = (fuel - 1) as nat;
                    }
                }
            }
            result.push(current);
            proof {
                assert(merge_from(rs, before, i as int) == seq![target.0] + merge_from(
                    rs,
                    target.1,
                    i + 1,
                ));
                assert(region_views(result@) =~= region_views(result@.drop_last()).push(target.0));
            }
        }
        i = i + 1;
    }
    assert(merge_from(rs, processed@, n as int) == Seq::<RegionView>::empty());
    assert(region_views(result@) =~= region_views(result@) + Seq::<RegionView>::empty());
    result
}

/// The box lies within the first `w` columns and `h` rows.
pub open spec fn within(b: CharBBox, w: int, h: int) -> bool {
    b.x + b.width <= w && b.y + b.height <= h
}

/// Merging keeps regions within any rectangle from the origin that holds all the input.
pub proof fn lemma_merged_within(rs: Seq<RegionView>, w: int, h: int)
    requires
        spans_fit(rs),
        forall|k: int| 0 <= k < rs.len() ==> within(#[trigger] rs[k].bbox, w, h),
    ensures
        forall|a: int| 0 <= a < merged(rs).len() ==> within(#[trigger] merged(rs)[a].bbox, w, h),
{
    lemma_merged_apart(rs);
    let none = Seq::new(rs.len(), |k: int| false);
    let out = merged(rs);
    assert forall|a: int| 0 <= a < out.len() implies within(#[trigger] out[a].bbox, w, h) by {
        assert(drawn_from(rs, none, out[a].bbox));
        let k = choose|k: int|
            0 <= k < rs.len() && !none[k] && same_band(#[trigger] rs[k].bbox, out[a].bbox)
                && right_edge(rs[k].bbox) == right_edge(out[a].bbox);
        assert(within(rs[k].bbox, w, h));
    }
}

} // verus!
