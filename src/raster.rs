use vstd::prelude::*;

use crate::calibrate::MAX_COORD;
use crate::geometry::PDFBBox;
use crate::text::chars_of;

verus! {

/// The most characters a text segment may have.
pub const MAX_SEGMENT_CHARS: usize = 1048576;

/// The advance of a character, in millipoints, in a segment whose width is unknown.
pub const FALLBACK_CHAR_ADVANCE: i64 = 7200;

/// The largest magnitude of a coordinate of a placed character, in millipoints.
pub const MAX_OBJECT_COORD: i64 = 4398046511104;

/// A run of extracted text and its bounds on the page, in millipoints, with `y` measured up
/// from the bottom of the page.
pub struct TextSegment {
    pub text: String,
    pub left: i64,
    pub right: i64,
    pub top: i64,
    pub bottom: i64,
}

impl TextSegment {
    /// The bounds are ordered and within `MAX_COORD`, and the text is not too long.
    pub open spec fn well_formed(self) -> bool {
        &&& -MAX_COORD <= self.left <= self.right <= MAX_COORD
        &&& -MAX_COORD <= self.bottom <= self.top <= MAX_COORD
        &&& self.text@.len() <= MAX_SEGMENT_CHARS
    }

    /// Whether the segment is well formed.
    pub fn is_well_formed(&self) -> (r: bool)
        ensures
            r == self.well_formed(),
    {
        -MAX_COORD <= self.left && self.left <= self.right && self.right <= MAX_COORD && -MAX_COORD
            <= self.bottom && self.bottom <= self.top && self.top <= MAX_COORD
            && self.text.as_str().unicode_len() <= MAX_SEGMENT_CHARS
    }
}

/// The text segments of one page and the page's height in millipoints.
pub struct PageText {
    pub height: i64,
    pub segments: Vec<TextSegment>,
}

impl PageText {
    /// The height is within `MAX_COORD` and every segment is well formed.
    pub open spec fn well_formed(self) -> bool {
        &&& 0 <= self.height <= MAX_COORD
        &&& forall|k: int| 0 <= k < self.segments@.len() ==> (#[trigger] self.segments@[k]).well_formed()
    }

    /// Whether the page is well formed.
    pub fn is_well_formed(&self) -> (r: bool)
        ensures
            r == self.well_formed(),
    {
        if self.height < 0 || self.height > MAX_COORD {
            return false;
        }
        let mut k: usize = 0;
        while k < self.segments.len()
            invariant
                k <= self.segments@.len(),
                forall|i: int| 0 <= i < k ==> (#[trigger] self.segments@[i]).well_formed(),
            decreases self.segments@.len() - k,
        {
            if !self.segments[k].is_well_formed() {
                return false;
            }
            k = k + 1;
        }
        true
    }
}

/// One character placed on the page.
#[derive(Clone, Copy, Debug, PartialEq, Eq, Structural)]
pub struct PreciseTextObject {
    pub character: char,
    pub bbox: PDFBBox,
    pub font_size: i64,
}

impl PreciseTextObject {
    /// The box is ordered, its coordinates are within `MAX_OBJECT_COORD`, and the font size
    /// is not negative.
    pub open spec fn fits(self) -> bool {
        &&& -MAX_OBJECT_COORD <= self.bbox.x0 <= self.bbox.x1 <= MAX_OBJECT_COORD
        &&& -MAX_OBJECT_COORD <= self.bbox.y0 <= self.bbox.y1 <= MAX_OBJECT_COORD
        &&& 0 <= self.font_size <= MAX_OBJECT_COORD
    }
}

/// A white-space character, as Unicode's `White_Space` property lists them.
pub open spec fn white_space(c: char) -> bool {
    let u = c as u32;
    ||| 0x09 <= u <= 0x0D
    ||| u == 0x20
    ||| u == 0x85
    ||| u == 0xA0
    ||| u == 0x1680
    ||| 0x2000 <= u <= 0x200A
    ||| u == 0x2028
    ||| u == 0x2029
    ||| u == 0x202F
    ||| u == 0x205F
    ||| u == 0x3000
}

/// The text holds nothing but white space.
pub open spec fn blank(s: Seq<char>) -> bool {
    forall|k: int| 0 <= k < s.len() ==> white_space(#[trigger] s[k])
}

/// The advance of a character in a segment: the segment's width shared evenly among its
/// characters, or `FALLBACK_CHAR_ADVANCE` when the segment has no width.
pub open spec fn average_advance(seg: TextSegment) -> int {
    let n = seg.text@.len() as int;
    let w = seg.right - seg.left;
    if n == 0 || w == 0 {
        FALLBACK_CHAR_ADVANCE as int
    } else {
        w / n
    }
}

/// The font size of a segment: eight tenths of its height.
pub open spec fn segment_font_size(seg: TextSegment) -> int {
    (seg.top - seg.bottom) * 8 / 10
}

/// How far a character moves the pen: half the average for a space, the average otherwise.
pub open spec fn advance(c: char, avg: int) -> int {
    if c == ' ' {
        avg / 2
    } else {
        avg
    }
}

/// How far the pen has moved after the first `k` characters.
pub open spec fn pen_offset(text: Seq<char>, avg: int, k: nat) -> int
    decreases k,
{
    if k == 0 || k > text.len() {
        0
    } else {
        pen_offset(text, avg, (k - 1) as nat) + advance(text[k - 1], avg)
    }
}

/// The `k`-th character of a segment placed on a page of the given height: it starts where
/// the pen stands, is as wide as its advance, and hangs from the segment's top, flipped to be
/// measured from the top of the page, by the segment's font size.
pub open spec fn char_object(seg: TextSegment, page_height: int, k: int) -> PreciseTextObject {
    let avg = average_advance(seg);
    let x0 = seg.left + pen_offset(seg.text@, avg, k as nat);
    let y0 = page_height - seg.top;
    let size = segment_font_size(seg);
    PreciseTextObject {
        character: seg.text@[k],
        bbox: PDFBBox {
            x0: x0 as i64,
            y0: y0 as i64,
            x1: (x0 + advance(seg.text@[k], avg)) as i64,
            y1: (y0 + size) as i64,
        },
        font_size: size as i64,
    }
}

/// The characters of a segment, placed; none for a segment of white space only.
pub open spec fn segment_objects(seg: TextSegment, page_height: int) -> Seq<PreciseTextObject> {
    if blank(seg.text@) {
        seq![]
    } else {
        Seq::new(seg.text@.len(), |k: int| char_object(seg, page_height, k))
    }
}

/// The characters of all segments of a page, placed, in reading order.
pub open spec fn page_objects(segs: Seq<TextSegment>, page_height: int) -> Seq<PreciseTextObject>
    decreases segs.len(),
{
    if segs.len() == 0 {
        seq![]
    } else {
        page_objects(segs.drop_last(), page_height) + segment_objects(segs.last(), page_height)
    }
}

proof fn lemma_pen_offset_bounds(text: Seq<char>, avg: int, k: nat)
    requires
        avg >= 0,
        k <= text.len(),
    ensures
        0 <= pen_offset(text, avg, k) <= k * avg,
    decreases k,
{
    if k > 0 {
        lemma_pen_offset_bounds(text, avg, (k - 1) as nat);
        assert((k - 1) * avg + avg == k * avg) by (nonlinear_arith);
    }
}

/// Whether a character is white space.
pub fn is_white_space(c: char) -> (r: bool)
    ensures
        r == white_space(c),
{
    let u = c as u32;
    (0x09 <= u && u <= 0x0D) || u == 0x20 || u == 0x85 || u == 0xA0 || u == 0x1680 || (0x2000 <= u
        && u <= 0x200A) || u == 0x2028 || u == 0x2029 || u == 0x202F || u == 0x205F || u == 0x3000
}

/// Whether every character is white space.
pub(crate) fn all_white_space(cs: &Vec<char>) -> (r: bool)
    ensures
        r == blank(cs@),
{
    let mut k: usize = 0;
    while k < cs.len()
        invariant
            k <= cs@.len(),
            forall|i: int| 0 <= i < k ==> white_space(#[trigger] cs@[i]),
        decreases cs@.len() - k,
    {
        if !is_white_space(cs[k]) {
            return false;
        }
        k = k + 1;
    }
    true
}

/// Places the characters of a segment and appends them to `out`.
pub fn push_segment_objects(seg: &TextSegment, page_height: i64, out: &mut Vec<PreciseTextObject>)
    requires
        seg.well_formed(),
        0 <= page_height <= MAX_COORD,
    ensures
        final(out)@ == old(out)@ + segment_objects(*seg, page_height as int),
        forall|k: int|
            0 <= k < segment_objects(*seg, page_height as int).len() ==> (#[trigger] segment_objects(
                *seg,
                page_height as int,
            )[k]).fits(),
{
    let chars = chars_of(seg.text.as_str());
    if all_white_space(&chars) {
        assert(old(out)@ + segment_objects(*seg, page_height as int) =~= old(out)@);
        return;
    }
    let n = chars.len();
    let width = seg.right - seg.left;
    let avg: i64 = if n == 0 || width == 0 {
        FALLBACK_CHAR_ADVANCE
    } else {
        width / (n as i64)
    };
    let ghost text = seg.text@;
    let ghost objs = segment_objects(*seg, page_height as int);
    assert(avg == average_advance(*seg));
    proof {
        if n > 0 && width > 0 {
            let ghost wi = width as int;
            let ghost ni = n as int;
            assert(ni * (wi / ni) <= wi) by (nonlinear_arith)
                requires
                    ni > 0,
                    wi > 0,
            ;
        }
        assert(n * avg <= 2 * MAX_COORD + MAX_SEGMENT_CHARS * FALLBACK_CHAR_ADVANCE) by (
        nonlinear_arith)
            requires
                n <= MAX_SEGMENT_CHARS,
                0 <= avg,
                (n > 0 && width > 0) ==> n * avg <= width,
                width <= 2 * MAX_COORD,
                avg == FALLBACK_CHAR_ADVANCE || (n > 0 && width > 0),
        ;
    }
    let font_size = (seg.top - seg.bottom) * 8 / 10;
    let y0 = page_height - seg.top;
    let mut current_x = seg.left;
    let mut k: usize = 0;
    while k < n
        invariant
            seg.well_formed(),
            0 <= page_height <= MAX_COORD,
            n == chars@.len(),
            chars@ == text,
            text == seg.text@,
            objs == segment_objects(*seg, page_height as int),
            !blank(text),
            avg == average_advance(*seg),
            0 <= avg,
            n * avg <= 2 * MAX_COORD + MAX_SEGMENT_CHARS * FALLBACK_CHAR_ADVANCE,
            font_size == segment_font_size(*seg),
            y0 == page_height - seg.top,
            k <= n,
            current_x == seg.left + pen_offset(text, avg as int, k as nat),
            out@ == old(out)@ + objs.subrange(0, k as int),
            forall|i: int| 0 <= i < k ==> (#[trigger] objs[i]).fits(),
        decreases n - k,
    {
        let c = chars[k];
        let step = if c == ' ' {
            avg / 2
        } else {
            avg
        };
        proof {
            lemma_pen_offset_bounds(text, avg as int, (k + 1) as nat);
            assert((k + 1) * avg <= n * avg) by (nonlinear_arith)
                requires
                    k + 1 <= n,
                    avg >= 0,
            ;
            assert(pen_offset(text, avg as int, (k + 1) as nat) == pen_offset(text, avg as int, k as nat) + step);
        }
        let obj = PreciseTextObject {
            character: c,
            bbox: PDFBBox { x0: current_x, y0, x1: current_x + step, y1: y0 + font_size },
            font_size,
        };
        assert(obj == char_object(*seg, page_height as int, k as int));
        out.push(obj);
        assert(objs.subrange(0, k + 1) =~= objs.subrange(0, k as int).push(obj));
        current_x = current_x + step;
        k = k + 1;
    }
    assert(objs.subrange(0, n as int) =~= objs);
}

/// Places the characters of every segment of a page, in reading order.
pub fn rasterize_page(page: &PageText) -> (r: Vec<PreciseTextObject>)
    requires
        page.well_formed(),
    ensures
        r@ == page_objects(page.segments@, page.height as int),
        forall|k: int| 0 <= k < r@.len() ==> (#[trigger] r@[k]).fits(),
{
    let mut out: Vec<PreciseTextObject> = Vec::new();
    let mut i: usize = 0;
    let ghost segs = page.segments@;
    assert(segs.subrange(0, 0) =~= Seq::<TextSegment>::empty());
    while i < page.segments.len()
        invariant
            page.well_formed(),
            segs == page.segments@,
            i <= segs.len(),
            out@ == page_objects(segs.subrange(0, i as int), page.height as int),
            forall|k: int| 0 <= k < out@.len() ==> (#[trigger] out@[k]).fits(),
        decreases segs.len() - i,
    {
        let ghost before = out@;
        push_segment_objects(&page.segments[i], page.height, &mut out);
        proof {
            let sub = segs.subrange(0, i + 1);
            assert(sub.drop_last() =~= segs.subrange(0, i as int));
            assert(sub.last() == segs[i as int]);
            assert forall|k: int| 0 <= k < out@.len() implies (#[trigger] out@[k]).fits() by {
                if k >= before.len() {
                    assert(out@[k] == segment_objects(segs[i as int], page.height as int)[k
                        - before.len()]);
                }
            }
        }
        i = i + 1;
    }
    assert(segs.subrange(0, segs.len() as int) =~= segs);
    out
}

/// The characters of all pages, placed, page after page, each page measured from its own top.
pub open spec fn document_objects(pages: Seq<PageText>) -> Seq<PreciseTextObject>
    decreases pages.len(),
{
    if pages.len() == 0 {
        seq![]
    } else {
        document_objects(pages.drop_last()) + page_objects(
            pages.last().segments@,
            pages.last().height as int,
        )
    }
}

/// Places the characters of every page, page after page.
pub fn rasterize_pages(pages: &[PageText]) -> (r: Vec<PreciseTextObject>)
    requires
        forall|k: int| 0 <= k < pages@.len() ==> (#[trigger] pages@[k]).well_formed(),
    ensures
        r@ == document_objects(pages@),
        forall|k: int| 0 <= k < r@.len() ==> (#[trigger] r@[k]).fits(),
{
    let mut out: Vec<PreciseTextObject> = Vec::new();
    let mut i: usize = 0;
    let ghost ps = pages@;
    assert(ps.subrange(0, 0) =~= Seq::<PageText>::empty());
    while i < pages.len()
        invariant
            ps == pages@,
            forall|k: int| 0 <= k < ps.len() ==> (#[trigger] ps[k]).well_formed(),
            i <= ps.len(),
            out@ == document_objects(ps.subrange(0, i as int)),
            forall|k: int| 0 <= k < out@.len() ==> (#[trigger] out@[k]).fits(),
        decreases ps.len() - i,
    {
        let ghost before = out@;
        let mut objs = rasterize_page(&pages[i]);
        let ghost added = objs@;
        out.append(&mut objs);
        proof {
            let sub = ps.subrange(0, i + 1);
            assert(sub.drop_last() =~= ps.subrange(0, i as int));
            assert(sub.last() == ps[i as int]);
            assert forall|k: int| 0 <= k < out@.len() implies (#[trigger] out@[k]).fits() by {
                if k >= before.len() {
                    assert(out@[k] == added[k - before.len()]);
                }
            }
        }
        i = i + 1;
    }
    assert(ps.subrange(0, ps.len() as int) =~= ps);
    out
}

} // verus!
