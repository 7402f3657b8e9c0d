use vstd::prelude::*;

use crate::calibrate::MAX_COORD;
use crate::text::push_char;

verus! {

/// Words whose tops are at most this far apart, in millipoints, are on one line (15 points).
pub const LINE_TOLERANCE: i64 = 15000;

/// A word of an ALTO page layout: its text, its box in millipoints, and its style reference.
pub struct Fragment {
    pub content: String,
    pub hpos: i64,
    pub vpos: i64,
    pub width: i64,
    pub height: i64,
    pub style_ref: Option<String>,
}

/// What a fragment is, with its strings as sequences of characters.
pub struct FragmentView {
    pub content: Seq<char>,
    pub hpos: i64,
    pub vpos: i64,
    pub width: i64,
    pub height: i64,
    pub style_ref: Option<Seq<char>>,
}

impl View for Fragment {
    type V = FragmentView;

    open spec fn view(&self) -> FragmentView {
        FragmentView {
            content: self.content@,
            hpos: self.hpos,
            vpos: self.vpos,
            width: self.width,
            height: self.height,
            style_ref: match self.style_ref {
                Some(s) => Some(s@),
                None => None,
            },
        }
    }
}

/// Why fragments could not be merged.
#[derive(Clone, Copy, Debug, PartialEq, Eq, Structural)]
pub enum GroupError {
    /// There was no fragment to merge.
    EmptyGroup,
}

/// The views of a list of fragments.
pub open spec fn fragment_views(v: Seq<Fragment>) -> Seq<FragmentView> {
    v.map_values(|f: Fragment| f@)
}

/// The box of the fragment is within `MAX_COORD`.
pub open spec fn fragment_fits(f: FragmentView) -> bool {
    &&& -MAX_COORD <= f.hpos <= MAX_COORD
    &&& -MAX_COORD <= f.vpos <= MAX_COORD
    &&& -MAX_COORD <= f.width <= MAX_COORD
    &&& -MAX_COORD <= f.height <= MAX_COORD
}

/// The sort key of a fragment: top then left in reading order, or left alone.
pub open spec fn sort_key(f: FragmentView, by_line: bool) -> (int, int) {
    if by_line {
        (f.vpos as int, f.hpos as int)
    } else {
        (f.hpos as int, 0)
    }
}

/// The key `a` comes strictly after the key `b`.
pub open spec fn key_after(a: (int, int), b: (int, int)) -> bool {
    a.0 > b.0 || (a.0 == b.0 && a.1 > b.1)
}

/// The index, from `i` on, of the first fragment whose key comes after that of `x`, or the
/// length of `s`.
pub open spec fn insertion_point(s: Seq<FragmentView>, x: FragmentView, by_line: bool, i: int) -> int
    decreases s.len() - i,
{
    if i >= s.len() || i < 0 {
        s.len() as int
    } else if key_after(sort_key(s[i], by_line), sort_key(x, by_line)) {
        i
    } else {
        insertion_point(s, x, by_line, i + 1)
    }
}

/// The fragments in order of their keys, those with equal keys in their given order.
pub open spec fn sorted_fragments(s: Seq<FragmentView>, by_line: bool) -> Seq<FragmentView>
    decreases s.len(),
{
    if s.len() == 0 {
        seq![]
    } else {
        let rest = sorted_fragments(s.drop_last(), by_line);
        rest.insert(insertion_point(rest, s.last(), by_line, 0), s.last())
    }
}

proof fn lemma_insertion_point_bounds(s: Seq<FragmentView>, x: FragmentView, by_line: bool, i: int)
    requires
        0 <= i <= s.len(),
    ensures
        i <= insertion_point(s, x, by_line, i) <= s.len(),
    decreases s.len() - i,
{
    if i < s.len() {
        lemma_insertion_point_bounds(s, x, by_line, i + 1);
    }
}

proof fn lemma_sorted_len(s: Seq<FragmentView>, by_line: bool)
    ensures
        sorted_fragments(s, by_line).len() == s.len(),
    decreases s.len(),
{
    if s.len() > 0 {
        lemma_sorted_len(s.drop_last(), by_line);
        let rest = sorted_fragments(s.drop_last(), by_line);
        lemma_insertion_point_bounds(rest, s.last(), by_line, 0);
    }
}

proof fn lemma_sorted_members(s: Seq<FragmentView>, by_line: bool)
    ensures
        forall|i: int|
            0 <= i < sorted_fragments(s, by_line).len() ==> s.contains(
                #[trigger] sorted_fragments(s, by_line)[i],
            ),
    decreases s.len(),
{
    if s.len() > 0 {
        lemma_sorted_members(s.drop_last(), by_line);
        lemma_sorted_len(s.drop_last(), by_line);
        let rest = sorted_fragments(s.drop_last(), by_line);
        let p = insertion_point(rest, s.last(), by_line, 0);
        lemma_insertion_point_bounds(rest, s.last(), by_line, 0);
        assert forall|i: int| 0 <= i < sorted_fragments(s, by_line).len() implies s.contains(
            #[trigger] sorted_fragments(s, by_line)[i],
        ) by {
            let x = sorted_fragments(s, by_line)[i];
            if i == p {
                assert(s[s.len() - 1] == x);
            } else {
                let j = if i < p {
                    i
                } else {
                    i - 1
                };
                assert(rest[j] == x);
                assert(s.drop_last().contains(x));
                let k = choose|k: int| 0 <= k < s.drop_last().len() && s.drop_last()[k] == x;
                assert(s[k] == x);
            }
        }
    }
}

/// Texts joined by single spaces.
pub open spec fn spaced(ts: Seq<Seq<char>>) -> Seq<char>
    decreases ts.len(),
{
    if ts.len() == 0 {
        seq![]
    } else if ts.len() == 1 {
        ts[0]
    } else {
        spaced(ts.drop_last()) + seq![' '] + ts.last()
    }
}

/// One fragment for a group of two or more, its words ordered left to right: their texts
/// joined by spaces, the position, height and style of the leftmost, and a width reaching to
/// the end of the last.
pub open spec fn combined(g: Seq<FragmentView>) -> FragmentView {
    let s = sorted_fragments(g, false);
    let first = s[0];
    let last = s.last();
    FragmentView {
        content: spaced(s.map_values(|f: FragmentView| f.content)),
        hpos: first.hpos,
        vpos: first.vpos,
        width: (last.hpos + last.width - first.hpos) as i64,
        height: first.height,
        style_ref: first.style_ref,
    }
}

/// The fragment that stands for a non-empty group: its only member, or the combination.
pub open spec fn merged_group(g: Seq<FragmentView>) -> FragmentView {
    if g.len() == 1 {
        g[0]
    } else {
        combined(g)
    }
}

/// The lines of fragments sorted in reading order, from index `i` on: `cur` is the line being
/// gathered, whose first fragment's top is `top`. A fragment whose top is within
/// `LINE_TOLERANCE` of `top` joins the line; any other starts a new one.
pub open spec fn line_groups(s: Seq<FragmentView>, i: int, cur: Seq<FragmentView>, top: int) -> Seq<
    Seq<FragmentView>,
>
    decreases s.len() - i,
{
    if i >= s.len() || i < 0 {
        seq![cur]
    } else if -LINE_TOLERANCE <= s[i].vpos - top <= LINE_TOLERANCE {
        line_groups(s, i + 1, cur.push(s[i]), top)
    } else {
        seq![cur] + line_groups(s, i + 1, seq![s[i]], s[i].vpos as int)
    }
}

/// The fragments in reading order gathered into lines, one merged fragment per line.
pub open spec fn grouped(frags: Seq<FragmentView>) -> Seq<FragmentView> {
    if frags.len() == 0 {
        seq![]
    } else {
        let s = sorted_fragments(frags, true);
        line_groups(s, 1, seq![s[0]], s[0].vpos as int).map_values(
            |g: Seq<FragmentView>| merged_group(g),
        )
    }
}

/// Whether the key of `a` comes after the key of `b`.
fn comes_after(a: &Fragment, b: &Fragment, by_line: bool) -> (r: bool)
    ensures
        r == key_after(sort_key(a@, by_line), sort_key(b@, by_line)),
{
    if by_line {
        a.vpos > b.vpos || (a.vpos == b.vpos && a.hpos > b.hpos)
    } else {
        a.hpos > b.hpos
    }
}

/// Sorts fragments by their keys, keeping the order of those with equal keys.
pub fn sort_fragments(v: Vec<Fragment>, by_line: bool) -> (r: Vec<Fragment>)
    ensures
        fragment_views(r@) == sorted_fragments(fragment_views(v@), by_line),
{
    let ghost vs = fragment_views(v@);
    let mut out: Vec<Fragment> = Vec::new();
    let mut rest = v;
    let ghost n = vs.len();
    assert(vs.subrange(0, 0) =~= Seq::<FragmentView>::empty());
    while rest.len() > 0
        invariant
            n == vs.len(),
            rest@.len() <= n,
            fragment_views(rest@) == vs.subrange(n - rest@.len(), n as int),
            fragment_views(out@) == sorted_fragments(vs.subrange(0, n - rest@.len()), by_line),
        decreases rest@.len(),
    {
        let ghost done = (n - rest@.len()) as int;
        let ghost before = rest@;
        let f = rest.remove(0);
        proof {
            assert(fragment_views(before)[0] == vs.subrange(done, n as int)[0]);
            assert(f@ == vs[done]);
            assert(rest@ =~= before.subrange(1, before.len() as int));
            assert forall|j: int| 0 <= j < rest@.len() implies fragment_views(rest@)[j] == vs.subrange(
                done + 1,
                n as int,
            )[j] by {
                assert(fragment_views(before)[j + 1] == vs.subrange(done, n as int)[j + 1]);
            }
            assert(fragment_views(rest@) =~= vs.subrange(done + 1, n as int));
        }
        let ghost sorted = fragment_views(out@);
        let mut i: usize = 0;
        while i < out.len() && !comes_after(&out[i], &f, by_line)
            invariant
                i <= out@.len(),
                sorted == fragment_views(out@),
                insertion_point(sorted, f@, by_line, 0) == insertion_point(sorted, f@, by_line, i as int),
            decreases out@.len() - i,
        {
            i = i + 1;
        }
        assert(insertion_point(sorted, f@, by_line, i as int) == i);
        out.insert(i, f);
        proof {
            let prefix = vs.subrange(0, done + 1);
            assert(prefix.drop_last() =~= vs.subrange(0, done));
            assert(prefix.last() == vs[done]);
            assert(fragment_views(out@) =~= sorted.insert(i as int, vs[done]));
        }
    }
    assert(vs.subrange(0, n as int) =~= vs);
    out
}

/// A copy of a style reference.
fn copy_style(s: &Option<String>) -> (r: Option<String>)
    ensures
        match r {
            Some(t) => s matches Some(u) && t@ == u@,
            None => s is None,
        },
{
    match s {
        Some(t) => Some(t.clone()),
        None => None,
    }
}

/// The fragment that stands for a group: its only member, or, for two or more, their words
/// left to right joined by spaces, at the position of the leftmost and as wide as to reach the
/// end of the last. An empty group is an error.
pub fn merge_group(group: Vec<Fragment>) -> (r: Result<Fragment, GroupError>)
    requires
        forall|k: int| 0 <= k < group@.len() ==> fragment_fits(#[trigger] group@[k]@),
    ensures
        group@.len() == 0 <==> r is Err,
        r is Err ==> r == Err::<Fragment, GroupError>(GroupError::EmptyGroup),
        r matches Ok(f) ==> f@ == merged_group(fragment_views(group@)),
{
    let ghost gs = fragment_views(group@);
    if group.len() == 0 {
        return Err(GroupError::EmptyGroup);
    }
    if group.len() == 1 {
        let mut g = group;
        let f = g.remove(0);
        assert(f@ == gs[0]);
        return Ok(f);
    }
    let sorted = sort_fragments(group, false);
    let ghost ss = fragment_views(sorted@);
    let ghost ts = ss.map_values(|f: FragmentView| f.content);
    proof {
        lemma_sorted_len(gs, false);
        lemma_sorted_members(gs, false);
    }
    let n = sorted.len();
    let mut content = String::new();
    let mut k: usize = 0;
    while k < n
        invariant
            n == sorted@.len(),
            n >= 2,
            ss == fragment_views(sorted@),
            ts == ss.map_values(|f: FragmentView| f.content),
            k <= n,
            content@ == spaced(ts.subrange(0, k as int)),
        decreases n - k,
    {
        let ghost before = content@;
        if k > 0 {
            push_char(&mut content, ' ');
        }
        content.append(sorted[k].content.as_str());
        proof {
            assert(ts[k as int] == sorted@[k as int].content@);
            let prefix = ts.subrange(0, k + 1);
            assert(prefix.drop_last() =~= ts.subrange(0, k as int));
            if k == 0 {
                assert(content@ =~= spaced(prefix));
            } else {
                assert(content@ =~= spaced(prefix));
            }
        }
        k = k + 1;
    }
    assert(ts.subrange(0, n as int) =~= ts);
    let first = &sorted[0];
    let last = &sorted[n - 1];
    proof {
        assert(gs.contains(ss[0]));
        assert(gs.contains(ss[n - 1]));
        let a = choose|a: int| 0 <= a < gs.len() && gs[a] == ss[0];
        let b = choose|b: int| 0 <= b < gs.len() && gs[b] == ss[n - 1];
        assert(fragment_fits(group@[a]@));
        assert(fragment_fits(group@[b]@));
        assert(ss[0] == first@);
        assert(ss[n - 1] == last@);
    }
    let width = last.hpos + last.width - first.hpos;
    let style_ref = copy_style(&first.style_ref);
    let merged = Fragment {
        content,
        hpos: first.hpos,
        vpos: first.vpos,
        width,
        height: first.height,
        style_ref,
    };
    assert(merged@ == combined(gs));
    Ok(merged)
}

/// Gathers fragments into lines and merges each line into one fragment. The fragments are
/// taken in reading order, top then left; a fragment whose top is within `LINE_TOLERANCE` of
/// the top of its line's first fragment joins that line, any other starts a new line.
pub fn group_test_fragments(fragments: Vec<Fragment>) -> (r: Result<Vec<Fragment>, GroupError>)
    requires
        forall|k: int| 0 <= k < fragments@.len() ==> fragment_fits(#[trigger] fragments@[k]@),
    ensures
        r matches Ok(v) && fragment_views(v@) == grouped(fragment_views(fragments@)),
{
    let ghost fs = fragment_views(fragments@);
    if fragments.len() == 0 {
        assert(fragment_views(fragments@) =~= Seq::<FragmentView>::empty());
        return Ok(fragments);
    }
    let mut rest = sort_fragments(fragments, true);
    let ghost s = fragment_views(rest@);
    let ghost n = s.len();
    proof {
        lemma_sorted_len(fs, true);
        lemma_sorted_members(fs, true);
        assert forall|k: int| 0 <= k < n implies fragment_fits(#[trigger] s[k]) by {
            assert(fs.contains(s[k]));
            let a = choose|a: int| 0 <= a < fs.len() && fs[a] == s[k];
            assert(fragment_fits(fragments@[a]@));
        }
    }
    let ghost target = grouped(fs);
    let ghost before = rest@;
    let first = rest.remove(0);
    proof {
        assert(fragment_views(before)[0] == s[0]);
        assert(rest@ =~= before.subrange(1, before.len() as int));
        assert forall|j: int| 0 <= j < rest@.len() implies fragment_views(rest@)[j] == s.subrange(1, n as int)[j] by {
            assert(fragment_views(before)[j + 1] == s[j + 1]);
        }
        assert(fragment_views(rest@) =~= s.subrange(1, n as int));
    }
    let mut top = first.vpos;
    let mut current: Vec<Fragment> = Vec::new();
    current.push(first);
    assert(fragment_views(current@) =~= seq![s[0]]);
    let mut out: Vec<Fragment> = Vec::new();
    while rest.len() > 0
        invariant
            n == s.len(),
            n >= 1,
            rest@.len() < n,
            forall|k: int| 0 <= k < n ==> fragment_fits(#[trigger] s[k]),
            fragment_views(rest@) == s.subrange(n - rest@.len(), n as int),
            current@.len() > 0,
            forall|k: int| 0 <= k < current@.len() ==> fragment_fits(#[trigger] current@[k]@),
            -MAX_COORD <= top <= MAX_COORD,
            fragment_views(out@) + line_groups(s, n - rest@.len(), fragment_views(current@), top as int).map_values(
                |g: Seq<FragmentView>| merged_group(g),
            ) == target,
        decreases rest@.len(),
    {
        let ghost i = (n - rest@.len()) as int;
        let ghost before = rest@;
        let f = rest.remove(0);
        proof {
            assert(fragment_views(before)[0] == s.subrange(i, n as int)[0]);
            assert(f@ == s[i]);
            assert(rest@ =~= before.subrange(1, before.len() as int));
            assert forall|j: int| 0 <= j < rest@.len() implies fragment_views(rest@)[j] == s.subrange(
                i + 1,
                n as int,
            )[j] by {
                assert(fragment_views(before)[j + 1] == s.subrange(i, n as int)[j + 1]);
            }
            assert(fragment_views(rest@) =~= s.subrange(i + 1, n as int));
            assert(fragment_fits(s[i]));
        }
        let gap = f.vpos - top;
        if -LINE_TOLERANCE <= gap && gap <= LINE_TOLERANCE {
            let ghost cur = fragment_views(current@);
            current.push(f);
            assert(fragment_views(current@) =~= cur.push(s[i]));
        } else {
            let ghost cur = fragment_views(current@);
            let ghost tail = line_groups(s, i + 1, seq![s[i]], s[i].vpos as int);
            top = f.vpos;
            let mut done: Vec<Fragment> = Vec::new();
            done.push(f);
            std::mem::swap(&mut current, &mut done);
            match merge_group(done) {
                Ok(m) => {
                    let ghost outv = fragment_views(out@);
                    out.push(m);
                    proof {
                        assert(fragment_views(out@) =~= outv.push(merged_group(cur)));
                        assert(fragment_views(current@) =~= seq![s[i]]);
                        let mapped = (seq![cur] + tail).map_values(|g: Seq<FragmentView>| merged_group(g));
                        assert(mapped =~= seq![merged_group(cur)] + tail.map_values(
                            |g: Seq<FragmentView>| merged_group(g),
                        ));
                    }
                },
                Err(e) => {
                    return Err(e);
                },
            }
        }
    }
    let ghost cur = fragment_views(current@);
    match merge_group(current) {
        Ok(m) => {
            let ghost outv = fragment_views(out@);
            out.push(m);
            proof {
                assert(seq![cur].map_values(|g: Seq<FragmentView>| merged_group(g)) =~= seq![
                    merged_group(cur),
                ]);
                assert(fragment_views(out@) =~= outv.push(merged_group(cur)));
            }
            Ok(out)
        },
        Err(e) => Err(e),
    }
}

} // verus!
