use vstd::prelude::*;

verus! {

/// Appends one character to a string.
///
/// Relies on `String::push`, which appends the given `char` to the end of the string.
#[verifier::external_body]
pub(crate) fn push_char(s: &mut String, c: char)
    ensures
        final(s)@ == old(s)@.push(c),
{
    s.push(c);
}

} // verus!

verus! {

/// The characters of a string, in order.
pub fn chars_of(s: &str) -> (r: Vec<char>)
    ensures
        r@ == s@,
{
    let mut out: Vec<char> = Vec::new();
    for c in it: s.chars()
        invariant
            out@ == it.seq().subrange(0, it.index() as int),
    {
        out.push(c);
    }
    out
}

} // verus!

verus! {

/// A line without the carriage return that ended it, if one did.
pub open spec fn strip_cr(l: Seq<char>) -> Seq<char> {
    if l.len() > 0 && l.last() == '\r' {
        l.drop_last()
    } else {
        l
    }
}

/// The lines of `s` from index `i` on, `cur` holding the part of the current line already
/// read. A line ends at a newline, which it does not keep, nor a carriage return just before
/// it; a last line without a newline is kept unless it is empty.
pub open spec fn lines_from(s: Seq<char>, i: int, cur: Seq<char>) -> Seq<Seq<char>>
    decreases s.len() - i,
{
    if i >= s.len() || i < 0 {
        if cur.len() == 0 {
            seq![]
        } else {
            seq![cur]
        }
    } else if s[i] == '\n' {
        seq![strip_cr(cur)] + lines_from(s, i + 1, seq![])
    } else {
        lines_from(s, i + 1, cur.push(s[i]))
    }
}

/// The lines of a text.
pub open spec fn lines_of(s: Seq<char>) -> Seq<Seq<char>> {
    lines_from(s, 0, seq![])
}

/// The lines of a text, each as its characters.
pub fn text_lines(text: &str) -> (r: Vec<Vec<char>>)
    ensures
        r@.map_values(|l: Vec<char>| l@) == lines_of(text@),
{
    let chars = chars_of(text);
    let ghost s = text@;
    let mut out: Vec<Vec<char>> = Vec::new();
    let mut cur: Vec<char> = Vec::new();
    let mut i: usize = 0;
    while i < chars.len()
        invariant
            chars@ == s,
            i <= s.len(),
            out@.map_values(|l: Vec<char>| l@) + lines_from(s, i as int, cur@) == lines_of(s),
        decreases s.len() - i,
    {
        let c = chars[i];
        if c == '\n' {
            let ghost before = out@;
            let ghost stripped = strip_cr(cur@);
            let mut line = cur;
            if line.len() > 0 && line[line.len() - 1] == '\r' {
                line.pop();
            }
            assert(line@ =~= stripped);
            out.push(line);
            cur = Vec::new();
            assert(out@.map_values(|l: Vec<char>| l@) =~= before.map_values(|l: Vec<char>| l@) + seq![
                stripped,
            ]);
        } else {
            cur.push(c);
        }
        i = i + 1;
    }
    let ghost before = out@;
    let ghost rest = cur@;
    if cur.len() > 0 {
        out.push(cur);
        assert(out@.map_values(|l: Vec<char>| l@) =~= before.map_values(|l: Vec<char>| l@) + seq![rest]);
    } else {
        assert(out@.map_values(|l: Vec<char>| l@) =~= before.map_values(|l: Vec<char>| l@) + Seq::<Seq<char>>::empty());
    }
    out
}

/// The line, after its leading white space, starts with an ASCII digit.
pub open spec fn starts_numbered(l: Seq<char>) -> bool {
    exists|k: int|
        0 <= k < l.len() && ('0' as u32 <= #[trigger] l[k] as u32 <= '9' as u32) && forall|j: int|
            0 <= j < k ==> crate::raster::white_space(#[trigger] l[j])
}

/// Lines joined by newlines.
pub open spec fn joined(ls: Seq<Seq<char>>) -> Seq<char>
    decreases ls.len(),
{
    if ls.len() == 0 {
        seq![]
    } else if ls.len() == 1 {
        ls[0]
    } else {
        joined(ls.drop_last()) + seq!['\n'] + ls.last()
    }
}

/// Whether a line, after its leading white space, starts with an ASCII digit.
fn is_numbered(l: &Vec<char>) -> (r: bool)
    ensures
        r == starts_numbered(l@),
{
    let mut k: usize = 0;
    while k < l.len() && crate::raster::is_white_space(l[k])
        invariant
            k <= l@.len(),
            forall|j: int| 0 <= j < k ==> crate::raster::white_space(#[trigger] l@[j]),
        decreases l@.len() - k,
    {
        k = k + 1;
    }
    if k < l.len() && ('0' as u32) <= (l[k] as u32) && (l[k] as u32) <= ('9' as u32) {
        assert(('0' as u32 <= l@[k as int] as u32 <= '9' as u32));
        return true;
    }
    proof {
        assert forall|i: int| 0 <= i < l@.len() && ('0' as u32 <= #[trigger] l@[i] as u32 <= '9' as u32)
            implies !(forall|j: int| 0 <= j < i ==> crate::raster::white_space(#[trigger] l@[j])) by {
            if i < k {
                assert(crate::raster::white_space(l@[i]));
            } else if i > k {
                assert(!crate::raster::white_space(l@[k as int]));
            }
        }
    }
    false
}

/// The lines of a text that start with a digit after their leading white space, joined by
/// newlines.
pub fn numbered_lines(text: &str) -> (r: String)
    ensures
        r@ == joined(lines_of(text@).filter(|l: Seq<char>| starts_numbered(l))),
{
    let lines = text_lines(text);
    let ghost ls = lines_of(text@);
    let ghost pred = |l: Seq<char>| starts_numbered(l);
    let mut out = String::new();
    let mut any = false;
    let mut k: usize = 0;
    while k < lines.len()
        invariant
            k <= lines@.len(),
            ls == lines@.map_values(|l: Vec<char>| l@),
            pred == (|l: Seq<char>| starts_numbered(l)),
            out@ == joined(ls.subrange(0, k as int).filter(pred)),
            any == (ls.subrange(0, k as int).filter(pred).len() > 0),
        decreases lines@.len() - k,
    {
        let ghost kept = ls.subrange(0, k as int).filter(pred);
        proof {
            ls.subrange(0, k as int).lemma_filter_push(ls[k as int], pred);
            assert(ls.subrange(0, k + 1) =~= ls.subrange(0, k as int).push(ls[k as int]));
            assert(ls[k as int] == lines@[k as int]@);
        }
        if is_numbered(&lines[k]) {
            assert(pred(ls[k as int]));
            if any {
                push_char(&mut out, '\n');
            }
            let line = &lines[k];
            let ghost mid = out@;
            let mut c: usize = 0;
            while c < line.len()
                invariant
                    c <= line@.len(),
                    out@ == mid + line@.subrange(0, c as int),
                decreases line@.len() - c,
            {
                push_char(&mut out, line[c]);
                c = c + 1;
                assert(out@ =~= mid + line@.subrange(0, c as int));
            }
            assert(line@.subrange(0, line@.len() as int) =~= line@);
            let ghost now = kept.push(ls[k as int]);
            assert(now.drop_last() =~= kept);
            if any {
                assert(out@ =~= joined(now));
            } else {
                assert(kept.len() == 0);
                assert(out@ =~= joined(now));
            }
            any = true;
        } else {
            assert(!pred(ls[k as int]));
        }
        k = k + 1;
    }
    assert(ls.subrange(0, ls.len() as int) =~= ls);
    out
}

} // verus!
