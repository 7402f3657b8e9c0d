use vstd::prelude::*;

use crate::engine::CharacterMatrixEngine;
use crate::matrix::CharacterMatrix;
use crate::raster::{all_white_space, blank};
use crate::regions::{region_views, RegionView, TextRegion};
use crate::selection::grid_view;
use crate::text::push_char;

verus! {

/// The widest rule drawn under the header of a report.
pub const REPORT_RULE_MAX: usize = 80;

/// Grids with more rows than this get a row number before each row in a report.
pub const REPORT_NUMBERED_ABOVE: usize = 20;

/// How many characters of a region's text a report shows.
pub const REPORT_PREVIEW_CHARS: usize = 50;

/// The character of a decimal digit.
pub open spec fn digit_char(d: nat) -> char {
    if d == 0 {
        '0'
    } else if d == 1 {
        '1'
    } else if d == 2 {
        '2'
    } else if d == 3 {
        '3'
    } else if d == 4 {
        '4'
    } else if d == 5 {
        '5'
    } else if d == 6 {
        '6'
    } else if d == 7 {
        '7'
    } else if d == 8 {
        '8'
    } else {
        '9'
    }
}

/// The decimal digits of `n`.
pub open spec fn decimal(n: nat) -> Seq<char>
    decreases n,
{
    if n < 10 {
        seq![digit_char(n)]
    } else {
        decimal(n / 10) + seq![digit_char(n % 10)]
    }
}

/// `n` right-aligned in three columns.
pub open spec fn padded3(n: nat) -> Seq<char> {
    let d = decimal(n);
    if d.len() >= 3 {
        d
    } else {
        Seq::new((3 - d.len()) as nat, |i: int| ' ') + d
    }
}

/// A count of hundredths as a number with the given count of decimals (one or two).
pub open spec fn fixed_point(units: nat, decimals: nat) -> Seq<char> {
    if decimals == 1 {
        decimal(units / 10) + seq!['.', digit_char(units % 10)]
    } else {
        decimal(units / 100) + seq!['.', digit_char((units / 10) % 10), digit_char(units % 10)]
    }
}

/// A length in millipoints as points with one decimal, rounded half away from zero.
pub open spec fn points_text(v: int) -> Seq<char> {
    if v < 0 {
        seq!['-'] + fixed_point(((-v + 50) / 100) as nat, 1)
    } else {
        fixed_point(((v + 50) / 100) as nat, 1)
    }
}

/// A confidence in thousandths as a number with two decimals, rounded half up.
pub open spec fn confidence_text(c: nat) -> Seq<char> {
    fixed_point((c + 5) / 10, 2)
}

/// A horizontal rule of `n` box-drawing characters and a newline.
pub open spec fn rule(n: nat) -> Seq<char> {
    Seq::new(n, |i: int| '\u{2550}') + seq!['\n']
}

/// The first `REPORT_PREVIEW_CHARS` characters of a text.
pub open spec fn preview(t: Seq<char>) -> Seq<char> {
    if t.len() > REPORT_PREVIEW_CHARS {
        t.subrange(0, REPORT_PREVIEW_CHARS as int)
    } else {
        t
    }
}

/// The first `k` rows of a grid, each on a line, each after its row number when `numbered`.
pub open spec fn report_rows(g: Seq<Seq<char>>, numbered: bool, k: nat) -> Seq<char>
    decreases k,
{
    if k == 0 || k > g.len() {
        seq![]
    } else {
        report_rows(g, numbered, (k - 1) as nat) + if numbered {
            padded3((k - 1) as nat) + seq![' ']
        } else {
            seq![]
        } + g[k - 1] + seq!['\n']
    }
}

/// The report line of the region numbered `n`.
pub open spec fn region_line(r: RegionView, n: nat) -> Seq<char> {
    "Region "@ + decimal(n) + ": ("@ + decimal(r.bbox.x as nat) + ","@ + decimal(r.bbox.y as nat)
        + ") "@ + decimal(r.bbox.width as nat) + "x"@ + decimal(r.bbox.height as nat) + " conf:"@
        + confidence_text(r.confidence as nat) + " - \""@ + preview(r.text) + "\"\n"@
}

/// The lines of the first `k` regions, numbered from one.
pub open spec fn report_regions(rs: Seq<RegionView>, k: nat) -> Seq<char>
    decreases k,
{
    if k == 0 || k > rs.len() {
        seq![]
    } else {
        report_regions(rs, (k - 1) as nat) + region_line(rs[k - 1], k)
    }
}

/// A report on a matrix: its size and cell size, its counts of regions and of original text
/// objects, its rows between two rules, and a line per region.
pub open spec fn matrix_report(m: CharacterMatrix) -> Seq<char> {
    let g = grid_view(m.matrix@);
    let rs = region_views(m.text_regions@);
    let rule_len = if m.width <= REPORT_RULE_MAX {
        m.width as nat
    } else {
        REPORT_RULE_MAX as nat
    };
    "Character Matrix ("@ + decimal(m.width as nat) + "x"@ + decimal(m.height as nat) + ") | Char: "@
        + points_text(m.char_width as int) + "x"@ + points_text(m.char_height as int) + "pt:\n"@
        + "Text Regions: "@ + decimal(rs.len()) + " | Original Text Objects: "@ + decimal(
        m.original_text@.len(),
    ) + "\n"@ + rule(rule_len) + report_rows(g, m.height > REPORT_NUMBERED_ABOVE, g.len()) + rule(
        rule_len,
    ) + report_regions(rs, rs.len())
}

/// How many regions the console view lists at most.
pub const CONSOLE_REGIONS_SHOWN: usize = 5;

/// A row with its empty cells shown as middle dots.
pub open spec fn dotted(row: Seq<char>) -> Seq<char> {
    row.map_values(|c: char| if c == ' ' { '\u{b7}' } else { c })
}

/// The first `k` rows of a grid, each after its row number, with empty cells dotted.
pub open spec fn console_rows(g: Seq<Seq<char>>, k: nat) -> Seq<char>
    decreases k,
{
    if k == 0 || k > g.len() {
        seq![]
    } else {
        console_rows(g, (k - 1) as nat) + padded3((k - 1) as nat) + seq![' '] + dotted(g[k - 1])
            + seq!['\n']
    }
}

/// The first `REPORT_PREVIEW_CHARS` characters of a text, followed by an ellipsis if the text
/// is longer.
pub open spec fn short_preview(t: Seq<char>) -> Seq<char> {
    if t.len() > REPORT_PREVIEW_CHARS {
        t.subrange(0, REPORT_PREVIEW_CHARS as int) + "..."@
    } else {
        t
    }
}

/// The console line of a region numbered `n`, its confidence as a percentage.
pub open spec fn found_line(r: RegionView, n: nat) -> Seq<char> {
    "\u{2705} Found text region "@ + decimal(n) + ": \""@ + short_preview(r.text)
        + "\" (Confidence: "@ + fixed_point(r.confidence as nat, 1) + "%)\n"@
}

/// The console lines of the regions with some text among the first `k`.
pub open spec fn found_lines(rs: Seq<RegionView>, k: nat) -> Seq<char>
    decreases k,
{
    if k == 0 || k > rs.len() {
        seq![]
    } else if blank(rs[k - 1].text) {
        found_lines(rs, (k - 1) as nat)
    } else {
        found_lines(rs, (k - 1) as nat) + found_line(rs[k - 1], k)
    }
}

/// What the console view says when no region with text is listed.
pub open spec fn default_found() -> Seq<char> {
    "\u{2705} Successfully processed PDF with Ferrules ML vision model\n"@
        + "\u{2705} Generated spatial character matrix representation\n"@
        + "\u{2705} Preserved document layout structure\n"@
}

/// The known shortcomings of the placement, as the console view lists them.
pub open spec fn placement_issues() -> Seq<char> {
    "Placement Issues:\n"@ + "\u{274c} Text concatenation: Words may run together without spaces\n"@
        + "\u{274c} Overlapping text: Multiple words placed in same positions\n"@
        + "\u{274c} Inconsistent spacing: Some areas dense, others sparse\n"@
        + "\u{274c} Character accuracy: OCR/vision may misread some characters\n"@
}

/// The console view of a matrix: a header with its size and counts, every row numbered with
/// empty cells dotted, the regions with text among the first `CONSOLE_REGIONS_SHOWN`, and the
/// known placement issues.
pub open spec fn console_view(m: CharacterMatrix) -> Seq<char> {
    let g = grid_view(m.matrix@);
    let rs = region_views(m.text_regions@);
    let shown = if rs.len() <= CONSOLE_REGIONS_SHOWN {
        rs.len()
    } else {
        CONSOLE_REGIONS_SHOWN as nat
    };
    let found = found_lines(rs, shown);
    "\u{1f4ca} Ferrules Character Matrix Output - Exact Placement Visualization\n"@
        + "Matrix Size: "@ + decimal(m.width as nat) + " columns \u{d7} "@ + decimal(m.height as nat)
        + " rows\n"@ + "Regions Detected: "@ + decimal(rs.len()) + "\n"@ + "Text Objects: "@
        + decimal(m.original_text@.len()) + "\n"@ + "Processing Time: N/A\n"@
        + "Toggle Text Highlighting Toggle Grid Lines\n"@ + console_rows(g, g.len())
        + "What Ferrules Accomplished:\n"@ + if found.len() == 0 {
        default_found()
    } else {
        found
    } + placement_issues()
}

/// The character of a decimal digit.
fn digit(d: u64) -> (c: char)
    requires
        d < 10,
    ensures
        c == digit_char(d as nat),
{
    if d == 0 {
        '0'
    } else if d == 1 {
        '1'
    } else if d == 2 {
        '2'
    } else if d == 3 {
        '3'
    } else if d == 4 {
        '4'
    } else if d == 5 {
        '5'
    } else if d == 6 {
        '6'
    } else if d == 7 {
        '7'
    } else if d == 8 {
        '8'
    } else {
        '9'
    }
}

/// Appends the decimal digits of `n`.
pub fn push_decimal(out: &mut String, n: u64)
    ensures
        final(out)@ == old(out)@ + decimal(n as nat),
    decreases n,
{
    if n >= 10 {
        push_decimal(out, n / 10);
    }
    push_char(out, digit(n % 10));
    assert(out@ =~= old(out)@ + decimal(n as nat));
}

proof fn lemma_decimal_len(n: nat)
    ensures
        n < 10 ==> decimal(n).len() == 1,
        10 <= n < 100 ==> decimal(n).len() == 2,
        n >= 100 ==> decimal(n).len() >= 3,
    decreases n,
{
    if n >= 10 {
        lemma_decimal_len(n / 10);
    }
}

/// Appends `n` right-aligned in three columns.
fn push_padded3(out: &mut String, n: u64)
    ensures
        final(out)@ == old(out)@ + padded3(n as nat),
{
    proof {
        lemma_decimal_len(n as nat);
    }
    if n < 10 {
        push_char(out, ' ');
        push_char(out, ' ');
        assert(Seq::new(2, |i: int| ' ') =~= seq![' ', ' ']);
    } else if n < 100 {
        push_char(out, ' ');
        assert(Seq::new(1, |i: int| ' ') =~= seq![' ']);
    }
    let ghost before = out@;
    push_decimal(out, n);
    assert(out@ =~= old(out)@ + padded3(n as nat));
}

/// Appends a count of hundredths with one or two decimals.
fn push_fixed_point(out: &mut String, units: u64, decimals: u64)
    requires
        decimals == 1 || decimals == 2,
    ensures
        final(out)@ == old(out)@ + fixed_point(units as nat, decimals as nat),
{
    if decimals == 1 {
        push_decimal(out, units / 10);
        push_char(out, '.');
        push_char(out, digit(units % 10));
    } else {
        push_decimal(out, units / 100);
        push_char(out, '.');
        push_char(out, digit((units / 10) % 10));
        push_char(out, digit(units % 10));
    }
    assert(out@ =~= old(out)@ + fixed_point(units as nat, decimals as nat));
}

/// Appends a length in millipoints as points with one decimal.
fn push_points(out: &mut String, v: i64)
    ensures
        final(out)@ == old(out)@ + points_text(v as int),
{
    if v < 0 {
        push_char(out, '-');
        let a = (0 - (v as i128)) as u64;
        push_fixed_point(out, (a + 50) / 100, 1);
    } else {
        push_fixed_point(out, ((v as u64) + 50) / 100, 1);
    }
    assert(out@ =~= old(out)@ + points_text(v as int));
}

/// Appends a horizontal rule of `n` box-drawing characters and a newline.
fn push_rule(out: &mut String, n: usize)
    ensures
        final(out)@ == old(out)@ + rule(n as nat),
{
    let mut k: usize = 0;
    while k < n
        invariant
            k <= n,
            out@ == old(out)@ + Seq::new(k as nat, |i: int| '\u{2550}'),
        decreases n - k,
    {
        push_char(out, '\u{2550}');
        k = k + 1;
        assert(out@ =~= old(out)@ + Seq::new(k as nat, |i: int| '\u{2550}'));
    }
    push_char(out, '\n');
    assert(out@ =~= old(out)@ + rule(n as nat));
}

/// Appends the first `REPORT_PREVIEW_CHARS` characters of a text.
fn push_preview(out: &mut String, t: &String)
    ensures
        final(out)@ == old(out)@ + preview(t@),
{
    let cs = crate::text::chars_of(t.as_str());
    let end = if cs.len() > REPORT_PREVIEW_CHARS {
        REPORT_PREVIEW_CHARS
    } else {
        cs.len()
    };
    let mut k: usize = 0;
    while k < end
        invariant
            k <= end <= cs@.len(),
            cs@ == t@,
            out@ == old(out)@ + cs@.subrange(0, k as int),
        decreases end - k,
    {
        push_char(out, cs[k]);
        k = k + 1;
        assert(out@ =~= old(out)@ + cs@.subrange(0, k as int));
    }
    assert(cs@.subrange(0, end as int) =~= preview(t@));
}

/// Appends the report line of a region numbered `n`.
fn push_region_line(out: &mut String, r: &TextRegion, n: u64)
    ensures
        final(out)@ == old(out)@ + region_line(r@, n as nat),
{
    out.append("Region ");
    push_decimal(out, n);
    out.append(": (");
    push_decimal(out, r.bbox.x as u64);
    out.append(",");
    push_decimal(out, r.bbox.y as u64);
    out.append(") ");
    push_decimal(out, r.bbox.width as u64);
    out.append("x");
    push_decimal(out, r.bbox.height as u64);
    out.append(" conf:");
    push_fixed_point(out, ((r.confidence as u64) + 5) / 10, 2);
    out.append(" - \"");
    push_preview(out, &r.text_content);
    out.append("\"\n");
    assert(out@ =~= old(out)@ + region_line(r@, n as nat));
}

impl CharacterMatrixEngine {
    /// A report on a matrix, for inspection: its size and cell size, its counts of regions and
    /// of original text objects, its rows between two rules (numbered when it has more than
    /// `REPORT_NUMBERED_ABOVE` rows), and one line per region with a preview of its text.
    pub fn render_matrix_as_string(&self, char_matrix: &CharacterMatrix) -> (r: String)
        ensures
            r@ == matrix_report(*char_matrix),
    {
        let m = char_matrix;
        let ghost g = grid_view(m.matrix@);
        let ghost rs = region_views(m.text_regions@);
        let mut out = String::new();
        out.append("Character Matrix (");
        push_decimal(&mut out, m.width as u64);
        out.append("x");
        push_decimal(&mut out, m.height as u64);
        out.append(") | Char: ");
        push_points(&mut out, m.char_width);
        out.append("x");
        push_points(&mut out, m.char_height);
        out.append("pt:\n");
        out.append("Text Regions: ");
        push_decimal(&mut out, m.text_regions.len() as u64);
        out.append(" | Original Text Objects: ");
        push_decimal(&mut out, m.original_text.len() as u64);
        out.append("\n");
        let rule_len = if m.width <= REPORT_RULE_MAX {
            m.width
        } else {
            REPORT_RULE_MAX
        };
        push_rule(&mut out, rule_len);
        let ghost head = out@;
        let numbered = m.height > REPORT_NUMBERED_ABOVE;
        let mut k: usize = 0;
        while k < m.matrix.len()
            invariant
                k <= m.matrix@.len(),
                g == grid_view(m.matrix@),
                out@ == head + report_rows(g, numbered, k as nat),
            decreases m.matrix@.len() - k,
        {
            let ghost before = out@;
            if numbered {
                push_padded3(&mut out, k as u64);
                push_char(&mut out, ' ');
            }
            let row = &m.matrix[k];
            let mut c: usize = 0;
            let ghost mid = out@;
            while c < row.len()
                invariant
                    c <= row@.len(),
                    out@ == mid + row@.subrange(0, c as int),
                decreases row@.len() - c,
            {
                push_char(&mut out, row[c]);
                c = c + 1;
                assert(out@ =~= mid + row@.subrange(0, c as int));
            }
            push_char(&mut out, '\n');
            assert(g[k as int] == row@);
            assert(row@.subrange(0, row@.len() as int) =~= row@);
            assert(out@ =~= head + report_rows(g, numbered, (k + 1) as nat));
            k = k + 1;
        }
        push_rule(&mut out, rule_len);
        let ghost tail = out@;
        let mut i: usize = 0;
        while i < m.text_regions.len()
            invariant
                i <= m.text_regions@.len(),
                rs == region_views(m.text_regions@),
                out@ == tail + report_regions(rs, i as nat),
            decreases m.text_regions@.len() - i,
        {
            push_region_line(&mut out, &m.text_regions[i], (i + 1) as u64);
            assert(rs[i as int] == m.text_regions@[i as int]@);
            assert(out@ =~= tail + report_regions(rs, (i + 1) as nat));
            i = i + 1;
        }
        assert(out@ =~= matrix_report(*m));
        out
    }
}


/// Appends the console line of a region numbered `n`.
fn push_found_line(out: &mut String, r: &TextRegion, n: u64)
    ensures
        final(out)@ == old(out)@ + found_line(r@, n as nat),
{
    out.append("\u{2705} Found text region ");
    push_decimal(out, n);
    out.append(": \"");
    let cs = crate::text::chars_of(r.text_content.as_str());
    let end = if cs.len() > REPORT_PREVIEW_CHARS {
        REPORT_PREVIEW_CHARS
    } else {
        cs.len()
    };
    let ghost mid = out@;
    let mut k: usize = 0;
    while k < end
        invariant
            k <= end <= cs@.len(),
            cs@ == r.text_content@,
            out@ == mid + cs@.subrange(0, k as int),
        decreases end - k,
    {
        push_char(out, cs[k]);
        k = k + 1;
        assert(out@ =~= mid + cs@.subrange(0, k as int));
    }
    if cs.len() > REPORT_PREVIEW_CHARS {
        out.append("...");
    }
    assert(cs@.subrange(0, cs@.len() as int) =~= cs@);
    assert(out@ =~= mid + short_preview(r.text_content@));
    out.append("\" (Confidence: ");
    push_fixed_point(out, r.confidence as u64, 1);
    out.append("%)\n");
    assert(out@ =~= old(out)@ + found_line(r@, n as nat));
}

impl CharacterMatrixEngine {
    /// The console view of a matrix: a header with its size and counts, every row numbered
    /// with empty cells dotted, the regions with text among the first
    /// `CONSOLE_REGIONS_SHOWN` (or fixed lines when there is none), and the known placement
    /// issues.
    pub fn generate_spatial_console_output(&self, char_matrix: &CharacterMatrix) -> (r: String)
        ensures
            r@ == console_view(*char_matrix),
    {
        let m = char_matrix;
        let ghost g = grid_view(m.matrix@);
        let ghost rs = region_views(m.text_regions@);
        let mut out = String::new();
        out.append("\u{1f4ca} Ferrules Character Matrix Output - Exact Placement Visualization\n");
        out.append("Matrix Size: ");
        push_decimal(&mut out, m.width as u64);
        out.append(" columns \u{d7} ");
        push_decimal(&mut out, m.height as u64);
        out.append(" rows\n");
        out.append("Regions Detected: ");
        push_decimal(&mut out, m.text_regions.len() as u64);
        out.append("\n");
        out.append("Text Objects: ");
        push_decimal(&mut out, m.original_text.len() as u64);
        out.append("\n");
        out.append("Processing Time: N/A\n");
        out.append("Toggle Text Highlighting Toggle Grid Lines\n");
        let ghost head = out@;
        let mut k: usize = 0;
        while k < m.matrix.len()
            invariant
                k <= m.matrix@.len(),
                g == grid_view(m.matrix@),
                out@ == head + console_rows(g, k as nat),
            decreases m.matrix@.len() - k,
        {
            push_padded3(&mut out, k as u64);
            push_char(&mut out, ' ');
            let row = &m.matrix[k];
            let mut c: usize = 0;
            let ghost mid = out@;
            while c < row.len()
                invariant
                    c <= row@.len(),
                    out@ == mid + dotted(row@.subrange(0, c as int)),
                decreases row@.len() - c,
            {
                let ch = row[c];
                push_char(&mut out, if ch == ' ' {
                    '\u{b7}'
                } else {
                    ch
                });
                c = c + 1;
                assert(out@ =~= mid + dotted(row@.subrange(0, c as int)));
            }
            push_char(&mut out, '\n');
            assert(g[k as int] == row@);
            assert(row@.subrange(0, row@.len() as int) =~= row@);
            assert(out@ =~= head + console_rows(g, (k + 1) as nat));
            k = k + 1;
        }
        out.append("What Ferrules Accomplished:\n");
        let n = m.text_regions.len();
        let shown = if n <= CONSOLE_REGIONS_SHOWN {
            n
        } else {
            CONSOLE_REGIONS_SHOWN
        };
        let mut found = String::new();
        let mut i: usize = 0;
        while i < shown
            invariant
                i <= shown <= m.text_regions@.len(),
                rs == region_views(m.text_regions@),
                found@ == found_lines(rs, i as nat),
            decreases shown - i,
        {
            let region = &m.text_regions[i];
            assert(rs[i as int] == region@);
            let cs = crate::text::chars_of(region.text_content.as_str());
            if !all_white_space(&cs) {
                push_found_line(&mut found, region, (i + 1) as u64);
            }
            i = i + 1;
        }
        if found.as_str().is_empty() {
            out.append("\u{2705} Successfully processed PDF with Ferrules ML vision model\n");
            out.append("\u{2705} Generated spatial character matrix representation\n");
            out.append("\u{2705} Preserved document layout structure\n");
        } else {
            out.append(found.as_str());
        }
        out.append("Placement Issues:\n");
        out.append("\u{274c} Text concatenation: Words may run together without spaces\n");
        out.append("\u{274c} Overlapping text: Multiple words placed in same positions\n");
        out.append("\u{274c} Inconsistent spacing: Some areas dense, others sparse\n");
        out.append("\u{274c} Character accuracy: OCR/vision may misread some characters\n");
        assert(out@ =~= console_view(*m));
        out
    }
}

} // verus!
