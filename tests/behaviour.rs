use chonker5::engine::{
    after_primary, check_page_index, extract_simple_text_matrix, FallbackStep,
    PRIMARY_BUDGET_MILLIS,
};
use chonker5::grid::grid_to_text;
use chonker5::placement::grid_cell;
use chonker5::raster::rasterize_page;
use chonker5::regions::{merge_adjacent_regions, regions_fit};
use chonker5::text::numbered_lines;
use chonker5::{
    CharBBox, CharacterMatrix, CharacterMatrixEngine, ExtractionError, ExtractionSession,
    MatrixGrid, MatrixSelection, PDFBBox, PageText, TextRegion, TextSegment,
};

fn segment(text: &str, left: i64, top: i64, right: i64, bottom: i64) -> TextSegment {
    TextSegment {
        text: text.to_string(),
        left,
        right,
        top,
        bottom,
    }
}

fn region(x: usize, y: usize, width: usize, text: &str, id: usize) -> TextRegion {
    TextRegion {
        bbox: CharBBox {
            x,
            y,
            width,
            height: 1,
        },
        confidence: 1000,
        text_content: text.to_string(),
        region_id: id,
    }
}

/// A 10 by 10 grid whose cell (r, c) holds a distinct letter or digit.
fn lettered_grid() -> Vec<Vec<char>> {
    let alphabet: Vec<char> = "abcdefghijklmnopqrstuvwxyzABCDEFGHIJKLMNOPQRSTUVWXYZ0123456789"
        .chars()
        .collect();
    (0..10)
        .map(|r| (0..10).map(|c| alphabet[(r * 10 + c) % alphabet.len()]).collect())
        .collect()
}

fn select(grid: &mut MatrixGrid, from: (usize, usize), to: (usize, usize)) {
    grid.drag_start(from.0, from.1);
    grid.drag_continue(to.0, to.1);
    grid.drag_release(Some(to));
}

#[test]
fn hello_segment_is_placed_character_by_character() {
    let page = PageText {
        height: 800_000,
        segments: vec![segment("HELLO", 0, 100_000, 35_000, 90_000)],
    };
    let objs = rasterize_page(&page);
    assert_eq!(objs.len(), 5);
    let h = objs[0];
    assert_eq!(h.character, 'H');
    assert_eq!(h.font_size, 8_000);
    assert_eq!(
        h.bbox,
        PDFBBox {
            x0: 0,
            y0: 700_000,
            x1: 7_000,
            y1: 708_000
        }
    );
    assert_eq!(objs[1].character, 'E');
    assert_eq!(objs[1].bbox.x0, 7_000);
    assert_eq!(grid_cell(&h.bbox, 0, 700_000, 6_000, 12_000), (0, 0));
    assert_eq!(grid_cell(&objs[1].bbox, 0, 700_000, 6_000, 12_000), (0, 1));
}

#[test]
fn spaces_advance_by_half_a_character() {
    let page = PageText {
        height: 100_000,
        segments: vec![segment("A B", 10_000, 50_000, 40_000, 40_000)],
    };
    let objs = rasterize_page(&page);
    assert_eq!(objs.len(), 3);
    assert_eq!(objs[1].bbox.x0, 20_000);
    assert_eq!(objs[1].bbox.x1, 25_000);
    assert_eq!(objs[2].bbox.x0, 25_000);
}

#[test]
fn zero_width_segment_uses_fallback_advance() {
    let page = PageText {
        height: 100_000,
        segments: vec![segment("ab", 5_000, 50_000, 5_000, 40_000)],
    };
    let objs = rasterize_page(&page);
    assert_eq!(objs[1].bbox.x0, 12_200);
}

#[test]
fn blank_segments_are_skipped() {
    let page = PageText {
        height: 100_000,
        segments: vec![
            segment("  \t", 0, 50_000, 10_000, 40_000),
            segment("", 0, 50_000, 0, 40_000),
        ],
    };
    assert!(rasterize_page(&page).is_empty());
    let engine = CharacterMatrixEngine::new();
    assert!(matches!(
        engine.process_pdf_page(&page),
        Err(ExtractionError::NoTextFound)
    ));
}

#[test]
fn hello_page_builds_a_well_formed_matrix() {
    let engine = CharacterMatrixEngine::new();
    let page = PageText {
        height: 800_000,
        segments: vec![
            segment("HELLO", 0, 100_000, 35_000, 90_000),
            segment("WORLD", 0, 88_000, 35_000, 78_000),
        ],
    };
    let m = engine.process_pdf_page(&page).unwrap();
    // modal size 8 points: cells of 4.8 by 9.6 points; starts 0, 7, 14, 21, 28 points
    // round to columns 0, 1, 3, 4, 6
    assert_eq!(m.char_width, 4_800);
    assert_eq!(m.char_height, 9_600);
    assert_eq!(m.width, 10);
    assert_eq!(m.height, 10);
    assert_eq!(m.matrix.len(), m.height);
    for row in &m.matrix {
        assert_eq!(row.len(), m.width);
    }
    for r in &m.text_regions {
        assert!(r.bbox.x + r.bbox.width <= m.width);
        assert!(r.bbox.y + r.bbox.height <= m.height);
    }
    let first: String = m.matrix[0].iter().collect();
    assert_eq!(first.trim_end(), "HE LL O");
    assert_eq!(m.original_text.len(), 10);
    assert_eq!(m.text_regions.len(), 2);
    assert_eq!(m.text_regions[0].text_content, "HELLO");
    assert_eq!(m.text_regions[0].bbox, CharBBox { x: 0, y: 0, width: 7, height: 1 });
    assert_eq!(m.text_regions[1].text_content, "WORLD");
    assert_eq!(m.text_regions[1].bbox.y, 1);
}

#[test]
fn whole_document_concatenates_pages() {
    let engine = CharacterMatrixEngine::default();
    let pages = vec![
        PageText {
            height: 800_000,
            segments: vec![segment("AB", 0, 100_000, 14_000, 90_000)],
        },
        PageText {
            height: 800_000,
            segments: vec![segment("CD", 0, 100_000, 14_000, 90_000)],
        },
    ];
    let m = engine.process_pdf(&pages).unwrap();
    assert_eq!(m.original_text, vec!["A", "B", "C", "D"]);
    let same = engine.process_pdf_with_ferrules(&pages).unwrap();
    assert_eq!(same.matrix, m.matrix);
    assert!(matches!(engine.process_pdf(&[]), Err(ExtractionError::NoTextFound)));
}

#[test]
fn page_index_is_checked() {
    assert_eq!(check_page_index(2, 3), Ok(()));
    assert_eq!(
        check_page_index(3, 3),
        Err(ExtractionError::PageOutOfRange {
            index: 3,
            page_count: 3
        })
    );
}

#[test]
fn calibration_takes_the_median_positive_size() {
    let engine = CharacterMatrixEngine::new();
    // unsorted on purpose: the median is the middle of the sorted positive sizes
    assert_eq!(
        engine.find_optimal_character_dimensions(&vec![30_000, 0, 10_000, -5, 12_000]),
        (7_200, 14_400)
    );
    assert_eq!(
        engine.find_optimal_character_dimensions(&vec![0, -1]),
        (6_000, 12_000)
    );
    assert_eq!(
        engine.find_optimal_character_dimensions(&vec![1_000, 2_000]),
        (4_000, 8_000)
    );
    let tuned = CharacterMatrixEngine::new_optimized(&vec![10_000, 10_000, 50_000]);
    assert_eq!((tuned.char_width, tuned.char_height), (6_000, 12_000));
}

#[test]
fn two_close_regions_merge() {
    let merged = merge_adjacent_regions(&[region(4, 3, 1, "a", 0), region(6, 3, 1, "b", 1)]);
    assert_eq!(merged.len(), 1);
    assert_eq!(merged[0].bbox, CharBBox { x: 4, y: 3, width: 3, height: 1 });
    assert_eq!(merged[0].text_content, "ab");
    assert_eq!(merged[0].region_id, 0);
}

#[test]
fn distant_or_other_row_regions_stay_apart() {
    let merged = merge_adjacent_regions(&[
        region(0, 0, 1, "a", 0),
        region(4, 0, 1, "b", 1),
        region(1, 1, 1, "c", 2),
    ]);
    assert_eq!(merged.len(), 3);
    assert!(merge_adjacent_regions(&[]).is_empty());
}

#[test]
fn merge_follows_discovery_order() {
    let merged = merge_adjacent_regions(&[
        region(2, 0, 1, "b", 0),
        region(5, 0, 1, "c", 1),
        region(0, 0, 1, "a", 2),
    ]);
    assert_eq!(merged.len(), 1);
    assert_eq!(merged[0].text_content, "bca");
    assert_eq!(merged[0].bbox, CharBBox { x: 0, y: 0, width: 6, height: 1 });
}

#[test]
fn merging_twice_changes_nothing() {
    let input = vec![
        region(0, 0, 1, "a", 0),
        region(2, 0, 1, "b", 1),
        region(9, 0, 1, "c", 2),
        region(3, 2, 1, "d", 3),
        region(12, 0, 1, "e", 4),
    ];
    let once = merge_adjacent_regions(&input);
    let twice = merge_adjacent_regions(&once);
    assert_eq!(once.len(), twice.len());
    for (a, b) in once.iter().zip(twice.iter()) {
        assert_eq!(a.bbox, b.bbox);
        assert_eq!(a.text_content, b.text_content);
        assert_eq!(a.region_id, b.region_id);
        assert_eq!(a.confidence, b.confidence);
    }
}

#[test]
fn area_of_wide_box() {
    let b = CharBBox { x: 3, y: 4, width: 7, height: 1 };
    assert_eq!(b.area(), 7);
    assert!(b.contains(9, 4));
    assert!(!b.contains(10, 4));
    assert!(!b.contains(3, 5));
}

#[test]
fn selection_is_independent_of_direction() {
    let m = lettered_grid();
    let down = MatrixSelection { start: Some((2, 2)), end: Some((5, 5)) };
    let up = MatrixSelection { start: Some((5, 5)), end: Some((2, 2)) };
    let cross = MatrixSelection { start: Some((5, 2)), end: Some((2, 5)) };
    for r in 0..10 {
        for c in 0..10 {
            assert_eq!(down.is_selected(r, c), up.is_selected(r, c));
            assert_eq!(down.is_selected(r, c), cross.is_selected(r, c));
        }
    }
    assert!(up.is_selected(3, 4));
    assert!(!up.is_selected(6, 4));
    assert_eq!(down.get_selected_text(&m), up.get_selected_text(&m));
    assert_eq!(down.get_selected_text(&m), cross.get_selected_text(&m));
    assert_eq!(up.get_selected_text(&m), "wxyz\nGHIJ\nQRST\n0123");
}

#[test]
fn selected_text_is_clamped_and_guarded() {
    let m = vec![vec!['a', 'b', 'c'], vec!['d'], vec!['e', 'f']];
    let s = MatrixSelection { start: Some((0, 1)), end: Some((7, 2)) };
    assert_eq!(s.get_selected_text(&m), "bc\n\nf");
    let none = MatrixSelection::new();
    assert_eq!(none.get_selected_text(&m), "");
    assert!(!none.is_selected(0, 0));
    let huge = MatrixSelection { start: Some((0, 0)), end: Some((0, 200_000)) };
    assert_eq!(huge.get_selected_text(&m), "[Selection too large]");
    let empty: Vec<Vec<char>> = Vec::new();
    let s = MatrixSelection { start: Some((0, 0)), end: Some((1, 1)) };
    assert_eq!(s.get_selected_text(&empty), "");
}

#[test]
fn copy_then_paste_two_down_two_right() {
    let original = lettered_grid();
    let mut g = MatrixGrid::from_matrix(original.clone());
    select(&mut g, (1, 1), (3, 3));
    g.copy();
    assert!(!g.modified);
    assert_eq!(g.matrix, original);
    g.click(3, 3);
    g.paste();
    assert!(g.modified);
    assert_eq!(g.cursor_pos, Some((3, 3)));
    assert_eq!(g.selection.start, None);
    for i in 0..3 {
        for j in 0..3 {
            assert_eq!(g.matrix[3 + i][3 + j], original[1 + i][1 + j]);
        }
    }
    // the source block is untouched where the pasted block does not cover it
    for r in 1..4 {
        for c in 1..4 {
            if r < 3 || c < 3 {
                assert_eq!(g.matrix[r][c], original[r][c]);
            }
        }
    }
}

#[test]
fn paste_is_clipped_at_the_grid_edge() {
    let original = lettered_grid();
    let mut g = MatrixGrid::from_matrix(original.clone());
    select(&mut g, (0, 0), (2, 2));
    g.copy();
    g.click(8, 9);
    g.paste();
    assert_eq!(g.matrix[8][9], original[0][0]);
    assert_eq!(g.matrix[9][9], original[1][0]);
    assert_eq!(g.matrix.len(), 10);
    assert!(g.matrix.iter().all(|row| row.len() == 10));
    assert_eq!(g.matrix[8][8], original[8][8]);
}

#[test]
fn paste_without_clipboard_changes_nothing() {
    let mut g = MatrixGrid::from_matrix(lettered_grid());
    g.paste();
    assert!(!g.modified);
    assert_eq!(g.matrix, lettered_grid());
}

#[test]
fn paste_anchors_at_selection_start_without_cursor() {
    let original = lettered_grid();
    let mut g = MatrixGrid::from_matrix(original.clone());
    select(&mut g, (0, 0), (0, 1));
    g.copy();
    select(&mut g, (5, 5), (6, 6));
    g.paste();
    assert_eq!(g.matrix[5][5], original[0][0]);
    assert_eq!(g.matrix[5][6], original[0][1]);
}

#[test]
fn cut_blanks_the_selection() {
    let original = lettered_grid();
    let mut g = MatrixGrid::from_matrix(original.clone());
    select(&mut g, (4, 4), (5, 6));
    g.cut();
    assert!(g.modified);
    assert_eq!(g.clipboard, vec![vec![original[4][4], original[4][5], original[4][6]], vec![original[5][4], original[5][5], original[5][6]]]);
    assert_eq!(g.matrix[4][4], ' ');
    assert_eq!(g.matrix[5][6], ' ');
    assert_eq!(g.matrix[4][7], original[4][7]);
}

#[test]
fn drag_moves_the_selection() {
    let original = lettered_grid();
    let mut g = MatrixGrid::from_matrix(original.clone());
    select(&mut g, (1, 1), (2, 2));
    g.drag_start(1, 2);
    assert!(g.is_dragging_selection);
    assert!(g.modified);
    assert_eq!(g.matrix[1][1], ' ');
    g.drag_continue(6, 6);
    assert_eq!(g.selection.end, Some((2, 2)));
    g.drag_release(Some((6, 5)));
    assert!(!g.is_dragging_selection);
    assert!(g.drag_content.is_empty());
    assert_eq!(g.selection.start, None);
    for r in 1..3 {
        for c in 1..3 {
            assert_eq!(g.matrix[r][c], ' ');
            assert_eq!(g.matrix[6 + r - 1][5 + c - 1], original[r][c]);
        }
    }
}

#[test]
fn drag_outside_the_selection_starts_a_new_one() {
    let mut g = MatrixGrid::from_matrix(lettered_grid());
    g.click(0, 0);
    g.drag_start(7, 7);
    assert_eq!(g.cursor_pos, None);
    assert_eq!(g.selection.start, Some((7, 7)));
    assert_eq!(g.selection.end, Some((7, 7)));
    assert!(!g.is_dragging_selection);
}

#[test]
fn typing_overwrites_and_moves_right() {
    let mut g = MatrixGrid::from_matrix(vec![vec!['a', 'b'], vec!['c']]);
    g.type_text("x");
    assert!(!g.modified);
    g.click(0, 0);
    g.type_text("xyz");
    assert_eq!(g.matrix[0], vec!['x', 'b']);
    assert_eq!(g.cursor_pos, Some((0, 1)));
    g.type_text("q");
    assert_eq!(g.matrix[0], vec!['x', 'q']);
    assert_eq!(g.cursor_pos, Some((0, 1)));
    g.type_text("");
    assert_eq!(g.matrix[0], vec!['x', 'q']);
    assert!(g.modified);
    g.click(5, 0);
    assert_eq!(g.cursor_pos, Some((0, 1)));
}

#[test]
fn grid_from_labelled_text() {
    let g = MatrixGrid::new("12 abc\r\nxyz\n\n7 a b\n");
    assert_eq!(
        g.matrix,
        vec![vec!['a', 'b', 'c'], vec!['x', 'y', 'z'], vec![], vec!['a', ' ', 'b']]
    );
    assert!(!g.modified);
    assert_eq!(g.cursor_pos, None);
}

#[test]
fn grid_saves_as_plain_text() {
    assert_eq!(grid_to_text(&[vec!['a', 'b'], vec!['c']]), "ab\nc\n");
    assert_eq!(grid_to_text(&[]), "");
}

#[test]
fn plain_text_matrix_has_one_cell_per_character() {
    let m = extract_simple_text_matrix("ab\ncde\n");
    assert_eq!(m.width, 3);
    assert_eq!(m.height, 25);
    assert_eq!(m.matrix[0], vec!['a', 'b', ' ']);
    assert_eq!(m.matrix[1], vec!['c', 'd', 'e']);
    assert_eq!(m.matrix[24], vec![' ', ' ', ' ']);
    assert_eq!(m.original_text, vec!["ab", "cde"]);
    assert!(m.text_regions.is_empty());
    assert_eq!((m.char_width, m.char_height), (8_000, 12_000));
    let empty = extract_simple_text_matrix("");
    assert_eq!((empty.width, empty.height), (80, 25));
}

#[test]
fn new_matrix_is_blank() {
    let m = CharacterMatrix::new(3, 2);
    assert_eq!(m.matrix, vec![vec![' '; 3]; 2]);
    assert_eq!((m.char_width, m.char_height), (7_200, 12_000));
}

#[test]
fn report_lists_size_rows_and_regions() {
    let engine = CharacterMatrixEngine::new();
    let m = CharacterMatrix {
        width: 3,
        height: 2,
        matrix: vec![vec!['a', 'b', ' '], vec![' ', ' ', 'c']],
        text_regions: vec![region(0, 0, 2, "ab", 0)],
        original_text: vec!["a".to_string(), "b".to_string(), "c".to_string()],
        char_width: 4_800,
        char_height: 9_650,
    };
    let expected = "Character Matrix (3x2) | Char: 4.8x9.7pt:\n\
                    Text Regions: 1 | Original Text Objects: 3\n\
                    \u{2550}\u{2550}\u{2550}\n\
                    ab \n  c\n\
                    \u{2550}\u{2550}\u{2550}\n\
                    Region 1: (0,0) 2x1 conf:1.00 - \"ab\"\n";
    assert_eq!(engine.render_matrix_as_string(&m), expected);
}

#[test]
fn report_numbers_rows_of_tall_matrices() {
    let engine = CharacterMatrixEngine::new();
    let mut m = CharacterMatrix::new(1, 21);
    m.matrix[20][0] = 'z';
    let out = engine.render_matrix_as_string(&m);
    assert!(out.contains("\n  0  \n"));
    assert!(out.contains("\n 20 z\n"));
    assert!(out.starts_with("Character Matrix (1x21) | Char: 7.2x12.0pt:\n"));
}

#[test]
fn console_view_dots_empty_cells() {
    let engine = CharacterMatrixEngine::new();
    let m = CharacterMatrix {
        width: 2,
        height: 1,
        matrix: vec![vec!['a', ' ']],
        text_regions: vec![region(0, 0, 1, "a", 0), region(1, 0, 1, " ", 1)],
        original_text: vec!["a".to_string()],
        char_width: 6_000,
        char_height: 12_000,
    };
    let out = engine.generate_spatial_console_output(&m);
    assert!(out.contains("Matrix Size: 2 columns \u{d7} 1 rows\n"));
    assert!(out.contains("\n  0 a\u{b7}\n"));
    assert!(out.contains("\u{2705} Found text region 1: \"a\" (Confidence: 100.0%)\n"));
    assert!(!out.contains("Found text region 2"));
    assert!(out.ends_with("OCR/vision may misread some characters\n"));
    let blank = CharacterMatrix::new(1, 1);
    let out = engine.generate_spatial_console_output(&blank);
    assert!(out.contains("Successfully processed PDF"));
}

#[test]
fn console_view_shortens_long_region_text() {
    let engine = CharacterMatrixEngine::new();
    let long = "x".repeat(60);
    let m = CharacterMatrix {
        width: 1,
        height: 1,
        matrix: vec![vec!['x']],
        text_regions: vec![region(0, 0, 60, &long, 0)],
        original_text: vec![],
        char_width: 6_000,
        char_height: 12_000,
    };
    let out = engine.generate_spatial_console_output(&m);
    assert!(out.contains(&format!("\"{}...\"", "x".repeat(50))));
}

#[test]
fn one_extraction_at_a_time_and_stale_results_dropped() {
    let mut s = ExtractionSession::new(0);
    assert_eq!(s.request(), Some(0));
    assert_eq!(s.request(), None);
    s.show_page(1);
    assert!(!s.receive(0));
    assert_eq!(s.in_flight, None);
    assert_eq!(s.request(), Some(1));
    assert!(!s.receive(7));
    assert!(s.receive(1));
}

#[test]
fn only_numbered_lines_are_kept() {
    assert_eq!(numbered_lines("header\n 1 a\nb\n2 c\r\n"), " 1 a\n2 c");
    assert_eq!(numbered_lines("none here"), "");
}

#[test]
fn well_formedness_is_checked() {
    let good = PageText {
        height: 800_000,
        segments: vec![segment("HELLO", 0, 100_000, 35_000, 90_000)],
    };
    assert!(good.is_well_formed());
    let reversed = PageText {
        height: 800_000,
        segments: vec![segment("HELLO", 35_000, 100_000, 0, 90_000)],
    };
    assert!(!reversed.is_well_formed());
    let too_tall = PageText {
        height: -1,
        segments: vec![],
    };
    assert!(!too_tall.is_well_formed());
    assert!(regions_fit(&[region(4, 3, 1, "a", 0)]));
    assert!(!regions_fit(&[region(usize::MAX, 3, 1, "a", 0)]));
}

#[test]
fn equally_frequent_sizes_calibrate_to_the_smaller() {
    let engine = CharacterMatrixEngine::new();
    let page = PageText {
        height: 800_000,
        segments: vec![
            segment("B", 0, 200_000, 14_000, 180_000),
            segment("A", 0, 100_000, 7_000, 90_000),
        ],
    };
    let m = engine.process_pdf_page(&page).unwrap();
    // sizes 16 and 8 points, once each: the smaller, 8 points, wins
    assert_eq!((m.char_width, m.char_height), (4_800, 9_600));
}

#[test]
fn selection_limit_is_inclusive() {
    let m = vec![vec!['a', 'b']];
    let at_limit = MatrixSelection { start: Some((0, 0)), end: Some((0, 99_999)) };
    assert_eq!(at_limit.get_selected_text(&m), "ab");
    let over = MatrixSelection { start: Some((0, 0)), end: Some((0, 100_000)) };
    assert_eq!(over.get_selected_text(&m), "[Selection too large]");

    let mut g = MatrixGrid::from_matrix(m.clone());
    g.selection = over;
    g.copy();
    assert!(g.clipboard.is_empty());
    g.cut();
    assert_eq!(g.matrix, m);
    assert!(!g.modified);
    g.selection = at_limit;
    g.copy();
    assert_eq!(g.clipboard, vec![vec!['a', 'b']]);
}

#[test]
fn fallback_runs_precise_path_on_failure_or_overrun() {
    assert_eq!(after_primary(true, 0), FallbackStep::KeepPrimary);
    assert_eq!(after_primary(true, PRIMARY_BUDGET_MILLIS), FallbackStep::KeepPrimary);
    assert_eq!(after_primary(true, 60_001), FallbackStep::RunPrecise);
    assert_eq!(after_primary(false, 10), FallbackStep::RunPrecise);
}

#[test]
fn no_positive_size_gives_the_fixed_default() {
    let engine = CharacterMatrixEngine {
        char_width: 9_000,
        char_height: 20_000,
    };
    assert_eq!(engine.find_optimal_character_dimensions(&vec![]), (6_000, 12_000));
    assert_eq!(engine.find_optimal_character_dimensions(&vec![0, -3]), (6_000, 12_000));
}

#[test]
fn no_characters_build_the_empty_grid() {
    let engine = CharacterMatrixEngine::new();
    let m = engine.build_matrix(&Vec::new());
    assert_eq!((m.width, m.height), (50, 50));
    assert_eq!(m.matrix, vec![vec![' '; 50]; 50]);
    assert!(m.text_regions.is_empty());
    assert!(m.original_text.is_empty());
    assert_eq!((m.char_width, m.char_height), (6_000, 12_000));
}
