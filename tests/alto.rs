use chonker5::alto::{group_test_fragments, merge_group, Fragment, GroupError};

fn word(content: &str, hpos: i64, vpos: i64, width: i64) -> Fragment {
    Fragment {
        content: content.to_string(),
        hpos,
        vpos,
        width,
        height: 10_634,
        style_ref: Some("font0".to_string()),
    }
}

#[test]
fn sample_words_form_one_line() {
    let words = vec![
        word("MANAGEMENT", 221_813, 84_825, 79_806),
        word("CITY", 160_787, 84_825, 26_374),
        word("CASH", 189_813, 84_825, 29_349),
    ];
    let lines = group_test_fragments(words).unwrap();
    assert_eq!(lines.len(), 1);
    assert_eq!(lines[0].content, "CITY CASH MANAGEMENT");
    assert_eq!(lines[0].hpos, 160_787);
    assert_eq!(lines[0].vpos, 84_825);
    assert_eq!(lines[0].width, 140_832);
    assert_eq!(lines[0].height, 10_634);
    assert_eq!(lines[0].style_ref.as_deref(), Some("font0"));
}

#[test]
fn distant_tops_start_new_lines() {
    let words = vec![
        word("second", 0, 130_000, 10_000),
        word("first", 0, 100_000, 10_000),
        word("also", 20_000, 114_000, 10_000),
        word("third", 5_000, 160_000, 10_000),
    ];
    let lines = group_test_fragments(words).unwrap();
    let texts: Vec<&str> = lines.iter().map(|f| f.content.as_str()).collect();
    assert_eq!(texts, vec!["first also", "second", "third"]);
    assert_eq!(lines[0].width, 30_000);
}

#[test]
fn no_words_no_lines() {
    assert!(group_test_fragments(Vec::new()).unwrap().is_empty());
}

#[test]
fn merging_nothing_is_an_error() {
    assert!(matches!(merge_group(Vec::new()), Err(GroupError::EmptyGroup)));
    let one = merge_group(vec![word("solo", 5, 6, 7)]).unwrap();
    assert_eq!((one.content.as_str(), one.hpos, one.width), ("solo", 5, 7));
}
