use chonker5::engine::CharacterMatrixEngine;
use chonker5::geometry::CharBBox;
use chonker5::matrix::CharacterMatrix;

fn points(millipoints: i64) -> f64 {
    millipoints as f64 / 1000.0
}

#[test]
fn test_char_bbox_contains() {
    let bbox = CharBBox {
        x: 10,
        y: 5,
        width: 20,
        height: 15,
    };

    assert!(bbox.contains(10, 5));
    assert!(bbox.contains(15, 10));
    assert!(bbox.contains(29, 19));
    assert!(!bbox.contains(9, 5));
    assert!(!bbox.contains(10, 4));
    assert!(!bbox.contains(30, 10));
    assert!(!bbox.contains(15, 20));
}

#[test]
fn test_char_bbox_area() {
    let bbox = CharBBox {
        x: 0,
        y: 0,
        width: 10,
        height: 5,
    };
    assert_eq!(bbox.area(), 50);

    let zero_bbox = CharBBox {
        x: 0,
        y: 0,
        width: 0,
        height: 10,
    };
    assert_eq!(zero_bbox.area(), 0);
}

#[test]
fn test_character_matrix_engine_new() {
    let engine = CharacterMatrixEngine::new();
    assert_eq!(points(engine.char_width), 6.0);
    assert_eq!(points(engine.char_height), 12.0);
}

#[test]
fn test_character_matrix_creation() {
    let matrix = CharacterMatrix {
        width: 80,
        height: 25,
        matrix: vec![vec![' '; 80]; 25],
        text_regions: vec![],
        original_text: vec!["Test text".to_string()],
        char_width: 6000,
        char_height: 12000,
    };

    assert_eq!(matrix.width, 80);
    assert_eq!(matrix.height, 25);
    assert_eq!(matrix.matrix.len(), 25);
    assert_eq!(matrix.matrix[0].len(), 80);
    assert_eq!(matrix.original_text.len(), 1);
}
