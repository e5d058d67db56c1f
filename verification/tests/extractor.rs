use backend::decode::{
    best_candidate, decode_rune_arrows, filter_by_confidence, remap_detection, ArrowKey,
    RawDetection,
};
use backend::detect::{
    detect_elite_boss_bar, detect_esc_settings, detect_minimap_portals, detect_minimap_rune,
};
use backend::error::DetectError;
use backend::geometry::Rect;
use backend::health::{health_bar_between, parse_health_number, player_health_from_texts};
use backend::template::ScoreMap;
use backend::text::{component_text_box, expansion_size, extract_text_boxes, label_components};

fn det(x1: i32, confidence: i32, class_id: i32) -> RawDetection {
    RawDetection { x1, y1: 0, x2: x1 + 10_000, y2: 10_000, confidence, class_id }
}

fn score_grid(width: usize, height: usize, blocks: &[(usize, usize, usize, usize, i32)]) -> ScoreMap {
    let mut data = vec![0i32; width * height];
    for &(x, y, w, h, v) in blocks {
        for yy in y..y + h {
            for xx in x..x + w {
                data[yy * width + xx] = v;
            }
        }
    }
    ScoreMap::new(width, height, data)
}

#[test]
fn text_extractor_filters_small_and_weak_components() {
    // Three isolated components: one too small, one confident enough,
    // one whose best text score stays under the floor. Only the second
    // may yield a box.
    let text = score_grid(
        16,
        16,
        &[
            (1, 1, 3, 2, 9000),  // area 6 < 10: dropped
            (8, 8, 4, 4, 8000),  // area 16, max 0.8: kept
            (1, 10, 4, 4, 5000), // area 16, max 0.5 < 0.7: dropped
        ],
    );
    let link = ScoreMap::new(16, 16, vec![0i32; 256]);
    let boxes = extract_text_boxes(&text, &link, 1, 1, 1, 1, 0, 0);
    assert_eq!(boxes.len(), 1);

    let c = label_components(&text, &link);
    let small = c.label(1, 1);
    let kept = c.label(8, 8);
    let weak = c.label(1, 10);
    assert!(small != 0 && kept != 0 && weak != 0);
    // Connected pixels share a label; separated blocks do not.
    assert_eq!(c.label(8, 8), c.label(11, 11));
    assert_eq!(c.label(1, 1), c.label(3, 2));
    assert_ne!(small, kept);
    assert_ne!(kept, weak);
    assert!(component_text_box(&text, &link, &c, small, 1, 1, 1, 1, 0, 0).is_none());
    assert!(component_text_box(&text, &link, &c, kept, 1, 1, 1, 1, 0, 0).is_some());
    assert!(component_text_box(&text, &link, &c, weak, 1, 1, 1, 1, 0, 0).is_none());
}

#[test]
fn text_extractor_projects_with_offsets() {
    let text = score_grid(16, 16, &[(8, 8, 4, 4, 8000)]);
    let link = ScoreMap::new(16, 16, vec![0i32; 256]);
    let plain = extract_text_boxes(&text, &link, 1, 1, 1, 1, 0, 0);
    let shifted = extract_text_boxes(&text, &link, 1, 1, 1, 1, 30, 40);
    assert_eq!(shifted.len(), plain.len());
    assert_eq!(shifted[0].x, plain[0].x + 30);
    assert_eq!(shifted[0].y, plain[0].y + 40);
    assert_eq!(shifted[0].width, plain[0].width);
    assert_eq!(shifted[0].height, plain[0].height);
}

#[test]
fn expansion_size_exact_value() {
    // A square 4x4 component filled completely: the adaptive size is
    // round(2 * sqrt(16 * 4 / 16)) = 4.
    assert_eq!(expansion_size(16, 4, 4), 4);
    // A sparse component: round(2 * sqrt(10 * 4 / (4 * 25))) ~ 1.26 -> 1.
    assert_eq!(expansion_size(10, 25, 4), 1);
}

#[test]
fn rune_arrows_read_left_to_right() {
    let rows = vec![
        det(300_000, 9000, 3),
        det(100_000, 9000, 1),
        det(50_000, 2000, 0), // below the rune floor: ignored
        det(400_000, 9000, 0),
        det(200_000, 9000, 2),
    ];
    let arrows = decode_rune_arrows(&rows).unwrap();
    assert_eq!(arrows, [ArrowKey::Down, ArrowKey::Left, ArrowKey::Right, ArrowKey::Up]);
}

#[test]
fn rune_arrows_demand_exactly_four() {
    let rows = vec![det(100_000, 9000, 0), det(200_000, 9000, 1), det(300_000, 9000, 2)];
    assert_eq!(decode_rune_arrows(&rows).unwrap_err(), DetectError::DetectionCountMismatch);
    let five = vec![
        det(1, 9000, 0),
        det(2, 9000, 1),
        det(3, 9000, 2),
        det(4, 9000, 3),
        det(5, 9000, 0),
    ];
    assert_eq!(decode_rune_arrows(&five).unwrap_err(), DetectError::DetectionCountMismatch);
}

#[test]
fn confidence_filter_keeps_order() {
    let rows = vec![det(1, 6000, 0), det(2, 4000, 0), det(3, 7000, 0)];
    let kept = filter_by_confidence(&rows, 5000);
    assert_eq!(kept.len(), 2);
    assert_eq!(kept[0].x1, 1);
    assert_eq!(kept[1].x1, 3);
    assert!(best_candidate(&rows) == Some(2));
    let empty: Vec<RawDetection> = Vec::new();
    assert!(best_candidate(&empty).is_none());
}

#[test]
fn remap_scales_and_clamps() {
    // A corner at 100.0 in model space with a ratio of 200/640 lands
    // at floor(100 * 200 / 640) = 31.
    let d = RawDetection {
        x1: 1_000_000,
        y1: 500_000,
        x2: 2_000_000,
        y2: 1_500_000,
        confidence: 9000,
        class_id: 0,
    };
    let rect = remap_detection(&d, 200, 150, 200, 640, 150, 640);
    assert_eq!(rect, Rect::new(31, 11, 31, 24));
    // Negative and oversized corners clamp to the frame.
    let wild = RawDetection {
        x1: -500_000,
        y1: -500_000,
        x2: 900_000_000,
        y2: 900_000_000,
        confidence: 9000,
        class_id: 0,
    };
    let clamped = remap_detection(&wild, 200, 150, 200, 640, 150, 640);
    assert_eq!(clamped, Rect::new(0, 0, 200, 150));
}

#[test]
fn portals_are_reported_per_hit() {
    let mut data = vec![0i32; 30 * 20];
    data[5 * 30 + 10] = 9000;
    data[12 * 30 + 2] = 8000;
    let map = ScoreMap::new(30, 20, data);
    let portals = detect_minimap_portals(&map, 6, 6);
    assert_eq!(portals.len(), 2);
    // A hit away from the edges grows five pixels toward the top-left
    // and keeps them on the far sides.
    assert_eq!(portals[0], Rect::new(5, 0, 16, 16));
    // A hit near the left edge stops at it and restores the remainder.
    assert_eq!(portals[1], Rect::new(0, 7, 13, 16));
}

#[test]
fn esc_and_boss_templates_answer_by_threshold() {
    let low = ScoreMap::new(4, 4, vec![1000i32; 16]);
    let high = ScoreMap::new(4, 4, {
        let mut d = vec![0i32; 16];
        d[5] = 9100;
        d
    });
    assert!(!detect_esc_settings(&vec![]));
    let low2 = ScoreMap::new(4, 4, vec![1000i32; 16]);
    let high2 = ScoreMap::new(4, 4, {
        let mut d = vec![0i32; 16];
        d[5] = 9100;
        d
    });
    assert!(detect_esc_settings(&vec![low2, high2]));
    assert!(detect_elite_boss_bar(&low, &high));
    let rune_map = ScoreMap::new(4, 4, {
        let mut d = vec![0i32; 16];
        d[10] = 6500;
        d
    });
    let (rect, score) = detect_minimap_rune(&rune_map, 2, 2).unwrap();
    assert_eq!(rect, Rect::new(2, 2, 2, 2));
    assert_eq!(score, 6500);
}

#[test]
fn health_number_parsing() {
    assert_eq!(parse_health_number(&b"12345".to_vec()).unwrap(), 12345);
    assert_eq!(parse_health_number(&b"+42".to_vec()).unwrap(), 42);
    assert_eq!(parse_health_number(&b"4294967295".to_vec()).unwrap(), u32::MAX);
    assert_eq!(
        parse_health_number(&b"4294967296".to_vec()).unwrap_err(),
        DetectError::ParseFailure
    );
    assert_eq!(parse_health_number(&b"12a4".to_vec()).unwrap_err(), DetectError::ParseFailure);
    assert_eq!(parse_health_number(&b"".to_vec()).unwrap_err(), DetectError::ParseFailure);
    assert_eq!(parse_health_number(&b"+".to_vec()).unwrap_err(), DetectError::ParseFailure);
}

#[test]
fn health_values_clamp_current_to_max() {
    let r = player_health_from_texts(&b"5200".to_vec(), &b"5000".to_vec()).unwrap();
    assert_eq!(r, (5000, 5000));
    let r = player_health_from_texts(&b"700".to_vec(), &b"5000".to_vec()).unwrap();
    assert_eq!(r, (700, 5000));
    assert_eq!(
        player_health_from_texts(&b"x".to_vec(), &b"5000".to_vec()).unwrap_err(),
        DetectError::ParseFailure
    );
}

#[test]
fn health_bar_spans_between_templates() {
    let start = Rect::new(100, 50, 20, 10);
    let end = Rect::new(300, 50, 15, 10);
    assert_eq!(health_bar_between(&start, &end), Rect::new(120, 50, 180, 10));
}
