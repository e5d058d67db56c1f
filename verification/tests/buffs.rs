use backend::buff::{
    buff_threshold, buff_uses_grayscale_tray, detect_similar_potion_buff, detect_simple_buff,
    is_similar_potion, resolve_similar_potion, similar_potion_other, BuffKind,
};
use backend::error::DetectError;
use backend::geometry::Rect;
use backend::health::{closest_text_box, ctc_greedy_decode, player_health_bars, union_of_boxes};
use backend::template::ScoreMap;
use backend::text::text_input_dims;

#[test]
fn buff_tables_hold_the_tuned_values() {
    assert_eq!(buff_threshold(BuffKind::AureliaElixir), 8000);
    assert_eq!(buff_threshold(BuffKind::LegionWealth), 7600);
    assert_eq!(buff_threshold(BuffKind::Rune), 7500);
    assert_eq!(buff_threshold(BuffKind::ExtremeGoldPotion), 7500);
    assert!(buff_uses_grayscale_tray(BuffKind::Rune));
    assert!(buff_uses_grayscale_tray(BuffKind::BonusExpCoupon));
    assert!(!buff_uses_grayscale_tray(BuffKind::LegionWealth));
    assert!(!buff_uses_grayscale_tray(BuffKind::ExtremeRedPotion));
    assert!(is_similar_potion(BuffKind::WealthAcquisitionPotion));
    assert!(is_similar_potion(BuffKind::ExpAccumulationPotion));
    assert!(!is_similar_potion(BuffKind::Rune));
    assert_eq!(
        similar_potion_other(BuffKind::WealthAcquisitionPotion),
        BuffKind::ExpAccumulationPotion
    );
    assert_eq!(
        similar_potion_other(BuffKind::ExpAccumulationPotion),
        BuffKind::WealthAcquisitionPotion
    );
}

#[test]
fn similar_potion_resolution_rules() {
    let some_rect = Rect::new(0, 0, 2, 2);
    // No match at all: absent.
    assert!(!resolve_similar_potion(&vec![], None));
    // Both instances matched: both potions are up.
    assert!(resolve_similar_potion(&vec![9000, 8800], Some((some_rect, 9500))));
    // One match and the other template absent: attributed to this kind.
    assert!(resolve_similar_potion(&vec![9000], None));
    // One match but the other template matched better: the other kind
    // owns the icon.
    assert!(!resolve_similar_potion(&vec![9000], Some((some_rect, 9300))));
    // One match and the other template matched worse: this kind is up.
    assert!(resolve_similar_potion(&vec![9000], Some((some_rect, 8000))));
}

#[test]
fn simple_buff_follows_threshold() {
    let mut d = vec![0i32; 100];
    d[55] = 8100;
    let map = ScoreMap::new(10, 10, d);
    assert!(detect_simple_buff(&map, BuffKind::Rune));
    assert!(detect_simple_buff(&map, BuffKind::AureliaElixir));
    let mut weak = vec![0i32; 100];
    weak[55] = 7900;
    let map = ScoreMap::new(10, 10, weak);
    assert!(detect_simple_buff(&map, BuffKind::Rune));
    assert!(!detect_simple_buff(&map, BuffKind::AureliaElixir));
}

#[test]
fn similar_potion_detection_end_to_end() {
    // Two well-separated instances of this kind's template: both
    // potions are considered up, whatever the other template says.
    let mut d = vec![0i32; 100];
    d[11] = 9990;
    d[66] = 9980;
    let own = ScoreMap::new(10, 10, d);
    let other = ScoreMap::new(10, 10, vec![0i32; 100]);
    assert!(detect_similar_potion_buff(own, &other, 2, 2, BuffKind::WealthAcquisitionPotion));
    // Even when the other template matches better, two instances of
    // this one mean both potions are up.
    let mut d = vec![0i32; 100];
    d[11] = 9000;
    d[66] = 8900;
    let own = ScoreMap::new(10, 10, d);
    let mut o = vec![0i32; 100];
    o[22] = 9995;
    let better_other = ScoreMap::new(10, 10, o);
    assert!(detect_similar_potion_buff(own, &better_other, 2, 2, BuffKind::WealthAcquisitionPotion));
    // A single instance with the other template matching at least as
    // well: the icon belongs to the other kind.
    let mut d = vec![0i32; 100];
    d[11] = 9000;
    let own = ScoreMap::new(10, 10, d);
    let mut o = vec![0i32; 100];
    o[22] = 9000;
    let tied_other = ScoreMap::new(10, 10, o);
    assert!(!detect_similar_potion_buff(own, &tied_other, 2, 2, BuffKind::ExpAccumulationPotion));
    // Nothing matches this kind: absent.
    let own = ScoreMap::new(10, 10, vec![100i32; 100]);
    let mut o = vec![0i32; 100];
    o[11] = 9000;
    let other = ScoreMap::new(10, 10, o);
    assert!(!detect_similar_potion_buff(own, &other, 2, 2, BuffKind::ExpAccumulationPotion));
    // One match here, a better one for the other template: absent.
    let mut d = vec![0i32; 100];
    d[11] = 9000;
    let own = ScoreMap::new(10, 10, d);
    let mut o = vec![0i32; 100];
    o[33] = 9500;
    let other = ScoreMap::new(10, 10, o);
    assert!(!detect_similar_potion_buff(own, &other, 2, 2, BuffKind::WealthAcquisitionPotion));
}

#[test]
fn error_descriptions_are_stable() {
    assert_eq!(DetectError::NotFound(1234).describe(), "template not found");
    assert_eq!(DetectError::DetectionCountMismatch.describe(), "detection count mismatch");
    assert_eq!(DetectError::MinimapNotFound.describe(), "minimap not found");
    assert_eq!(DetectError::ParseFailure.describe(), "parse failure");
}

#[test]
fn health_bars_compose_around_separator() {
    let separator = Rect::new(100, 10, 4, 10);
    let left_boxes = vec![Rect::new(60, 10, 20, 8)];
    let right_boxes = vec![Rect::new(110, 10, 30, 8), Rect::new(150, 12, 10, 6)];
    let (current, max) =
        player_health_bars(&separator, None, &left_boxes, &right_boxes).unwrap();
    assert_eq!(current, Rect::new(60, 9, 41, 10));
    assert_eq!(max, Rect::new(110, 10, 50, 8));

    // A shield before the number moves the current bar past it.
    let shield = Rect::new(55, 10, 8, 9);
    let (current, _) =
        player_health_bars(&separator, Some(&shield), &left_boxes, &right_boxes).unwrap();
    assert_eq!(current, Rect::new(63, 9, 38, 10));

    // Either side without a text box fails.
    let none: Vec<Rect> = Vec::new();
    assert_eq!(
        player_health_bars(&separator, None, &none, &right_boxes).unwrap_err(),
        DetectError::NotFound(0)
    );
    assert_eq!(
        player_health_bars(&separator, None, &left_boxes, &none).unwrap_err(),
        DetectError::NotFound(0)
    );
}

#[test]
fn closest_box_prefers_nearest_right_edge() {
    let boxes = vec![
        Rect::new(10, 0, 20, 5),  // right edge 30, distance 70
        Rect::new(50, 0, 40, 5),  // right edge 90, distance 10
        Rect::new(80, 0, 30, 5),  // right edge 110, distance 10: tie, first wins
    ];
    assert_eq!(closest_text_box(&boxes, 100), Some(1));
    let nothing: Vec<Rect> = Vec::new();
    assert!(closest_text_box(&nothing, 100).is_none());
    assert!(union_of_boxes(&nothing).is_none());
}

#[test]
fn text_input_dims_round_to_multiples_of_32() {
    assert_eq!(text_input_dims(100, 50), (512, 256));
    assert_eq!(text_input_dims(1, 1), (32, 32));
    assert_eq!(text_input_dims(64, 64), (320, 320));
}

#[test]
fn ctc_decode_collapses_repeats_and_blanks() {
    fn step(class: usize) -> Vec<i32> {
        let mut v = vec![0i32; 11];
        v[class] = 100;
        v
    }
    let alphabet: Vec<u8> = b"0123456789".to_vec();
    // Classes 1,1,0,1,2,2,3: repeats collapse, the blank separates,
    // so the digits read 0, 0, 1, 2.
    let steps = vec![step(1), step(1), step(0), step(1), step(2), step(2), step(3)];
    assert_eq!(ctc_greedy_decode(&steps, &alphabet), b"0012".to_vec());
    // All blanks decode to nothing.
    let blanks = vec![step(0), step(0)];
    assert_eq!(ctc_greedy_decode(&blanks, &alphabet), Vec::<u8>::new());
    let none: Vec<Vec<i32>> = Vec::new();
    assert_eq!(ctc_greedy_decode(&none, &alphabet), Vec::<u8>::new());
}
