use glyphgrid::canvas::Canvas;
use glyphgrid::geometry::Point;
use glyphgrid::geometry::Segment;
use glyphgrid::graphics::Text;
use glyphgrid::graphics::Visual;
use glyphgrid::layout::LayoutAnnotation;
use glyphgrid::layout::collect;
use glyphgrid::layout::get_max_text_len;
use glyphgrid::layout::get_span;
use glyphgrid::layout::place;
use glyphgrid::rendering::render;
use glyphgrid::rendering::render_img;

fn seg(x1: u32, y1: u32, x2: u32, y2: u32) -> Segment {
    Segment { p1: Point { x: x1, y: y1 }, p2: Point { x: x2, y: y2 } }
}

#[test]
fn common_of_overlapping_verticals() {
    // Same column, row ranges [2,8] and [5,12]: shared range [5,8] has length 3.
    assert_eq!(Segment::get_common(&seg(4, 2, 4, 8), &seg(4, 5, 4, 12)), 3);
}

#[test]
fn common_of_disjoint_or_different_columns() {
    assert_eq!(Segment::get_common(&seg(4, 2, 4, 5), &seg(4, 7, 4, 9)), 0);
    assert_eq!(Segment::get_common(&seg(3, 2, 3, 8), &seg(4, 2, 4, 8)), 0);
}

#[test]
fn crossing_is_strict() {
    let horizontal = seg(0, 4, 9, 4);
    // Column 3 strictly between 0 and 9, row 4 strictly between 1 and 6.
    assert!(Segment::are_crossing(&horizontal, &seg(3, 1, 3, 6)));
    // Touching at an endpoint is not a crossing.
    assert!(!Segment::are_crossing(&horizontal, &seg(9, 1, 9, 6)));
    assert!(!Segment::are_crossing(&horizontal, &seg(3, 4, 3, 6)));
}

#[test]
fn canvas_new_is_blank() {
    let canvas = Canvas::new(2, 2);
    assert_eq!(canvas.to_string(), "  \n  \n");
}

#[test]
fn canvas_draw_char_clips_out_of_bounds() {
    let mut canvas = Canvas::new(2, 2);
    canvas.draw_char(5, 0, 'x');
    canvas.draw_char(0, 7, 'x');
    assert_eq!(canvas.to_string(), "  \n  \n");
    canvas.draw_char(1, 1, 'x');
    assert_eq!(canvas.to_string(), "  \n x\n");
}

#[test]
fn canvas_draw_string_stops_at_right_edge() {
    let mut canvas = Canvas::new(4, 1);
    canvas.draw_string(2, 0, "abcdef");
    assert_eq!(canvas.to_string(), "  ab\n");
    let mut canvas2 = Canvas::new(4, 1);
    canvas2.draw_string(4, 0, "abc");
    assert_eq!(canvas2.to_string(), "    \n");
}

#[test]
fn canvas_draw_box_outline() {
    let mut canvas = Canvas::new(4, 3);
    canvas.draw_box(0, 0, 3, 3);
    assert_eq!(canvas.to_string(), "┌──┐\n│  │\n└──┘\n");
}

#[test]
fn canvas_draw_box_too_flat_draws_nothing() {
    let mut canvas = Canvas::new(4, 3);
    canvas.draw_box(0, 0, 3, 1);
    assert_eq!(canvas.to_string(), "    \n    \n    \n");
}

#[test]
fn canvas_draw_connector_downward() {
    let mut canvas = Canvas::new(6, 4);
    // Horizontal run after column 1 along row 0, corner, then down to row 3.
    canvas.draw_connector(1, 0, 4, 3);
    assert_eq!(canvas.to_string(), "  ──┐ \n    │ \n    │ \n      \n");
}

#[test]
fn canvas_draw_connector_upward() {
    let mut canvas = Canvas::new(6, 4);
    canvas.draw_connector(1, 3, 4, 0);
    assert_eq!(canvas.to_string(), "      \n    │ \n    │ \n  ──┘ \n");
}

#[test]
fn canvas_draw_connector_same_row() {
    let mut canvas = Canvas::new(6, 2);
    canvas.draw_connector(0, 0, 5, 0);
    assert_eq!(canvas.to_string(), " ──── \n      \n");
}

#[test]
fn span_of_glyphs() {
    let glyphs = vec![
        Visual { content: 1, x: 2, y: 0, id: None },
        Visual { content: 1, x: 0, y: 4, id: None },
    ];
    assert_eq!(get_span(&glyphs), (3, 5));
    assert_eq!(get_span(&Vec::new()), (0, 0));
}

#[test]
fn max_text_len_ignores_titles() {
    let texts = vec![
        Text::Title(String::from("a very long title indeed")),
        Text::ItemAnnotation(1, String::from("abc")),
        Text::ItemAnnotation(2, String::from("ab")),
    ];
    assert_eq!(get_max_text_len(&texts), 3);
    assert_eq!(get_max_text_len(&Vec::new()), 0);
}

#[test]
fn collect_matches_by_identifier() {
    let glyphs = vec![
        Visual { content: 1, x: 2, y: 3, id: Some(7) },
        Visual { content: 1, x: 4, y: 5, id: None },
    ];
    let texts = vec![
        Text::Title(String::from("t")),
        Text::ItemAnnotation(7, String::from("abc")),
        Text::ItemAnnotation(9, String::from("unmatched")),
    ];
    let annotations = collect(&glyphs, &texts);
    assert_eq!(annotations.len(), 1);
    assert_eq!(annotations[0].id, 7);
    assert_eq!(annotations[0].text, "abc");
    assert_eq!(annotations[0].w, 5);
    assert_eq!(annotations[0].h, 3);
    assert_eq!(annotations[0].target_pos, Point { x: 2, y: 3 });
    assert_eq!(annotations[0].pos, Point { x: 0, y: 0 });
}

#[test]
fn collect_fans_out_duplicate_identifiers() {
    // Two glyphs share one identifier: one annotation per matching pair.
    let glyphs = vec![
        Visual { content: 1, x: 0, y: 0, id: Some(1) },
        Visual { content: 1, x: 5, y: 5, id: Some(1) },
    ];
    let texts = vec![Text::ItemAnnotation(1, String::from("dup"))];
    let annotations = collect(&glyphs, &texts);
    assert_eq!(annotations.len(), 2);
    assert_eq!(annotations[0].target_pos, Point { x: 0, y: 0 });
    assert_eq!(annotations[1].target_pos, Point { x: 5, y: 5 });
}

#[test]
fn overlap_score_of_crossing_pair_is_penalty() {
    // Slot at row 0 aiming at (3, 6), slot at row 3 aiming at (9, 7): the
    // second slot's horizontal piece crosses the first one's vertical piece.
    let a = LayoutAnnotation { id: 1, y: 0, target: Point { x: 3, y: 6 } };
    let b = LayoutAnnotation { id: 2, y: 3, target: Point { x: 9, y: 7 } };
    assert_eq!(LayoutAnnotation::get_overlap_score(&a, &b), 100);
}

#[test]
fn overlap_score_of_shared_column_is_overlap_length() {
    // Both aim at column 5: verticals [1,6] and [4,7] share [4,6], length 2.
    let a = LayoutAnnotation { id: 1, y: 0, target: Point { x: 5, y: 6 } };
    let b = LayoutAnnotation { id: 2, y: 3, target: Point { x: 5, y: 7 } };
    assert_eq!(LayoutAnnotation::get_overlap_score(&a, &b), 2);
}

#[test]
fn overlap_score_of_clear_pair_is_zero() {
    let a = LayoutAnnotation { id: 1, y: 0, target: Point { x: 2, y: 0 } };
    let b = LayoutAnnotation { id: 2, y: 3, target: Point { x: 9, y: 7 } };
    assert_eq!(LayoutAnnotation::get_overlap_score(&a, &b), 0);
}

#[test]
fn place_swaps_slots_to_remove_a_crossing() {
    let glyphs = vec![
        Visual { content: 1, x: 3, y: 6, id: Some(1) },
        Visual { content: 1, x: 9, y: 7, id: Some(2) },
    ];
    let texts = vec![
        Text::ItemAnnotation(1, String::from("aa")),
        Text::ItemAnnotation(2, String::from("bb")),
    ];
    let mut annotations = collect(&glyphs, &texts);
    place(&mut annotations);
    // The stacked arrangement crosses; swapping the slots removes it, so the
    // annotation aiming at (9, 7) takes the upper slot.
    assert_eq!(annotations[0].id, 1);
    assert_eq!(annotations[0].pos, Point { x: 0, y: 3 });
    assert_eq!(annotations[1].id, 2);
    assert_eq!(annotations[1].pos, Point { x: 0, y: 0 });
}

#[test]
fn place_is_idempotent_on_its_own_output() {
    let glyphs = vec![
        Visual { content: 1, x: 3, y: 6, id: Some(1) },
        Visual { content: 1, x: 9, y: 7, id: Some(2) },
    ];
    let texts = vec![
        Text::ItemAnnotation(1, String::from("aa")),
        Text::ItemAnnotation(2, String::from("bb")),
    ];
    let mut annotations = collect(&glyphs, &texts);
    place(&mut annotations);
    let first: Vec<(u32, Point, Point)> =
        annotations.iter().map(|a| (a.id, a.target_pos, a.pos)).collect();
    place(&mut annotations);
    let second: Vec<(u32, Point, Point)> =
        annotations.iter().map(|a| (a.id, a.target_pos, a.pos)).collect();
    assert_eq!(first, second);
}

#[test]
fn place_keeps_non_overlapping_stack() {
    let glyphs = vec![
        Visual { content: 1, x: 0, y: 0, id: Some(1) },
        Visual { content: 1, x: 0, y: 9, id: Some(2) },
    ];
    let texts = vec![
        Text::ItemAnnotation(1, String::from("aa")),
        Text::ItemAnnotation(2, String::from("bb")),
    ];
    let mut annotations = collect(&glyphs, &texts);
    place(&mut annotations);
    assert_eq!(annotations[0].id, 1);
    assert_eq!(annotations[0].pos, Point { x: 0, y: 0 });
    assert_eq!(annotations[1].id, 2);
    assert_eq!(annotations[1].pos, Point { x: 0, y: 3 });
}

#[test]
fn render_img_maps_known_codes() {
    assert_eq!(render_img(0), ' ');
    assert_eq!(render_img(1), '□');
    assert_eq!(render_img(2), '△');
    assert_eq!(render_img(3), '▽');
    assert_eq!(render_img(4), '>');
    assert_eq!(render_img(5), '<');
}

#[test]
fn render_img_defends_against_unknown_codes() {
    assert_eq!(render_img(6), 'X');
    assert_eq!(render_img(99), 'X');
}

#[test]
fn render_is_deterministic() {
    let glyphs = vec![
        Visual { content: 1, x: 0, y: 0, id: None },
        Visual { content: 4, x: 1, y: 0, id: Some(1) },
    ];
    let texts = vec![Text::ItemAnnotation(1, String::from("Bro"))];
    let first = render(&glyphs, &texts);
    let second = render(&glyphs, &texts);
    assert_eq!(first, second);
}

#[test]
fn render_without_labels_draws_only_glyphs() {
    // One glyph at the origin: a 10-column left margin and 5 rows of top
    // margin, no box, no connector.
    let glyphs = vec![Visual { content: 1, x: 0, y: 0, id: None }];
    let expected = "           \n           \n           \n           \n           \n          □\n";
    assert_eq!(render(&glyphs, &Vec::new()), expected);
}

#[test]
fn render_unknown_code_shows_sentinel_in_place() {
    let glyphs = vec![
        Visual { content: 1, x: 0, y: 0, id: None },
        Visual { content: 99, x: 2, y: 1, id: None },
    ];
    let expected = "             \n             \n             \n             \n             \n          □  \n            X\n";
    assert_eq!(render(&glyphs, &Vec::new()), expected);
}

#[test]
fn render_end_to_end_with_one_label() {
    let glyphs = vec![
        Visual { content: 1, x: 0, y: 0, id: None },
        Visual { content: 4, x: 1, y: 0, id: Some(1) },
    ];
    let texts = vec![Text::ItemAnnotation(1, String::from("Bro"))];
    let expected = "┌────┐         \n│Bro │────────┐\n└────┘        │\n              │\n              │\n             □>\n";
    assert_eq!(render(&glyphs, &texts), expected);
}

#[test]
fn render_empty_inputs_give_empty_frame() {
    // Span (0, 0) with no labels: a 10-column, 5-row margin-only canvas.
    let out = render(&Vec::new(), &Vec::new());
    let lines: Vec<&str> = out.split('\n').collect();
    assert_eq!(lines.len(), 6);
    for line in &lines[..5] {
        assert_eq!(*line, "          ");
    }
    assert_eq!(lines[5], "");
}
