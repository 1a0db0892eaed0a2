use rosace_widgets::tree::Alignment;

#[test]
fn constrained_pan_bound_shrinks_as_zoom_increases() {
    // The visible content window (and therefore the pannable max) shrinks
    // as zoom grows, since more content is shown magnified per screen px.
    let vp_w = 100.0_f32;
    let child_w = 500.0_f32;
    let max_at_1x = (child_w - vp_w / 1.0).max(0.0);
    let max_at_2x = (child_w - vp_w / 2.0).max(0.0);
    assert!(max_at_2x > max_at_1x, "zooming in must reveal MORE pannable content");
}

#[test]
fn alignment_places_the_child_in_halves_of_the_free_space() {
    assert_eq!(Alignment::default(), Alignment::Center);
    assert_eq!(Alignment::TopLeft.halves(), (0, 0));
    assert_eq!(Alignment::Center.halves(), (1, 1));
    assert_eq!(Alignment::BottomRight.halves(), (2, 2));
    assert_eq!(Alignment::CenterRight.halves(), (2, 1));
}
