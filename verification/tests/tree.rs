use rosace_widgets::tree::bottom_nav::{badge_text, BottomNavItem};
use rosace_widgets::tree::data_table::{ColumnSizing, DataTable, DataTableColumn, SortDirection};
use rosace_widgets::tree::hero::{
    active_role, drain_pairs, end_flights, is_flying, register, set_active_role, HeroRegistry, HeroRole,
};
use rosace_widgets::tree::icon::{register_icon, resolve_icon, IconKind, IconRegistry};
use rosace_widgets::tree::overlay::{
    dialog_placement, overlay_placement, DialogPresentation, FocusBehavior, InputBehavior, LayerAnchor, OverlayKind,
};
use rosace_widgets::tree::{
    request_animation, take_animation_request, BoxShape, ButtonVariant, DismissDirection, FrameRequests, ScrollAlign,
};

// ── icons ────────────────────────────────────────────────────────────────────

/// The lines of the bundled codepoints table that the assertions below read.
const CODEPOINTS_EXCERPT: &str = "search ef7a\nwifi e63e\nrocket_launch eb9b\n";

#[test]
fn material_names_are_preregistered_from_the_codepoints_table() {
    let reg = IconRegistry::from_codepoints(CODEPOINTS_EXCERPT);
    assert_eq!(resolve_icon(&reg, "search"), Some('\u{ef7a}'));
    assert_eq!(resolve_icon(&reg, "wifi"), Some('\u{e63e}'));
    assert_eq!(resolve_icon(&reg, "not_a_real_icon_name"), None);
}

#[test]
fn downstream_crates_register_custom_icons_by_name() {
    let mut reg = IconRegistry::from_codepoints(CODEPOINTS_EXCERPT);
    assert_eq!(resolve_icon(&reg, "acme_rocket"), None);
    register_icon(&mut reg, "acme_rocket", '\u{eb9b}');
    assert_eq!(resolve_icon(&reg, "acme_rocket"), Some('\u{eb9b}'));
}

#[test]
fn codepoints_table_lines_are_parsed_like_from_str_radix() {
    let table = "a 41\r\nb  +42 \nc zz\nd\nno_space\ne 110000\nf d800\n 43\nA 4A\na 61\n";
    let reg = IconRegistry::from_codepoints(table);
    assert_eq!(resolve_icon(&reg, "a"), Some('a'), "a later line overrides an earlier one");
    assert_eq!(resolve_icon(&reg, "b"), Some('B'), "surrounding white space and a + are accepted");
    assert_eq!(resolve_icon(&reg, "c"), None, "not hex");
    assert_eq!(resolve_icon(&reg, "d"), None, "no space");
    assert_eq!(resolve_icon(&reg, "e"), None, "beyond the last scalar value");
    assert_eq!(resolve_icon(&reg, "f"), None, "a surrogate");
    assert_eq!(resolve_icon(&reg, ""), Some('C'), "the name is what precedes the first space");
    assert_eq!(resolve_icon(&reg, "A"), Some('J'));
    assert_eq!(resolve_icon(&IconRegistry::from_codepoints(""), "a"), None);
    assert_eq!(resolve_icon(&IconRegistry::from_codepoints("x 1ffffffff"), "x"), None, "overflows u32");
}

#[test]
fn built_in_kinds_map_to_their_codepoints() {
    assert_eq!(IconKind::Search.codepoint(), Some('\u{ef7a}'));
    assert_eq!(IconKind::Check.codepoint(), Some('\u{e668}'));
    assert_eq!(IconKind::Circle.codepoint(), None);
    assert_eq!(IconKind::Dot.codepoint(), None);
    let all = IconKind::all();
    assert_eq!(all.len(), 27);
    assert_eq!(all.iter().filter(|k| k.codepoint().is_none()).count(), 2);
}

// ── hero ─────────────────────────────────────────────────────────────────────

#[test]
fn only_tags_registered_on_both_sides_fly() {
    let mut reg: HeroRegistry<u32> = HeroRegistry::new();
    assert_eq!(active_role(&reg), None);
    set_active_role(&mut reg, Some(HeroRole::Outgoing));
    assert_eq!(active_role(&reg), Some(HeroRole::Outgoing));
    register(&mut reg, "avatar".to_string(), HeroRole::Outgoing, 1);
    register(&mut reg, "title".to_string(), HeroRole::Outgoing, 2);
    set_active_role(&mut reg, Some(HeroRole::Incoming));
    register(&mut reg, "avatar".to_string(), HeroRole::Incoming, 10);
    register(&mut reg, "only_here".to_string(), HeroRole::Incoming, 11);
    set_active_role(&mut reg, None);
    assert!(!is_flying(&reg, "avatar"), "nothing is in the air before pairing");

    let flights = drain_pairs(&mut reg);
    assert_eq!(flights.len(), 1);
    assert_eq!(flights[0].tag, "avatar");
    assert_eq!((flights[0].from, flights[0].to), (1, 10));
    assert!(is_flying(&reg, "avatar"));
    assert!(!is_flying(&reg, "title"), "a one-sided tag never flies");
    assert!(!is_flying(&reg, "only_here"));
    assert!(drain_pairs(&mut reg).is_empty(), "draining empties both sides");

    end_flights(&mut reg);
    assert!(!is_flying(&reg, "avatar"));
}

#[test]
fn re_registering_a_tag_replaces_its_end() {
    let mut reg: HeroRegistry<u32> = HeroRegistry::new();
    register(&mut reg, "a".to_string(), HeroRole::Outgoing, 1);
    register(&mut reg, "a".to_string(), HeroRole::Outgoing, 2);
    register(&mut reg, "a".to_string(), HeroRole::Incoming, 3);
    let flights = drain_pairs(&mut reg);
    assert_eq!(flights.len(), 1);
    assert_eq!((flights[0].from, flights[0].to), (2, 3));
}

// ── overlays and dialogs ─────────────────────────────────────────────────────

#[test]
fn modal_maps_to_centered_block_trap_with_dismissable_scrim() {
    let p = dialog_placement(DialogPresentation::default());
    assert_eq!(p.anchor, LayerAnchor::Centered);
    assert_eq!(p.input, InputBehavior::Block);
    assert_eq!(p.focus, FocusBehavior::Trap);
    let scrim = p.scrim.expect("modal must have a barrier scrim");
    assert!(scrim.alpha > 0, "modal barrier must be visible");
    assert!(scrim.dismisses, "modal barrier must dismiss on tap");
}

#[test]
fn non_modal_maps_to_pass_through_with_no_scrim() {
    let p = dialog_placement(DialogPresentation::NonModal);
    assert_eq!(p.anchor, LayerAnchor::Centered);
    assert_eq!(p.input, InputBehavior::PassThrough);
    assert_eq!(p.focus, FocusBehavior::PassThrough);
    assert!(p.scrim.is_none(), "non-modal must leave the background interactive");
}

#[test]
fn full_page_maps_to_fill_block_trap_with_invisible_escape_scrim() {
    let p = dialog_placement(DialogPresentation::FullPage);
    assert_eq!(p.anchor, LayerAnchor::Fill);
    assert_eq!(p.input, InputBehavior::Block);
    assert_eq!(p.focus, FocusBehavior::Trap);
    let scrim = p.scrim.expect("full-page carries the Escape dismisser");
    assert_eq!(scrim.alpha, 0, "full-page barrier must be invisible");
    assert!(scrim.dismisses);
}

#[test]
fn the_barrier_dismisser_reports_a_close_request() {
    let scrim = dialog_placement(DialogPresentation::Modal).scrim.expect("modal barrier");
    assert!(scrim.dismisses, "a barrier tap must request a close");
}

#[test]
fn overlay_kinds_place_their_layers() {
    let sheet = overlay_placement(OverlayKind::Sheet, true, true);
    assert_eq!(sheet.anchor, LayerAnchor::BottomAnchored);
    assert_eq!(sheet.input, InputBehavior::Block);
    assert_eq!(sheet.scrim.unwrap().alpha, 100);
    assert!(sheet.scrim.unwrap().dismisses);
    let undismissible = overlay_placement(OverlayKind::Dialog, false, true);
    assert!(!undismissible.scrim.unwrap().dismisses);
    let unheard = overlay_placement(OverlayKind::Dropdown, true, false);
    assert_eq!(unheard.scrim.unwrap().alpha, 0);
    assert!(!unheard.scrim.unwrap().dismisses);
    let tip = overlay_placement(OverlayKind::Tooltip, true, true);
    assert_eq!(tip.focus, FocusBehavior::Inert);
    assert!(tip.scrim.is_none());
    let toast = overlay_placement(OverlayKind::Toast, true, true);
    assert_eq!(toast.anchor, LayerAnchor::BottomCenter);
    assert_eq!(InputBehavior::default(), InputBehavior::PassThrough);
    assert_eq!(FocusBehavior::default(), FocusBehavior::PassThrough);
}

// ── data table ───────────────────────────────────────────────────────────────

#[test]
fn sorted_by_toggles_direction_on_repeat_click() {
    let dt = DataTable::new(vec![DataTableColumn::new("Name")]).sorted_by(0, SortDirection::Ascending);
    assert_eq!(dt.sort_col, Some(0));
    assert_eq!(dt.sort_dir, SortDirection::Ascending);
    assert_eq!(dt.next_sort_dir(0), SortDirection::Descending);
}

#[test]
fn header_shows_the_sort_arrow_on_the_sorted_column_only() {
    let dt = DataTable::new(vec![DataTableColumn::new("Name"), DataTableColumn::new("Qty")])
        .row(vec!["Widget".to_string(), "3".to_string()])
        .sorted_by(1, SortDirection::Descending)
        .selectable(vec![true]);
    assert_eq!(dt.header_label(0), "Name");
    assert_eq!(dt.header_label(1), "Qty v");
    assert_eq!(dt.next_sort_dir(1), SortDirection::Ascending);
    assert_eq!(dt.next_sort_dir(0), SortDirection::Ascending);
    assert!(dt.row_checked(0));
    assert!(!dt.row_checked(1), "rows past the selection are unchecked");
    let c = DataTableColumn::new("W").fixed_width_bits(32.0f32.to_bits());
    assert_eq!(c.sizing, ColumnSizing::Fixed(32.0f32.to_bits()));
    assert_eq!(DataTableColumn::new("W").sizing, ColumnSizing::Auto);
}

// ── bottom navigation ────────────────────────────────────────────────────────

#[test]
fn bottom_nav_item_builders() {
    let item: BottomNavItem<(), u8> = BottomNavItem::new("Home");
    assert_eq!(item.label, "Home");
    assert!(item.badge.is_none() && !item.active && item.on_press.is_none());
    let item = item.badge(12).active().on_press(7);
    assert_eq!(item.badge, Some(12));
    assert!(item.active);
    assert_eq!(item.on_press, Some(7));
    assert_eq!(badge_text(12), "12");
    assert_eq!(badge_text(0), "0");
}

// ── frame requests and small models ──────────────────────────────────────────

#[test]
fn an_animation_request_is_taken_once() {
    let mut f = FrameRequests::new();
    assert!(!take_animation_request(&mut f));
    request_animation(&mut f);
    request_animation(&mut f);
    assert!(take_animation_request(&mut f));
    assert!(!take_animation_request(&mut f));
}

#[test]
fn take_reports_whether_any_request_came_since_the_last_take() {
    for k in 0..4 {
        let mut f = FrameRequests::new();
        request_animation(&mut f);
        take_animation_request(&mut f);
        for _ in 0..k {
            request_animation(&mut f);
        }
        assert_eq!(take_animation_request(&mut f), k > 0);
        assert!(!take_animation_request(&mut f));
    }
}

#[test]
fn model_defaults() {
    assert_eq!(ScrollAlign::default(), ScrollAlign::Nearest);
    assert_eq!(BoxShape::default(), BoxShape::Rect);
    assert!(matches!(ButtonVariant::default(), ButtonVariant::Primary));
    assert_ne!(DismissDirection::EndToStart, DismissDirection::StartToEnd);
}

#[test]
fn a_closed_drawer_promotes_nothing() {
    assert!(rosace_widgets::tree::overlay::drawer_placement(false, true, 120).is_none());
}

#[test]
fn an_open_drawer_fills_blocks_traps_and_dismisses_on_a_scrim_tap() {
    let p = rosace_widgets::tree::overlay::drawer_placement(true, true, 120).expect("an open drawer promotes a layer");
    assert_eq!(p.focus, FocusBehavior::Trap, "a drawer traps focus");
    assert_eq!(p.input, InputBehavior::Block);
    assert_eq!(p.anchor, LayerAnchor::Fill, "a drawer's layer spans the window (it carries the scrim)");
    assert!(p.scrim.expect("scrim").dismisses, "scrim tap must ask to close the drawer");
}
