use std::collections::HashSet;

use rosace_widgets::template::descriptor::{PropValue, StaticValue, Template, TemplateKey, TemplateNode};
use rosace_widgets::template::diff::{diff, EscalationReason, TemplateDiff};
use rosace_widgets::template::inflate::{inflate, is_registered, resolve, InflateError, Resolved, WidgetBuilder, WidgetRegistry};
use rosace_widgets::template::parse::{
    template_from_element, templates_from_sites, ParseError, ViewArg, ViewElement, ViewLiteral, ViewProp, ViewSite,
};
use rosace_widgets::template::registry::{files_match, find_running, get, len, register, snapshot, TemplateRegistry};
use rosace_widgets::template::reload::apply_reload;
use rosace_widgets::template::swap::{apply_swap, SwapOutcome};

fn float(v: f64) -> StaticValue {
    StaticValue::Float(v.to_bits())
}

fn key() -> TemplateKey {
    TemplateKey::new("src/app.rs", 12, 5)
}

// ── descriptor ───────────────────────────────────────────────────────────────

#[test]
fn leaf_node_has_no_props_or_children() {
    let n = TemplateNode::new("Text");
    assert_eq!(n.widget, "Text");
    assert!(n.props.is_empty());
    assert!(n.children.is_empty());
}

#[test]
fn builder_records_statics_holes_and_children_in_order() {
    let n = TemplateNode::new("Button")
        .with_static("label", StaticValue::Str("Save".into()))
        .with_hole("on_press", 0)
        .with_child(TemplateNode::new("Icon"));
    assert_eq!(n.props.len(), 2);
    assert_eq!(n.props[0], ("label".to_string(), PropValue::Static(StaticValue::Str("Save".into()))));
    assert_eq!(n.props[1], ("on_press".to_string(), PropValue::Hole(0)));
    assert_eq!(n.children.len(), 1);
    assert_eq!(n.children[0].widget, "Icon");
}

#[test]
fn hole_count_is_zero_for_a_fully_static_tree() {
    let root = TemplateNode::new("Column")
        .with_static("spacing", StaticValue::Int(12))
        .with_child(TemplateNode::new("Text").with_static("content", StaticValue::Str("Hi".into())));
    let t = Template::new(key(), root);
    assert_eq!(t.hole_count, 0);
}

#[test]
fn hole_count_is_max_index_plus_one_across_the_whole_tree() {
    let root = TemplateNode::new("Column")
        .with_child(TemplateNode::new("Button").with_hole("on_press", 0))
        .with_child(TemplateNode::new("Button").with_hole("on_press", 1));
    let t = Template::new(key(), root);
    assert_eq!(t.hole_count, 2);
}

#[test]
fn hole_count_uses_the_highest_index_even_when_sparse() {
    let root = TemplateNode::new("Text").with_hole("content", 3);
    let t = Template::new(key(), root);
    assert_eq!(t.hole_count, 4);
}

#[test]
fn hole_count_includes_positional_argument_holes() {
    let root = TemplateNode::new("Text").with_arg_hole(5).with_arg_static(StaticValue::Bool(true));
    assert_eq!(root.hole_extent(), 6);
    assert_eq!(Template::new(key(), root).hole_count, 6);
}

#[test]
fn signature_matches_only_when_hole_counts_are_equal() {
    let a = Template::new(key(), TemplateNode::new("Text").with_static("content", StaticValue::Str("A".into())));
    let b = Template::new(key(), TemplateNode::new("Text").with_static("content", StaticValue::Str("B".into())));
    assert!(a.hole_signature_matches(&b));
    let c = Template::new(key(), TemplateNode::new("Text").with_hole("content", 0));
    assert!(!a.hole_signature_matches(&c));
}

#[test]
fn key_displays_as_file_line_col() {
    assert_eq!(TemplateKey::new("src/app.rs", 12, 5).to_display_string(), "src/app.rs:12:5");
}

#[test]
fn key_equality_and_hashing_identify_a_view_site() {
    let mut seen = HashSet::new();
    seen.insert(TemplateKey::new("src/app.rs", 12, 5));
    assert!(seen.contains(&TemplateKey::new("src/app.rs", 12, 5)));
    assert!(!seen.contains(&TemplateKey::new("src/app.rs", 12, 6)));
}

#[test]
fn float_literals_compare_by_value() {
    assert_eq!(float(0.0), float(-0.0));
    assert_ne!(float(f64::NAN), float(f64::NAN));
    assert_ne!(float(1.0), float(2.0));
    assert_ne!(StaticValue::Int(1), float(1.0));
}

// ── diff ─────────────────────────────────────────────────────────────────────

fn dkey() -> TemplateKey {
    TemplateKey::new("src/app.rs", 10, 5)
}

fn t(root: TemplateNode) -> Template {
    Template::new(dkey(), root)
}

#[test]
fn identical_templates_are_unchanged() {
    let a = t(TemplateNode::new("Column").with_static("spacing", float(8.0)));
    let b = t(TemplateNode::new("Column").with_static("spacing", float(8.0)));
    assert_eq!(diff(&a, &b), TemplateDiff::Unchanged);
}

#[test]
fn changing_a_static_literal_is_swappable() {
    let a = t(TemplateNode::new("Text").with_static("content", StaticValue::Str("Save".into())));
    let b = t(TemplateNode::new("Text").with_static("content", StaticValue::Str("Store".into())));
    assert_eq!(diff(&a, &b), TemplateDiff::Swappable);
}

#[test]
fn wrapping_in_a_static_container_preserves_hole_sites_and_is_swappable() {
    let a = t(TemplateNode::new("Column").with_child(TemplateNode::new("Text").with_hole("content", 0)));
    let b = t(TemplateNode::new("Column")
        .with_child(TemplateNode::new("Container").with_child(TemplateNode::new("Text").with_hole("content", 0))));
    assert_eq!(diff(&a, &b), TemplateDiff::Swappable);
}

#[test]
fn adding_a_hole_escalates_on_count() {
    let a = t(TemplateNode::new("Column").with_hole("spacing", 0));
    let b = t(TemplateNode::new("Column")
        .with_hole("spacing", 0)
        .with_child(TemplateNode::new("Text").with_hole("content", 1)));
    assert_eq!(diff(&a, &b), TemplateDiff::Escalate(EscalationReason::HoleCountChanged { old: 1, new: 2 }));
}

#[test]
fn removing_a_hole_escalates_on_count() {
    let a = t(TemplateNode::new("Column").with_hole("spacing", 0).with_hole("cross", 1));
    let b = t(TemplateNode::new("Column").with_hole("spacing", 0));
    assert_eq!(diff(&a, &b), TemplateDiff::Escalate(EscalationReason::HoleCountChanged { old: 2, new: 1 }));
}

#[test]
fn retargeting_a_hole_to_a_different_prop_escalates_even_at_same_count() {
    let a = t(TemplateNode::new("Row")
        .with_child(TemplateNode::new("Column").with_hole("spacing", 0))
        .with_child(TemplateNode::new("Text").with_static("content", StaticValue::Str("x".into()))));
    let b = t(TemplateNode::new("Row")
        .with_child(TemplateNode::new("Column").with_static("spacing", float(5.0)))
        .with_child(TemplateNode::new("Text").with_hole("content", 0)));
    assert_eq!(diff(&a, &b), TemplateDiff::Escalate(EscalationReason::HoleSlotRetargeted { index: 0 }));
}

#[test]
fn same_count_same_sites_but_reordered_static_neighbours_is_swappable() {
    let a = t(TemplateNode::new("Column").with_child(TemplateNode::new("Text").with_hole("content", 0)));
    let b = t(TemplateNode::new("Column")
        .with_child(TemplateNode::new("Text").with_static("content", StaticValue::Str("header".into())))
        .with_child(TemplateNode::new("Text").with_hole("content", 0)));
    assert_eq!(diff(&a, &b), TemplateDiff::Swappable);
}

#[test]
fn different_site_keys_are_a_caller_bug() {
    let a = Template::new(TemplateKey::new("src/a.rs", 1, 1), TemplateNode::new("Column"));
    let b = Template::new(TemplateKey::new("src/b.rs", 2, 2), TemplateNode::new("Column"));
    assert_eq!(diff(&a, &b), TemplateDiff::Escalate(EscalationReason::KeyMismatch));
}

#[test]
fn a_template_diffs_unchanged_against_itself_unless_it_holds_nan() {
    let a = t(TemplateNode::new("Column").with_static("spacing", float(8.0)).with_hole("x", 0));
    assert_eq!(diff(&a, &a.clone()), TemplateDiff::Unchanged);
    let n = t(TemplateNode::new("Column").with_static("spacing", float(f64::NAN)));
    assert_eq!(diff(&n, &n.clone()), TemplateDiff::Swappable);
}

// ── registry ─────────────────────────────────────────────────────────────────

fn tmpl(file: &str, line: u32, label: &str) -> Template {
    Template::new(
        TemplateKey::new(file, line, 1),
        TemplateNode::new("Text").with_static("content", StaticValue::Str(label.into())),
    )
}

#[test]
fn register_then_get_round_trips() {
    let mut reg = TemplateRegistry::new();
    let t = tmpl("src/reg_a.rs", 10, "hello");
    register(&mut reg, t.clone());
    assert_eq!(get(&reg, &t.key), Some(t));
}

#[test]
fn get_unknown_key_is_none() {
    let reg = TemplateRegistry::new();
    assert_eq!(get(&reg, &TemplateKey::new("src/never_registered.rs", 999, 1)), None);
}

#[test]
fn re_registering_a_key_replaces_the_shape() {
    let mut reg = TemplateRegistry::new();
    let key = TemplateKey::new("src/reg_b.rs", 20, 1);
    register(&mut reg, Template::new(key.clone(), TemplateNode::new("Text").with_static("content", StaticValue::Str("v1".into()))));
    register(&mut reg, Template::new(key.clone(), TemplateNode::new("Text").with_static("content", StaticValue::Str("v2".into()))));
    let got = get(&reg, &key).unwrap();
    assert_eq!(got.root.props[0].1, PropValue::Static(StaticValue::Str("v2".into())));
    assert_eq!(len(&reg), 1);
}

#[test]
fn snapshot_and_len_list_every_site_once() {
    let mut reg = TemplateRegistry::new();
    register(&mut reg, tmpl("src/a.rs", 1, "a"));
    register(&mut reg, tmpl("src/b.rs", 2, "b"));
    register(&mut reg, tmpl("src/a.rs", 1, "a2"));
    assert_eq!(len(&reg), 2);
    let all = snapshot(&reg);
    assert_eq!(all.len(), 2);
    assert_eq!(all[0], tmpl("src/a.rs", 1, "a2"));
    assert_eq!(all[1], tmpl("src/b.rs", 2, "b"));
}

#[test]
fn files_match_compares_trailing_path_segments() {
    assert!(files_match("src/app.rs", "/abs/pkg/src/app.rs"));
    assert!(files_match("/abs/pkg/src/app.rs", "src/app.rs"));
    assert!(!files_match("app.rs", "map.rs"));
    assert!(!files_match("src/app.rs", "lib/app2.rs"));
    assert!(files_match("a//b.rs", "b.rs"));
    assert!(!files_match("", "/"));
    assert!(files_match("", ""));
}

#[test]
fn find_running_matches_by_line_and_path_suffix() {
    let mut reg = TemplateRegistry::new();
    register(&mut reg, tmpl("pkg/src/app.rs", 3, "x"));
    let found = find_running(&reg, "/Users/x/pkg/src/app.rs", 3).expect("same site");
    assert_eq!(found.key, TemplateKey::new("pkg/src/app.rs", 3, 1));
    assert!(find_running(&reg, "/Users/x/pkg/src/app.rs", 4).is_none());
    assert!(find_running(&reg, "/Users/x/pkg/src/map.rs", 3).is_none());
}

// ── swap ─────────────────────────────────────────────────────────────────────

fn col(key: &TemplateKey, spacing: PropValue) -> Template {
    Template::new(key.clone(), TemplateNode::new("Column").with_prop("spacing", spacing))
}

#[test]
fn safe_static_edit_is_applied_and_replaces_the_registry_entry() {
    let mut reg = TemplateRegistry::new();
    let key = TemplateKey::new("src/swap_a.rs", 1, 1);
    register(&mut reg, col(&key, PropValue::Static(float(4.0))));
    let edited = col(&key, PropValue::Static(float(40.0)));
    assert_eq!(apply_swap(&mut reg, edited), SwapOutcome::Applied);
    let now = get(&reg, &key).unwrap();
    assert_eq!(now.root.props[0].1, PropValue::Static(float(40.0)));
}

#[test]
fn adding_a_hole_escalates_and_leaves_the_registry_untouched() {
    let mut reg = TemplateRegistry::new();
    let key = TemplateKey::new("src/swap_b.rs", 2, 1);
    register(&mut reg, col(&key, PropValue::Static(float(4.0))));
    let edited = col(&key, PropValue::Hole(0));
    assert_eq!(
        apply_swap(&mut reg, edited),
        SwapOutcome::Escalate(EscalationReason::HoleCountChanged { old: 0, new: 1 })
    );
    assert_eq!(get(&reg, &key).unwrap().root.props[0].1, PropValue::Static(float(4.0)));
}

#[test]
fn unknown_site_is_reported() {
    let mut reg = TemplateRegistry::new();
    let key = TemplateKey::new("src/never_registered_swap.rs", 99, 1);
    assert_eq!(apply_swap(&mut reg, col(&key, PropValue::Static(float(1.0)))), SwapOutcome::UnknownSite);
}

#[test]
fn identical_edit_is_unchanged() {
    let mut reg = TemplateRegistry::new();
    let key = TemplateKey::new("src/swap_c.rs", 3, 1);
    register(&mut reg, col(&key, PropValue::Static(float(4.0))));
    assert_eq!(apply_swap(&mut reg, col(&key, PropValue::Static(float(4.0)))), SwapOutcome::Unchanged);
}

// ── reload ───────────────────────────────────────────────────────────────────

fn element(name: &str, props: Vec<ViewProp>) -> ViewElement {
    ViewElement { name: name.to_string(), args: Vec::new(), props, children: Vec::new() }
}

fn baseline(file: &str, line: u32, col: u32, spacing: PropValue) -> Template {
    let mut root = TemplateNode::new("Column");
    root.props.push(("spacing".into(), spacing));
    Template::new(TemplateKey::new(file, line, col), root)
}

#[test]
fn safe_edit_swaps_despite_different_path_form_and_column() {
    let mut reg = TemplateRegistry::new();
    register(&mut reg, baseline("reload_pkg/src/app.rs", 3, 17, PropValue::Static(float(4.0))));
    // The edited file's one view! site, on line 3: `Column { spacing: 40.0 }`.
    let sites = vec![ViewSite {
        line: 3,
        column: 22,
        element: element("Column", vec![ViewProp { name: "spacing".into(), literal: Some(ViewLiteral::Float(40.0f64.to_bits())) }]),
    }];
    let report = apply_reload(&mut reg, "/Users/x/reload_pkg/src/app.rs", Ok(sites));
    assert_eq!(report.applied, 1, "should hot-swap the matched site: {report:?}");
    assert!(report.hot_swapped());
    assert!(!report.needs_restart());
    let now = get(&reg, &TemplateKey::new("reload_pkg/src/app.rs", 3, 17)).unwrap();
    assert_eq!(now.root.props[0].1, PropValue::Static(float(40.0)));
}

#[test]
fn a_logic_change_reports_needs_restart() {
    let mut reg = TemplateRegistry::new();
    register(&mut reg, baseline("reload_pkg/src/b.rs", 1, 9, PropValue::Static(float(4.0))));
    // `Column { spacing: g }`: spacing becomes a hole.
    let sites = vec![ViewSite {
        line: 1,
        column: 18,
        element: element("Column", vec![ViewProp { name: "spacing".into(), literal: None }]),
    }];
    let report = apply_reload(&mut reg, "reload_pkg/src/b.rs", Ok(sites));
    assert_eq!(report.applied, 0);
    assert!(report.needs_restart(), "a new hole must force a restart: {report:?}");
}

#[test]
fn a_new_view_site_is_unknown_and_needs_restart() {
    let mut reg = TemplateRegistry::new();
    // `Row { }` on line 1; nothing registered for this file/line.
    let sites = vec![ViewSite { line: 1, column: 18, element: element("Row", Vec::new()) }];
    let report = apply_reload(&mut reg, "reload_pkg/src/brand_new.rs", Ok(sites));
    assert_eq!(report.unknown, 1);
    assert!(report.needs_restart());
}

#[test]
fn an_unparseable_edit_is_ignored_not_restarted() {
    let mut reg = TemplateRegistry::new();
    let parsed = Err(ParseError::Syntax("expected identifier".to_string()));
    let report = apply_reload(&mut reg, "reload_pkg/src/c.rs", parsed);
    assert!(report.ignored());
    assert!(!report.needs_restart(), "mid-edit garbage should be ignored, not restarted");
}

#[test]
fn parse_error_displays_with_its_prefix() {
    let e = ParseError::Syntax("unexpected `:`".to_string());
    assert_eq!(e.to_display_string(), "view! parse error: unexpected `:`");
}

#[test]
fn positional_literals_and_expressions_become_statics_and_holes() {
    // `Text("Hi", n)` on line 2: one literal argument, one expression.
    let mut el = element("Text", Vec::new());
    el.args.push(ViewArg { literal: Some(ViewLiteral::Str("Hi".into())) });
    el.args.push(ViewArg { literal: None });
    let mut reg = TemplateRegistry::new();
    let running = Template::new(
        TemplateKey::new("src/p.rs", 2, 5),
        TemplateNode::new("Text").with_arg_static(StaticValue::Str("Hi".into())).with_arg_hole(0),
    );
    register(&mut reg, running);
    let report = apply_reload(&mut reg, "src/p.rs", Ok(vec![ViewSite { line: 2, column: 9, element: el }]));
    assert_eq!(report.unchanged, 1);
    assert!(!report.needs_restart());
    assert!(!report.hot_swapped());
}

// ── inflate ──────────────────────────────────────────────────────────────────

#[test]
fn inflate_errors_display_their_cause() {
    assert_eq!(InflateError::UnknownWidget("Foo".into()).to_display_string(), "unknown widget `Foo`");
    assert_eq!(
        InflateError::UnknownProp { widget: "Column".into(), prop: "gap".into() }.to_display_string(),
        "`Column` has no prop `gap`"
    );
    assert_eq!(
        InflateError::PropType { widget: "Column".into(), prop: "spacing".into(), expected: "f32" }.to_display_string(),
        "`Column.spacing` expected f32"
    );
    assert_eq!(
        InflateError::UnexpectedChildren { widget: "Text".into() }.to_display_string(),
        "`Text` cannot have children"
    );
    assert_eq!(
        InflateError::HoleOutOfRange { index: 3, len: 2 }.to_display_string(),
        "hole #3 out of range (only 2 supplied)"
    );
}

#[test]
fn hole_out_of_range_escalates() {
    match resolve(&PropValue::Hole(5), 2) {
        Err(e) => assert_eq!(e, InflateError::HoleOutOfRange { index: 5, len: 2 }),
        Ok(_) => panic!("a hole past the supplied slots must escalate"),
    }
    assert!(matches!(resolve(&PropValue::Hole(1), 2), Ok(Resolved::Hole(1))));
    assert!(matches!(resolve(&PropValue::Static(StaticValue::Int(3)), 0), Ok(Resolved::Static(StaticValue::Int(3)))));
    let reg = describing_registry();
    let t = Template::new(key(), TemplateNode::new("Column").with_hole("spacing", 5));
    assert_eq!(inflate(&reg, &t, 0).err(), Some(InflateError::HoleOutOfRange { index: 5, len: 0 }));
    let unknown = Template::new(key(), TemplateNode::new("NoSuchWidget"));
    assert_eq!(inflate(&reg, &unknown, 0).err(), Some(InflateError::UnknownWidget("NoSuchWidget".into())));
}

#[test]
fn third_party_widget_registers_by_name() {
    let mut reg: WidgetRegistry<u32> = WidgetRegistry::new();
    assert!(!is_registered(&reg, "MyBadge"));
    reg.register_widget("MyBadge", 7);
    assert!(is_registered(&reg, "MyBadge"));
    assert_eq!(reg.builder("MyBadge").ok(), Some(&7));
    reg.register_widget("MyBadge", 8);
    assert_eq!(reg.builder("MyBadge").ok(), Some(&8));
    assert_eq!(reg.builder("Nope").err(), Some(InflateError::UnknownWidget("Nope".into())));
}

/// A builder that describes what it was given: its name, how many
/// arguments and props resolved, and its children's descriptions.
struct Describe(&'static str);

impl WidgetBuilder<String> for Describe {
    fn build(&self, args: &Vec<Resolved<'_>>, props: &Vec<(String, Resolved<'_>)>, children: Vec<String>) -> Result<String, InflateError> {
        Ok(format!("{}[{}]({})", self.0, args.len() + props.len(), children.join(",")))
    }
}

fn describing_registry() -> WidgetRegistry<Describe> {
    let mut reg = WidgetRegistry::new();
    reg.register_widget("Column", Describe("Column"));
    reg.register_widget("Text", Describe("Text"));
    reg
}

#[test]
fn inflates_children_depth_first_through_the_registered_builders() {
    let reg = describing_registry();
    let root = TemplateNode::new("Column")
        .with_static("spacing", float(8.0))
        .with_child(TemplateNode::new("Text").with_arg_static(StaticValue::Str("A".into())))
        .with_child(TemplateNode::new("Text").with_arg_hole(0));
    let t = Template::new(key(), root);
    assert_eq!(inflate(&reg, &t, 1), Ok("Column[1](Text[1](),Text[1]())".to_string()));
}

#[test]
fn builtin_widgets_are_registered_from_the_start() {
    let mut reg = WidgetRegistry::with_builtins(Describe("Column"), Describe("Row"), Describe("Text"), Describe("Button"));
    for name in ["Column", "Row", "Text", "Button"] {
        assert!(is_registered(&reg, name));
    }
    assert!(!is_registered(&reg, "NoSuchWidget"));
    reg.register_widget("MyBadge", Describe("MyBadge"));
    for name in ["Column", "Row", "Text", "Button", "MyBadge"] {
        assert!(is_registered(&reg, name));
    }
    let t = Template::new(key(), TemplateNode::new("Row").with_child(TemplateNode::new("Button")));
    assert_eq!(inflate(&reg, &t, 0), Ok("Row[0](Button[0]())".to_string()));
}

#[test]
fn unknown_widget_escalates() {
    let reg = describing_registry();
    let t = Template::new(key(), TemplateNode::new("Column").with_child(TemplateNode::new("Nope")));
    assert_eq!(inflate(&reg, &t, 0), Err::<String, _>(InflateError::UnknownWidget("Nope".into())));
}

#[test]
fn a_hole_past_the_supplied_slots_escalates_before_anything_is_built() {
    let reg = describing_registry();
    let t = Template::new(key(), TemplateNode::new("Text").with_arg_static(StaticValue::Int(1)).with_hole("content", 3));
    assert_eq!(inflate(&reg, &t, 1), Err::<String, _>(InflateError::HoleOutOfRange { index: 3, len: 1 }));
    // Arguments are resolved before props.
    let both = Template::new(key(), TemplateNode::new("Nope").with_arg_hole(5).with_hole("x", 4));
    assert_eq!(inflate(&reg, &both, 2), Err::<String, _>(InflateError::HoleOutOfRange { index: 5, len: 2 }));
}

// ── from parsed view! sites ──────────────────────────────────────────────────

fn prop(name: &str, literal: Option<ViewLiteral>) -> ViewProp {
    ViewProp { name: name.to_string(), literal }
}

fn with_children(mut el: ViewElement, kids: Vec<ViewElement>) -> ViewElement {
    el.children = kids;
    el
}

fn edited_key() -> TemplateKey {
    TemplateKey::new("src/edited.rs", 3, 5)
}

#[test]
fn parses_a_static_tree() {
    // `Column { spacing: 8.0 Text { content: "Hi" } }`
    let el = with_children(
        element("Column", vec![prop("spacing", Some(ViewLiteral::Float(8.0f64.to_bits())))]),
        vec![element("Text", vec![prop("content", Some(ViewLiteral::Str("Hi".into())))])],
    );
    let t = template_from_element(&el, edited_key());
    assert_eq!(t.root.widget, "Column");
    assert_eq!(t.hole_count, 0);
    assert_eq!(t.root.props[0], ("spacing".into(), PropValue::Static(float(8.0))));
    assert_eq!(t.root.children[0].widget, "Text");
    assert_eq!(t.root.children[0].props[0], ("content".into(), PropValue::Static(StaticValue::Str("Hi".into()))));
}

#[test]
fn assigns_positional_holes_props_before_children() {
    // `Column { spacing: gap Text { content: name } }`
    let el = with_children(
        element("Column", vec![prop("spacing", None)]),
        vec![element("Text", vec![prop("content", None)])],
    );
    let t = template_from_element(&el, edited_key());
    assert_eq!(t.hole_count, 2);
    assert_eq!(t.root.props[0], ("spacing".into(), PropValue::Hole(0)));
    assert_eq!(t.root.children[0].props[0], ("content".into(), PropValue::Hole(1)));
}

#[test]
fn mixed_static_and_hole() {
    // `Column { spacing: 12.0 Text { content: title } }`
    let el = with_children(
        element("Column", vec![prop("spacing", Some(ViewLiteral::Float(12.0f64.to_bits())))]),
        vec![element("Text", vec![prop("content", None)])],
    );
    let t = template_from_element(&el, edited_key());
    assert_eq!(t.hole_count, 1);
    assert_eq!(t.root.props[0], ("spacing".into(), PropValue::Static(float(12.0))));
    assert_eq!(t.root.children[0].props[0], ("content".into(), PropValue::Hole(0)));
}

#[test]
fn parses_all_view_sites_in_a_file_with_keys() {
    // Line 1: `Row { spacing: 2.0 }`; line 2: `Column { Text { content: name } }`.
    let sites = vec![
        ViewSite {
            line: 1,
            column: 18,
            element: element("Row", vec![prop("spacing", Some(ViewLiteral::Float(2.0f64.to_bits())))]),
        },
        ViewSite {
            line: 2,
            column: 18,
            element: with_children(element("Column", Vec::new()), vec![element("Text", vec![prop("content", None)])]),
        },
    ];
    let templates = templates_from_sites(&sites, "src/app.rs");
    assert_eq!(templates.len(), 2);
    let row = templates.iter().find(|t| t.root.widget == "Row").unwrap();
    assert_eq!(row.key.file, "src/app.rs");
    assert_eq!(row.key.line, 1);
    assert_eq!(row.hole_count, 0);
    let col = templates.iter().find(|t| t.root.widget == "Column").unwrap();
    assert_eq!(col.key.line, 2);
    assert_eq!(col.hole_count, 1);
    assert_eq!(col.root.children[0].props[0], ("content".into(), PropValue::Hole(0)));
}

#[test]
fn third_party_widget_registers_and_inflates() {
    let mut reg = describing_registry();
    reg.register_widget("MyBadge", Describe("MyBadge"));
    assert!(is_registered(&reg, "MyBadge"));
    let t = Template::new(key(), TemplateNode::new("MyBadge"));
    assert_eq!(inflate(&reg, &t, 0), Ok("MyBadge[0]()".to_string()));
}
