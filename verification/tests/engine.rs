//! Tests of the matching engine, the evaluation pass, the property cache and
//! the change-tracking loop.

use std::sync::atomic::{AtomicUsize, Ordering};

use ecss::cache::{get_or_parse, apply_property_system, AppliedValues, CacheState, Property, PropertyMeta};
use ecss::component::{Class, StyleSheet};
use ecss::impls::WidthProperty;
use ecss::property::{Num, PropertyValues, Val};
use ecss::stylesheet::StyleSheetAsset;
use ecss::system::{
    check_for_changed_assets, clear_state, hot_reload_style_sheets, prepare_state,
    select_entities, watch_tracked_entities, ChangeReport, TrackedEntities,
};
use ecss::tree::{Node, Tree};
use ecss::EcssError;

fn plain_node(id: u64, parent: Option<usize>) -> Node {
    Node {
        id,
        name: None,
        class: None,
        components: Vec::new(),
        interaction: None,
        ui_node: true,
        parent,
    }
}

fn empty_report() -> ChangeReport {
    ChangeReport {
        name_changed: Vec::new(),
        class_changed: Vec::new(),
        interaction_changed: Vec::new(),
        node_changed: Vec::new(),
        components_changed: Vec::new(),
    }
}

fn num(mantissa: u64, scale: u32) -> Num {
    Num { negative: false, mantissa, scale }
}

/// Builds the chain root -> a -> b -> c, where `a` carries component "a"
/// and `c` (not `b`) carries component "b".
fn chain_tree() -> Tree {
    let mut tree = Tree::new();
    tree.push_node(plain_node(100, None));
    let mut a = plain_node(101, Some(0));
    a.components = vec!["a".to_string()];
    tree.push_node(a);
    tree.push_node(plain_node(102, Some(1)));
    let mut c = plain_node(103, Some(2));
    c.components = vec!["b".to_string()];
    tree.push_node(c);
    tree
}

#[test]
fn descendant_combinator_selects_descendants_not_children() {
    let tree = chain_tree();
    let rules = ecss::parser::StyleSheetParser::parse("a b {}");
    let selector = &rules[0].selector;
    let mut watched = TrackedEntities::new();
    let ids = select_entities(&tree, 0, selector, &mut watched);
    assert_eq!(ids, vec![103], "c is a descendant of a; b carries no component");
}

#[test]
fn matching_twice_yields_identical_results() {
    let tree = chain_tree();
    let rules = ecss::parser::StyleSheetParser::parse("a b {}");
    let selector = &rules[0].selector;
    let mut w1 = TrackedEntities::new();
    let mut w2 = TrackedEntities::new();
    let first = select_entities(&tree, 0, selector, &mut w1);
    let second = select_entities(&tree, 0, selector, &mut w2);
    assert_eq!(first, second, "matching is a pure function of tree and selector");
}

#[test]
fn compound_selector_needs_every_element() {
    let mut tree = Tree::new();
    let mut both = plain_node(1, None);
    both.components = vec!["button".to_string()];
    both.class = Some(Class::new("enabled"));
    tree.push_node(both);
    let mut only_component = plain_node(2, Some(0));
    only_component.components = vec!["button".to_string()];
    tree.push_node(only_component);

    let rules = ecss::parser::StyleSheetParser::parse("button.enabled {}");
    let mut watched = TrackedEntities::new();
    let ids = select_entities(&tree, 0, &rules[0].selector, &mut watched);
    assert_eq!(ids, vec![1]);
}

#[test]
fn specificity_orders_application_class_beats_component() {
    // E2E: component weight 1 < class weight 10, so the class rule is
    // applied later and its width wins.
    let source = "window { width: 100px; } .red { width: 50px; }";
    let asset = StyleSheetAsset::parse("test.css", source);

    let mut tree = Tree::new();
    let mut node = plain_node(1, None);
    node.components = vec!["window".to_string()];
    node.class = Some(Class::new("red"));
    tree.push_node(node);

    let assets = vec![(10u64, asset)];
    let styled = vec![(0usize, vec![10u64])];
    let state = prepare_state(&tree, &styled, &assets);

    let mut meta: PropertyMeta<Val> = PropertyMeta::new();
    let mut out: AppliedValues<Val> = AppliedValues::new();
    apply_property_system::<WidthProperty>(&mut meta, &assets, &state, &mut out);

    assert_eq!(out.get(1), Some(&Val::Px(num(50, 0))));
}

#[test]
fn specificity_orders_application_id_beats_class() {
    let source = "#win { width: 100px; } .red { width: 50px; }";
    let asset = StyleSheetAsset::parse("test.css", source);

    let mut tree = Tree::new();
    let mut node = plain_node(1, None);
    node.name = Some("win".to_string());
    node.class = Some(Class::new("red"));
    tree.push_node(node);

    let assets = vec![(10u64, asset)];
    let styled = vec![(0usize, vec![10u64])];
    let state = prepare_state(&tree, &styled, &assets);

    let mut meta: PropertyMeta<Val> = PropertyMeta::new();
    let mut out: AppliedValues<Val> = AppliedValues::new();
    apply_property_system::<WidthProperty>(&mut meta, &assets, &state, &mut out);

    // The id selector weighs 100 and is applied after the class selector.
    assert_eq!(out.get(1), Some(&Val::Px(num(100, 0))));
}

static FAILING_PARSE_CALLS: AtomicUsize = AtomicUsize::new(0);

struct FailingProperty;

impl Property for FailingProperty {
    type Cache = Val;

    fn name() -> &'static str {
        "width"
    }

    fn parse(_values: &PropertyValues) -> Result<Val, EcssError> {
        FAILING_PARSE_CALLS.fetch_add(1, Ordering::SeqCst);
        Err(EcssError::InvalidPropertyValue("width".to_string()))
    }
}

#[test]
fn cache_invokes_failing_parse_at_most_once() {
    let asset = StyleSheetAsset::parse("test.css", "a { width: 10px; }");
    let rules = ecss::parser::StyleSheetParser::parse("a { width: 10px; }");
    let selector = &rules[0].selector;

    let mut meta: PropertyMeta<Val> = PropertyMeta::new();
    for _ in 0..5 {
        get_or_parse::<FailingProperty>(&mut meta, &asset, selector);
    }
    assert_eq!(FAILING_PARSE_CALLS.load(Ordering::SeqCst), 1);
    match meta.lookup(asset.hash(), selector.hash()) {
        Some(CacheState::Failed) => {},
        other => panic!("expected a cached failure, got {:?}", other),
    }
}

#[test]
fn cache_records_missing_property_as_not_tried() {
    let asset = StyleSheetAsset::parse("test.css", "a { height: 10px; }");
    let rules = ecss::parser::StyleSheetParser::parse("a { height: 10px; }");
    let selector = &rules[0].selector;

    let mut meta: PropertyMeta<Val> = PropertyMeta::new();
    get_or_parse::<WidthProperty>(&mut meta, &asset, selector);
    match meta.lookup(asset.hash(), selector.hash()) {
        Some(CacheState::NotTried) => {},
        other => panic!("expected a not-tried slot, got {:?}", other),
    }
}

#[test]
fn tracked_changes_refresh_referencing_sheets() {
    let tree = chain_tree();
    let asset = StyleSheetAsset::parse("test.css", "a b { width: 1px; }");
    let assets = vec![(10u64, asset)];
    let styled = vec![(0usize, vec![10u64])];
    let state = prepare_state(&tree, &styled, &assets);

    // The component "a" examined node 101; report it changed.
    let mut report = empty_report();
    report.components_changed = vec![("a".to_string(), vec![101])];
    let changed = check_for_changed_assets(&state, &report);
    assert_eq!(changed, vec![10]);

    let mut sheets = vec![StyleSheet::new(10), StyleSheet::new(99)];
    assert!(sheets[0].take_changed());
    assert!(sheets[1].take_changed());
    watch_tracked_entities(&state, &report, &mut sheets);
    assert!(sheets[0].take_changed(), "the referencing sheet is refreshed");
    assert!(!sheets[1].take_changed(), "unrelated sheets stay idle");

    // An irrelevant change refreshes nothing.
    let mut unrelated = empty_report();
    unrelated.name_changed = vec![101];
    let changed = check_for_changed_assets(&state, &unrelated);
    assert!(changed.is_empty());
}

#[test]
fn hot_reload_refreshes_referencing_sheets() {
    let mut sheets = vec![StyleSheet::new(10), StyleSheet::new(99)];
    assert!(sheets[0].take_changed());
    assert!(sheets[1].take_changed());
    hot_reload_style_sheets(&vec![10], &mut sheets);
    assert!(sheets[0].take_changed());
    assert!(!sheets[1].take_changed());
}

#[test]
fn clear_state_keeps_tracked_entities() {
    let tree = chain_tree();
    let asset = StyleSheetAsset::parse("test.css", "a b { width: 1px; }");
    let assets = vec![(10u64, asset)];
    let styled = vec![(0usize, vec![10u64])];
    let mut state = prepare_state(&tree, &styled, &assets);

    assert!(state.has_any_selected_entities());
    clear_state(&mut state);
    assert!(!state.has_any_selected_entities());
    assert_eq!(state.len(), 1);

    // The tracked table survives, so change tracking still works.
    let mut report = empty_report();
    report.components_changed = vec![("a".to_string(), vec![101])];
    let changed = check_for_changed_assets(&state, &report);
    assert_eq!(changed, vec![10]);
}

#[test]
fn unsupported_pseudo_class_restricts_nothing() {
    let mut tree = Tree::new();
    let mut node = plain_node(1, None);
    node.components = vec!["a".to_string()];
    tree.push_node(node);

    let rules = ecss::parser::StyleSheetParser::parse("a:pseudo {}");
    let mut watched = TrackedEntities::new();
    let ids = select_entities(&tree, 0, &rules[0].selector, &mut watched);
    assert_eq!(ids, vec![1]);
}

#[test]
fn hover_pseudo_class_needs_hovered_interaction() {
    let mut tree = Tree::new();
    let mut hovered = plain_node(1, None);
    hovered.components = vec!["button".to_string()];
    hovered.interaction = Some(ecss::tree::Interaction::Hovered);
    tree.push_node(hovered);
    let mut idle = plain_node(2, Some(0));
    idle.components = vec!["button".to_string()];
    idle.interaction = Some(ecss::tree::Interaction::Idle);
    tree.push_node(idle);

    let rules = ecss::parser::StyleSheetParser::parse("button:hover {}");
    let mut watched = TrackedEntities::new();
    let ids = select_entities(&tree, 0, &rules[0].selector, &mut watched);
    assert_eq!(ids, vec![1]);
}

#[test]
fn universal_selector_matches_marked_nodes() {
    let mut tree = Tree::new();
    tree.push_node(plain_node(1, None));
    let mut unmarked = plain_node(2, Some(0));
    unmarked.ui_node = false;
    tree.push_node(unmarked);

    let rules = ecss::parser::StyleSheetParser::parse("* {}");
    let mut watched = TrackedEntities::new();
    let ids = select_entities(&tree, 0, &rules[0].selector, &mut watched);
    assert_eq!(ids, vec![1]);
}

#[test]
fn get_properties_finds_first_rule_with_same_selector() {
    let asset = StyleSheetAsset::parse("test.css", "a { width: 3px; } b { width: 4px; }");
    let rules = ecss::parser::StyleSheetParser::parse("a {}");
    let selector = &rules[0].selector;
    let values = asset.get_properties(selector, "width").expect("rule a declares width");
    assert_eq!(values.val(), Some(Val::Px(num(3, 0))));
    assert!(asset.get_properties(selector, "height").is_none());
    assert!(asset.has_property("width"));
    assert!(!asset.has_property("height"));
}

#[test]
fn tracking_records_matched_and_examined_nodes() {
    let tree = chain_tree();
    let rules = ecss::parser::StyleSheetParser::parse("a:hover {}");
    let mut watched = TrackedEntities::new();
    let _ = select_entities(&tree, 0, &rules[0].selector, &mut watched);

    // The component element records the nodes it matched; the pseudo-class
    // records every node it examined (the survivors of the component).
    assert_eq!(watched.len(), 2);
    let (component, matched) = watched.entry_at(0);
    assert_eq!(
        component,
        &ecss::selector::SelectorElement::Component("a".to_string())
    );
    assert_eq!(matched, &vec![101]);
    let (pseudo, examined) = watched.entry_at(1);
    assert_eq!(
        pseudo,
        &ecss::selector::SelectorElement::PseudoClass(
            ecss::selector::PseudoClassElement::Hover
        )
    );
    assert_eq!(examined, &vec![101]);
}
