use tomt_bevycss::component::{Class, StyleSheet};
use tomt_bevycss::parser::StyleSheetParser;
use tomt_bevycss::prelude::{Selector, SelectorElement};
use tomt_bevycss::property::{StyleSheetState, StyleSheetStateBuilder};
use tomt_bevycss::stylesheet::{StyleSheetAsset, StyleSheets};
use tomt_bevycss::system::sets::BevyCssSet;
use tomt_bevycss::system::{
    clear_state, get_entities_with, hot_reload_style_sheets, prepare, prepare_state,
    select_entities, ComponentFilterRegistry, EntityGraph, EntityList, Interaction, StyleTree,
    StyleTreeNode, UiNode,
};

fn node(entity: u64, parent: Option<u64>, children: Vec<u64>) -> UiNode {
    UiNode {
        entity,
        ui: true,
        parent,
        children,
        sheet: None,
        name: None,
        class: None,
        components: vec![],
        interaction: None,
    }
}

/// 1 (sheet 100) -> 2 (#a .x.y) -> 4 (.y, hovered); 1 -> 3 (button) -> 5 (#a);
/// 6 stands alone.
fn graph() -> EntityGraph {
    let mut n1 = node(1, None, vec![2, 3]);
    n1.sheet = Some(100);
    let mut n2 = node(2, Some(1), vec![4]);
    n2.name = Some("a".to_string());
    n2.class = Some(Class::new("x y"));
    let mut n3 = node(3, Some(1), vec![5]);
    n3.components = vec!["button".to_string()];
    let mut n4 = node(4, Some(2), vec![]);
    n4.class = Some(Class::new("y"));
    n4.interaction = Some(Interaction::Hovered);
    let mut n5 = node(5, Some(3), vec![]);
    n5.name = Some("a".to_string());
    let mut n6 = node(6, None, vec![]);
    n6.class = Some(Class::new("y"));
    EntityGraph { nodes: vec![n1, n2, n3, n4, n5, n6] }
}

fn registry() -> ComponentFilterRegistry {
    let mut registry = ComponentFilterRegistry::default();
    registry.register("button");
    registry.register("button");
    assert_eq!(registry.0.len(), 1);
    registry
}

fn selector(text: &str) -> Selector {
    let rules = StyleSheetParser::parse(&format!("{text} {{}}"));
    assert_eq!(rules.len(), 1, "{text}");
    rules[0].selector.clone()
}

fn select(root: u64, text: &str) -> Vec<u64> {
    select_entities(root, &selector(text), &graph(), &registry()).to_vec()
}

#[test]
fn entities_below_and_above_are_collected_in_order() {
    let graph = graph();
    let mut found = EntityList::new();
    graph.get_children_recursively(&vec![2, 3], 6, &mut found);
    assert_eq!(found.to_vec(), vec![2, 4, 3, 5]);
    let mut shallow = EntityList::new();
    graph.get_children_recursively(&vec![2, 3], 0, &mut shallow);
    assert_eq!(shallow.to_vec(), vec![2, 3]);
    let mut above = EntityList::new();
    graph.get_parents_recursively(1, 2, 6, &mut above);
    assert_eq!(above.to_vec(), vec![1, 2]);
    let mut top = EntityList::new();
    graph.get_parents_recursively(1, 1, 6, &mut top);
    assert_eq!(top.to_vec(), vec![1]);
    assert_eq!(graph.build_entity_filter(1).to_vec(), vec![1, 2, 4, 3, 5]);
    assert_eq!(graph.build_entity_filter(2).to_vec(), vec![2, 4]);
    assert_eq!(graph.build_entity_filter(4).to_vec(), vec![4]);
    assert_eq!(graph.build_entity_filter(6).to_vec(), vec![6]);
    assert_eq!(graph.build_entity_filter(99).to_vec(), vec![99]);
}

#[test]
fn a_cycle_of_parents_and_children_ends() {
    let mut a = node(1, Some(2), vec![2]);
    a.sheet = Some(7);
    let b = node(2, Some(1), vec![1]);
    let graph = EntityGraph { nodes: vec![a, b] };
    let mut found = EntityList::new();
    graph.get_children_recursively(&vec![1], 2, &mut found);
    assert_eq!(found.to_vec(), vec![1, 2]);
    let mut above = EntityList::new();
    graph.get_parents_recursively(9, 1, 2, &mut above);
    assert_eq!(above.to_vec(), vec![1, 2, 1]);
    let mut tree = StyleTree::new();
    assert_eq!(tree.get_style_roots_for(2, &graph), vec![(1, 7)]);
}

#[test]
fn entities_that_are_all_children_of_each_other_are_taken_once() {
    let all: Vec<u64> = (0..60).collect();
    let mut nodes: Vec<UiNode> = all.iter().map(|e| node(*e, Some((e + 1) % 60), all.clone())).collect();
    nodes[0].sheet = Some(1);
    nodes[7].class = Some(Class::new("y"));
    let graph = EntityGraph { nodes };
    let mut found = EntityList::new();
    graph.get_children_recursively(&vec![5], 60, &mut found);
    assert_eq!(found.len(), 60);
    assert_eq!(found.to_vec()[..3], [5, 0, 1]);
    assert_eq!(
        select_entities(0, &selector(".y .y"), &graph, &registry()).to_vec(),
        vec![7]
    );
    assert_eq!(graph.build_entity_filter(3).len(), 60);
    assert_eq!(graph.build_entity_filter(3).to_vec()[..3], [3, 0, 1]);
    let mut assets = StyleSheets::new();
    assets.insert(1, StyleSheetAsset::parse("", ".y .y { color: red }"));
    assert_eq!(prepare_state(&graph, &assets, &all, &registry()).len(), 1);
}

#[test]
fn the_elements_of_a_level_must_all_match() {
    assert_eq!(select(1, "#a"), vec![2, 5]);
    assert_eq!(select(1, ".y"), vec![2, 4]);
    assert_eq!(select(1, "#a.y"), vec![2]);
    assert_eq!(select(1, ".x.y#a"), vec![2]);
    assert_eq!(select(1, "button"), vec![3]);
    assert_eq!(select(1, ".y:hover"), vec![4]);
    assert_eq!(select(1, ".y:click"), Vec::<u64>::new());
    assert_eq!(select(1, "window"), Vec::<u64>::new());
    assert_eq!(select(1, ".z"), Vec::<u64>::new());
}

#[test]
fn a_later_level_matches_below_a_match_of_the_level_before() {
    assert_eq!(select(1, "#a .y"), vec![4]);
    assert_eq!(select(1, "button #a"), vec![5]);
    assert_eq!(select(1, ".y #a"), Vec::<u64>::new());
    assert_eq!(select(1, "#a #a"), Vec::<u64>::new());
    assert_eq!(select(1, "button .y"), Vec::<u64>::new());
}

#[test]
fn the_root_and_all_below_it_are_looked_at() {
    assert_eq!(select(1, "#a"), vec![2, 5]);
    assert_eq!(select(2, "#a"), vec![2]);
    assert_eq!(select(3, "#a"), vec![5]);
    assert_eq!(select(2, ".y"), vec![2, 4]);
    assert_eq!(select(4, ".y"), vec![4]);
    assert_eq!(select(6, ".y"), vec![6]);
    assert_eq!(select(3, "button #a"), vec![5]);
    assert_eq!(select(5, "button #a"), Vec::<u64>::new());
    assert_eq!(select(99, ".y"), Vec::<u64>::new());
}

#[test]
fn siblings_of_a_changed_entity_are_selected_with_it() {
    let mut n1 = node(1, None, vec![2, 3]);
    n1.sheet = Some(100);
    let mut n2 = node(2, Some(1), vec![]);
    n2.class = Some(Class::new("c"));
    let mut n3 = node(3, Some(1), vec![]);
    n3.class = Some(Class::new("c"));
    let graph = EntityGraph { nodes: vec![n1, n2, n3] };
    assert_eq!(
        select_entities(1, &selector(".c"), &graph, &registry()).to_vec(),
        vec![2, 3]
    );
    let mut assets = StyleSheets::new();
    assets.insert(100, StyleSheetAsset::parse("", ".c { color: red }"));
    let state = prepare_state(&graph, &assets, &vec![2], &registry());
    assert_eq!(state.len(), 2);
}

#[test]
fn entities_with_an_element_are_filtered() {
    let graph = graph();
    let registry = registry();
    let class = SelectorElement::Class("y".to_string());
    assert_eq!(
        get_entities_with(&class, &graph, &registry, &None).to_vec(),
        vec![2, 4, 6]
    );
    let filter = Some(EntityList::from_vec(&vec![6, 4]));
    assert_eq!(
        get_entities_with(&class, &graph, &registry, &filter).to_vec(),
        vec![4, 6]
    );
    let unregistered = SelectorElement::Component("button".to_string());
    assert!(get_entities_with(
        &unregistered,
        &graph,
        &ComponentFilterRegistry::default(),
        &None
    )
    .is_empty());
    assert!(get_entities_with(&SelectorElement::Child, &graph, &registry, &None).is_empty());
}

#[test]
fn style_sheets_are_found_from_the_outermost_down() {
    let mut n1 = node(1, None, vec![2]);
    n1.sheet = Some(100);
    let n2 = node(2, Some(1), vec![3]);
    let mut n3 = node(3, Some(2), vec![4]);
    n3.sheet = Some(200);
    let n4 = node(4, Some(3), vec![]);
    let n5 = node(5, None, vec![]);
    let graph = EntityGraph { nodes: vec![n1, n2, n3, n4, n5] };

    let mut tree = StyleTree::new();
    assert_eq!(tree.get_style_roots_for(4, &graph), vec![(1, 100), (3, 200)]);
    assert_eq!(
        tree.get(200),
        Some(StyleTreeNode { entity: 3, sheet_handle: 200, parent: Some(100) })
    );
    assert_eq!(
        tree.get(100),
        Some(StyleTreeNode { entity: 1, sheet_handle: 100, parent: None })
    );
    assert_eq!(tree.get_style_roots_for(2, &graph), vec![(1, 100)]);
    assert_eq!(tree.get_style_roots_for(3, &graph), vec![(1, 100), (3, 200)]);
    assert_eq!(tree.get_style_roots_for(5, &graph), vec![]);
    assert_eq!(tree.get_style_roots_for(9, &graph), vec![]);
    assert_eq!(tree.resolve(200, 0), vec![(3, 200)]);
    assert_eq!(tree.resolve(300, 5), vec![]);
}

#[test]
fn a_sheet_that_is_met_twice_is_remembered_once() {
    let mut n1 = node(1, None, vec![2]);
    n1.sheet = Some(100);
    let mut n2 = node(2, Some(1), vec![3]);
    n2.sheet = Some(200);
    let mut n3 = node(3, Some(2), vec![]);
    n3.sheet = Some(100);
    let graph = EntityGraph { nodes: vec![n1, n2, n3] };
    let mut tree = StyleTree::new();
    assert_eq!(tree.get_style_roots_for(3, &graph), vec![(1, 100)]);
    assert_eq!(tree.get_style_roots_for(2, &graph), vec![(1, 100), (2, 200)]);
}

fn source(state: &StyleSheetState, entity: u64, property: &str) -> Option<(u64, String)> {
    state
        .get(entity)
        .and_then(|style| style.get(property))
        .map(|s| (s.stylesheet, s.selector.to_text()))
}

#[test]
fn the_most_specific_rule_wins_and_the_later_of_equals() {
    let mut assets = StyleSheets::new();
    assets.insert(
        100,
        StyleSheetAsset::parse(
            "",
            "#a .y { color: red } .y { color: blue; font-size: 12px } .y { font-size: 13px } \
             button { color: green } .x { color: white } #a { font: \"f\" }",
        ),
    );
    let state = prepare_state(&graph(), &assets, &vec![1], &registry());
    assert_eq!(source(&state, 4, "color"), Some((100, "#a .y".to_string())));
    assert_eq!(source(&state, 4, "font-size"), Some((100, ".y".to_string())));
    // The second rule of `.y` stands behind the first: a sheet has one rule
    // for a selector.
    assert_eq!(
        state.get(4).unwrap().get("font-size").unwrap().selector.load_order(),
        2
    );
    assert_eq!(source(&state, 2, "color"), Some((100, ".x".to_string())));
    assert_eq!(source(&state, 2, "font"), Some((100, "#a".to_string())));
    assert_eq!(source(&state, 3, "color"), Some((100, "button".to_string())));
    assert_eq!(source(&state, 5, "font"), Some((100, "#a".to_string())));
    assert_eq!(source(&state, 5, "color"), None);
    assert!(state.get(1).is_none());
    assert!(state.get(6).is_none());
    let entities: Vec<u64> = state.iter().iter().map(|e| e.entity).collect();
    assert_eq!(entities, vec![4, 2, 3, 5]);
    let properties: Vec<&str> = state
        .get(4)
        .unwrap()
        .entries()
        .iter()
        .map(|e| e.property.as_str())
        .collect();
    assert_eq!(properties, vec!["color", "font-size"]);
}

#[test]
fn preparing_twice_gives_the_same_state() {
    let mut assets = StyleSheets::new();
    assets.insert(100, StyleSheetAsset::parse("", "#a .y { color: red } .y { color: blue }"));
    let describe = |state: &StyleSheetState| -> Vec<(u64, Vec<(String, u64, String, usize)>)> {
        state
            .iter()
            .iter()
            .map(|e| {
                (
                    e.entity,
                    e.style
                        .entries()
                        .iter()
                        .map(|s| {
                            (
                                s.property.clone(),
                                s.source.stylesheet,
                                s.source.selector.to_text(),
                                s.source.selector.load_order(),
                            )
                        })
                        .collect(),
                )
            })
            .collect()
    };
    let first = prepare_state(&graph(), &assets, &vec![1, 2], &registry());
    let second = prepare_state(&graph(), &assets, &vec![1, 2], &registry());
    assert_eq!(describe(&first), describe(&second));
    assert_eq!(first.len(), 2);
}

#[test]
fn the_sheet_nearer_to_an_entity_is_applied_after_the_outer_one() {
    let mut n1 = node(1, None, vec![2]);
    n1.sheet = Some(100);
    let mut n2 = node(2, Some(1), vec![3]);
    n2.sheet = Some(200);
    let mut n3 = node(3, Some(2), vec![]);
    n3.class = Some(Class::new("y"));
    let graph = EntityGraph { nodes: vec![n1, n2, n3] };
    let mut assets = StyleSheets::new();
    assets.insert(100, StyleSheetAsset::parse("", ".y { color: red; font-size: 1px }"));
    assets.insert(200, StyleSheetAsset::parse("", ".y { color: blue }"));
    let state = prepare_state(&graph, &assets, &vec![3], &ComponentFilterRegistry::default());
    assert_eq!(source(&state, 3, "color"), Some((200, ".y".to_string())));
    assert_eq!(source(&state, 3, "font-size"), Some((100, ".y".to_string())));

    let mut only_inner = StyleSheets::new();
    only_inner.insert(200, StyleSheetAsset::parse("", ".y { color: blue }"));
    let state = prepare_state(&graph, &only_inner, &vec![3], &ComponentFilterRegistry::default());
    assert_eq!(source(&state, 3, "color"), Some((200, ".y".to_string())));
    assert_eq!(source(&state, 3, "font-size"), None);
}

#[test]
fn entities_selected_again_are_not_taken_twice() {
    let mut builder = StyleSheetStateBuilder::new();
    let y = selector(".y");
    builder.add(100, &y, &EntityList::from_vec(&vec![4, 2]));
    builder.add(100, &y, &EntityList::from_vec(&vec![2, 6, 6]));
    builder.add(200, &y, &EntityList::from_vec(&vec![1]));
    builder.add(100, &selector("#a"), &EntityList::from_vec(&vec![2]));
    assert_eq!(builder.len(), 2);
    let first = &builder.entries()[0];
    assert_eq!(first.stylesheet, 100);
    assert_eq!(first.selected.len(), 2);
    assert_eq!(first.selected.get(&y).unwrap().to_vec(), vec![4, 2, 6, 6]);
    assert_eq!(builder.entries()[1].selected.get(&y).unwrap().to_vec(), vec![1]);
    assert!(builder.build(&StyleSheets::new()).is_empty());
}

#[test]
fn a_frame_without_a_selection_keeps_the_state() {
    let mut assets = StyleSheets::new();
    assets.insert(100, StyleSheetAsset::parse("", ".y { color: blue }"));
    let mut state = StyleSheetState::new();
    prepare(&mut state, &graph(), &assets, &vec![1], &registry());
    assert_eq!(state.len(), 2);
    prepare(&mut state, &graph(), &assets, &vec![], &registry());
    assert_eq!(state.len(), 2);
    prepare(&mut state, &graph(), &assets, &vec![6], &registry());
    assert_eq!(state.len(), 2);
    prepare(&mut state, &graph(), &assets, &vec![4], &registry());
    assert_eq!(state.len(), 2);
    clear_state(&mut state);
    assert!(state.is_empty());
    clear_state(&mut state);
    assert!(state.is_empty());
}

#[test]
fn changed_sheets_are_applied_anew_where_they_are_attached() {
    let mut graph = graph();
    graph.nodes[4].sheet = Some(200);
    graph.nodes[5].sheet = Some(100);
    assert_eq!(hot_reload_style_sheets(&graph, &vec![100]).to_vec(), vec![1, 6]);
    assert_eq!(hot_reload_style_sheets(&graph, &vec![200, 300]).to_vec(), vec![5]);
    assert!(hot_reload_style_sheets(&graph, &vec![]).is_empty());
    let mut component = StyleSheet::new(100);
    component.refresh();
    assert_eq!(component.handle(), 100);
    component.set(200);
    assert_eq!(component, StyleSheet::new(200));
}

#[test]
fn the_phases_of_a_frame_follow_each_other() {
    assert_eq!(BevyCssSet::Prepare.next(), Some(BevyCssSet::Apply));
    assert_eq!(BevyCssSet::Apply.next(), Some(BevyCssSet::Cleanup));
    assert_eq!(BevyCssSet::Cleanup.next(), None);
}

#[test]
fn a_state_holds_each_entity_and_each_property_once() {
    let mut assets = StyleSheets::new();
    assets.insert(
        100,
        StyleSheetAsset::parse(
            "",
            ".y { color: red; color: blue } #a { color: green } .x.y { font-size: 1px; color: white }",
        ),
    );
    let state = prepare_state(&graph(), &assets, &vec![1, 2, 4, 2], &registry());
    let mut entities: Vec<u64> = state.iter().iter().map(|e| e.entity).collect();
    let found = entities.len();
    entities.sort();
    entities.dedup();
    assert_eq!(entities.len(), found);
    assert_eq!(entities, vec![2, 4, 5]);
    for entry in state.iter() {
        let mut names: Vec<&str> =
            entry.style.entries().iter().map(|e| e.property.as_str()).collect();
        let declared = names.len();
        names.sort();
        names.dedup();
        assert_eq!(names.len(), declared);
    }
    assert_eq!(source(&state, 2, "color"), Some((100, "#a".to_string())));
    assert_eq!(source(&state, 4, "color"), Some((100, ".y".to_string())));
}
