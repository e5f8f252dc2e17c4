//! The work of the phase that prepares a frame.

use vstd::prelude::*;

use super::component_filter_registry::ComponentFilterRegistry;
use super::entity_list::{Entity, EntityList};
use super::graph::{EntityGraph, NodeModel, SheetHandle};
use super::select::{select_entities, selected};
use super::style_tree::{style_roots, StyleTree, StyleTreeNode};
use crate::property::stylesheet_state::{
    builder_with, built, each_entity_once, EntityStyleModel, SheetSelectionModel,
    StyleSheetState, StyleSheetStateBuilder,
};
use crate::seqs::{lemma_filter_last, lemma_filter_none};
use crate::stylesheet::style_rule::{rule_models, StyleRule, StyleRuleModel};
use crate::stylesheet::style_sheets::{loaded, LoadedSheetModel, StyleSheets};

verus! {

/// What is selected after the rules of a list, of the style sheet `handle`
/// attached to `root`, have selected among `root` and all that is below it.
pub open spec fn with_rules(
    builder: Seq<SheetSelectionModel>,
    graph: Seq<NodeModel>,
    registry: Seq<Seq<char>>,
    rules: Seq<StyleRuleModel>,
    handle: SheetHandle,
    root: Entity,
) -> Seq<SheetSelectionModel>
    decreases rules.len(),
{
    if rules.len() == 0 {
        builder
    } else {
        builder_with(
            with_rules(builder, graph, registry, rules.drop_last(), handle, root),
            handle,
            rules.last().selector,
            selected(graph, registry, rules.last().selector, root),
        )
    }
}

/// What is selected after the style sheets of a list, the outermost first,
/// have selected, each under the entity that it is attached to. A style sheet
/// that is not loaded selects nothing.
pub open spec fn with_roots(
    builder: Seq<SheetSelectionModel>,
    graph: Seq<NodeModel>,
    registry: Seq<Seq<char>>,
    sheets: Seq<LoadedSheetModel>,
    roots: Seq<(Entity, SheetHandle)>,
) -> Seq<SheetSelectionModel>
    decreases roots.len(),
{
    if roots.len() == 0 {
        builder
    } else {
        let before = with_roots(builder, graph, registry, sheets, roots.drop_last());
        let root = roots.last();
        match loaded(sheets, root.1) {
            Some(sheet) => with_rules(
                before,
                graph,
                registry,
                sheet.rules,
                root.1,
                root.0,
            ),
            None => before,
        }
    }
}

/// What is remembered of the style sheets and what is selected after the
/// entities of a list have changed, one after the other.
pub open spec fn selected_for(
    graph: Seq<NodeModel>,
    registry: Seq<Seq<char>>,
    sheets: Seq<LoadedSheetModel>,
    changes: Seq<Entity>,
) -> (Seq<StyleTreeNode>, Seq<SheetSelectionModel>)
    decreases changes.len(),
{
    if changes.len() == 0 {
        (Seq::empty(), Seq::empty())
    } else {
        let before = selected_for(graph, registry, sheets, changes.drop_last());
        let updated = changes.last();
        let roots = style_roots(graph, before.0, updated);
        (roots.0, with_roots(before.1, graph, registry, sheets, roots.1))
    }
}

/// The state that a frame is prepared with: for every entity that a rule of
/// a style sheet selects after the entities of `changes` have changed, the
/// winning declaration of each property.
pub open spec fn prepared(
    graph: Seq<NodeModel>,
    registry: Seq<Seq<char>>,
    sheets: Seq<LoadedSheetModel>,
    changes: Seq<Entity>,
) -> Seq<EntityStyleModel> {
    built(selected_for(graph, registry, sheets, changes).1, sheets)
}

/// Preparing a frame twice for the same entities, style sheets and changes
/// gives the same state.
pub proof fn lemma_prepared_again(
    graph: Seq<NodeModel>,
    registry: Seq<Seq<char>>,
    sheets: Seq<LoadedSheetModel>,
    changes: Seq<Entity>,
    first: Seq<EntityStyleModel>,
    second: Seq<EntityStyleModel>,
)
    requires
        first == prepared(graph, registry, sheets, changes),
        second == prepared(graph, registry, sheets, changes),
    ensures
        first == second,
{
}

fn select_for_rules(
    state: &mut StyleSheetStateBuilder,
    rules: &Vec<StyleRule>,
    handle: SheetHandle,
    root: Entity,
    graph: &EntityGraph,
    registry: &ComponentFilterRegistry,
)
    ensures
        final(state)@ == with_rules(
            old(state)@,
            graph@,
            registry@,
            rule_models(rules@),
            handle,
            root,
        ),
{
    let ghost models = rule_models(rules@);
    let mut i: usize = 0;
    while i < rules.len()
        invariant
            i <= rules.len(),
            models == rule_models(rules@),
            state@ == with_rules(
                old(state)@,
                graph@,
                registry@,
                models.take(i as int),
                handle,
                root,
            ),
        decreases rules.len() - i,
    {
        let rule = &rules[i];
        proof {
            assert(models.take(i + 1).drop_last() == models.take(i as int));
            assert(models.take(i + 1).last() == rule@);
        }
        let entities = select_entities(root, &rule.selector, graph, registry);
        state.add(handle, &rule.selector, &entities);
        i += 1;
    }
    assert(models.take(rules.len() as int) == models);
}

fn select_for_roots(
    state: &mut StyleSheetStateBuilder,
    roots: &Vec<(Entity, SheetHandle)>,
    graph: &EntityGraph,
    assets: &StyleSheets,
    registry: &ComponentFilterRegistry,
)
    ensures
        final(state)@ == with_roots(old(state)@, graph@, registry@, assets@, roots@),
{
    let mut i: usize = 0;
    while i < roots.len()
        invariant
            i <= roots.len(),
            state@ == with_roots(
                old(state)@,
                graph@,
                registry@,
                assets@,
                roots@.take(i as int),
            ),
        decreases roots.len() - i,
    {
        let (root_entity, sheet_handle) = roots[i];
        proof {
            assert(roots@.take(i + 1).drop_last() == roots@.take(i as int));
            assert(roots@.take(i + 1).last() == roots@[i as int]);
        }
        match assets.get(sheet_handle) {
            Some(style_sheet) => {
                select_for_rules(
                    state,
                    style_sheet.iter(),
                    sheet_handle,
                    root_entity,
                    graph,
                    registry,
                );
            },
            None => {},
        }
        i += 1;
    }
    assert(roots@.take(roots.len() as int) == roots@);
}

/// Prepares the state that the properties read from: finds the style sheets
/// that apply to each changed entity, the entities that the rules of those
/// sheets select, and the winning declaration of each property of each of them.
pub fn prepare_state(
    graph: &EntityGraph,
    assets: &StyleSheets,
    changes: &Vec<Entity>,
    registry: &ComponentFilterRegistry,
) -> (state: StyleSheetState)
    ensures
        state@ == prepared(graph@, registry@, assets@, changes@),
        each_entity_once(state@),
{
    let mut state = StyleSheetStateBuilder::new();
    let mut style_tree = StyleTree::new();
    let mut i: usize = 0;
    while i < changes.len()
        invariant
            i <= changes.len(),
            (style_tree@, state@) == selected_for(
                graph@,
                registry@,
                assets@,
                changes@.take(i as int),
            ),
        decreases changes.len() - i,
    {
        let updated_entity = changes[i];
        proof {
            assert(changes@.take(i + 1).drop_last() == changes@.take(i as int));
            assert(changes@.take(i + 1).last() == updated_entity);
        }
        let roots = style_tree.get_style_roots_for(updated_entity, graph);
        select_for_roots(&mut state, &roots, graph, assets, registry);
        i += 1;
    }
    assert(changes@.take(changes.len() as int) == changes@);
    state.build(assets)
}

/// Prepares a frame: where the changes of the frame select anything, the
/// state is what they come to, else the state stays as it is.
pub fn prepare(
    state: &mut StyleSheetState,
    graph: &EntityGraph,
    assets: &StyleSheets,
    changes: &Vec<Entity>,
    registry: &ComponentFilterRegistry,
)
    ensures
        final(state)@ == if prepared(graph@, registry@, assets@, changes@).len() > 0 {
            prepared(graph@, registry@, assets@, changes@)
        } else {
            old(state)@
        },
{
    let found = prepare_state(graph, assets, changes, registry);
    if !found.is_empty() {
        *state = found;
    }
}

/// Clears the state at the end of a frame.
pub fn clear_state(sheet_rule: &mut StyleSheetState)
    ensures
        final(sheet_rule)@ == Seq::<EntityStyleModel>::empty(),
{
    if sheet_rule.len() > 0 {
        sheet_rule.clear();
    }
    assert(sheet_rule@ =~= Seq::<EntityStyleModel>::empty());
}

/// The entities whose style sheet has to be applied anew after the style
/// sheets of `modified` have changed: those with one of these sheets attached,
/// in the order of the host's list.
pub open spec fn to_refresh(graph: Seq<NodeModel>, modified: Seq<SheetHandle>) -> Seq<Entity> {
    graph.filter(|node: NodeModel| node.sheet is Some && modified.contains(node.sheet->0)).map_values(
        |node: NodeModel| node.entity,
    )
}

/// Finds the entities whose style sheet has to be applied anew after style
/// sheets have changed.
pub fn hot_reload_style_sheets(graph: &EntityGraph, modified: &Vec<SheetHandle>) -> (found:
    EntityList)
    ensures
        found@ == to_refresh(graph@, modified@),
{
    let ghost pred = |node: NodeModel| node.sheet is Some && modified@.contains(node.sheet->0);
    let ghost models = graph@;
    let mut found = EntityList::new();
    let mut i: usize = 0;
    proof {
        lemma_filter_none(models.take(0), pred);
        assert(models.take(0).filter(pred).map_values(|node: NodeModel| node.entity)
            =~= Seq::<Entity>::empty());
    }
    while i < graph.nodes.len()
        invariant
            i <= graph.nodes.len(),
            models == graph@,
            pred == |node: NodeModel| node.sheet is Some && modified@.contains(node.sheet->0),
            found@ == models.take(i as int).filter(pred).map_values(
                |node: NodeModel| node.entity,
            ),
        decreases graph.nodes.len() - i,
    {
        let node = &graph.nodes[i];
        proof {
            let next = models.take(i + 1);
            assert(next.drop_last() == models.take(i as int));
            assert(next.last() == node@);
            lemma_filter_last(next, pred);
        }
        let ghost before = models.take(i as int).filter(pred);
        let changed = match node.sheet {
            Some(handle) => contains_handle(modified, handle),
            None => false,
        };
        if changed {
            found.push(node.entity);
            assert(before.push(node@).map_values(|node: NodeModel| node.entity) =~= before.map_values(
                |node: NodeModel| node.entity,
            ).push(node.entity));
        }
        i += 1;
    }
    assert(models.take(graph.nodes.len() as int) == models);
    found
}

fn contains_handle(handles: &Vec<SheetHandle>, handle: SheetHandle) -> (found: bool)
    ensures
        found == handles@.contains(handle),
{
    let mut i: usize = 0;
    while i < handles.len()
        invariant
            i <= handles.len(),
            forall|k: int| 0 <= k < i ==> handles@[k] != handle,
        decreases handles.len() - i,
    {
        if handles[i] == handle {
            return true;
        }
        i += 1;
    }
    false
}

} // verus!
