//! Which entities a selector selects.

use vstd::prelude::*;

use super::component_filter_registry::{contains_text, ComponentFilterRegistry};
use super::descent::{
    is_below, lemma_below_all_finds_what_is_below, lemma_scope_is_root_and_below,
};
use super::entity_list::{Entity, EntityList};
use super::graph::{below_all, scope_of, EntityGraph, Interaction, NodeModel, UiNode};
use crate::component::class::words;
use crate::selector::{
    level_model, level_models, split_levels, ElementModel, Selector, SelectorElement,
    SelectorModel,
};
use crate::seqs::{lemma_filter_last, lemma_filter_member, lemma_filter_none};
use crate::text::same_text;

verus! {

/// Whether an entity matches an element of a selector: a name element by its
/// name, a class element by one of its class names, a component element by a
/// component that it carries and that is registered under that name, and a state
/// element by what the pointer does to it, `hover` or `click`. A `Child` matches
/// nothing.
pub open spec fn matches_element(
    node: NodeModel,
    registry: Seq<Seq<char>>,
    element: ElementModel,
) -> bool {
    match element {
        ElementModel::Name(name) => node.name == Some(name),
        ElementModel::Class(class) => node.class is Some && words(node.class->0).contains(class),
        ElementModel::PseudoClass(state) => (state == "hover"@ && node.interaction == Some(
            Interaction::Hovered,
        )) || (state == "click"@ && node.interaction == Some(Interaction::Pressed)),
        ElementModel::Component(name) => registry.contains(name) && node.components.contains(name),
        ElementModel::Child => false,
    }
}

/// Whether a filter lets an entity through. No filter lets every entity
/// through.
pub open spec fn allowed(filter: Option<Seq<Entity>>, entity: Entity) -> bool {
    match filter {
        Some(entities) => entities.contains(entity),
        None => true,
    }
}

/// The entities that match an element and that the filter lets through, in
/// the order of the host's list.
pub open spec fn entities_with(
    graph: Seq<NodeModel>,
    registry: Seq<Seq<char>>,
    element: ElementModel,
    filter: Option<Seq<Entity>>,
) -> Seq<Entity> {
    graph.filter(
        |node: NodeModel| matches_element(node, registry, element) && allowed(filter, node.entity),
    ).map_values(|node: NodeModel| node.entity)
}

/// The entities that match all the elements of a level: those that match the
/// first element and that the filter lets through are the filter for the second
/// element, and so on. A level without an element leaves the filter as it is.
pub open spec fn level_filter(
    graph: Seq<NodeModel>,
    registry: Seq<Seq<char>>,
    level: Seq<ElementModel>,
    filter: Option<Seq<Entity>>,
) -> Option<Seq<Entity>>
    decreases level.len(),
{
    if level.len() == 0 {
        filter
    } else {
        Some(
            entities_with(
                graph,
                registry,
                level.last(),
                level_filter(graph, registry, level.drop_last(), filter),
            ),
        )
    }
}

/// The entities of a filter; none where there is no filter.
pub open spec fn entities_of(filter: Option<Seq<Entity>>) -> Seq<Entity> {
    match filter {
        Some(entities) => entities,
        None => Seq::empty(),
    }
}

/// The entities that the levels from `i` on select among those that the
/// filter lets through: the entities that match the last level, where every
/// level before it is matched by an entity that is above the match of the level
/// after it.
pub open spec fn selected_from(
    graph: Seq<NodeModel>,
    registry: Seq<Seq<char>>,
    levels: Seq<Seq<ElementModel>>,
    i: int,
    filter: Option<Seq<Entity>>,
) -> Seq<Entity>
    decreases levels.len() - i,
{
    if i < 0 || i >= levels.len() {
        Seq::empty()
    } else {
        let found = entities_of(level_filter(graph, registry, levels[i], filter));
        if i + 1 >= levels.len() {
            found
        } else {
            selected_from(
                graph,
                registry,
                levels,
                i + 1,
                Some(below_all(graph, found, graph.len(), Seq::empty())),
            )
        }
    }
}

/// The entities that a selector selects under the style sheet attached to
/// `root`: the first level is looked for among `root` and all that is below it,
/// each further level among all that is below the matches of the level before,
/// and the matches of the last level are selected.
pub open spec fn selected(
    graph: Seq<NodeModel>,
    registry: Seq<Seq<char>>,
    selector: SelectorModel,
    root: Entity,
) -> Seq<Entity> {
    selected_from(
        graph,
        registry,
        split_levels(selector.elements),
        0,
        Some(scope_of(graph, root)),
    )
}

/// An entity is among those with an element exactly when the filter lets it
/// through and the host lists it with what matches the element.
pub proof fn lemma_entities_with(
    graph: Seq<NodeModel>,
    registry: Seq<Seq<char>>,
    element: ElementModel,
    filter: Option<Seq<Entity>>,
    entity: Entity,
)
    ensures
        entities_with(graph, registry, element, filter).contains(entity) <==> allowed(filter, entity)
            && exists|k: int|
            0 <= k < graph.len() && (#[trigger] graph[k]).entity == entity && matches_element(
                graph[k],
                registry,
                element,
            ),
{
    let pred = |node: NodeModel|
        matches_element(node, registry, element) && allowed(filter, node.entity);
    let kept = graph.filter(pred);
    let found = entities_with(graph, registry, element, filter);
    if found.contains(entity) {
        let j = choose|j: int| 0 <= j < found.len() && found[j] == entity;
        let node = kept[j];
        assert(kept.contains(node));
        lemma_filter_member(graph, pred, node);
        let k = choose|k: int| 0 <= k < graph.len() && graph[k] == node;
        assert(graph[k].entity == entity && matches_element(graph[k], registry, element));
    }
    if allowed(filter, entity) && exists|k: int|
        0 <= k < graph.len() && (#[trigger] graph[k]).entity == entity && matches_element(
            graph[k],
            registry,
            element,
        ) {
        let k = choose|k: int|
            0 <= k < graph.len() && (#[trigger] graph[k]).entity == entity && matches_element(
                graph[k],
                registry,
                element,
            );
        let node = graph[k];
        assert(graph.contains(node));
        lemma_filter_member(graph, pred, node);
        let j = choose|j: int| 0 <= j < kept.len() && kept[j] == node;
        assert(found[j] == entity);
    }
}

/// Whether the host lists an entity, for every element of a level, with
/// what matches that element.
pub open spec fn matches_level(
    graph: Seq<NodeModel>,
    registry: Seq<Seq<char>>,
    level: Seq<ElementModel>,
    entity: Entity,
) -> bool {
    forall|j: int|
        0 <= j < level.len() ==> exists|k: int|
            0 <= k < graph.len() && (#[trigger] graph[k]).entity == entity && matches_element(
                graph[k],
                registry,
                #[trigger] level[j],
            )
}

/// An entity is among those of a level exactly when the filter lets it
/// through and it matches every element of the level. This holds of a level with
/// at least one element, and of any level where there is a filter.
pub proof fn lemma_level_filter(
    graph: Seq<NodeModel>,
    registry: Seq<Seq<char>>,
    level: Seq<ElementModel>,
    filter: Option<Seq<Entity>>,
    entity: Entity,
)
    requires
        level.len() > 0 || filter is Some,
    ensures
        entities_of(level_filter(graph, registry, level, filter)).contains(entity) <==> allowed(
            filter,
            entity,
        ) && matches_level(graph, registry, level, entity),
    decreases level.len(),
{
    if level.len() > 0 {
        let front = level.drop_last();
        let before = level_filter(graph, registry, front, filter);
        lemma_entities_with(graph, registry, level.last(), before, entity);
        if front.len() == 0 {
            assert(before == filter);
            if matches_level(graph, registry, level, entity) {
                assert(level[0] == level.last());
            }
            if entities_of(level_filter(graph, registry, level, filter)).contains(entity) {
                assert forall|j: int| 0 <= j < level.len() implies exists|k: int|
                    0 <= k < graph.len() && (#[trigger] graph[k]).entity == entity
                        && matches_element(graph[k], registry, #[trigger] level[j]) by {
                    assert(level[j] == level.last());
                }
            }
        } else {
            lemma_level_filter(graph, registry, front, filter, entity);
            assert(allowed(before, entity) == entities_of(before).contains(entity));
            if entities_of(level_filter(graph, registry, level, filter)).contains(entity) {
                assert forall|j: int| 0 <= j < level.len() implies exists|k: int|
                    0 <= k < graph.len() && (#[trigger] graph[k]).entity == entity
                        && matches_element(graph[k], registry, #[trigger] level[j]) by {
                    if j < front.len() {
                        assert(front[j] == level[j]);
                    } else {
                        assert(level[j] == level.last());
                    }
                }
            }
            if allowed(filter, entity) && matches_level(graph, registry, level, entity) {
                assert forall|j: int| 0 <= j < front.len() implies exists|k: int|
                    0 <= k < graph.len() && (#[trigger] graph[k]).entity == entity
                        && matches_element(graph[k], registry, #[trigger] front[j]) by {
                    assert(front[j] == level[j]);
                }
                assert(level[level.len() - 1] == level.last());
            }
        }
    }
}

/// Whether a list of entities is a chain for the levels from `i` on: one
/// entity for each of these levels, each matching every element of its level,
/// and each but the first below the one before it.
pub open spec fn is_chain(
    graph: Seq<NodeModel>,
    registry: Seq<Seq<char>>,
    levels: Seq<Seq<ElementModel>>,
    i: int,
    chain: Seq<Entity>,
) -> bool {
    &&& 0 <= i < levels.len()
    &&& chain.len() == levels.len() - i
    &&& forall|k: int|
        0 <= k < chain.len() ==> matches_level(graph, registry, levels[i + k], #[trigger] chain[k])
    &&& forall|k: int| 0 <= k < chain.len() - 1 ==> is_below(graph, #[trigger] chain[k], chain[k + 1])
}

/// Whether a chain for the levels from `i` on starts at an entity that the
/// filter lets through and ends at `entity`.
pub open spec fn leads_to(
    graph: Seq<NodeModel>,
    registry: Seq<Seq<char>>,
    levels: Seq<Seq<ElementModel>>,
    i: int,
    filter: Option<Seq<Entity>>,
    chain: Seq<Entity>,
    entity: Entity,
) -> bool {
    is_chain(graph, registry, levels, i, chain) && allowed(filter, chain[0]) && chain.last()
        == entity
}

/// A chain for the levels from `i + 1` on, with an entity before it that
/// matches the level `i` and has the first of the chain below it, is a chain for
/// the levels from `i` on.
pub proof fn lemma_chain_with_first(
    graph: Seq<NodeModel>,
    registry: Seq<Seq<char>>,
    levels: Seq<Seq<ElementModel>>,
    i: int,
    first: Entity,
    rest: Seq<Entity>,
)
    requires
        0 <= i,
        is_chain(graph, registry, levels, i + 1, rest),
        matches_level(graph, registry, levels[i], first),
        is_below(graph, first, rest[0]),
    ensures
        is_chain(graph, registry, levels, i, seq![first] + rest),
        (seq![first] + rest)[0] == first,
        (seq![first] + rest).last() == rest.last(),
{
    let chain = seq![first] + rest;
    assert forall|k: int| 0 <= k < chain.len() implies matches_level(
        graph,
        registry,
        levels[i + k],
        #[trigger] chain[k],
    ) by {
        if k > 0 {
            assert(chain[k] == rest[k - 1]);
            assert(levels[i + k] == levels[i + 1 + (k - 1)]);
        }
    }
    assert forall|k: int| 0 <= k < chain.len() - 1 implies is_below(
        graph,
        #[trigger] chain[k],
        chain[k + 1],
    ) by {
        assert(chain[k + 1] == rest[k]);
        if k > 0 {
            assert(chain[k] == rest[k - 1]);
        }
    }
}

/// A chain for the levels from `i` on, of which `i` is not the last, is
/// without its first entity a chain for the levels from `i + 1` on; its first
/// entity matches the level `i` and has the second below it.
pub proof fn lemma_chain_without_first(
    graph: Seq<NodeModel>,
    registry: Seq<Seq<char>>,
    levels: Seq<Seq<ElementModel>>,
    i: int,
    chain: Seq<Entity>,
)
    requires
        is_chain(graph, registry, levels, i, chain),
        i + 1 < levels.len(),
    ensures
        is_chain(graph, registry, levels, i + 1, chain.drop_first()),
        matches_level(graph, registry, levels[i], chain[0]),
        is_below(graph, chain[0], chain.drop_first()[0]),
        chain.drop_first().last() == chain.last(),
{
    let rest = chain.drop_first();
    assert(levels[i + 0] == levels[i]);
    assert(rest[0] == chain[1]);
    assert forall|k: int| 0 <= k < rest.len() implies matches_level(
        graph,
        registry,
        levels[i + 1 + k],
        #[trigger] rest[k],
    ) by {
        assert(rest[k] == chain[k + 1]);
        assert(levels[i + 1 + k] == levels[i + (k + 1)]);
    }
    assert forall|k: int| 0 <= k < rest.len() - 1 implies is_below(
        graph,
        #[trigger] rest[k],
        rest[k + 1],
    ) by {
        assert(rest[k] == chain[k + 1]);
        assert(rest[k + 1] == chain[k + 2]);
    }
}

/// The levels from `i` on select an entity exactly when a chain leads to it:
/// an entity that the filter lets through matches the first of these levels, an
/// entity below it the next, and so on down to the entity itself, which matches
/// the last level. This holds where the first of these levels has an element, or
/// where there is a filter.
pub proof fn lemma_selected_from(
    graph: Seq<NodeModel>,
    registry: Seq<Seq<char>>,
    levels: Seq<Seq<ElementModel>>,
    i: int,
    filter: Option<Seq<Entity>>,
    entity: Entity,
)
    requires
        filter is Some || (0 <= i < levels.len() ==> levels[i].len() > 0),
    ensures
        selected_from(graph, registry, levels, i, filter).contains(entity) <==> exists|
            chain: Seq<Entity>,
        | #[trigger] leads_to(graph, registry, levels, i, filter, chain, entity),
    decreases levels.len() - i,
{
    if 0 <= i < levels.len() {
        let found = entities_of(level_filter(graph, registry, levels[i], filter));
        if i + 1 >= levels.len() {
            lemma_level_filter(graph, registry, levels[i], filter, entity);
            if found.contains(entity) {
                let chain = seq![entity];
                assert(chain[0] == entity);
                assert(leads_to(graph, registry, levels, i, filter, chain, entity));
            }
        } else {
            let below = Some(below_all(graph, found, graph.len(), Seq::empty()));
            lemma_selected_from(graph, registry, levels, i + 1, below, entity);
            if selected_from(graph, registry, levels, i, filter).contains(entity) {
                let rest = choose|rest: Seq<Entity>| #[trigger]
                    leads_to(graph, registry, levels, i + 1, below, rest, entity);
                lemma_below_all_finds_what_is_below(graph, found, rest[0]);
                let at = choose|at: int|
                    0 <= at < found.len() && is_below(graph, #[trigger] found[at], rest[0]);
                let first = found[at];
                assert(found.contains(first));
                lemma_level_filter(graph, registry, levels[i], filter, first);
                lemma_chain_with_first(graph, registry, levels, i, first, rest);
                assert(leads_to(graph, registry, levels, i, filter, seq![first] + rest, entity));
            }
            if exists|chain: Seq<Entity>| #[trigger]
                leads_to(graph, registry, levels, i, filter, chain, entity) {
                let chain = choose|chain: Seq<Entity>| #[trigger]
                    leads_to(graph, registry, levels, i, filter, chain, entity);
                let rest = chain.drop_first();
                lemma_chain_without_first(graph, registry, levels, i, chain);
                lemma_level_filter(graph, registry, levels[i], filter, chain[0]);
                let at = choose|at: int| 0 <= at < found.len() && found[at] == chain[0];
                assert(is_below(graph, found[at], rest[0]));
                lemma_below_all_finds_what_is_below(graph, found, rest[0]);
                assert(leads_to(graph, registry, levels, i + 1, below, rest, entity));
            }
        }
    } else {
        assert forall|chain: Seq<Entity>|
            !#[trigger] leads_to(graph, registry, levels, i, filter, chain, entity) by {}
    }
}

/// A selector selects an entity under the style sheet attached to `root`
/// exactly when a chain leads to it from `root` or from an entity below `root`:
/// one entity for each level of the selector, each matching every element of its
/// level, each below the one before it, and the entity itself the last of them.
pub proof fn lemma_selected(
    graph: Seq<NodeModel>,
    registry: Seq<Seq<char>>,
    selector: SelectorModel,
    root: Entity,
    entity: Entity,
)
    ensures
        selected(graph, registry, selector, root).contains(entity) <==> exists|chain: Seq<Entity>|
            #[trigger] is_chain(graph, registry, split_levels(selector.elements), 0, chain) && (
            chain[0] == root || is_below(graph, root, chain[0])) && chain.last() == entity,
{
    let levels = split_levels(selector.elements);
    let scope = Some(scope_of(graph, root));
    lemma_selected_from(graph, registry, levels, 0, scope, entity);
    if selected(graph, registry, selector, root).contains(entity) {
        let chain = choose|chain: Seq<Entity>| #[trigger]
            leads_to(graph, registry, levels, 0, scope, chain, entity);
        lemma_scope_is_root_and_below(graph, root, chain[0]);
        assert(is_chain(graph, registry, levels, 0, chain));
    }
    if exists|chain: Seq<Entity>| #[trigger]
        is_chain(graph, registry, levels, 0, chain) && (chain[0] == root || is_below(
            graph,
            root,
            chain[0],
        )) && chain.last() == entity {
        let chain = choose|chain: Seq<Entity>| #[trigger]
            is_chain(graph, registry, levels, 0, chain) && (chain[0] == root || is_below(
                graph,
                root,
                chain[0],
            )) && chain.last() == entity;
        lemma_scope_is_root_and_below(graph, root, chain[0]);
        assert(leads_to(graph, registry, levels, 0, scope, chain, entity));
    }
}

impl UiNode {
    /// Whether the entity matches an element of a selector.
    pub fn matches(&self, registry: &ComponentFilterRegistry, element: &SelectorElement) -> (matched:
        bool)
        ensures
            matched == matches_element(self@, registry@, element@),
    {
        match element {
            SelectorElement::Name(name) => match &self.name {
                Some(n) => same_text(n.as_str(), name.as_str()),
                None => false,
            },
            SelectorElement::Class(class) => match &self.class {
                Some(c) => c.matches(class.as_str()),
                None => false,
            },
            SelectorElement::PseudoClass(state) => match self.interaction {
                Some(Interaction::Hovered) => same_text(state.as_str(), "hover"),
                Some(Interaction::Pressed) => same_text(state.as_str(), "click"),
                _ => false,
            },
            SelectorElement::Component(name) => registry.is_registered(name.as_str())
                && contains_text(&self.components, name.as_str()),
            SelectorElement::Child => false,
        }
    }
}

/// Whether a filter lets an entity through.
pub fn is_allowed(filter: &Option<EntityList>, entity: Entity) -> (through: bool)
    ensures
        through == allowed(filter_model(*filter), entity),
{
    match filter {
        Some(entities) => entities.contains(entity),
        None => true,
    }
}

/// A filter by the entities that it holds.
pub open spec fn filter_model(filter: Option<EntityList>) -> Option<Seq<Entity>> {
    match filter {
        Some(entities) => Some(entities@),
        None => None,
    }
}

/// Finds the entities that match an element of a selector and that the
/// filter lets through.
pub fn get_entities_with(
    element: &SelectorElement,
    graph: &EntityGraph,
    registry: &ComponentFilterRegistry,
    filter: &Option<EntityList>,
) -> (found: EntityList)
    ensures
        found@ == entities_with(graph@, registry@, element@, filter_model(*filter)),
{
    let ghost pred = |node: NodeModel|
        matches_element(node, registry@, element@) && allowed(filter_model(*filter), node.entity);
    let ghost models = graph@;
    let mut found = EntityList::new();
    let mut i: usize = 0;
    proof {
        lemma_filter_none(models.take(0), pred);
        assert(models.take(0).filter(pred).map_values(|node: NodeModel| node.entity)
            =~= Seq::<Entity>::empty());
    }
    while i < graph.nodes.len()
        invariant
            i <= graph.nodes.len(),
            models == graph@,
            pred == |node: NodeModel|
                matches_element(node, registry@, element@) && allowed(
                    filter_model(*filter),
                    node.entity,
                ),
            found@ == models.take(i as int).filter(pred).map_values(
                |node: NodeModel| node.entity,
            ),
        decreases graph.nodes.len() - i,
    {
        let node = &graph.nodes[i];
        proof {
            let next = models.take(i + 1);
            assert(next.drop_last() == models.take(i as int));
            assert(next.last() == node@);
            lemma_filter_last(next, pred);
        }
        let ghost before = models.take(i as int).filter(pred);
        if node.matches(registry, element) && is_allowed(filter, node.entity) {
            found.push(node.entity);
            assert(before.push(node@).map_values(|node: NodeModel| node.entity) =~= before.map_values(
                |node: NodeModel| node.entity,
            ).push(node.entity));
        }
        i += 1;
    }
    assert(models.take(graph.nodes.len() as int) == models);
    found
}

/// Finds the entities that match all the elements of a level of a selector.
/// This is called once for each level of the tree that `get_parent_tree` gives.
pub fn select_entities_node(
    node: &Vec<&SelectorElement>,
    graph: &EntityGraph,
    registry: &ComponentFilterRegistry,
    filter: Option<EntityList>,
) -> (found: EntityList)
    ensures
        found@ == entities_of(
            level_filter(graph@, registry@, level_model(*node), filter_model(filter)),
        ),
{
    let ghost level = level_model(*node);
    let ghost start = filter_model(filter);
    let mut current = filter;
    let mut i: usize = 0;
    while i < node.len()
        invariant
            i <= node.len(),
            level == level_model(*node),
            filter_model(current) == level_filter(graph@, registry@, level.take(i as int), start),
        decreases node.len() - i,
    {
        proof {
            assert(level.take(i + 1).drop_last() == level.take(i as int));
            assert(level.take(i + 1).last() == node@[i as int]@);
        }
        let found = get_entities_with(node[i], graph, registry, &current);
        current = Some(found);
        i += 1;
    }
    assert(level.take(node.len() as int) == level);
    match current {
        Some(found) => found,
        None => EntityList::new(),
    }
}

/// Selects all the entities that the given selector matches under the style
/// sheet attached to `root_node`. The selector is applied to `root_node` and to
/// all that is below it, whichever of them has changed: the scope of a style
/// sheet is always the whole of what is below its entity, and no setting limits
/// it to the entity alone.
pub fn select_entities(
    root_node: Entity,
    selector: &Selector,
    graph: &EntityGraph,
    registry: &ComponentFilterRegistry,
) -> (found: EntityList)
    ensures
        found@ == selected(graph@, registry@, selector@, root_node),
{
    let parent_tree = selector.get_parent_tree();
    let ghost levels = level_models(parent_tree@);
    let ghost scope = Some(scope_of(graph@, root_node));
    if parent_tree.len() == 0 {
        return EntityList::new();
    }
    let mut filter = Some(graph.build_entity_filter(root_node));
    let depth = graph.nodes.len();
    let mut i: usize = 0;
    let mut found = EntityList::new();
    while i < parent_tree.len()
        invariant
            i <= parent_tree.len(),
            parent_tree.len() > 0,
            depth == graph@.len(),
            levels == level_models(parent_tree@),
            scope == Some(scope_of(graph@, root_node)),
            i < parent_tree.len() ==> selected_from(
                graph@,
                registry@,
                levels,
                i as int,
                filter_model(filter),
            ) == selected_from(graph@, registry@, levels, 0, scope),
            i == parent_tree.len() ==> found@ == selected_from(
                graph@,
                registry@,
                levels,
                0,
                scope,
            ),
        decreases parent_tree.len() - i,
    {
        assert(levels[i as int] == level_model(parent_tree@[i as int]));
        let entities = select_entities_node(&parent_tree[i], graph, registry, filter);
        if i + 1 >= parent_tree.len() {
            found = entities;
            filter = None;
        } else {
            filter = Some(graph.get_children_of_all(&entities, depth));
        }
        i += 1;
    }
    found
}

} // verus!
