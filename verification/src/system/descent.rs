//! What is below an entity, and that the walks down the graph find exactly
//! that.

use vstd::prelude::*;

use super::entity_list::Entity;
use super::graph::{
    below_all, children_of, descendants, each_once, lemma_below_all, lemma_descendants,
    lemma_place_of, node_of, place_of, scope_of, NodeModel,
};

verus! {

/// Whether a way of so many steps leads down from one entity to another, each
/// step from an entity to one of its children.
pub open spec fn leads_down(graph: Seq<NodeModel>, from: Entity, to: Entity, steps: nat) -> bool
    decreases steps,
{
    if steps == 0 {
        from == to
    } else {
        exists|via: Entity| #[trigger]
            children_of(graph, from).contains(via) && leads_down(
                graph,
                via,
                to,
                (steps - 1) as nat,
            )
    }
}

/// Whether an entity is below another: a child of it, or below one of its
/// children.
pub open spec fn is_below(graph: Seq<NodeModel>, top: Entity, entity: Entity) -> bool {
    exists|steps: nat| steps > 0 && #[trigger] leads_down(graph, top, entity, steps)
}

/// Whether an entity is one of a list or below one of them.
pub open spec fn reached_from(graph: Seq<NodeModel>, tops: Seq<Entity>, entity: Entity) -> bool {
    exists|k: int, steps: nat|
        0 <= k < tops.len() && #[trigger] leads_down(graph, tops[k], entity, steps)
}

/// Whether an entity is below one of a list.
pub open spec fn is_below_one(graph: Seq<NodeModel>, tops: Seq<Entity>, entity: Entity) -> bool {
    exists|k: int| 0 <= k < tops.len() && is_below(graph, #[trigger] tops[k], entity)
}

/// Whether a list holds the children of each entity that it holds and that
/// `but` does not hold.
pub open spec fn holds_children(graph: Seq<NodeModel>, list: Seq<Entity>, but: Seq<Entity>) -> bool {
    forall|parent: Entity, child: Entity|
        list.contains(parent) && !but.contains(parent) && #[trigger] children_of(
            graph,
            parent,
        ).contains(child) ==> list.contains(child)
}

/// What a list holds at its start, it holds.
pub proof fn lemma_start_is_held(whole: Seq<Entity>, start: Seq<Entity>, entity: Entity)
    requires
        start.len() <= whole.len(),
        whole.take(start.len() as int) == start,
        start.contains(entity),
    ensures
        whole.contains(entity),
{
    let k = choose|k: int| 0 <= k < start.len() && start[k] == entity;
    assert(whole.take(start.len() as int)[k] == whole[k]);
}

/// A list with one more entity holds that entity and what it held.
pub proof fn lemma_push_holds(list: Seq<Entity>, last: Entity, entity: Entity)
    ensures
        list.push(last).contains(entity) <==> list.contains(entity) || entity == last,
{
    let longer = list.push(last);
    if longer.contains(entity) {
        let k = choose|k: int| 0 <= k < longer.len() && longer[k] == entity;
        if k < list.len() {
            assert(list[k] == entity);
        }
    }
    if list.contains(entity) {
        let k = choose|k: int| 0 <= k < list.len() && list[k] == entity;
        assert(longer[k] == entity);
    }
    if entity == last {
        assert(longer[list.len() as int] == entity);
    }
}

/// A step down to a child, and from there a way down, make a way of one more
/// step.
pub proof fn lemma_step_down(
    graph: Seq<NodeModel>,
    from: Entity,
    child: Entity,
    to: Entity,
    steps: nat,
)
    requires
        children_of(graph, from).contains(child),
        leads_down(graph, child, to, steps),
    ensures
        leads_down(graph, from, to, steps + 1),
        is_below(graph, from, to),
{
    assert(leads_down(graph, child, to, ((steps + 1) - 1) as nat));
}

/// No more different entities are in the host's list than the list is long.
pub proof fn lemma_entities_fit(graph: Seq<NodeModel>, entities: Seq<Entity>)
    requires
        each_once(entities),
        forall|i: int| 0 <= i < entities.len() ==> node_of(graph, #[trigger] entities[i]) is Some,
    ensures
        entities.len() <= graph.len(),
{
    let places = Seq::new(entities.len(), |i: int| place_of(graph, entities[i]));
    assert forall|i: int, j: int|
        0 <= i < places.len() && 0 <= j < places.len() && i != j implies places[i]
        != places[j] by {
        lemma_place_of(graph, entities[i]);
        lemma_place_of(graph, entities[j]);
        assert(node_of(graph, entities[i]) is Some);
        assert(node_of(graph, entities[j]) is Some);
        if i < j {
            assert(entities[i] != entities[j]);
        } else {
            assert(entities[j] != entities[i]);
        }
    }
    places.unique_seq_to_set();
    let range = vstd::set_lib::set_int_range(0, graph.len() as int);
    vstd::set_lib::lemma_int_range(0, graph.len() as int);
    assert forall|p: int| places.to_set().contains(p) implies range.contains(p) by {
        let i = choose|i: int| 0 <= i < places.len() && places[i] == p;
        lemma_place_of(graph, entities[i]);
        assert(node_of(graph, entities[i]) is Some);
    }
    vstd::set_lib::lemma_len_subset(places.to_set(), range);
}

/// What the way down has found and did not hold before is one of the
/// children or below one of them.
pub proof fn lemma_descendants_are_below(
    graph: Seq<NodeModel>,
    children: Seq<Entity>,
    depth: nat,
    found: Seq<Entity>,
    entity: Entity,
)
    requires
        descendants(graph, children, depth, found).contains(entity),
        !found.contains(entity),
    ensures
        reached_from(graph, children, entity),
    decreases depth, children.len(),
{
    if children.len() > 0 {
        let child = children.first();
        let rest = children.drop_first();
        let pushed = found.push(child);
        let with_child = if found.contains(child) {
            found
        } else if depth == 0 {
            pushed
        } else {
            descendants(graph, children_of(graph, child), (depth - 1) as nat, pushed)
        };
        if with_child.contains(entity) {
            lemma_push_holds(found, child, entity);
            if entity == child {
                assert(leads_down(graph, children[0], entity, 0));
            } else {
                let below = children_of(graph, child);
                lemma_descendants_are_below(graph, below, (depth - 1) as nat, pushed, entity);
                let (k, steps) = choose|k: int, steps: nat|
                    0 <= k < below.len() && #[trigger] leads_down(graph, below[k], entity, steps);
                assert(below.contains(below[k]));
                lemma_step_down(graph, child, below[k], entity, steps);
                assert(leads_down(graph, children[0], entity, steps + 1));
            }
        } else {
            lemma_descendants_are_below(graph, rest, depth, with_child, entity);
            let (k, steps) = choose|k: int, steps: nat|
                0 <= k < rest.len() && #[trigger] leads_down(graph, rest[k], entity, steps);
            assert(leads_down(graph, children[k + 1], entity, steps));
        }
    }
}

/// The way down takes the children of every entity that it takes. The
/// entities of `stack` are those whose children the way is at: with them, the
/// depth that is left reaches as far as the host's list is long, so that the way
/// ends at no entity that has children.
pub proof fn lemma_descendants_hold_children(
    graph: Seq<NodeModel>,
    children: Seq<Entity>,
    depth: nat,
    found: Seq<Entity>,
    stack: Seq<Entity>,
)
    requires
        each_once(stack),
        forall|i: int| 0 <= i < stack.len() ==> found.contains(#[trigger] stack[i]),
        children.len() > 0 ==> forall|i: int|
            0 <= i < stack.len() ==> node_of(graph, #[trigger] stack[i]) is Some,
        stack.len() + depth >= graph.len(),
    ensures
        holds_children(graph, descendants(graph, children, depth, found), found),
    decreases depth, children.len(),
{
    if children.len() > 0 {
        let child = children.first();
        let rest = children.drop_first();
        let pushed = found.push(child);
        let with_child = if found.contains(child) {
            found
        } else if depth == 0 {
            pushed
        } else {
            descendants(graph, children_of(graph, child), (depth - 1) as nat, pushed)
        };
        let result = descendants(graph, rest, depth, with_child);
        if !found.contains(child) {
            let longer = stack.push(child);
            assert forall|i: int, j: int| 0 <= i < j < longer.len() implies longer[i]
                != longer[j] by {
                if j == stack.len() {
                    assert(found.contains(stack[i]));
                }
            }
            if depth == 0 {
                if node_of(graph, child) is Some {
                    assert forall|i: int| 0 <= i < longer.len() implies node_of(
                        graph,
                        #[trigger] longer[i],
                    ) is Some by {
                        if i < stack.len() {
                            assert(longer[i] == stack[i]);
                        }
                    }
                    lemma_entities_fit(graph, longer);
                }
                assert(children_of(graph, child) =~= Seq::<Entity>::empty());
                assert forall|parent: Entity, kid: Entity|
                    with_child.contains(parent) && !found.contains(parent) && #[trigger] children_of(
                        graph,
                        parent,
                    ).contains(kid) implies with_child.contains(kid) by {
                    lemma_push_holds(found, child, parent);
                }
            } else {
                let below = children_of(graph, child);
                lemma_descendants(graph, below, (depth - 1) as nat, pushed);
                assert forall|i: int| 0 <= i < longer.len() implies pushed.contains(
                    #[trigger] longer[i],
                ) by {
                    lemma_push_holds(found, child, longer[i]);
                    if i < stack.len() {
                        assert(found.contains(stack[i]));
                    }
                }
                if below.len() > 0 {
                    assert forall|i: int| 0 <= i < longer.len() implies node_of(
                        graph,
                        #[trigger] longer[i],
                    ) is Some by {
                        if i < stack.len() {
                            assert(longer[i] == stack[i]);
                        }
                    }
                }
                lemma_descendants_hold_children(graph, below, (depth - 1) as nat, pushed, longer);
                assert forall|parent: Entity, kid: Entity|
                    with_child.contains(parent) && !found.contains(parent) && #[trigger] children_of(
                        graph,
                        parent,
                    ).contains(kid) implies with_child.contains(kid) by {
                    lemma_push_holds(found, child, parent);
                    if parent == child {
                        let k = choose|k: int| 0 <= k < below.len() && below[k] == kid;
                        assert(with_child.contains(below[k]));
                    }
                }
            }
        }
        assert(holds_children(graph, with_child, found));
        lemma_descendants(graph, children, depth, found);
        lemma_descendants(graph, rest, depth, with_child);
        assert(found.len() <= with_child.len() && with_child.take(found.len() as int) == found) by {
            if !found.contains(child) {
                if depth == 0 {
                    assert(pushed.take(found.len() as int) =~= found);
                } else {
                    lemma_descendants(
                        graph,
                        children_of(graph, child),
                        (depth - 1) as nat,
                        pushed,
                    );
                    assert(with_child.take(found.len() as int) =~= with_child.take(
                        pushed.len() as int,
                    ).take(found.len() as int));
                    assert(pushed.take(found.len() as int) =~= found);
                }
            } else {
                assert(found.take(found.len() as int) =~= found);
            }
        }
        assert forall|i: int| 0 <= i < stack.len() implies with_child.contains(
            #[trigger] stack[i],
        ) by {
            lemma_start_is_held(with_child, found, stack[i]);
        }
        lemma_descendants_hold_children(graph, rest, depth, with_child, stack);
        assert forall|parent: Entity, kid: Entity|
            result.contains(parent) && !found.contains(parent) && #[trigger] children_of(
                graph,
                parent,
            ).contains(kid) implies result.contains(kid) by {
            if with_child.contains(parent) {
                assert(with_child.contains(kid));
                lemma_start_is_held(result, with_child, kid);
            }
        }
    }
}

/// A list that holds the children of every entity that it holds, holds all
/// that is below an entity that it holds.
pub proof fn lemma_all_below_is_held(
    graph: Seq<NodeModel>,
    list: Seq<Entity>,
    from: Entity,
    to: Entity,
    steps: nat,
)
    requires
        holds_children(graph, list, Seq::empty()),
        list.contains(from),
        leads_down(graph, from, to, steps),
    ensures
        list.contains(to),
    decreases steps,
{
    if steps > 0 {
        let via = choose|via: Entity| #[trigger]
            children_of(graph, from).contains(via) && leads_down(
                graph,
                via,
                to,
                (steps - 1) as nat,
            );
        assert(!Seq::<Entity>::empty().contains(from));
        lemma_all_below_is_held(graph, list, via, to, (steps - 1) as nat);
    }
}

/// What is found below the entities of a list and was not held before is
/// below one of them.
pub proof fn lemma_below_all_is_below(
    graph: Seq<NodeModel>,
    entities: Seq<Entity>,
    depth: nat,
    found: Seq<Entity>,
    entity: Entity,
)
    requires
        below_all(graph, entities, depth, found).contains(entity),
        !found.contains(entity),
    ensures
        is_below_one(graph, entities, entity),
    decreases entities.len(),
{
    if entities.len() > 0 {
        let top = entities.first();
        let first = descendants(graph, children_of(graph, top), depth, found);
        if first.contains(entity) {
            lemma_descendants_are_below(graph, children_of(graph, top), depth, found, entity);
            let below = children_of(graph, top);
            let (k, steps) = choose|k: int, steps: nat|
                0 <= k < below.len() && #[trigger] leads_down(graph, below[k], entity, steps);
            assert(below.contains(below[k]));
            lemma_step_down(graph, top, below[k], entity, steps);
            assert(is_below(graph, entities[0], entity));
        } else {
            lemma_below_all_is_below(graph, entities.drop_first(), depth, first, entity);
            let rest = entities.drop_first();
            let k = choose|k: int| 0 <= k < rest.len() && is_below(graph, #[trigger] rest[k], entity);
            assert(is_below(graph, entities[k + 1], entity));
        }
    }
}

/// What is found below the entities of a list holds the children of each of
/// them and of every entity that was found.
pub proof fn lemma_below_all_holds_children(
    graph: Seq<NodeModel>,
    entities: Seq<Entity>,
    found: Seq<Entity>,
)
    ensures
        holds_children(graph, below_all(graph, entities, graph.len(), found), found),
        forall|k: int, child: Entity|
            0 <= k < entities.len() && #[trigger] children_of(graph, entities[k]).contains(child)
                ==> below_all(graph, entities, graph.len(), found).contains(child),
    decreases entities.len(),
{
    if entities.len() > 0 {
        let top = entities.first();
        let rest = entities.drop_first();
        let below = children_of(graph, top);
        let first = descendants(graph, below, graph.len(), found);
        let result = below_all(graph, rest, graph.len(), first);
        lemma_descendants(graph, below, graph.len(), found);
        lemma_descendants_hold_children(graph, below, graph.len(), found, Seq::empty());
        lemma_below_all(graph, rest, graph.len(), first);
        lemma_below_all_holds_children(graph, rest, first);
        assert forall|parent: Entity, kid: Entity|
            result.contains(parent) && !found.contains(parent) && #[trigger] children_of(
                graph,
                parent,
            ).contains(kid) implies result.contains(kid) by {
            if first.contains(parent) {
                assert(first.contains(kid));
                lemma_start_is_held(result, first, kid);
            }
        }
        assert forall|k: int, child: Entity|
            0 <= k < entities.len() && #[trigger] children_of(graph, entities[k]).contains(
                child,
            ) implies result.contains(child) by {
            if k == 0 {
                let at = choose|at: int| 0 <= at < below.len() && below[at] == child;
                assert(first.contains(below[at]));
                lemma_start_is_held(result, first, child);
            } else {
                assert(rest[k - 1] == entities[k]);
            }
        }
    }
}

/// The entities found below the entities of a list are exactly those that
/// are below one of them.
pub proof fn lemma_below_all_finds_what_is_below(
    graph: Seq<NodeModel>,
    entities: Seq<Entity>,
    entity: Entity,
)
    ensures
        below_all(graph, entities, graph.len(), Seq::empty()).contains(entity) <==> is_below_one(
            graph,
            entities,
            entity,
        ),
{
    let none = Seq::<Entity>::empty();
    let result = below_all(graph, entities, graph.len(), none);
    if result.contains(entity) {
        lemma_below_all_is_below(graph, entities, graph.len(), none, entity);
    }
    if is_below_one(graph, entities, entity) {
        let k = choose|k: int| 0 <= k < entities.len() && is_below(graph, #[trigger] entities[k], entity);
        let steps = choose|steps: nat|
            steps > 0 && #[trigger] leads_down(graph, entities[k], entity, steps);
        let via = choose|via: Entity| #[trigger]
            children_of(graph, entities[k]).contains(via) && leads_down(
                graph,
                via,
                entity,
                (steps - 1) as nat,
            );
        lemma_below_all_holds_children(graph, entities, none);
        lemma_all_below_is_held(graph, result, via, entity, (steps - 1) as nat);
    }
}

/// The entities that a style sheet governs are exactly the entity that it
/// is attached to and those below it.
pub proof fn lemma_scope_is_root_and_below(graph: Seq<NodeModel>, root: Entity, entity: Entity)
    ensures
        scope_of(graph, root).contains(entity) <==> entity == root || is_below(graph, root, entity),
{
    let start = seq![root];
    let below = children_of(graph, root);
    let scope = scope_of(graph, root);
    lemma_descendants(graph, below, graph.len(), start);
    assert(start[0] == root);
    lemma_start_is_held(scope, start, root);
    if scope.contains(entity) && entity != root {
        lemma_descendants_are_below(graph, below, graph.len(), start, entity);
        let (k, steps) = choose|k: int, steps: nat|
            0 <= k < below.len() && #[trigger] leads_down(graph, below[k], entity, steps);
        assert(below.contains(below[k]));
        lemma_step_down(graph, root, below[k], entity, steps);
    }
    if is_below(graph, root, entity) {
        let steps = choose|steps: nat| steps > 0 && #[trigger] leads_down(graph, root, entity, steps);
        lemma_descendants_hold_children(graph, below, graph.len(), start, Seq::empty());
        assert forall|parent: Entity, kid: Entity|
            scope.contains(parent) && #[trigger] children_of(graph, parent).contains(
                kid,
            ) implies scope.contains(kid) by {
            if start.contains(parent) {
                let at = choose|at: int| 0 <= at < below.len() && below[at] == kid;
                assert(scope.contains(below[at]));
            }
        }
        lemma_all_below_is_held(graph, scope, root, entity, steps);
    }
}

} // verus!
