//! The entities of the host as the library sees them: a snapshot of plain
//! values that the host takes before it asks for styles.

use vstd::prelude::*;

use super::entity_list::{Entity, EntityList};
use crate::component::Class;

verus! {

/// A style sheet of the host, by the bits of its id.
pub type SheetHandle = u64;

/// What the pointer does to a node.
#[derive(Clone, Copy, Debug, PartialEq, Eq, Structural)]
pub enum Interaction {
    /// The node is pressed.
    Pressed,
    /// The pointer is over the node.
    Hovered,
    /// Nothing happens to the node.
    Idle,
}

/// An entity and what the library reads of it.
#[derive(Clone, Debug)]
pub struct UiNode {
    /// The entity.
    pub entity: Entity,
    /// Whether the entity is a node of the UI. Only such a node hands its
    /// style down to its children, and only through such a node the way leads
    /// up to the ancestors.
    pub ui: bool,
    /// The parent of the entity, if it has one.
    pub parent: Option<Entity>,
    /// The children of the entity, in order.
    pub children: Vec<Entity>,
    /// The style sheet attached to the entity, if one is.
    pub sheet: Option<SheetHandle>,
    /// The name of the entity, if it has one.
    pub name: Option<String>,
    /// The class names of the entity, if it has any.
    pub class: Option<Class>,
    /// The registered component selectors whose component the entity carries.
    pub components: Vec<String>,
    /// What the pointer does to the entity, where the host has that to say.
    pub interaction: Option<Interaction>,
}

/// What a [`UiNode`] holds.
pub struct NodeModel {
    pub entity: Entity,
    pub ui: bool,
    pub parent: Option<Entity>,
    pub children: Seq<Entity>,
    pub sheet: Option<SheetHandle>,
    pub name: Option<Seq<char>>,
    pub class: Option<Seq<char>>,
    pub components: Seq<Seq<char>>,
    pub interaction: Option<Interaction>,
}

impl View for UiNode {
    type V = NodeModel;

    open spec fn view(&self) -> NodeModel {
        NodeModel {
            entity: self.entity,
            ui: self.ui,
            parent: self.parent,
            children: self.children@,
            sheet: self.sheet,
            name: match self.name {
                Some(n) => Some(n@),
                None => None,
            },
            class: match self.class {
                Some(c) => Some(c@),
                None => None,
            },
            components: self.components@.map_values(|s: String| s@),
            interaction: self.interaction,
        }
    }
}

/// The entities of the host, in the order in which the host lists them. The
/// library takes the list as it comes: it does not ask that an entity stands in
/// it only once, that parents and children agree, or that no entity is its own
/// ancestor.
#[derive(Clone, Debug, Default)]
pub struct EntityGraph {
    pub nodes: Vec<UiNode>,
}

impl View for EntityGraph {
    type V = Seq<NodeModel>;

    open spec fn view(&self) -> Seq<NodeModel> {
        self.nodes@.map_values(|n: UiNode| n@)
    }
}

/// The place of an entity in the list, or the length of the list where the
/// entity is not in it.
pub open spec fn place_of(graph: Seq<NodeModel>, entity: Entity) -> int
    decreases graph.len(),
{
    if graph.len() == 0 {
        0
    } else if graph.first().entity == entity {
        0
    } else {
        1 + place_of(graph.drop_first(), entity)
    }
}

/// The place that `place_of` gives lies in the list or at its end, and is
/// the first of the entity.
pub proof fn lemma_place_of(graph: Seq<NodeModel>, entity: Entity)
    ensures
        0 <= place_of(graph, entity) <= graph.len(),
        place_of(graph, entity) < graph.len() ==> graph[place_of(graph, entity)].entity == entity,
        forall|k: int| 0 <= k < place_of(graph, entity) ==> (#[trigger] graph[k]).entity != entity,
    decreases graph.len(),
{
    if graph.len() > 0 && graph.first().entity != entity {
        let rest = graph.drop_first();
        lemma_place_of(rest, entity);
        assert forall|k: int| 0 <= k < place_of(graph, entity) implies (
        #[trigger] graph[k]).entity != entity by {
            if k > 0 {
                assert(graph[k] == rest[k - 1]);
            }
        }
    }
}

/// What the list says of an entity, if the entity is in it.
pub open spec fn node_of(graph: Seq<NodeModel>, entity: Entity) -> Option<NodeModel> {
    let at = place_of(graph, entity);
    if 0 <= at < graph.len() {
        Some(graph[at])
    } else {
        None
    }
}

/// The children through which the style of an entity goes down: those of a
/// node of the UI, and none for any other entity.
pub open spec fn children_of(graph: Seq<NodeModel>, entity: Entity) -> Seq<Entity> {
    match node_of(graph, entity) {
        Some(node) => if node.ui {
            node.children
        } else {
            Seq::empty()
        },
        None => Seq::empty(),
    }
}

/// The parent through which the way leads up from an entity: that of a node
/// of the UI, and none for any other entity.
pub open spec fn parent_of(graph: Seq<NodeModel>, entity: Entity) -> Option<Entity> {
    match node_of(graph, entity) {
        Some(node) => if node.ui {
            node.parent
        } else {
            None
        },
        None => None,
    }
}

/// A list of entities with the entities below a list of children behind it:
/// each child that the list does not hold yet, followed by what is below it, down
/// to `depth` levels below the children. No entity is taken twice, so that a
/// child that is its own ancestor ends the way down.
pub open spec fn descendants(
    graph: Seq<NodeModel>,
    children: Seq<Entity>,
    depth: nat,
    found: Seq<Entity>,
) -> Seq<Entity>
    decreases depth, children.len(),
{
    if children.len() == 0 {
        found
    } else {
        let child = children.first();
        let with_child = if found.contains(child) {
            found
        } else if depth == 0 {
            found.push(child)
        } else {
            descendants(graph, children_of(graph, child), (depth - 1) as nat, found.push(child))
        };
        descendants(graph, children.drop_first(), depth, with_child)
    }
}

/// A list of entities with the entities below the entities of another list
/// behind it, for each of them in turn.
pub open spec fn below_all(
    graph: Seq<NodeModel>,
    entities: Seq<Entity>,
    depth: nat,
    found: Seq<Entity>,
) -> Seq<Entity>
    decreases entities.len(),
{
    if entities.len() == 0 {
        found
    } else {
        below_all(
            graph,
            entities.drop_first(),
            depth,
            descendants(graph, children_of(graph, entities.first()), depth, found),
        )
    }
}

/// Whether no entity stands twice in a list.
pub open spec fn each_once(entities: Seq<Entity>) -> bool {
    forall|i: int, j: int| 0 <= i < j < entities.len() ==> entities[i] != entities[j]
}

/// The way down keeps what was found, takes every child, and takes no entity
/// twice.
pub proof fn lemma_descendants(
    graph: Seq<NodeModel>,
    children: Seq<Entity>,
    depth: nat,
    found: Seq<Entity>,
)
    ensures
        found.len() <= descendants(graph, children, depth, found).len(),
        descendants(graph, children, depth, found).take(found.len() as int) == found,
        forall|k: int|
            0 <= k < children.len() ==> descendants(graph, children, depth, found).contains(
                #[trigger] children[k],
            ),
        each_once(found) ==> each_once(descendants(graph, children, depth, found)),
    decreases depth, children.len(),
{
    assert(found.take(found.len() as int) =~= found);
    if children.len() > 0 {
        let child = children.first();
        let rest = children.drop_first();
        let pushed = found.push(child);
        let with_child = if found.contains(child) {
            found
        } else if depth == 0 {
            pushed
        } else {
            descendants(graph, children_of(graph, child), (depth - 1) as nat, pushed)
        };
        if !found.contains(child) {
            assert(pushed.take(found.len() as int) =~= found);
            assert(pushed[found.len() as int] == child);
            if each_once(found) {
                assert forall|i: int, j: int| 0 <= i < j < pushed.len() implies pushed[i]
                    != pushed[j] by {
                    if j == found.len() {
                        assert(found[i] == pushed[i]);
                        assert(found.contains(pushed[i]));
                    }
                }
            }
            if depth > 0 {
                lemma_descendants(graph, children_of(graph, child), (depth - 1) as nat, pushed);
                assert(with_child.take(found.len() as int) =~= with_child.take(
                    pushed.len() as int,
                ).take(found.len() as int));
                assert(with_child.take(pushed.len() as int)[found.len() as int] == child);
            }
        }
        assert(with_child.contains(child)) by {
            if found.contains(child) {
            } else {
                assert(with_child[found.len() as int] == child);
            }
        }
        lemma_descendants(graph, rest, depth, with_child);
        let result = descendants(graph, rest, depth, with_child);
        assert(result.take(found.len() as int) =~= result.take(with_child.len() as int).take(
            found.len() as int,
        ));
        let at = choose|at: int| 0 <= at < with_child.len() && with_child[at] == child;
        assert(result.take(with_child.len() as int)[at] == child);
        assert(result[at] == child);
        assert forall|k: int| 0 <= k < children.len() implies result.contains(
            #[trigger] children[k],
        ) by {
            if k > 0 {
                assert(rest[k - 1] == children[k]);
            }
        }
    }
}

/// The way down from a list of entities keeps what was found and takes no
/// entity twice.
pub proof fn lemma_below_all(
    graph: Seq<NodeModel>,
    entities: Seq<Entity>,
    depth: nat,
    found: Seq<Entity>,
)
    ensures
        found.len() <= below_all(graph, entities, depth, found).len(),
        below_all(graph, entities, depth, found).take(found.len() as int) == found,
        each_once(found) ==> each_once(below_all(graph, entities, depth, found)),
    decreases entities.len(),
{
    assert(found.take(found.len() as int) =~= found);
    if entities.len() > 0 {
        let first = descendants(graph, children_of(graph, entities.first()), depth, found);
        lemma_descendants(graph, children_of(graph, entities.first()), depth, found);
        lemma_below_all(graph, entities.drop_first(), depth, first);
        let result = below_all(graph, entities.drop_first(), depth, first);
        assert(result.take(found.len() as int) =~= result.take(first.len() as int).take(
            found.len() as int,
        ));
    }
}

/// The ancestors of an entity whose parent is `parent`, the highest first and
/// `parent` last. The way up ends at `root`, at an entity without a parent, and
/// after `depth` steps. A `root` that has a parent of its own stands twice at
/// the start of the list.
pub open spec fn ancestors(graph: Seq<NodeModel>, root: Entity, parent: Entity, depth: nat) -> Seq<
    Entity,
>
    decreases depth,
{
    let above = match parent_of(graph, parent) {
        Some(next) => if parent == root {
            seq![parent]
        } else if depth == 0 {
            Seq::empty()
        } else {
            ancestors(graph, root, next, (depth - 1) as nat)
        },
        None => Seq::empty(),
    };
    above.push(parent)
}

/// The entities that a style sheet attached to `root` governs, and among
/// which the first level of a selector is looked for: `root` itself and all
/// that is below it, each entity once.
pub open spec fn scope_of(graph: Seq<NodeModel>, root: Entity) -> Seq<Entity> {
    descendants(graph, children_of(graph, root), graph.len(), seq![root])
}

impl EntityGraph {
    /// The place of an entity in the list, or the length of the list where
    /// the entity is not in it.
    pub fn find(&self, entity: Entity) -> (at: usize)
        ensures
            at == place_of(self@, entity),
            at <= self.nodes.len(),
            at < self.nodes.len() ==> self.nodes@[at as int].entity == entity,
    {
        let ghost models = self@;
        let mut i: usize = 0;
        assert(models.skip(0) =~= models);
        while i < self.nodes.len()
            invariant
                i <= self.nodes.len(),
                models == self@,
                place_of(models, entity) == i + place_of(models.skip(i as int), entity),
            decreases self.nodes.len() - i,
        {
            proof {
                assert(models.skip(i as int).first() == self.nodes@[i as int]@);
                assert(models.skip(i as int).drop_first() == models.skip(i + 1));
            }
            if self.nodes[i].entity == entity {
                return i;
            }
            i += 1;
        }
        i
    }

    /// What the list says of an entity, if the entity is in it.
    pub fn node(&self, entity: Entity) -> (node: Option<&UiNode>)
        ensures
            match node {
                Some(n) => node_of(self@, entity) == Some(n@),
                None => node_of(self@, entity) is None,
            },
    {
        let at = self.find(entity);
        if at < self.nodes.len() {
            assert(self@[at as int] == self.nodes@[at as int]@);
            Some(&self.nodes[at])
        } else {
            None
        }
    }

    /// The children through which the style of an entity goes down.
    pub fn children(&self, entity: Entity) -> (children: Option<&Vec<Entity>>)
        ensures
            match children {
                Some(c) => c@ == children_of(self@, entity),
                None => children_of(self@, entity) == Seq::<Entity>::empty(),
            },
    {
        match self.node(entity) {
            Some(node) => {
                if node.ui {
                    Some(&node.children)
                } else {
                    None
                }
            },
            None => None,
        }
    }

    /// Starting with the given children, collects all the entities below,
    /// each child followed by what is below it, behind what `found` holds. An
    /// entity that `found` holds is not taken again.
    pub fn get_children_recursively(&self, children: &Vec<Entity>, depth: usize, found: &mut EntityList)
        ensures
            final(found)@ == descendants(self@, children@, depth as nat, old(found)@),
        decreases depth, children.len(),
    {
        let mut i: usize = 0;
        proof {
            assert(children@.skip(0) =~= children@);
        }
        while i < children.len()
            invariant
                i <= children.len(),
                descendants(self@, children@.skip(i as int), depth as nat, found@) == descendants(
                    self@,
                    children@,
                    depth as nat,
                    old(found)@,
                ),
            decreases children.len() - i,
        {
            let ghost rest = children@.skip(i as int);
            let child = children[i];
            proof {
                assert(rest.first() == child);
                assert(rest.drop_first() == children@.skip(i + 1));
            }
            let ghost before = found@;
            if !found.contains(child) {
                found.push(child);
                if depth > 0 {
                    match self.children(child) {
                        Some(below) => {
                            self.get_children_recursively(below, depth - 1, found);
                        },
                        None => {
                            assert(descendants(
                                self@,
                                Seq::<Entity>::empty(),
                                (depth - 1) as nat,
                                found@,
                            ) == found@);
                        },
                    }
                }
            }
            assert(descendants(self@, rest, depth as nat, before) == descendants(
                self@,
                children@.skip(i + 1),
                depth as nat,
                found@,
            ));
            i += 1;
        }
    }

    /// Collects all that is below the entities of a list, for each of them
    /// in turn, and no entity twice.
    pub fn get_children_of_all(&self, entities: &EntityList, depth: usize) -> (found: EntityList)
        ensures
            found@ == below_all(self@, entities@, depth as nat, Seq::empty()),
    {
        let mut found = EntityList::new();
        let n = entities.len();
        let mut i: usize = 0;
        proof {
            assert(entities@.skip(0) =~= entities@);
        }
        while i < n
            invariant
                i <= n,
                n == entities@.len(),
                below_all(self@, entities@.skip(i as int), depth as nat, found@) == below_all(
                    self@,
                    entities@,
                    depth as nat,
                    Seq::empty(),
                ),
            decreases n - i,
        {
            let ghost rest = entities@.skip(i as int);
            let entity = match entities.get(i) {
                Some(e) => e,
                None => 0,
            };
            proof {
                assert(rest.first() == entity);
                assert(rest.drop_first() == entities@.skip(i + 1));
            }
            let ghost before = found@;
            match self.children(entity) {
                Some(children) => {
                    self.get_children_recursively(children, depth, &mut found);
                },
                None => {
                    assert(descendants(self@, Seq::<Entity>::empty(), depth as nat, found@)
                        == found@);
                },
            }
            assert(below_all(self@, rest, depth as nat, before) == below_all(
                self@,
                entities@.skip(i + 1),
                depth as nat,
                found@,
            ));
            i += 1;
        }
        found
    }

    /// Starting with `parent`, collects the ancestors of an entity up to
    /// `root`, the highest first, behind what `found` holds.
    pub fn get_parents_recursively(
        &self,
        root: Entity,
        parent: Entity,
        depth: usize,
        found: &mut EntityList,
    )
        ensures
            final(found)@ == old(found)@ + ancestors(self@, root, parent, depth as nat),
        decreases depth,
    {
        let ghost before = found@;
        let next = match self.node(parent) {
            Some(node) => {
                if node.ui {
                    node.parent
                } else {
                    None
                }
            },
            None => None,
        };
        match next {
            Some(above) => {
                if parent == root {
                    found.push(parent);
                    assert(found@ =~= before + seq![parent]);
                } else if depth > 0 {
                    self.get_parents_recursively(root, above, depth - 1, found);
                } else {
                    assert(found@ =~= before + Seq::<Entity>::empty());
                }
            },
            None => {
                assert(found@ =~= before + Seq::<Entity>::empty());
            },
        }
        let ghost middle = found@;
        found.push(parent);
        proof {
            let above = match parent_of(self@, parent) {
                Some(next) => if parent == root {
                    seq![parent]
                } else if depth == 0 {
                    Seq::<Entity>::empty()
                } else {
                    ancestors(self@, root, next, (depth - 1) as nat)
                },
                None => Seq::<Entity>::empty(),
            };
            assert(middle == before + above);
            assert(found@ =~= before + above.push(parent));
        }
    }

    /// The entities among which the first level of a selector is looked
    /// for: `root`, to which the style sheet is attached, and all that is below
    /// it.
    pub fn build_entity_filter(&self, root: Entity) -> (filter: EntityList)
        ensures
            filter@ == scope_of(self@, root),
    {
        let mut found = EntityList::new();
        found.push(root);
        assert(found@ =~= seq![root]);
        match self.children(root) {
            Some(children) => {
                self.get_children_recursively(children, self.nodes.len(), &mut found);
            },
            None => {},
        }
        found
    }
}

} // verus!
