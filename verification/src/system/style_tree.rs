//! Which style sheets apply to an entity.

use vstd::prelude::*;

use super::entity_list::Entity;
use super::graph::{node_of, EntityGraph, NodeModel, SheetHandle};

verus! {

/// What is remembered of a style sheet that was met on the way up from an
/// entity: the entity it is attached to, and the style sheet that is the next
/// one up from there.
#[derive(Clone, Copy, Debug, PartialEq, Eq, Structural)]
pub struct StyleTreeNode {
    pub entity: Entity,
    pub sheet_handle: SheetHandle,
    pub parent: Option<SheetHandle>,
}

/// The place in a list of what is remembered of a style sheet, or the length
/// of the list where nothing is.
pub open spec fn memo_place(memo: Seq<StyleTreeNode>, handle: SheetHandle) -> int
    decreases memo.len(),
{
    if memo.len() == 0 {
        0
    } else if memo.first().sheet_handle == handle {
        0
    } else {
        1 + memo_place(memo.drop_first(), handle)
    }
}

/// The place that `memo_place` gives lies in the list or at its end, and is
/// the first of the style sheet.
pub proof fn lemma_memo_place(memo: Seq<StyleTreeNode>, handle: SheetHandle)
    ensures
        0 <= memo_place(memo, handle) <= memo.len(),
        memo_place(memo, handle) < memo.len() ==> memo[memo_place(memo, handle)].sheet_handle
            == handle,
        forall|k: int|
            0 <= k < memo_place(memo, handle) ==> (#[trigger] memo[k]).sheet_handle != handle,
    decreases memo.len(),
{
    if memo.len() > 0 && memo.first().sheet_handle != handle {
        let rest = memo.drop_first();
        lemma_memo_place(rest, handle);
        assert forall|k: int| 0 <= k < memo_place(memo, handle) implies (
        #[trigger] memo[k]).sheet_handle != handle by {
            if k > 0 {
                assert(memo[k] == rest[k - 1]);
            }
        }
    }
}

/// What is remembered of a style sheet, if anything is.
pub open spec fn remembered(memo: Seq<StyleTreeNode>, handle: SheetHandle) -> Option<
    StyleTreeNode,
> {
    let at = memo_place(memo, handle);
    if 0 <= at < memo.len() {
        Some(memo[at])
    } else {
        None
    }
}

/// The style sheet of what was found, if anything was.
pub open spec fn handle_of(found: Option<StyleTreeNode>) -> Option<SheetHandle> {
    match found {
        Some(node) => Some(node.sheet_handle),
        None => None,
    }
}

/// What the way up from an entity finds, and what is remembered after it.
///
/// The way leads from parent to parent to the first entity with a style
/// sheet. Where that sheet is remembered, what is remembered is the answer.
/// Where it is not, the way goes on from the parent of that entity to find the
/// next style sheet up, and the sheet is remembered with it; should the sheet
/// have been met again further up, what was remembered there is the answer. The
/// way ends without an answer at an entity that the host does not list, at one
/// with neither style sheet nor parent, and after `depth` steps.
pub open spec fn found_root(
    graph: Seq<NodeModel>,
    memo: Seq<StyleTreeNode>,
    entity: Entity,
    depth: nat,
) -> (Seq<StyleTreeNode>, Option<StyleTreeNode>)
    decreases depth,
{
    match node_of(graph, entity) {
        None => (memo, None),
        Some(node) => {
            let known = match node.sheet {
                Some(handle) => remembered(memo, handle),
                None => None,
            };
            if known is Some {
                (memo, known)
            } else {
                let above = match node.parent {
                    Some(parent) => if depth == 0 {
                        (memo, None)
                    } else {
                        found_root(graph, memo, parent, (depth - 1) as nat)
                    },
                    None => (memo, None),
                };
                match node.sheet {
                    Some(handle) => match remembered(above.0, handle) {
                        Some(met) => (above.0, Some(met)),
                        None => {
                            let made = StyleTreeNode {
                                entity: node.entity,
                                sheet_handle: handle,
                                parent: handle_of(above.1),
                            };
                            (above.0.push(made), Some(made))
                        },
                    },
                    None => above,
                }
            }
        },
    }
}

/// The style sheets from the outermost down to `handle`, each with the entity
/// it is attached to, as far as they are remembered and for at most `depth`
/// steps up.
pub open spec fn resolved(memo: Seq<StyleTreeNode>, handle: SheetHandle, depth: nat) -> Seq<
    (Entity, SheetHandle),
>
    decreases depth,
{
    match remembered(memo, handle) {
        Some(node) => {
            let above = match node.parent {
                Some(parent) => if depth == 0 {
                    Seq::empty()
                } else {
                    resolved(memo, parent, (depth - 1) as nat)
                },
                None => Seq::empty(),
            };
            above.push((node.entity, node.sheet_handle))
        },
        None => Seq::empty(),
    }
}

/// The style sheets that apply to an entity, the outermost first, each with
/// the entity it is attached to; and what is remembered afterwards.
pub open spec fn style_roots(graph: Seq<NodeModel>, memo: Seq<StyleTreeNode>, entity: Entity) -> (
    Seq<StyleTreeNode>,
    Seq<(Entity, SheetHandle)>,
) {
    let found = found_root(graph, memo, entity, graph.len());
    match found.1 {
        Some(node) => (found.0, resolved(found.0, node.sheet_handle, found.0.len())),
        None => (found.0, Seq::empty()),
    }
}

/// Whether every style sheet is remembered once, and the next one up of each
/// was remembered before it.
pub open spec fn memo_ordered(memo: Seq<StyleTreeNode>) -> bool {
    &&& forall|i: int, j: int|
        0 <= i < j < memo.len() ==> (#[trigger] memo[i]).sheet_handle != (
        #[trigger] memo[j]).sheet_handle
    &&& forall|i: int|
        0 <= i < memo.len() && (#[trigger] memo[i]).parent is Some ==> memo_place(
            memo,
            memo[i].parent->0,
        ) < i
}

/// A place in a list stays the place in the list with one more at its end.
pub proof fn lemma_memo_place_push(memo: Seq<StyleTreeNode>, made: StyleTreeNode, handle: SheetHandle)
    ensures
        memo_place(memo, handle) < memo.len() ==> memo_place(memo.push(made), handle)
            == memo_place(memo, handle),
        memo_place(memo, handle) >= memo.len() && made.sheet_handle == handle ==> memo_place(
            memo.push(made),
            handle,
        ) == memo.len(),
    decreases memo.len(),
{
    lemma_memo_place(memo, handle);
    if memo.len() == 0 {
        assert(memo.push(made).first() == made);
        assert(memo.push(made).drop_first() =~= Seq::<StyleTreeNode>::empty());
    } else {
        assert(memo.push(made).first() == memo.first());
        assert(memo.push(made).drop_first() =~= memo.drop_first().push(made));
        if memo.first().sheet_handle != handle {
            lemma_memo_place_push(memo.drop_first(), made, handle);
        }
    }
}

/// The way up keeps what is remembered in order: no style sheet is
/// remembered twice, and none is its own ancestor. What was remembered before
/// stays, and what is found is remembered.
pub proof fn lemma_found_root_ordered(
    graph: Seq<NodeModel>,
    memo: Seq<StyleTreeNode>,
    entity: Entity,
    depth: nat,
)
    requires
        memo_ordered(memo),
    ensures
        memo_ordered(found_root(graph, memo, entity, depth).0),
        memo.len() <= found_root(graph, memo, entity, depth).0.len(),
        found_root(graph, memo, entity, depth).0.take(memo.len() as int) == memo,
        match found_root(graph, memo, entity, depth).1 {
            Some(node) => remembered(found_root(graph, memo, entity, depth).0, node.sheet_handle)
                == Some(node),
            None => true,
        },
    decreases depth,
{
    let result = found_root(graph, memo, entity, depth);
    assert(memo.take(memo.len() as int) =~= memo);
    match node_of(graph, entity) {
        None => {},
        Some(node) => {
            let known = match node.sheet {
                Some(handle) => remembered(memo, handle),
                None => None,
            };
            if known is Some {
                lemma_memo_place(memo, node.sheet->0);
            } else {
                let above = match node.parent {
                    Some(parent) => if depth == 0 {
                        (memo, None)
                    } else {
                        found_root(graph, memo, parent, (depth - 1) as nat)
                    },
                    None => (memo, None),
                };
                if node.parent is Some && depth > 0 {
                    lemma_found_root_ordered(graph, memo, node.parent->0, (depth - 1) as nat);
                }
                match node.sheet {
                    Some(handle) => {
                        lemma_memo_place(above.0, handle);
                        match remembered(above.0, handle) {
                            Some(met) => {},
                            None => {
                                let made = StyleTreeNode {
                                    entity: node.entity,
                                    sheet_handle: handle,
                                    parent: handle_of(above.1),
                                };
                                let after = above.0.push(made);
                                assert(after.take(memo.len() as int) =~= above.0.take(
                                    memo.len() as int,
                                ));
                                lemma_memo_place_push(above.0, made, handle);
                                assert forall|i: int, j: int| 0 <= i < j < after.len() implies (
                                #[trigger] after[i]).sheet_handle != (
                                #[trigger] after[j]).sheet_handle by {
                                    if j == after.len() - 1 {
                                        assert(after[i] == above.0[i]);
                                    } else {
                                        assert(after[i] == above.0[i]);
                                        assert(after[j] == above.0[j]);
                                    }
                                }
                                assert forall|i: int|
                                    0 <= i < after.len() && (
                                    #[trigger] after[i]).parent is Some implies memo_place(
                                    after,
                                    after[i].parent->0,
                                ) < i by {
                                    let p = after[i].parent->0;
                                    lemma_memo_place_push(above.0, made, p);
                                    lemma_memo_place(above.0, p);
                                    if i < above.0.len() {
                                        assert(after[i] == above.0[i]);
                                    } else {
                                        assert(above.1 is Some);
                                        assert(remembered(above.0, p) == above.1);
                                    }
                                }
                            },
                        }
                    },
                    None => {},
                }
            }
        },
    }
}

/// The style sheets on the way up from an entity, the outermost first, each
/// with the entity it is attached to: the sheet of the entity itself is the last
/// of them. The way goes from parent to parent, for at most `depth` steps.
pub open spec fn sheets_above(graph: Seq<NodeModel>, entity: Entity, depth: nat) -> Seq<
    (Entity, SheetHandle),
>
    decreases depth,
{
    match node_of(graph, entity) {
        None => Seq::empty(),
        Some(node) => {
            let above = match node.parent {
                Some(parent) => if depth == 0 {
                    Seq::empty()
                } else {
                    sheets_above(graph, parent, (depth - 1) as nat)
                },
                None => Seq::empty(),
            };
            match node.sheet {
                Some(handle) => above.push((node.entity, handle)),
                None => above,
            }
        },
    }
}

/// Whether the way up from an entity ends within `depth` steps: at an entity
/// without a parent, or at one that the host does not list. The way up from an
/// entity that is its own ancestor never ends.
pub open spec fn way_up_ends(graph: Seq<NodeModel>, entity: Entity, depth: nat) -> bool
    decreases depth,
{
    match node_of(graph, entity) {
        None => true,
        Some(node) => match node.parent {
            Some(parent) => depth > 0 && way_up_ends(graph, parent, (depth - 1) as nat),
            None => true,
        },
    }
}

/// Whether no style sheet is attached to two entities.
pub open spec fn sheets_once(graph: Seq<NodeModel>) -> bool {
    forall|i: int, j: int|
        0 <= i < graph.len() && 0 <= j < graph.len() && (#[trigger] graph[i]).sheet is Some
            && graph[i].sheet == (#[trigger] graph[j]).sheet ==> graph[i].entity == graph[j].entity
}

/// Whether what is remembered of a style sheet agrees with the host's list:
/// the sheet is attached to the entity, the way up from the entity ends, and the
/// sheets remembered from the outermost down to this one are those on the way up
/// from the entity.
pub open spec fn agrees(graph: Seq<NodeModel>, memo: Seq<StyleTreeNode>, met: StyleTreeNode) -> bool {
    &&& way_up_ends(graph, met.entity, graph.len())
    &&& node_of(graph, met.entity) is Some
    &&& node_of(graph, met.entity)->0.sheet == Some(met.sheet_handle)
    &&& resolved(memo, met.sheet_handle, memo.len()) == sheets_above(
        graph,
        met.entity,
        graph.len(),
    )
}

/// Whether all that is remembered is in order and agrees with the host's
/// list.
pub open spec fn memo_agrees(graph: Seq<NodeModel>, memo: Seq<StyleTreeNode>) -> bool {
    &&& memo_ordered(memo)
    &&& forall|i: int| 0 <= i < memo.len() ==> agrees(graph, memo, #[trigger] memo[i])
}

/// Where the way up ends within some steps, it ends within more, and more
/// steps find the same style sheets.
pub proof fn lemma_way_up_longer(graph: Seq<NodeModel>, entity: Entity, depth: nat, more: nat)
    requires
        way_up_ends(graph, entity, depth),
        depth <= more,
    ensures
        way_up_ends(graph, entity, more),
        sheets_above(graph, entity, depth) == sheets_above(graph, entity, more),
    decreases depth,
{
    match node_of(graph, entity) {
        None => {},
        Some(node) => match node.parent {
            Some(parent) => {
                lemma_way_up_longer(graph, parent, (depth - 1) as nat, (more - 1) as nat);
            },
            None => {},
        },
    }
}

/// A style sheet that is remembered has the same place in a longer list that
/// starts with the list.
pub proof fn lemma_memo_place_longer(
    memo: Seq<StyleTreeNode>,
    longer: Seq<StyleTreeNode>,
    handle: SheetHandle,
)
    requires
        memo.len() <= longer.len(),
        longer.take(memo.len() as int) == memo,
        memo_place(memo, handle) < memo.len() || memo_place(longer, handle) < memo.len(),
    ensures
        memo_place(longer, handle) == memo_place(memo, handle),
{
    lemma_memo_place(memo, handle);
    lemma_memo_place(longer, handle);
    let p = memo_place(memo, handle);
    let q = memo_place(longer, handle);
    assert forall|k: int| 0 <= k < memo.len() implies memo[k] == longer[k] by {
        assert(longer.take(memo.len() as int)[k] == longer[k]);
    }
    if p < memo.len() {
        if q < p {
            assert(memo[q].sheet_handle != handle);
        } else if q > p {
            assert(longer[p].sheet_handle != handle);
        }
    } else {
        assert(memo[q] == longer[q]);
        assert(memo[q].sheet_handle != handle);
    }
}

/// The style sheets from the outermost down to one that is remembered are the
/// same in a longer list that starts with the list, and for any depth that
/// reaches as far as the place of the sheet.
pub proof fn lemma_resolved_longer(
    memo: Seq<StyleTreeNode>,
    longer: Seq<StyleTreeNode>,
    handle: SheetHandle,
    depth: nat,
    other: nat,
)
    requires
        memo_ordered(longer),
        memo.len() <= longer.len(),
        longer.take(memo.len() as int) == memo,
        memo_place(memo, handle) < memo.len(),
        depth >= memo_place(memo, handle),
        other >= memo_place(memo, handle),
    ensures
        resolved(memo, handle, depth) == resolved(longer, handle, other),
    decreases depth,
{
    lemma_memo_place(memo, handle);
    lemma_memo_place_longer(memo, longer, handle);
    let p = memo_place(memo, handle);
    assert(longer.take(memo.len() as int)[p] == longer[p]);
    let node = memo[p];
    match node.parent {
        Some(parent) => {
            lemma_memo_place(longer, parent);
            assert(memo_place(longer, parent) < p);
            lemma_memo_place_longer(memo, longer, parent);
            lemma_resolved_longer(memo, longer, parent, (depth - 1) as nat, (other - 1) as nat);
        },
        None => {},
    }
}

/// The way up finds the style sheets that are on it: where what is
/// remembered agrees with the host's list, no style sheet is attached to two
/// entities and the way up from the entity ends, the sheets from the outermost
/// down to the one that is found are the sheets on the way up from the entity,
/// and what is remembered afterwards agrees with the host's list.
pub proof fn lemma_found_root_agrees(
    graph: Seq<NodeModel>,
    memo: Seq<StyleTreeNode>,
    entity: Entity,
    depth: nat,
)
    requires
        memo_agrees(graph, memo),
        sheets_once(graph),
        way_up_ends(graph, entity, depth),
        depth <= graph.len(),
    ensures
        memo_agrees(graph, found_root(graph, memo, entity, depth).0),
        match found_root(graph, memo, entity, depth).1 {
            Some(met) => resolved(
                found_root(graph, memo, entity, depth).0,
                met.sheet_handle,
                found_root(graph, memo, entity, depth).0.len(),
            ) == sheets_above(graph, entity, depth),
            None => sheets_above(graph, entity, depth) == Seq::<(Entity, SheetHandle)>::empty(),
        },
    decreases depth,
{
    lemma_found_root_ordered(graph, memo, entity, depth);
    lemma_way_up_longer(graph, entity, depth, graph.len());
    super::graph::lemma_place_of(graph, entity);
    match node_of(graph, entity) {
        None => {},
        Some(node) => {
            let known = match node.sheet {
                Some(handle) => remembered(memo, handle),
                None => None,
            };
            if known is Some {
                let met = known->0;
                lemma_memo_place(memo, node.sheet->0);
                lemma_same_sheet_same_entity(graph, met.entity, entity);
            } else {
                let above = match node.parent {
                    Some(parent) => if depth == 0 {
                        (memo, None)
                    } else {
                        found_root(graph, memo, parent, (depth - 1) as nat)
                    },
                    None => (memo, None),
                };
                if node.parent is Some {
                    lemma_found_root_agrees(graph, memo, node.parent->0, (depth - 1) as nat);
                    lemma_found_root_ordered(graph, memo, node.parent->0, (depth - 1) as nat);
                }
                match node.sheet {
                    Some(handle) => {
                        lemma_memo_place(above.0, handle);
                        match remembered(above.0, handle) {
                            Some(met) => {
                                lemma_same_sheet_same_entity(graph, met.entity, entity);
                            },
                            None => {
                                let made = StyleTreeNode {
                                    entity: node.entity,
                                    sheet_handle: handle,
                                    parent: handle_of(above.1),
                                };
                                let after = above.0.push(made);
                                assert(after.take(above.0.len() as int) =~= above.0);
                                lemma_memo_place_push(above.0, made, handle);
                                assert(remembered(after, handle) == Some(made));
                                match above.1 {
                                    Some(up) => {
                                        lemma_memo_place(above.0, up.sheet_handle);
                                        lemma_resolved_longer(
                                            above.0,
                                            after,
                                            up.sheet_handle,
                                            above.0.len(),
                                            (after.len() - 1) as nat,
                                        );
                                    },
                                    None => {},
                                }
                                assert(resolved(after, handle, after.len()) == sheets_above(
                                    graph,
                                    entity,
                                    depth,
                                ));
                                assert forall|i: int| 0 <= i < after.len() implies agrees(
                                    graph,
                                    after,
                                    #[trigger] after[i],
                                ) by {
                                    if i < above.0.len() {
                                        assert(after[i] == above.0[i]);
                                        assert(agrees(graph, above.0, above.0[i]));
                                        lemma_place_of_memo(above.0, i);
                                        lemma_resolved_longer(
                                            above.0,
                                            after,
                                            above.0[i].sheet_handle,
                                            above.0.len(),
                                            after.len(),
                                        );
                                    }
                                }
                            },
                        }
                    },
                    None => {},
                }
            }
        },
    }
}

/// In a list that remembers no style sheet twice, the place of what is
/// remembered at a place is that place.
pub proof fn lemma_place_of_memo(memo: Seq<StyleTreeNode>, at: int)
    requires
        memo_ordered(memo),
        0 <= at < memo.len(),
    ensures
        memo_place(memo, memo[at].sheet_handle) == at,
{
    lemma_memo_place(memo, memo[at].sheet_handle);
    let p = memo_place(memo, memo[at].sheet_handle);
    if p < at {
        assert(memo[p].sheet_handle != memo[at].sheet_handle);
    }
}

/// Where no style sheet is attached to two entities, two entities with the
/// same sheet are one.
pub proof fn lemma_same_sheet_same_entity(graph: Seq<NodeModel>, a: Entity, b: Entity)
    requires
        sheets_once(graph),
        node_of(graph, a) is Some,
        node_of(graph, b) is Some,
        node_of(graph, a)->0.sheet is Some,
        node_of(graph, a)->0.sheet == node_of(graph, b)->0.sheet,
    ensures
        a == b,
{
    super::graph::lemma_place_of(graph, a);
    super::graph::lemma_place_of(graph, b);
    let i = super::graph::place_of(graph, a);
    let j = super::graph::place_of(graph, b);
    assert(graph[i].entity == graph[j].entity);
}

/// The style sheets that apply to an entity are those on the way up from it,
/// the outermost first and its own last. This holds where what is remembered
/// agrees with the host's list, as it does in a new tree and after every call for
/// the same list, where no style sheet is attached to two entities, and where
/// the entity is not its own ancestor, so that the way up from it ends.
pub proof fn lemma_style_roots(graph: Seq<NodeModel>, memo: Seq<StyleTreeNode>, entity: Entity)
    requires
        memo_agrees(graph, memo),
        sheets_once(graph),
        way_up_ends(graph, entity, graph.len()),
    ensures
        style_roots(graph, memo, entity).1 == sheets_above(graph, entity, graph.len()),
        memo_agrees(graph, style_roots(graph, memo, entity).0),
{
    lemma_found_root_agrees(graph, memo, entity, graph.len());
}

/// A tree that remembers nothing agrees with every list of the host.
pub proof fn lemma_nothing_agrees(graph: Seq<NodeModel>)
    ensures
        memo_agrees(graph, Seq::empty()),
{
}

/// The style sheets that were met on the way up from the entities asked
/// about, in the order in which they were first met.
#[derive(Clone, Debug, Default)]
pub struct StyleTree {
    nodes: Vec<StyleTreeNode>,
}

impl View for StyleTree {
    type V = Seq<StyleTreeNode>;

    closed spec fn view(&self) -> Seq<StyleTreeNode> {
        self.nodes@
    }
}

impl StyleTree {
    /// A tree that remembers nothing.
    pub fn new() -> (tree: StyleTree)
        ensures
            tree@ == Seq::<StyleTreeNode>::empty(),
            memo_ordered(tree@),
    {
        StyleTree { nodes: Vec::new() }
    }

    /// What is remembered of a style sheet, if anything is.
    pub fn get(&self, handle: SheetHandle) -> (node: Option<StyleTreeNode>)
        ensures
            node == remembered(self@, handle),
    {
        let ghost memo = self@;
        let mut i: usize = 0;
        assert(memo.skip(0) =~= memo);
        while i < self.nodes.len()
            invariant
                i <= self.nodes.len(),
                memo == self@,
                memo_place(memo, handle) == i + memo_place(memo.skip(i as int), handle),
            decreases self.nodes.len() - i,
        {
            proof {
                assert(memo.skip(i as int).first() == self.nodes@[i as int]);
                assert(memo.skip(i as int).drop_first() == memo.skip(i + 1));
            }
            if self.nodes[i].sheet_handle == handle {
                return Some(self.nodes[i]);
            }
            i += 1;
        }
        None
    }

    /// The style sheets from the outermost down to `child_node`, each with
    /// the entity it is attached to.
    pub fn resolve(&self, child_node: SheetHandle, depth: usize) -> (sheets: Vec<
        (Entity, SheetHandle),
    >)
        ensures
            sheets@ == resolved(self@, child_node, depth as nat),
        decreases depth,
    {
        match self.get(child_node) {
            Some(style) => {
                let mut sheets = match style.parent {
                    Some(parent) => {
                        if depth == 0 {
                            Vec::new()
                        } else {
                            self.resolve(parent, depth - 1)
                        }
                    },
                    None => Vec::new(),
                };
                sheets.push((style.entity, style.sheet_handle));
                sheets
            },
            None => Vec::new(),
        }
    }

    /// Finds the first style sheet on the way up from an entity, and
    /// remembers what it met.
    pub fn get_or_find_root(&mut self, entity: Entity, graph: &EntityGraph, depth: usize) -> (found:
        Option<StyleTreeNode>)
        ensures
            final(self)@ == found_root(graph@, old(self)@, entity, depth as nat).0,
            found == found_root(graph@, old(self)@, entity, depth as nat).1,
        decreases depth,
    {
        let node = match graph.node(entity) {
            Some(node) => node,
            None => {
                return None;
            },
        };
        let known = match node.sheet {
            Some(handle) => self.get(handle),
            None => None,
        };
        if known.is_some() {
            return known;
        }
        let above = match node.parent {
            Some(parent) => {
                if depth == 0 {
                    None
                } else {
                    self.get_or_find_root(parent, graph, depth - 1)
                }
            },
            None => None,
        };
        match node.sheet {
            Some(handle) => {
                match self.get(handle) {
                    Some(met) => Some(met),
                    None => {
                        let made = StyleTreeNode {
                            entity: node.entity,
                            sheet_handle: handle,
                            parent: match above {
                                Some(a) => Some(a.sheet_handle),
                                None => None,
                            },
                        };
                        self.nodes.push(made);
                        Some(made)
                    },
                }
            },
            None => above,
        }
    }

    /// The style sheets that apply to an entity, the outermost first, each
    /// with the entity it is attached to.
    pub fn get_style_roots_for(&mut self, entity: Entity, graph: &EntityGraph) -> (sheets: Vec<
        (Entity, SheetHandle),
    >)
        ensures
            final(self)@ == style_roots(graph@, old(self)@, entity).0,
            sheets@ == style_roots(graph@, old(self)@, entity).1,
            memo_ordered(old(self)@) ==> memo_ordered(final(self)@),
    {
        proof {
            if memo_ordered(self@) {
                lemma_found_root_ordered(graph@, self@, entity, graph@.len());
            }
        }
        let root_node = self.get_or_find_root(entity, graph, graph.nodes.len());
        match root_node {
            Some(node) => self.resolve(node.sheet_handle, self.nodes.len()),
            None => Vec::new(),
        }
    }
}

} // verus!
