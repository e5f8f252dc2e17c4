//! Lists of entities, kept in a `SmallVec` of `smallvec`.

use vstd::prelude::*;

verus! {

/// An entity of the host, by the bits of its id.
pub type Entity = u64;

/// A list of entities. Lists of up to eight entities take no room on the heap.
#[verifier::external_body]
#[derive(Debug, PartialEq, Eq)]
pub struct EntityList {
    inner: smallvec::SmallVec<[u64; 8]>,
}

/// The entities that a list holds, first to last.
pub uninterp spec fn entity_list_items(list: EntityList) -> Seq<u64>;

impl View for EntityList {
    type V = Seq<Entity>;

    open spec fn view(&self) -> Seq<Entity> {
        entity_list_items(*self)
    }
}

/// `SmallVec::new` of `smallvec`: a list that holds nothing.
#[verifier::external_body]
pub(crate) fn list_new() -> (list: EntityList)
    ensures
        entity_list_items(list) == Seq::<u64>::empty(),
{
    EntityList { inner: smallvec::SmallVec::new() }
}

/// `SmallVec::push` of `smallvec`: the list holds `entity` behind what it
/// held.
#[verifier::external_body]
pub(crate) fn list_push(list: &mut EntityList, entity: u64)
    ensures
        entity_list_items(*final(list)) == entity_list_items(*old(list)).push(entity),
{
    list.inner.push(entity)
}

/// `SmallVec::len` of `smallvec`: how many entities the list holds.
#[verifier::external_body]
pub(crate) fn list_len(list: &EntityList) -> (len: usize)
    ensures
        len == entity_list_items(*list).len(),
{
    list.inner.len()
}

/// `SmallVec::index` of `smallvec`: the entity at a place of the list. It
/// panics for a place behind the end of the list, which the contract leaves out.
#[verifier::external_body]
pub(crate) fn list_get(list: &EntityList, index: usize) -> (entity: u64)
    requires
        index < entity_list_items(*list).len(),
    ensures
        entity == entity_list_items(*list)[index as int],
{
    list.inner[index]
}

impl EntityList {
    /// A list that holds nothing.
    pub fn new() -> (list: EntityList)
        ensures
            list@ == Seq::<Entity>::empty(),
    {
        list_new()
    }

    /// Puts an entity at the end of the list.
    pub fn push(&mut self, entity: Entity)
        ensures
            final(self)@ == old(self)@.push(entity),
    {
        list_push(self, entity)
    }

    /// How many entities the list holds.
    pub fn len(&self) -> (len: usize)
        ensures
            len == self@.len(),
    {
        list_len(self)
    }

    /// Whether the list holds nothing.
    pub fn is_empty(&self) -> (empty: bool)
        ensures
            empty == (self@.len() == 0),
    {
        list_len(self) == 0
    }

    /// The entity at a place of the list, if the list reaches that far.
    pub fn get(&self, index: usize) -> (entity: Option<Entity>)
        ensures
            entity == if index < self@.len() {
                Some(self@[index as int])
            } else {
                None
            },
    {
        if index < list_len(self) {
            Some(list_get(self, index))
        } else {
            None
        }
    }

    /// Whether the list holds the entity.
    pub fn contains(&self, entity: Entity) -> (found: bool)
        ensures
            found == self@.contains(entity),
    {
        let n = list_len(self);
        let mut i: usize = 0;
        while i < n
            invariant
                i <= n,
                n == self@.len(),
                forall|k: int| 0 <= k < i ==> self@[k] != entity,
            decreases n - i,
        {
            if list_get(self, i) == entity {
                return true;
            }
            i += 1;
        }
        false
    }

    /// The list of the entities of a vector, in order.
    pub fn from_vec(entities: &Vec<Entity>) -> (list: EntityList)
        ensures
            list@ == entities@,
    {
        let mut list = list_new();
        let mut i: usize = 0;
        while i < entities.len()
            invariant
                i <= entities.len(),
                list@ == entities@.take(i as int),
            decreases entities.len() - i,
        {
            list_push(&mut list, entities[i]);
            i += 1;
            assert(entities@.take(i as int) =~= entities@.take(i - 1).push(entities@[i - 1]));
        }
        assert(entities@.take(entities.len() as int) =~= entities@);
        list
    }

    /// The entities of the list as a vector, in order.
    pub fn to_vec(&self) -> (entities: Vec<Entity>)
        ensures
            entities@ == self@,
    {
        let n = list_len(self);
        let mut entities: Vec<Entity> = Vec::new();
        let mut i: usize = 0;
        while i < n
            invariant
                i <= n,
                n == self@.len(),
                entities@ == self@.take(i as int),
            decreases n - i,
        {
            entities.push(list_get(self, i));
            i += 1;
            assert(self@.take(i as int) =~= self@.take(i - 1).push(self@[i - 1]));
        }
        assert(self@.take(n as int) =~= self@);
        entities
    }

    /// Puts the entities of `other` at the end of the list, in order.
    pub fn extend(&mut self, other: &EntityList)
        ensures
            final(self)@ == old(self)@ + other@,
    {
        let n = list_len(other);
        let mut i: usize = 0;
        assert(self@ =~= old(self)@ + other@.take(0));
        while i < n
            invariant
                i <= n,
                n == other@.len(),
                self@ == old(self)@ + other@.take(i as int),
            decreases n - i,
        {
            list_push(self, list_get(other, i));
            i += 1;
            assert(other@.take(i as int) =~= other@.take(i - 1).push(other@[i - 1]));
            assert(self@ =~= old(self)@ + other@.take(i as int));
        }
        assert(other@.take(n as int) =~= other@);
    }
}

} // verus!
