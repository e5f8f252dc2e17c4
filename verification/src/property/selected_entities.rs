use vstd::prelude::*;

use crate::selector::{Selector, SelectorModel};
use crate::seqs::{
    first_index, lemma_filter_last, lemma_filter_none, lemma_first_index, lemma_first_index_is,
};
use crate::system::entity_list::{Entity, EntityList};

verus! {

/// A selector and the entities that it has selected.
#[derive(Debug)]
pub struct Selection {
    pub selector: Selector,
    pub entities: EntityList,
}

/// What a [`Selection`] holds.
pub struct SelectionModel {
    pub selector: SelectorModel,
    pub entities: Seq<Entity>,
}

impl View for Selection {
    type V = SelectionModel;

    open spec fn view(&self) -> SelectionModel {
        SelectionModel { selector: self.selector@, entities: self.entities@ }
    }
}

/// The place in a list of the selection of a selector with the content hash
/// `hash`, or the length of the list where there is none.
pub open spec fn selection_place(selected: Seq<SelectionModel>, hash: u64) -> int {
    first_index(selected, |s: SelectionModel| s.selector.hash() == hash)
}

/// A list of entities with more entities behind it: those of them that the
/// list did not hold.
pub open spec fn merged(existing: Seq<Entity>, more: Seq<Entity>) -> Seq<Entity> {
    existing + more.filter(|e: Entity| !existing.contains(e))
}

/// What is selected after a selector has selected more entities: they are
/// merged into its selection where it has one, and are a selection of their own
/// at the end of the list where it has none.
pub open spec fn with_selection(
    selected: Seq<SelectionModel>,
    selector: SelectorModel,
    entities: Seq<Entity>,
) -> Seq<SelectionModel> {
    let at = selection_place(selected, selector.hash());
    if 0 <= at < selected.len() {
        selected.update(
            at,
            SelectionModel {
                selector: selected[at].selector,
                entities: merged(selected[at].entities, entities),
            },
        )
    } else {
        selected.push(SelectionModel { selector, entities })
    }
}

/// Maps which entities were selected by a selector, in the order in which
/// the selectors first selected.
#[derive(Debug, Default)]
pub struct SelectedEntities {
    entries: Vec<Selection>,
}

impl View for SelectedEntities {
    type V = Seq<SelectionModel>;

    closed spec fn view(&self) -> Seq<SelectionModel> {
        self.entries@.map_values(|s: Selection| s@)
    }
}

impl SelectedEntities {
    /// Nothing selected.
    pub fn new() -> (selected: SelectedEntities)
        ensures
            selected@ == Seq::<SelectionModel>::empty(),
    {
        let selected = SelectedEntities { entries: Vec::new() };
        assert(selected@ =~= Seq::<SelectionModel>::empty());
        selected
    }

    /// How many selectors have selected.
    pub fn len(&self) -> (len: usize)
        ensures
            len == self@.len(),
    {
        self.entries.len()
    }

    /// The selections, in the order in which the selectors first selected.
    pub fn entries(&self) -> (entries: &Vec<Selection>)
        ensures
            entries@.map_values(|s: Selection| s@) == self@,
    {
        &self.entries
    }

    fn find(&self, selector: &Selector) -> (at: usize)
        ensures
            at == selection_place(self@, selector@.hash()),
            at <= self.entries.len(),
    {
        let ghost pred = |s: SelectionModel| s.selector.hash() == selector@.hash();
        let mut i: usize = 0;
        while i < self.entries.len()
            invariant
                i <= self.entries.len(),
                pred == |s: SelectionModel| s.selector.hash() == selector@.hash(),
                forall|k: int| 0 <= k < i ==> !pred(#[trigger] self@[k]),
            decreases self.entries.len() - i,
        {
            assert(self@[i as int] == self.entries@[i as int]@);
            if self.entries[i].selector == *selector {
                proof {
                    lemma_first_index_is(self@, pred, i as int);
                }
                return i;
            }
            i += 1;
        }
        proof {
            lemma_first_index_is(self@, pred, i as int);
        }
        i
    }

    /// The entities that a selector has selected, if it has selected.
    pub fn get(&self, selector: &Selector) -> (entities: Option<&EntityList>)
        ensures
            match entities {
                Some(e) => selection_place(self@, selector@.hash()) < self@.len() && e@
                    == self@[selection_place(self@, selector@.hash())].entities,
                None => selection_place(self@, selector@.hash()) >= self@.len(),
            },
    {
        let at = self.find(selector);
        if at < self.entries.len() {
            assert(self@[at as int] == self.entries@[at as int]@);
            Some(&self.entries[at].entities)
        } else {
            None
        }
    }

    /// Takes in more entities that a selector has selected.
    pub fn add(&mut self, selector: &Selector, entities: &EntityList)
        ensures
            final(self)@ == with_selection(old(self)@, selector@, entities@),
    {
        let at = self.find(selector);
        let ghost before = self@;
        proof {
            lemma_first_index(before, |s: SelectionModel| s.selector.hash() == selector@.hash());
        }
        if at < self.entries.len() {
            assert(before[at as int] == self.entries@[at as int]@);
            let existing = &self.entries[at].entities;
            let ghost fresh = |e: Entity| !existing@.contains(e);
            let mut all = EntityList::new();
            all.extend(existing);
            let n = entities.len();
            let mut i: usize = 0;
            proof {
                lemma_filter_none(entities@.take(0), fresh);
                assert(all@ =~= existing@ + entities@.take(0).filter(fresh));
            }
            while i < n
                invariant
                    i <= n,
                    n == entities@.len(),
                    fresh == |e: Entity| !existing@.contains(e),
                    all@ == existing@ + entities@.take(i as int).filter(fresh),
                decreases n - i,
            {
                let entity = match entities.get(i) {
                    Some(e) => e,
                    None => 0,
                };
                proof {
                    let next = entities@.take(i + 1);
                    assert(next.drop_last() == entities@.take(i as int));
                    assert(next.last() == entity);
                    lemma_filter_last(next, fresh);
                }
                if !existing.contains(entity) {
                    all.push(entity);
                    assert(all@ =~= existing@ + entities@.take(i as int).filter(fresh).push(entity));
                }
                i += 1;
            }
            assert(entities@.take(n as int) == entities@);
            let entry = Selection { selector: self.entries[at].selector.duplicate(), entities: all };
            self.entries.set(at, entry);
            assert(self@ =~= before.update(at as int, entry@));
        } else {
            let mut all = EntityList::new();
            all.extend(entities);
            assert(all@ =~= entities@);
            let entry = Selection { selector: selector.duplicate(), entities: all };
            self.entries.push(entry);
            assert(self@ =~= before.push(entry@));
        }
    }
}

} // verus!
