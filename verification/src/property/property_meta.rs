use vstd::prelude::*;

use super::cache_state::CacheState;
use super::definition::Property;
use super::property_token::PropertyTokenModel;
use super::stylesheet_state::{source_of, EntityStyle, EntityStyleModel, StyleSheetState};
use crate::error::BevyCssError;
use crate::selector::Selector;
use crate::seqs::{
    first_index, lemma_first_index, lemma_first_index_is, lemma_first_index_push,
};
use crate::stylesheet::style_sheet_asset::StyleSheetAsset;
use crate::stylesheet::style_sheets::{loaded, LoadedSheetModel, StyleSheets};
use crate::system::entity_list::Entity;

verus! {

/// What is kept of a property of one rule of one sheet. The sheet is known by
/// the hash of its text and the rule by the content hash of its selector.
pub struct CacheEntry<C> {
    pub stylesheet: u64,
    pub selector: u64,
    pub state: CacheState<C>,
}

/// The place in a list of what is kept for a rule of a sheet, or the length
/// of the list where nothing is kept for it.
pub open spec fn cache_place<C>(entries: Seq<CacheEntry<C>>, stylesheet: u64, selector: u64) -> int {
    first_index(entries, |e: CacheEntry<C>| e.stylesheet == stylesheet && e.selector == selector)
}

/// What is kept for a rule of a sheet, if anything is.
pub open spec fn cached<C>(entries: Seq<CacheEntry<C>>, stylesheet: u64, selector: u64) -> Option<
    CacheState<C>,
> {
    let at = cache_place(entries, stylesheet, selector);
    if 0 <= at < entries.len() {
        Some(entries[at].state)
    } else {
        None
    }
}

/// Whether `state` is what a property keeps of the values of a declaration:
/// nothing where there is no declaration, the parsed value where parsing gives
/// one, and the mark of an error where parsing gives an error.
pub open spec fn kept_of<T: Property>(
    values: Option<Seq<PropertyTokenModel>>,
    state: CacheState<T::Cache>,
) -> bool {
    match values {
        None => state is Unparsed,
        Some(v) => match state {
            CacheState::Unparsed => false,
            CacheState::Parsed(value) => T::parses(v, Ok(value)),
            CacheState::ParseError => exists|error: BevyCssError| #[trigger] T::parses(v, Err(error)),
        },
    }
}

/// The values that a property has parsed, so that the values of one rule of
/// one sheet are parsed only once. What is kept is never parsed again: a sheet
/// with another text is another sheet.
pub struct PropertyMeta<T: Property> {
    entries: Vec<CacheEntry<T::Cache>>,
}

impl<T: Property> View for PropertyMeta<T> {
    type V = Seq<CacheEntry<T::Cache>>;

    closed spec fn view(&self) -> Seq<CacheEntry<T::Cache>> {
        self.entries@
    }
}

impl<T: Property> PropertyMeta<T> {
    /// Nothing kept.
    pub fn new() -> (meta: PropertyMeta<T>)
        ensures
            meta@ == Seq::<CacheEntry<T::Cache>>::empty(),
    {
        PropertyMeta { entries: Vec::new() }
    }

    /// For how many rules something is kept.
    pub fn len(&self) -> (len: usize)
        ensures
            len == self@.len(),
    {
        self.entries.len()
    }

    fn find(&self, stylesheet: u64, selector: u64) -> (at: usize)
        ensures
            at == cache_place(self@, stylesheet, selector),
            at <= self.entries.len(),
    {
        let ghost pred = |e: CacheEntry<T::Cache>|
            e.stylesheet == stylesheet && e.selector == selector;
        let mut i: usize = 0;
        while i < self.entries.len()
            invariant
                i <= self.entries.len(),
                pred == |e: CacheEntry<T::Cache>|
                    e.stylesheet == stylesheet && e.selector == selector,
                forall|k: int| 0 <= k < i ==> !pred(#[trigger] self@[k]),
            decreases self.entries.len() - i,
        {
            if self.entries[i].stylesheet == stylesheet && self.entries[i].selector == selector {
                proof {
                    lemma_first_index_is(self@, pred, i as int);
                }
                return i;
            }
            i += 1;
        }
        proof {
            lemma_first_index_is(self@, pred, i as int);
        }
        i
    }

    /// What is kept for the rule of a selector with the content hash
    /// `selector` of the sheet whose text has the hash `stylesheet`.
    pub fn get(&self, stylesheet: u64, selector: u64) -> (state: Option<&CacheState<T::Cache>>)
        ensures
            match state {
                Some(s) => cached(self@, stylesheet, selector) == Some(*s),
                None => cached(self@, stylesheet, selector) is None,
            },
    {
        let at = self.find(stylesheet, selector);
        if at < self.entries.len() {
            Some(&self.entries[at].state)
        } else {
            None
        }
    }

    /// Gets what is kept of the property for a rule, or parses the values of
    /// the rule and keeps what that gives.
    ///
    /// An error of parsing is kept too, so that the values are not parsed again.
    pub fn get_or_parse(&mut self, rules: &StyleSheetAsset, selector: &Selector) -> (state:
        &CacheState<T::Cache>)
        ensures
            match cached(old(self)@, rules@.hash, selector@.hash()) {
                Some(kept) => final(self)@ == old(self)@ && *state == kept,
                None => {
                    &&& final(self)@ == old(self)@.push(
                        CacheEntry {
                            stylesheet: rules@.hash,
                            selector: selector@.hash(),
                            state: *state,
                        },
                    )
                    &&& kept_of::<T>(
                        rules@.property_value(selector@.hash(), T::property_name()),
                        *state,
                    )
                },
            },
            cached(final(self)@, rules@.hash, selector@.hash()) == Some(*state),
    {
        let stylesheet = rules.hash();
        let key = selector.hash();
        let at = self.find(stylesheet, key);
        proof {
            lemma_first_index(
                self@,
                |e: CacheEntry<T::Cache>| e.stylesheet == stylesheet && e.selector == key,
            );
        }
        if at < self.entries.len() {
            return &self.entries[at].state;
        }
        let ghost declared = rules@.property_value(selector@.hash(), T::property_name());
        let new_cache = match rules.get_property_value(selector, T::name()) {
            Some(values) => {
                assert(declared == Some(values@));
                match T::parse(values) {
                    Ok(cache) => {
                        CacheState::Parsed(cache)
                    },
                    Err(error) => {
                        let state: CacheState<T::Cache> = CacheState::ParseError;
                        assert(T::parses(values@, Err(error)));
                        assert(exists|e: BevyCssError| #[trigger] T::parses(values@, Err(e)));
                        assert(declared->0 == values@);
                        assert(state is ParseError);
                        assert(kept_of::<T>(declared, state));
                        state
                    },
                }
            },
            None => CacheState::Unparsed,
        };
        let entry = CacheEntry { stylesheet, selector: key, state: new_cache };
        proof {
            lemma_first_index_push(
                self@,
                |e: CacheEntry<T::Cache>| e.stylesheet == stylesheet && e.selector == key,
                entry,
            );
        }
        self.entries.push(entry);
        &self.entries[at].state
    }
}

/// A parsed value that is to be applied to an entity: the value that is kept
/// for the rule of the selector with the content hash `selector` of the sheet
/// whose text has the hash `stylesheet`.
#[derive(Clone, Copy, Debug, PartialEq, Eq, Structural)]
pub struct Application {
    pub entity: Entity,
    pub stylesheet: u64,
    pub selector: u64,
}

/// The rule whose declaration of a property wins for an entity, where the
/// style of the entity has the property and the sheet of the declaration is
/// loaded.
pub open spec fn winning_rule(
    entry: EntityStyleModel,
    name: Seq<char>,
    sheets: Seq<LoadedSheetModel>,
) -> Option<(u64, u64)> {
    match source_of(entry.style, name) {
        Some(source) => match loaded(sheets, source.stylesheet) {
            Some(sheet) => Some((sheet.hash, source.selector.hash())),
            None => None,
        },
        None => None,
    }
}

/// What is to be applied to an entity for a property: the parsed value of the
/// rule whose declaration wins, where a parsed value is kept for that rule.
pub open spec fn applicable<C>(
    entry: EntityStyleModel,
    name: Seq<char>,
    sheets: Seq<LoadedSheetModel>,
    kept: Seq<CacheEntry<C>>,
) -> Option<Application> {
    match winning_rule(entry, name, sheets) {
        Some((stylesheet, selector)) => match cached(kept, stylesheet, selector) {
            Some(CacheState::Parsed(_)) => Some(
                Application { entity: entry.entity, stylesheet, selector },
            ),
            _ => None,
        },
        None => None,
    }
}

/// What is to be applied for a property to the entities of a state, in the
/// order of the state.
pub open spec fn applications<C>(
    state: Seq<EntityStyleModel>,
    name: Seq<char>,
    sheets: Seq<LoadedSheetModel>,
    kept: Seq<CacheEntry<C>>,
) -> Seq<Application>
    decreases state.len(),
{
    if state.len() == 0 {
        Seq::empty()
    } else {
        let before = applications(state.drop_last(), name, sheets, kept);
        match applicable(state.last(), name, sheets, kept) {
            Some(application) => before.push(application),
            None => before,
        }
    }
}

/// Whether something is kept for the winning rule of every entity of a
/// state.
pub open spec fn all_kept<C>(
    state: Seq<EntityStyleModel>,
    name: Seq<char>,
    sheets: Seq<LoadedSheetModel>,
    kept: Seq<CacheEntry<C>>,
) -> bool {
    forall|k: int|
        0 <= k < state.len() ==> match winning_rule(#[trigger] state[k], name, sheets) {
            Some((stylesheet, selector)) => cached(kept, stylesheet, selector) is Some,
            None => true,
        }
}

/// Keeping one thing more changes nothing for the entities for whose rules
/// something is kept already.
pub proof fn lemma_applications_stay<C>(
    state: Seq<EntityStyleModel>,
    name: Seq<char>,
    sheets: Seq<LoadedSheetModel>,
    kept: Seq<CacheEntry<C>>,
    more: CacheEntry<C>,
)
    requires
        all_kept(state, name, sheets, kept),
    ensures
        all_kept(state, name, sheets, kept.push(more)),
        applications(state, name, sheets, kept.push(more)) == applications(
            state,
            name,
            sheets,
            kept,
        ),
    decreases state.len(),
{
    assert forall|k: int| 0 <= k < state.len() implies match winning_rule(
        #[trigger] state[k],
        name,
        sheets,
    ) {
        Some((stylesheet, selector)) => cached(kept.push(more), stylesheet, selector) is Some
            && cached(kept.push(more), stylesheet, selector) == cached(
            kept,
            stylesheet,
            selector,
        ),
        None => true,
    } by {
        match winning_rule(state[k], name, sheets) {
            Some((stylesheet, selector)) => {
                let pred = |e: CacheEntry<C>| e.stylesheet == stylesheet && e.selector == selector;
                lemma_first_index(kept, pred);
                lemma_first_index_push(kept, pred, more);
            },
            None => {},
        }
    }
    if state.len() > 0 {
        let front = state.drop_last();
        assert forall|k: int| 0 <= k < front.len() implies match winning_rule(
            #[trigger] front[k],
            name,
            sheets,
        ) {
            Some((stylesheet, selector)) => cached(kept, stylesheet, selector) is Some,
            None => true,
        } by {
            assert(front[k] == state[k]);
        }
        lemma_applications_stay(front, name, sheets, kept, more);
        assert(state.last() == state[state.len() - 1]);
    }
}

/// Whether what is kept in an entry is what the property keeps of the rule of
/// one of the loaded sheets with the hash of the entry.
pub open spec fn kept_of_loaded<T: Property>(
    entry: CacheEntry<T::Cache>,
    sheets: Seq<LoadedSheetModel>,
) -> bool {
    exists|k: int|
        0 <= k < sheets.len() && (#[trigger] sheets[k]).sheet.hash == entry.stylesheet
            && kept_of::<T>(
            sheets[k].sheet.property_value(entry.selector, T::property_name()),
            entry.state,
        )
}

/// Finds what a property has to apply: for every entity whose style has the
/// property, the value that is kept for the rule of the winning declaration,
/// or that parsing the values of that rule gives. An entity is passed over where
/// the sheet of the declaration is not loaded, and where parsing gave an error.
///
/// What was kept before the call is kept after it, and what is kept on top of
/// it is what the property keeps of rules of the loaded sheets.
pub fn apply_system<T: Property>(
    local: &mut PropertyMeta<T>,
    assets: &StyleSheets,
    apply_sheets: &StyleSheetState,
) -> (found: Vec<Application>)
    ensures
        old(local)@.len() <= final(local)@.len(),
        final(local)@.take(old(local)@.len() as int) == old(local)@,
        forall|k: int|
            old(local)@.len() <= k < final(local)@.len() ==> kept_of_loaded::<T>(
                #[trigger] final(local)@[k],
                assets@,
            ),
        all_kept(apply_sheets@, T::property_name(), assets@, final(local)@),
        found@ == applications(apply_sheets@, T::property_name(), assets@, final(local)@),
{
    let entries = apply_sheets.iter();
    let ghost state = apply_sheets@;
    let ghost name = T::property_name();
    let mut found: Vec<Application> = Vec::new();
    let mut i: usize = 0;
    proof {
        assert(local@.take(local@.len() as int) =~= local@);
    }
    while i < entries.len()
        invariant
            i <= entries.len(),
            state == entries@.map_values(|e: EntityStyle| e@),
            name == T::property_name(),
            old(local)@.len() <= local@.len(),
            local@.take(old(local)@.len() as int) == old(local)@,
            forall|k: int|
                old(local)@.len() <= k < local@.len() ==> kept_of_loaded::<T>(
                    #[trigger] local@[k],
                    assets@,
                ),
            all_kept(state.take(i as int), name, assets@, local@),
            found@ == applications(state.take(i as int), name, assets@, local@),
        decreases entries.len() - i,
    {
        let entry = &entries[i];
        let ghost kept = local@;
        let ghost front = state.take(i as int);
        let ghost next = state.take(i + 1);
        proof {
            assert(next.drop_last() == front);
            assert(next.last() == entry@);
        }
        let mut application: Option<Application> = None;
        match entry.style.get(T::name()) {
            Some(source) => {
                match assets.get(source.stylesheet) {
                    Some(rules) => {
                        let stylesheet = rules.hash();
                        let selector = source.selector.hash();
                        let cached_value = local.get_or_parse(rules, &source.selector);
                        match cached_value {
                            CacheState::Parsed(_) => {
                                application = Some(
                                    Application { entity: entry.entity, stylesheet, selector },
                                );
                            },
                            _ => {},
                        }
                        proof {
                            if local@ != kept {
                                let more = local@.last();
                                assert(local@ =~= kept.push(more));
                                let place = crate::stylesheet::style_sheets::sheet_place(
                                    assets@,
                                    source.stylesheet,
                                );
                                lemma_first_index(
                                    assets@,
                                    |s: LoadedSheetModel| s.handle == source.stylesheet,
                                );
                                assert(assets@[place].sheet == rules@);
                                assert(kept_of_loaded::<T>(more, assets@));
                                assert forall|k: int|
                                    old(local)@.len() <= k < local@.len() implies kept_of_loaded::<
                                    T,
                                >(#[trigger] local@[k], assets@) by {
                                    if k < kept.len() {
                                        assert(local@[k] == kept[k]);
                                    }
                                }
                                lemma_applications_stay(front, name, assets@, kept, more);
                                assert(local@.take(old(local)@.len() as int) =~= kept.take(
                                    old(local)@.len() as int,
                                ));
                            }
                        }
                    },
                    None => {},
                }
            },
            None => {},
        }
        proof {
            assert(application == applicable(entry@, name, assets@, local@));
            assert forall|k: int| 0 <= k < next.len() implies match winning_rule(
                #[trigger] next[k],
                name,
                assets@,
            ) {
                Some((stylesheet, selector)) => cached(local@, stylesheet, selector) is Some,
                None => true,
            } by {
                if k < front.len() {
                    assert(next[k] == front[k]);
                }
            }
        }
        match application {
            Some(a) => {
                found.push(a);
            },
            None => {},
        }
        i += 1;
    }
    assert(state.take(entries.len() as int) == state);
    found
}

} // verus!
