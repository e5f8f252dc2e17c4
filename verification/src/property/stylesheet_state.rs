//! The cascade: from the entities that each selector has selected to the one
//! declaration that wins for each property of each entity.

use vstd::prelude::*;

use super::selected_entities::{SelectedEntities, Selection, SelectionModel};
use crate::selector::{Selector, SelectorModel};
use crate::seqs::{
    first_index, lemma_filter_last, lemma_filter_none, lemma_first_index, lemma_first_index_is,
    lemma_first_index_push, lemma_first_index_update, lemma_last_of,
};
use crate::stylesheet::style_sheet_asset::{StyleSheetAsset, StyleSheetModel};
use crate::stylesheet::style_sheets::{loaded, LoadedSheetModel, StyleSheets};
use crate::system::entity_list::{Entity, EntityList};
use crate::system::graph::SheetHandle;
use crate::text::same_text;

verus! {

/// Where a declaration comes from: a rule of a style sheet, by its selector.
#[derive(Debug, Clone)]
pub struct StyleSource {
    pub stylesheet: SheetHandle,
    pub selector: Selector,
}

/// What a [`StyleSource`] holds.
pub struct StyleSourceModel {
    pub stylesheet: SheetHandle,
    pub selector: SelectorModel,
}

impl View for StyleSource {
    type V = StyleSourceModel;

    open spec fn view(&self) -> StyleSourceModel {
        StyleSourceModel { stylesheet: self.stylesheet, selector: self.selector@ }
    }
}

/// A property and where its winning declaration comes from.
#[derive(Debug, Clone)]
pub struct StyleEntry {
    pub property: String,
    pub source: StyleSource,
}

/// What a [`StyleEntry`] holds.
pub struct StyleEntryModel {
    pub property: Seq<char>,
    pub source: StyleSourceModel,
}

impl View for StyleEntry {
    type V = StyleEntryModel;

    open spec fn view(&self) -> StyleEntryModel {
        StyleEntryModel { property: self.property@, source: self.source@ }
    }
}

/// The place of a property in a style, or the length of the style where the
/// property is not in it.
pub open spec fn style_place(style: Seq<StyleEntryModel>, property: Seq<char>) -> int {
    first_index(style, |e: StyleEntryModel| e.property == property)
}

/// Where the declaration of a property in a style comes from.
pub open spec fn source_of(style: Seq<StyleEntryModel>, property: Seq<char>) -> Option<
    StyleSourceModel,
> {
    let at = style_place(style, property);
    if 0 <= at < style.len() {
        Some(style[at].source)
    } else {
        None
    }
}

/// A style after a declaration of a property was applied: it takes the place
/// of what the style had for the property, or stands at the end.
pub open spec fn style_with(
    style: Seq<StyleEntryModel>,
    property: Seq<char>,
    source: StyleSourceModel,
) -> Seq<StyleEntryModel> {
    let at = style_place(style, property);
    if 0 <= at < style.len() {
        style.update(at, StyleEntryModel { property, source })
    } else {
        style.push(StyleEntryModel { property, source })
    }
}

/// A style after the declarations of one rule were applied, property by
/// property.
pub open spec fn apply_names(
    style: Seq<StyleEntryModel>,
    names: Seq<Seq<char>>,
    source: StyleSourceModel,
) -> Seq<StyleEntryModel>
    decreases names.len(),
{
    if names.len() == 0 {
        style
    } else {
        style_with(apply_names(style, names.drop_last(), source), names.last(), source)
    }
}

/// The properties that a sheet declares for a selector; none where it has no
/// rule for it.
pub open spec fn declared_names(sheet: StyleSheetModel, selector: SelectorModel) -> Seq<
    Seq<char>,
> {
    match sheet.property_names(selector.hash()) {
        Some(names) => names,
        None => Seq::empty(),
    }
}

/// A style after the rules of a list of selectors were applied, first to
/// last, so that a later rule replaces what an earlier one declared.
pub open spec fn apply_selectors(
    style: Seq<StyleEntryModel>,
    sheet: StyleSheetModel,
    handle: SheetHandle,
    selectors: Seq<SelectorModel>,
) -> Seq<StyleEntryModel>
    decreases selectors.len(),
{
    if selectors.len() == 0 {
        style
    } else {
        apply_names(
            apply_selectors(style, sheet, handle, selectors.drop_last()),
            declared_names(sheet, selectors.last()),
            StyleSourceModel { stylesheet: handle, selector: selectors.last() },
        )
    }
}

/// The place at which a selector goes into a sorted list: before the first
/// that it sorts before, and so behind those that it ties with.
pub open spec fn sorted_place(sorted: Seq<SelectorModel>, selector: SelectorModel) -> int {
    first_index(sorted, |other: SelectorModel| selector.sorts_before(other))
}

/// A list of selectors in the order of the cascade, the weakest first.
/// Selectors that tie stay in the order of the list.
pub open spec fn sorted_selectors(selectors: Seq<SelectorModel>) -> Seq<SelectorModel>
    decreases selectors.len(),
{
    if selectors.len() == 0 {
        Seq::empty()
    } else {
        let before = sorted_selectors(selectors.drop_last());
        before.insert(sorted_place(before, selectors.last()), selectors.last())
    }
}

/// The selectors that have selected an entity, in the order of the
/// selections.
pub open spec fn matching(selected: Seq<SelectionModel>, entity: Entity) -> Seq<SelectorModel> {
    selected.filter(|s: SelectionModel| s.entities.contains(entity)).map_values(
        |s: SelectionModel| s.selector,
    )
}

/// All the entities of a list of selections, selection by selection.
pub open spec fn all_entities(selected: Seq<SelectionModel>) -> Seq<Entity>
    decreases selected.len(),
{
    if selected.len() == 0 {
        Seq::empty()
    } else {
        all_entities(selected.drop_last()) + selected.last().entities
    }
}

/// The entities of a list, each once, in the order in which they first stand
/// in the list.
pub open spec fn distinct(entities: Seq<Entity>) -> Seq<Entity>
    decreases entities.len(),
{
    if entities.len() == 0 {
        Seq::empty()
    } else {
        let before = distinct(entities.drop_last());
        if before.contains(entities.last()) {
            before
        } else {
            before.push(entities.last())
        }
    }
}

/// The style of an entity after one sheet was applied to it: the rules of the
/// selectors that have selected the entity, in the order of the cascade.
pub open spec fn entity_style(
    style: Seq<StyleEntryModel>,
    sheet: StyleSheetModel,
    handle: SheetHandle,
    selected: Seq<SelectionModel>,
    entity: Entity,
) -> Seq<StyleEntryModel> {
    apply_selectors(style, sheet, handle, sorted_selectors(matching(selected, entity)))
}

/// An entity and its style.
#[derive(Debug)]
pub struct EntityStyle {
    pub entity: Entity,
    pub style: ComputedStyle,
}

/// What an [`EntityStyle`] holds.
pub struct EntityStyleModel {
    pub entity: Entity,
    pub style: Seq<StyleEntryModel>,
}

impl View for EntityStyle {
    type V = EntityStyleModel;

    open spec fn view(&self) -> EntityStyleModel {
        EntityStyleModel { entity: self.entity, style: self.style@ }
    }
}

/// The place of an entity in a state, or the length of the state where the
/// entity is not in it.
pub open spec fn state_place(state: Seq<EntityStyleModel>, entity: Entity) -> int {
    first_index(state, |e: EntityStyleModel| e.entity == entity)
}

/// The style of an entity in a state; empty where the entity is not in it.
pub open spec fn style_in(state: Seq<EntityStyleModel>, entity: Entity) -> Seq<StyleEntryModel> {
    let at = state_place(state, entity);
    if 0 <= at < state.len() {
        state[at].style
    } else {
        Seq::empty()
    }
}

/// A state with a style for an entity, in place of the style that the entity
/// had, or at the end.
pub open spec fn state_with(
    state: Seq<EntityStyleModel>,
    entity: Entity,
    style: Seq<StyleEntryModel>,
) -> Seq<EntityStyleModel> {
    let at = state_place(state, entity);
    if 0 <= at < state.len() {
        state.update(at, EntityStyleModel { entity, style })
    } else {
        state.push(EntityStyleModel { entity, style })
    }
}

/// A state after one sheet was applied to the entities of a list, one after
/// the other.
pub open spec fn apply_entities(
    state: Seq<EntityStyleModel>,
    sheet: StyleSheetModel,
    handle: SheetHandle,
    selected: Seq<SelectionModel>,
    entities: Seq<Entity>,
) -> Seq<EntityStyleModel>
    decreases entities.len(),
{
    if entities.len() == 0 {
        state
    } else {
        let before = apply_entities(state, sheet, handle, selected, entities.drop_last());
        let entity = entities.last();
        state_with(
            before,
            entity,
            entity_style(style_in(before, entity), sheet, handle, selected, entity),
        )
    }
}

/// A state after one sheet was applied to all the entities that its selectors
/// have selected.
pub open spec fn apply_sheet(
    state: Seq<EntityStyleModel>,
    sheet: StyleSheetModel,
    handle: SheetHandle,
    selected: Seq<SelectionModel>,
) -> Seq<EntityStyleModel> {
    apply_entities(state, sheet, handle, selected, distinct(all_entities(selected)))
}

/// What the selectors of one style sheet have selected.
#[derive(Debug)]
pub struct SheetSelection {
    pub stylesheet: SheetHandle,
    pub selected: SelectedEntities,
}

/// What a [`SheetSelection`] holds.
pub struct SheetSelectionModel {
    pub stylesheet: SheetHandle,
    pub selected: Seq<SelectionModel>,
}

impl View for SheetSelection {
    type V = SheetSelectionModel;

    open spec fn view(&self) -> SheetSelectionModel {
        SheetSelectionModel { stylesheet: self.stylesheet, selected: self.selected@ }
    }
}

/// The state that the selections of a list of style sheets come to: the
/// sheets are applied in the order of the list, so that a later sheet replaces
/// what an earlier one declared. A sheet that is not loaded is passed over.
pub open spec fn built(builder: Seq<SheetSelectionModel>, sheets: Seq<LoadedSheetModel>) -> Seq<
    EntityStyleModel,
>
    decreases builder.len(),
{
    if builder.len() == 0 {
        Seq::empty()
    } else {
        let before = built(builder.drop_last(), sheets);
        let last = builder.last();
        match loaded(sheets, last.stylesheet) {
            Some(sheet) => apply_sheet(before, sheet, last.stylesheet, last.selected),
            None => before,
        }
    }
}

/// The place in a list of the selections of a style sheet, or the length of
/// the list where there are none.
pub open spec fn builder_place(builder: Seq<SheetSelectionModel>, handle: SheetHandle) -> int {
    first_index(builder, |s: SheetSelectionModel| s.stylesheet == handle)
}

/// The selections of a list of style sheets after a selector of a sheet has
/// selected more entities. A sheet that has no selections yet goes to the end
/// of the list.
pub open spec fn builder_with(
    builder: Seq<SheetSelectionModel>,
    handle: SheetHandle,
    selector: SelectorModel,
    entities: Seq<Entity>,
) -> Seq<SheetSelectionModel> {
    let at = builder_place(builder, handle);
    if 0 <= at < builder.len() {
        builder.update(
            at,
            SheetSelectionModel {
                stylesheet: handle,
                selected: super::selected_entities::with_selection(
                    builder[at].selected,
                    selector,
                    entities,
                ),
            },
        )
    } else {
        builder.push(
            SheetSelectionModel {
                stylesheet: handle,
                selected: super::selected_entities::with_selection(
                    Seq::empty(),
                    selector,
                    entities,
                ),
            },
        )
    }
}

/// Applying a declaration of a property gives the property that source and
/// leaves every other property as it was.
pub proof fn lemma_style_with(
    style: Seq<StyleEntryModel>,
    property: Seq<char>,
    source: StyleSourceModel,
    other: Seq<char>,
)
    ensures
        source_of(style_with(style, property, source), other) == if other == property {
            Some(source)
        } else {
            source_of(style, other)
        },
{
    let entry = StyleEntryModel { property, source };
    let own = |e: StyleEntryModel| e.property == property;
    let others = |e: StyleEntryModel| e.property == other;
    let at = style_place(style, property);
    lemma_first_index(style, own);
    lemma_first_index(style, others);
    if at < style.len() {
        lemma_first_index_update(style, own, at, entry);
        lemma_first_index_update(style, others, at, entry);
    } else {
        lemma_first_index_push(style, own, entry);
        lemma_first_index_push(style, others, entry);
    }
}

/// Applying the declarations of a rule gives the properties of the rule that
/// source and leaves every other property as it was.
pub proof fn lemma_apply_names(
    style: Seq<StyleEntryModel>,
    names: Seq<Seq<char>>,
    source: StyleSourceModel,
    property: Seq<char>,
)
    ensures
        source_of(apply_names(style, names, source), property) == if names.contains(property) {
            Some(source)
        } else {
            source_of(style, property)
        },
    decreases names.len(),
{
    if names.len() > 0 {
        let front = names.drop_last();
        lemma_apply_names(style, front, source, property);
        lemma_style_with(apply_names(style, front, source), names.last(), source, property);
        if names.contains(property) && names.last() != property {
            let k = choose|k: int| 0 <= k < names.len() && names[k] == property;
            assert(front[k] == property);
        }
        if front.contains(property) {
            let k = choose|k: int| 0 <= k < front.len() && front[k] == property;
            assert(names[k] == property);
        }
        if names.last() == property {
            assert(names[names.len() - 1] == property);
        }
    }
}

/// Whether the rule of a selector declares a property in a sheet.
pub open spec fn declares(sheet: StyleSheetModel, selector: SelectorModel, property: Seq<char>) -> bool {
    declared_names(sheet, selector).contains(property)
}

/// The last rule wins: after the rules of a list of selectors were applied, a
/// property comes from the last selector of the list whose rule declares it, and
/// is as it was where no rule of the list declares it.
pub proof fn lemma_last_rule_wins(
    style: Seq<StyleEntryModel>,
    sheet: StyleSheetModel,
    handle: SheetHandle,
    selectors: Seq<SelectorModel>,
    property: Seq<char>,
)
    ensures
        (forall|k: int| 0 <= k < selectors.len() ==> !declares(sheet, #[trigger] selectors[k], property))
            ==> source_of(apply_selectors(style, sheet, handle, selectors), property)
            == source_of(style, property),
        forall|k: int|
            0 <= k < selectors.len() && declares(sheet, #[trigger] selectors[k], property) && (
            forall|j: int| k < j < selectors.len() ==> !declares(sheet, #[trigger] selectors[j], property))
                ==> source_of(apply_selectors(style, sheet, handle, selectors), property) == Some(
                StyleSourceModel { stylesheet: handle, selector: selectors[k] },
            ),
    decreases selectors.len(),
{
    if selectors.len() > 0 {
        let front = selectors.drop_last();
        let last = selectors.last();
        let before = apply_selectors(style, sheet, handle, front);
        lemma_last_rule_wins(style, sheet, handle, front, property);
        lemma_apply_names(
            before,
            declared_names(sheet, last),
            StyleSourceModel { stylesheet: handle, selector: last },
            property,
        );
        if forall|k: int| 0 <= k < selectors.len() ==> !declares(sheet, #[trigger] selectors[k], property) {
            assert(!declares(sheet, selectors[selectors.len() - 1], property));
            assert forall|k: int| 0 <= k < front.len() implies !declares(
                sheet,
                #[trigger] front[k],
                property,
            ) by {
                assert(front[k] == selectors[k]);
            }
        }
        assert forall|k: int|
            0 <= k < selectors.len() && declares(sheet, #[trigger] selectors[k], property) && (
            forall|j: int| k < j < selectors.len() ==> !declares(sheet, #[trigger] selectors[j], property))
            implies source_of(apply_selectors(style, sheet, handle, selectors), property) == Some(
            StyleSourceModel { stylesheet: handle, selector: selectors[k] },
        ) by {
            if k < selectors.len() - 1 {
                assert(!declares(sheet, selectors[selectors.len() - 1], property));
                assert(front[k] == selectors[k]);
                assert forall|j: int| k < j < front.len() implies !declares(
                    sheet,
                    #[trigger] front[j],
                    property,
                ) by {
                    assert(front[j] == selectors[j]);
                }
            }
        }
    }
}

/// Sorting keeps the selectors and puts them in the order of the cascade: no
/// selector of the sorted list sorts before one that stands before it.
pub proof fn lemma_sorted_selectors(selectors: Seq<SelectorModel>)
    ensures
        sorted_selectors(selectors).to_multiset() == selectors.to_multiset(),
        sorted_selectors(selectors).len() == selectors.len(),
        forall|i: int, j: int|
            0 <= i < j < sorted_selectors(selectors).len() ==> !(
            #[trigger] sorted_selectors(selectors)[j]).sorts_before(
                #[trigger] sorted_selectors(selectors)[i],
            ),
    decreases selectors.len(),
{
    broadcast use vstd::seq_lib::group_to_multiset_ensures;

    if selectors.len() > 0 {
        let front = selectors.drop_last();
        let last = selectors.last();
        lemma_sorted_selectors(front);
        let before = sorted_selectors(front);
        let at = sorted_place(before, last);
        lemma_first_index(before, |other: SelectorModel| last.sorts_before(other));
        let after = before.insert(at, last);
        assert(selectors =~= front.push(last));
        vstd::seq_lib::to_multiset_insert(before, at, last);
        assert forall|i: int, j: int| 0 <= i < j < after.len() implies !(
        #[trigger] after[j]).sorts_before(#[trigger] after[i]) by {
            if j < at {
                assert(after[i] == before[i] && after[j] == before[j]);
            } else if j == at {
                assert(after[i] == before[i]);
                assert(!last.sorts_before(before[i]));
            } else if i == at {
                assert(after[j] == before[j - 1]);
                if j - 1 > at {
                    assert(!before[j - 1].sorts_before(before[at]));
                }
                assert(last.sorts_before(before[at]));
            } else if i < at {
                assert(after[i] == before[i] && after[j] == before[j - 1]);
            } else {
                assert(after[i] == before[i - 1] && after[j] == before[j - 1]);
            }
        }
    }
}

/// The winner of the cascade: where a rule of a selector that has selected an
/// entity declares a property, the property of the entity comes, after the
/// sheet was applied, from such a rule, and from one whose selector sorts before
/// no other of them. So the rule with the most names wins, then the one with the
/// most classes, then the one with the most components, and of equals the one
/// declared last.
pub proof fn lemma_cascade_winner(
    style: Seq<StyleEntryModel>,
    sheet: StyleSheetModel,
    handle: SheetHandle,
    selected: Seq<SelectionModel>,
    entity: Entity,
    property: Seq<char>,
)
    requires
        exists|i: int|
            0 <= i < matching(selected, entity).len() && declares(
                sheet,
                #[trigger] matching(selected, entity)[i],
                property,
            ),
    ensures
        source_of(entity_style(style, sheet, handle, selected, entity), property) is Some,
        ({
            let winner = source_of(
                entity_style(style, sheet, handle, selected, entity),
                property,
            )->0;
            &&& winner.stylesheet == handle
            &&& matching(selected, entity).contains(winner.selector)
            &&& declares(sheet, winner.selector, property)
            &&& forall|i: int|
                0 <= i < matching(selected, entity).len() && declares(
                    sheet,
                    #[trigger] matching(selected, entity)[i],
                    property,
                ) ==> !winner.selector.sorts_before(matching(selected, entity)[i])
        }),
{
    broadcast use vstd::seq_lib::group_to_multiset_ensures;

    let found = matching(selected, entity);
    let sorted = sorted_selectors(found);
    let declaring = |s: SelectorModel| declares(sheet, s, property);
    lemma_sorted_selectors(found);
    let i = choose|i: int| 0 <= i < found.len() && declares(sheet, #[trigger] found[i], property);
    assert(found.contains(found[i]));
    assert(found.to_multiset().count(found[i]) > 0);
    assert(sorted.to_multiset().count(found[i]) > 0);
    assert(sorted.contains(found[i]));
    let at = choose|at: int| 0 <= at < sorted.len() && sorted[at] == found[i];
    assert(declaring(sorted[at]));
    let last = lemma_last_of(sorted, declaring);
    lemma_last_rule_wins(style, sheet, handle, sorted, property);
    assert(declares(sheet, sorted[last], property));
    assert forall|j: int| last < j < sorted.len() implies !declares(
        sheet,
        #[trigger] sorted[j],
        property,
    ) by {
        assert(!declaring(sorted[j]));
    }
    let winner = sorted[last];
    assert(sorted.contains(winner));
    assert(sorted.to_multiset().count(winner) > 0);
    assert(found.to_multiset().count(winner) > 0);
    assert(found.contains(winner));
    assert forall|i: int|
        0 <= i < found.len() && declares(sheet, #[trigger] found[i], property) implies !winner.sorts_before(
        found[i],
    ) by {
        assert(found.contains(found[i]));
        assert(found.to_multiset().count(found[i]) > 0);
        assert(sorted.to_multiset().count(found[i]) > 0);
        assert(sorted.contains(found[i]));
        let j = choose|j: int| 0 <= j < sorted.len() && sorted[j] == found[i];
        if j > last {
            assert(!declaring(sorted[j]));
        } else if j < last {
            assert(!sorted[last].sorts_before(sorted[j]));
        }
    }
}

/// Putting a style for an entity into a state gives the entity that style
/// and leaves the style of every other entity as it was.
pub proof fn lemma_state_with(
    state: Seq<EntityStyleModel>,
    entity: Entity,
    style: Seq<StyleEntryModel>,
    other: Entity,
)
    ensures
        style_in(state_with(state, entity, style), other) == if other == entity {
            style
        } else {
            style_in(state, other)
        },
{
    let entry = EntityStyleModel { entity, style };
    let own = |e: EntityStyleModel| e.entity == entity;
    let others = |e: EntityStyleModel| e.entity == other;
    let at = state_place(state, entity);
    lemma_first_index(state, own);
    lemma_first_index(state, others);
    if at < state.len() {
        lemma_first_index_update(state, own, at, entry);
        lemma_first_index_update(state, others, at, entry);
    } else {
        lemma_first_index_push(state, own, entry);
        lemma_first_index_push(state, others, entry);
    }
}

/// The entities of a list, each once: no entity stands twice among them, and
/// they are the entities of the list.
pub proof fn lemma_distinct(entities: Seq<Entity>, entity: Entity)
    ensures
        forall|i: int, j: int|
            0 <= i < j < distinct(entities).len() ==> distinct(entities)[i] != distinct(
                entities,
            )[j],
        distinct(entities).contains(entity) <==> entities.contains(entity),
    decreases entities.len(),
{
    if entities.len() > 0 {
        let front = entities.drop_last();
        let last = entities.last();
        let before = distinct(front);
        lemma_distinct(front, entity);
        if entities.contains(entity) && entity != last {
            let k = choose|k: int| 0 <= k < entities.len() && entities[k] == entity;
            assert(front[k] == entity);
        }
        if front.contains(entity) {
            let k = choose|k: int| 0 <= k < front.len() && front[k] == entity;
            assert(entities[k] == entity);
        }
        assert(entities[entities.len() - 1] == last);
        if !before.contains(last) {
            let after = before.push(last);
            assert(after[before.len() as int] == last);
            if before.contains(entity) {
                let k = choose|k: int| 0 <= k < before.len() && before[k] == entity;
                assert(after[k] == entity);
            }
            if after.contains(entity) && entity != last {
                let k = choose|k: int| 0 <= k < after.len() && after[k] == entity;
                assert(before[k] == entity);
            }
            assert forall|i: int, j: int| 0 <= i < j < after.len() implies after[i]
                != after[j] by {
                if j == before.len() {
                    assert(before[i] == after[i]);
                }
            }
        }
    }
}

/// The entities of a list of selections are those that one of the selections
/// holds.
pub proof fn lemma_all_entities(selected: Seq<SelectionModel>, entity: Entity)
    ensures
        all_entities(selected).contains(entity) <==> exists|i: int|
            0 <= i < selected.len() && (#[trigger] selected[i]).entities.contains(entity),
    decreases selected.len(),
{
    if selected.len() > 0 {
        let front = selected.drop_last();
        let last = selected.last().entities;
        let before = all_entities(front);
        let all = before + last;
        lemma_all_entities(front, entity);
        if all.contains(entity) {
            let k = choose|k: int| 0 <= k < all.len() && all[k] == entity;
            if k < before.len() {
                assert(before[k] == entity);
                let i = choose|i: int|
                    0 <= i < front.len() && (#[trigger] front[i]).entities.contains(entity);
                assert(selected[i] == front[i]);
            } else {
                assert(last[k - before.len()] == entity);
                assert(selected[selected.len() - 1].entities.contains(entity));
            }
        }
        if exists|i: int|
            0 <= i < selected.len() && (#[trigger] selected[i]).entities.contains(entity) {
            let i = choose|i: int|
                0 <= i < selected.len() && (#[trigger] selected[i]).entities.contains(entity);
            if i < front.len() {
                assert(front[i] == selected[i]);
                let k = choose|k: int| 0 <= k < before.len() && before[k] == entity;
                assert(all[k] == entity);
            } else {
                let k = choose|k: int| 0 <= k < last.len() && last[k] == entity;
                assert(all[before.len() + k] == entity);
            }
        }
    }
}

/// A selector that has selected an entity stands in a selection that holds
/// the entity.
pub proof fn lemma_matching_is_selected(selected: Seq<SelectionModel>, entity: Entity)
    requires
        matching(selected, entity).len() > 0,
    ensures
        all_entities(selected).contains(entity),
{
    let holds = |s: SelectionModel| s.entities.contains(entity);
    let kept = selected.filter(holds);
    assert(kept.contains(kept[0]));
    crate::seqs::lemma_filter_member(selected, holds, kept[0]);
    let i = choose|i: int| 0 <= i < selected.len() && selected[i] == kept[0];
    assert(selected[i].entities.contains(entity));
    lemma_all_entities(selected, entity);
}

/// After one sheet was applied to the entities of a list that holds no entity
/// twice, the style of an entity of the list is the cascade of the sheet over the
/// style that it had, and the style of any other entity is as it was.
pub proof fn lemma_apply_entities(
    state: Seq<EntityStyleModel>,
    sheet: StyleSheetModel,
    handle: SheetHandle,
    selected: Seq<SelectionModel>,
    entities: Seq<Entity>,
    entity: Entity,
)
    requires
        forall|i: int, j: int| 0 <= i < j < entities.len() ==> entities[i] != entities[j],
    ensures
        style_in(apply_entities(state, sheet, handle, selected, entities), entity)
            == if entities.contains(entity) {
            entity_style(style_in(state, entity), sheet, handle, selected, entity)
        } else {
            style_in(state, entity)
        },
    decreases entities.len(),
{
    if entities.len() > 0 {
        let front = entities.drop_last();
        let last = entities.last();
        let before = apply_entities(state, sheet, handle, selected, front);
        lemma_apply_entities(state, sheet, handle, selected, front, entity);
        lemma_state_with(
            before,
            last,
            entity_style(style_in(before, last), sheet, handle, selected, last),
            entity,
        );
        assert(entities[entities.len() - 1] == last);
        if front.contains(entity) {
            let k = choose|k: int| 0 <= k < front.len() && front[k] == entity;
            assert(entities[k] == entity);
        }
        if entities.contains(entity) && entity != last {
            let k = choose|k: int| 0 <= k < entities.len() && entities[k] == entity;
            assert(front[k] == entity);
        }
    }
}

/// Whether a rule of the style sheet of a selection declares a property for
/// an entity: the sheet is loaded, and the rule of a selector that has selected
/// the entity declares the property.
pub open spec fn sheet_declares(
    selection: SheetSelectionModel,
    sheets: Seq<LoadedSheetModel>,
    entity: Entity,
    property: Seq<char>,
) -> bool {
    match loaded(sheets, selection.stylesheet) {
        Some(sheet) => exists|i: int|
            0 <= i < matching(selection.selected, entity).len() && declares(
                sheet,
                #[trigger] matching(selection.selected, entity)[i],
                property,
            ),
        None => false,
    }
}

/// Whether a declaration is the winner of the cascade of one style sheet for
/// a property of an entity: it comes from the rule of a selector of that sheet
/// that has selected the entity and declares the property, and its selector
/// sorts before no other such selector.
pub open spec fn wins(
    source: Option<StyleSourceModel>,
    selection: SheetSelectionModel,
    sheets: Seq<LoadedSheetModel>,
    entity: Entity,
    property: Seq<char>,
) -> bool {
    match (source, loaded(sheets, selection.stylesheet)) {
        (Some(winner), Some(sheet)) => {
            &&& winner.stylesheet == selection.stylesheet
            &&& matching(selection.selected, entity).contains(winner.selector)
            &&& declares(sheet, winner.selector, property)
            &&& forall|i: int|
                0 <= i < matching(selection.selected, entity).len() && declares(
                    sheet,
                    #[trigger] matching(selection.selected, entity)[i],
                    property,
                ) ==> !winner.selector.sorts_before(matching(selection.selected, entity)[i])
        },
        _ => false,
    }
}

/// What one style sheet does to a property of an entity: where a rule of the
/// sheet declares the property for the entity, the winner of the cascade of the
/// sheet takes the place of what the entity had, and else the property is as it
/// was.
pub proof fn lemma_apply_sheet(
    state: Seq<EntityStyleModel>,
    selection: SheetSelectionModel,
    sheets: Seq<LoadedSheetModel>,
    entity: Entity,
    property: Seq<char>,
)
    requires
        loaded(sheets, selection.stylesheet) is Some,
    ensures
        ({
            let after = apply_sheet(
                state,
                loaded(sheets, selection.stylesheet)->0,
                selection.stylesheet,
                selection.selected,
            );
            if sheet_declares(selection, sheets, entity, property) {
                wins(source_of(style_in(after, entity), property), selection, sheets, entity, property)
            } else {
                source_of(style_in(after, entity), property) == source_of(
                    style_in(state, entity),
                    property,
                )
            }
        }),
{
    broadcast use vstd::seq_lib::group_to_multiset_ensures;

    let sheet = loaded(sheets, selection.stylesheet)->0;
    let handle = selection.stylesheet;
    let selected = selection.selected;
    let entities = distinct(all_entities(selected));
    let found = matching(selected, entity);
    let style = style_in(state, entity);
    lemma_distinct(all_entities(selected), entity);
    lemma_apply_entities(state, sheet, handle, selected, entities, entity);
    if sheet_declares(selection, sheets, entity, property) {
        lemma_matching_is_selected(selected, entity);
        lemma_cascade_winner(style, sheet, handle, selected, entity, property);
    } else if entities.contains(entity) {
        let sorted = sorted_selectors(found);
        lemma_sorted_selectors(found);
        assert forall|k: int| 0 <= k < sorted.len() implies !declares(
            sheet,
            #[trigger] sorted[k],
            property,
        ) by {
            assert(sorted.contains(sorted[k]));
            assert(sorted.to_multiset().count(sorted[k]) > 0);
            assert(found.to_multiset().count(sorted[k]) > 0);
            assert(found.contains(sorted[k]));
            let i = choose|i: int| 0 <= i < found.len() && found[i] == sorted[k];
            assert(!declares(sheet, found[i], property));
        }
        lemma_last_rule_wins(style, sheet, handle, sorted, property);
    }
}

/// The cascade over the style sheets: in the state that the selections of a
/// list of style sheets come to, a property of an entity comes from the last
/// sheet of the list of which a rule declares it for the entity, and there from
/// the rule whose selector sorts before no other such selector of that sheet.
/// Where no rule of any sheet declares the property for the entity, the entity
/// has no declaration of it.
pub proof fn lemma_built_winner(
    builder: Seq<SheetSelectionModel>,
    sheets: Seq<LoadedSheetModel>,
    entity: Entity,
    property: Seq<char>,
)
    ensures
        (forall|k: int|
            0 <= k < builder.len() ==> !sheet_declares(
                #[trigger] builder[k],
                sheets,
                entity,
                property,
            )) ==> source_of(style_in(built(builder, sheets), entity), property) is None,
        forall|k: int|
            0 <= k < builder.len() && sheet_declares(#[trigger] builder[k], sheets, entity, property)
                && (forall|j: int|
                k < j < builder.len() ==> !sheet_declares(
                    #[trigger] builder[j],
                    sheets,
                    entity,
                    property,
                )) ==> wins(
                source_of(style_in(built(builder, sheets), entity), property),
                builder[k],
                sheets,
                entity,
                property,
            ),
    decreases builder.len(),
{
    if builder.len() == 0 {
        lemma_first_index(
            Seq::<EntityStyleModel>::empty(),
            |e: EntityStyleModel| e.entity == entity,
        );
        lemma_first_index(
            Seq::<StyleEntryModel>::empty(),
            |e: StyleEntryModel| e.property == property,
        );
    } else {
        let front = builder.drop_last();
        let last = builder.last();
        let before = built(front, sheets);
        lemma_built_winner(front, sheets, entity, property);
        if loaded(sheets, last.stylesheet) is Some {
            lemma_apply_sheet(before, last, sheets, entity, property);
        }
        if forall|k: int|
            0 <= k < builder.len() ==> !sheet_declares(
                #[trigger] builder[k],
                sheets,
                entity,
                property,
            ) {
            assert(!sheet_declares(builder[builder.len() - 1], sheets, entity, property));
            assert forall|k: int| 0 <= k < front.len() implies !sheet_declares(
                #[trigger] front[k],
                sheets,
                entity,
                property,
            ) by {
                assert(front[k] == builder[k]);
            }
        }
        assert forall|k: int|
            0 <= k < builder.len() && sheet_declares(#[trigger] builder[k], sheets, entity, property)
                && (forall|j: int|
                k < j < builder.len() ==> !sheet_declares(
                    #[trigger] builder[j],
                    sheets,
                    entity,
                    property,
                )) implies wins(
            source_of(style_in(built(builder, sheets), entity), property),
            builder[k],
            sheets,
            entity,
            property,
        ) by {
            if k < builder.len() - 1 {
                assert(!sheet_declares(builder[builder.len() - 1], sheets, entity, property));
                assert(front[k] == builder[k]);
                assert forall|j: int| k < j < front.len() implies !sheet_declares(
                    #[trigger] front[j],
                    sheets,
                    entity,
                    property,
                ) by {
                    assert(front[j] == builder[j]);
                }
            }
        }
    }
}

/// Whether a style holds one declaration at most for each property.
pub open spec fn each_property_once(style: Seq<StyleEntryModel>) -> bool {
    forall|i: int, j: int| 0 <= i < j < style.len() ==> style[i].property != style[j].property
}

/// Whether a state holds each entity once at most, and for each entity one
/// declaration at most for each property.
pub open spec fn each_entity_once(state: Seq<EntityStyleModel>) -> bool {
    &&& forall|i: int, j: int| 0 <= i < j < state.len() ==> state[i].entity != state[j].entity
    &&& forall|i: int| 0 <= i < state.len() ==> each_property_once((#[trigger] state[i]).style)
}

/// A style with one declaration for each property has one for each after a
/// declaration was applied.
pub proof fn lemma_style_with_once(
    style: Seq<StyleEntryModel>,
    property: Seq<char>,
    source: StyleSourceModel,
)
    requires
        each_property_once(style),
    ensures
        each_property_once(style_with(style, property, source)),
{
    let own = |e: StyleEntryModel| e.property == property;
    let at = style_place(style, property);
    let after = style_with(style, property, source);
    lemma_first_index(style, own);
    assert forall|i: int, j: int| 0 <= i < j < after.len() implies after[i].property
        != after[j].property by {
        if at < style.len() {
            assert(own(style[at]));
            assert(after[i].property == style[i].property);
            assert(after[j].property == style[j].property);
        } else if j == style.len() {
            assert(!own(style[i]));
        }
    }
}

/// A style with one declaration for each property has one for each after the
/// declarations of a rule were applied.
pub proof fn lemma_apply_names_once(
    style: Seq<StyleEntryModel>,
    names: Seq<Seq<char>>,
    source: StyleSourceModel,
)
    requires
        each_property_once(style),
    ensures
        each_property_once(apply_names(style, names, source)),
    decreases names.len(),
{
    if names.len() > 0 {
        lemma_apply_names_once(style, names.drop_last(), source);
        lemma_style_with_once(apply_names(style, names.drop_last(), source), names.last(), source);
    }
}

/// A style with one declaration for each property has one for each after the
/// rules of a list of selectors were applied.
pub proof fn lemma_apply_selectors_once(
    style: Seq<StyleEntryModel>,
    sheet: StyleSheetModel,
    handle: SheetHandle,
    selectors: Seq<SelectorModel>,
)
    requires
        each_property_once(style),
    ensures
        each_property_once(apply_selectors(style, sheet, handle, selectors)),
    decreases selectors.len(),
{
    if selectors.len() > 0 {
        lemma_apply_selectors_once(style, sheet, handle, selectors.drop_last());
        lemma_apply_names_once(
            apply_selectors(style, sheet, handle, selectors.drop_last()),
            declared_names(sheet, selectors.last()),
            StyleSourceModel { stylesheet: handle, selector: selectors.last() },
        );
    }
}

/// A state that holds each entity once holds each once after a style was put
/// in for an entity.
pub proof fn lemma_state_with_once(
    state: Seq<EntityStyleModel>,
    entity: Entity,
    style: Seq<StyleEntryModel>,
)
    requires
        each_entity_once(state),
        each_property_once(style),
    ensures
        each_entity_once(state_with(state, entity, style)),
{
    let own = |e: EntityStyleModel| e.entity == entity;
    let at = state_place(state, entity);
    let after = state_with(state, entity, style);
    lemma_first_index(state, own);
    assert forall|i: int, j: int| 0 <= i < j < after.len() implies after[i].entity
        != after[j].entity by {
        if at < state.len() {
            assert(own(state[at]));
            assert(after[i].entity == state[i].entity);
            assert(after[j].entity == state[j].entity);
        } else if j == state.len() {
            assert(!own(state[i]));
        }
    }
    assert forall|i: int| 0 <= i < after.len() implies each_property_once(
        (#[trigger] after[i]).style,
    ) by {
        if i < state.len() && i != at {
            assert(after[i] == state[i]);
        }
    }
}

/// A state that holds each entity once holds each once after a sheet was
/// applied to entities.
pub proof fn lemma_apply_entities_once(
    state: Seq<EntityStyleModel>,
    sheet: StyleSheetModel,
    handle: SheetHandle,
    selected: Seq<SelectionModel>,
    entities: Seq<Entity>,
)
    requires
        each_entity_once(state),
    ensures
        each_entity_once(apply_entities(state, sheet, handle, selected, entities)),
    decreases entities.len(),
{
    if entities.len() > 0 {
        let before = apply_entities(state, sheet, handle, selected, entities.drop_last());
        let entity = entities.last();
        lemma_apply_entities_once(state, sheet, handle, selected, entities.drop_last());
        lemma_first_index(before, |e: EntityStyleModel| e.entity == entity);
        let had = style_in(before, entity);
        assert(each_property_once(had)) by {
            let at = state_place(before, entity);
            if at < before.len() {
                assert(each_property_once(before[at].style));
            }
        }
        lemma_apply_selectors_once(
            had,
            sheet,
            handle,
            sorted_selectors(matching(selected, entity)),
        );
        lemma_state_with_once(
            before,
            entity,
            entity_style(had, sheet, handle, selected, entity),
        );
    }
}

/// One winner: the state that selections come to holds each entity once at
/// most, and for each entity one declaration at most for each property.
pub proof fn lemma_built_once(builder: Seq<SheetSelectionModel>, sheets: Seq<LoadedSheetModel>)
    ensures
        each_entity_once(built(builder, sheets)),
    decreases builder.len(),
{
    if builder.len() > 0 {
        let last = builder.last();
        lemma_built_once(builder.drop_last(), sheets);
        match loaded(sheets, last.stylesheet) {
            Some(sheet) => {
                lemma_apply_entities_once(
                    built(builder.drop_last(), sheets),
                    sheet,
                    last.stylesheet,
                    last.selected,
                    distinct(all_entities(last.selected)),
                );
            },
            None => {},
        }
    }
}

/// The winning declaration of each property of one entity, in the order in
/// which the properties were first declared.
#[derive(Debug, Default)]
pub struct ComputedStyle {
    entries: Vec<StyleEntry>,
}

impl View for ComputedStyle {
    type V = Seq<StyleEntryModel>;

    closed spec fn view(&self) -> Seq<StyleEntryModel> {
        self.entries@.map_values(|e: StyleEntry| e@)
    }
}

impl ComputedStyle {
    /// A style without a declaration.
    pub fn new() -> (style: ComputedStyle)
        ensures
            style@ == Seq::<StyleEntryModel>::empty(),
    {
        let style = ComputedStyle { entries: Vec::new() };
        assert(style@ =~= Seq::<StyleEntryModel>::empty());
        style
    }

    /// How many properties the style declares.
    pub fn len(&self) -> (len: usize)
        ensures
            len == self@.len(),
    {
        self.entries.len()
    }

    /// The declarations, in the order in which the properties were first
    /// declared.
    pub fn entries(&self) -> (entries: &Vec<StyleEntry>)
        ensures
            entries@.map_values(|e: StyleEntry| e@) == self@,
    {
        &self.entries
    }

    fn find(&self, property: &str) -> (at: usize)
        ensures
            at == style_place(self@, property@),
            at <= self.entries.len(),
    {
        let ghost pred = |e: StyleEntryModel| e.property == property@;
        let mut i: usize = 0;
        while i < self.entries.len()
            invariant
                i <= self.entries.len(),
                pred == |e: StyleEntryModel| e.property == property@,
                forall|k: int| 0 <= k < i ==> !pred(#[trigger] self@[k]),
            decreases self.entries.len() - i,
        {
            assert(self@[i as int] == self.entries@[i as int]@);
            if same_text(self.entries[i].property.as_str(), property) {
                proof {
                    lemma_first_index_is(self@, pred, i as int);
                }
                return i;
            }
            i += 1;
        }
        proof {
            lemma_first_index_is(self@, pred, i as int);
        }
        i
    }

    /// Where the declaration of a property comes from, if the style has one.
    pub fn get(&self, property: &str) -> (source: Option<&StyleSource>)
        ensures
            match source {
                Some(s) => source_of(self@, property@) == Some(s@),
                None => source_of(self@, property@) is None,
            },
    {
        let at = self.find(property);
        if at < self.entries.len() {
            assert(self@[at as int] == self.entries@[at as int]@);
            Some(&self.entries[at].source)
        } else {
            None
        }
    }

    /// Applies a declaration of a property, in place of what the style had
    /// for the property.
    pub fn insert(&mut self, property: String, source: StyleSource)
        ensures
            final(self)@ == style_with(old(self)@, property@, source@),
    {
        let at = self.find(property.as_str());
        let ghost before = self@;
        let entry = StyleEntry { property, source };
        if at < self.entries.len() {
            self.entries.set(at, entry);
            assert(self@ =~= before.update(at as int, entry@));
        } else {
            self.entries.push(entry);
            assert(self@ =~= before.push(entry@));
        }
    }

    /// Applies the declarations of the rule of a selector, property by
    /// property.
    pub fn apply_names(&mut self, names: &Vec<String>, handle: SheetHandle, selector: &Selector)
        ensures
            final(self)@ == apply_names(
                old(self)@,
                names@.map_values(|s: String| s@),
                StyleSourceModel { stylesheet: handle, selector: selector@ },
            ),
    {
        let ghost models = names@.map_values(|s: String| s@);
        let ghost source = StyleSourceModel { stylesheet: handle, selector: selector@ };
        let mut i: usize = 0;
        while i < names.len()
            invariant
                i <= names.len(),
                models == names@.map_values(|s: String| s@),
                source == (StyleSourceModel { stylesheet: handle, selector: selector@ }),
                self@ == apply_names(old(self)@, models.take(i as int), source),
            decreases names.len() - i,
        {
            proof {
                assert(models.take(i + 1).drop_last() == models.take(i as int));
                assert(models.take(i + 1).last() == names@[i as int]@);
            }
            self.insert(
                names[i].clone(),
                StyleSource { stylesheet: handle, selector: selector.duplicate() },
            );
            i += 1;
        }
        assert(models.take(names.len() as int) == models);
    }

    /// Applies the rules of a list of selectors, first to last.
    pub fn apply_selectors(
        &mut self,
        sheet: &StyleSheetAsset,
        handle: SheetHandle,
        selectors: &Vec<&Selector>,
    )
        ensures
            final(self)@ == apply_selectors(old(self)@, sheet@, handle, selector_models(selectors@)),
    {
        let ghost models = selector_models(selectors@);
        let mut i: usize = 0;
        while i < selectors.len()
            invariant
                i <= selectors.len(),
                models == selector_models(selectors@),
                self@ == apply_selectors(old(self)@, sheet@, handle, models.take(i as int)),
            decreases selectors.len() - i,
        {
            proof {
                assert(models.take(i + 1).drop_last() == models.take(i as int));
                assert(models.take(i + 1).last() == selectors@[i as int]@);
            }
            let selector = selectors[i];
            match sheet.get_property_names(selector) {
                Some(names) => {
                    self.apply_names(&names, handle, selector);
                },
                None => {},
            }
            i += 1;
        }
        assert(models.take(selectors.len() as int) == models);
    }
}

/// The selectors of a list, each by what it holds.
pub open spec fn selector_models(selectors: Seq<&Selector>) -> Seq<SelectorModel> {
    selectors.map_values(|s: &Selector| s@)
}

/// Finds the selectors that have selected an entity.
pub fn matching_selectors<'a>(selected: &'a SelectedEntities, entity: Entity) -> (found: Vec<
    &'a Selector,
>)
    ensures
        selector_models(found@) == matching(selected@, entity),
{
    let entries = selected.entries();
    let ghost models = selected@;
    let ghost pred = |s: SelectionModel| s.entities.contains(entity);
    let mut found: Vec<&Selector> = Vec::new();
    let mut i: usize = 0;
    proof {
        lemma_filter_none(models.take(0), pred);
        assert(selector_models(found@) =~= models.take(0).filter(pred).map_values(
            |s: SelectionModel| s.selector,
        ));
    }
    while i < entries.len()
        invariant
            i <= entries.len(),
            models == entries@.map_values(|s: Selection| s@),
            pred == |s: SelectionModel| s.entities.contains(entity),
            selector_models(found@) == models.take(i as int).filter(pred).map_values(
                |s: SelectionModel| s.selector,
            ),
        decreases entries.len() - i,
    {
        let entry = &entries[i];
        proof {
            let next = models.take(i + 1);
            assert(next.drop_last() == models.take(i as int));
            assert(next.last() == entry@);
            lemma_filter_last(next, pred);
        }
        let ghost kept = models.take(i as int).filter(pred);
        let ghost before = selector_models(found@);
        if entry.entities.contains(entity) {
            found.push(&entry.selector);
            proof {
                assert(selector_models(found@) =~= before.push(entry.selector@));
                assert(kept.push(entry@).map_values(|s: SelectionModel| s.selector)
                    =~= kept.map_values(|s: SelectionModel| s.selector).push(entry@.selector));
            }
        }
        i += 1;
    }
    assert(models.take(entries.len() as int) == models);
    found
}

/// Sorts selectors into the order of the cascade, the weakest first.
pub fn sort_selectors<'a>(selectors: &Vec<&'a Selector>) -> (sorted: Vec<&'a Selector>)
    ensures
        selector_models(sorted@) == sorted_selectors(selector_models(selectors@)),
{
    let ghost models = selector_models(selectors@);
    let mut sorted: Vec<&Selector> = Vec::new();
    let mut i: usize = 0;
    proof {
        assert(selector_models(sorted@) =~= Seq::<SelectorModel>::empty());
    }
    while i < selectors.len()
        invariant
            i <= selectors.len(),
            models == selector_models(selectors@),
            selector_models(sorted@) == sorted_selectors(models.take(i as int)),
        decreases selectors.len() - i,
    {
        let selector = selectors[i];
        proof {
            assert(models.take(i + 1).drop_last() == models.take(i as int));
            assert(models.take(i + 1).last() == selector@);
        }
        let ghost before = selector_models(sorted@);
        let ghost pred = |other: SelectorModel| selector@.sorts_before(other);
        let mut k: usize = 0;
        while k < sorted.len() && !selector.sorts_before(sorted[k])
            invariant
                k <= sorted.len(),
                before == selector_models(sorted@),
                pred == |other: SelectorModel| selector@.sorts_before(other),
                forall|j: int| 0 <= j < k ==> !pred(#[trigger] before[j]),
            decreases sorted.len() - k,
        {
            assert(before[k as int] == sorted@[k as int]@);
            k += 1;
        }
        proof {
            if k < sorted.len() {
                assert(before[k as int] == sorted@[k as int]@);
            }
            lemma_first_index_is(before, pred, k as int);
        }
        sorted.insert(k, selector);
        proof {
            assert(selector_models(sorted@) =~= before.insert(k as int, selector@));
        }
        i += 1;
    }
    assert(models.take(selectors.len() as int) == models);
    sorted
}

/// Finds the entities that the selectors of a sheet have selected, each once.
pub fn selected_entities(selected: &SelectedEntities) -> (found: EntityList)
    ensures
        found@ == distinct(all_entities(selected@)),
{
    let entries = selected.entries();
    let ghost models = selected@;
    let mut found = EntityList::new();
    let mut i: usize = 0;
    while i < entries.len()
        invariant
            i <= entries.len(),
            models == entries@.map_values(|s: Selection| s@),
            found@ == distinct(all_entities(models.take(i as int))),
        decreases entries.len() - i,
    {
        let entities = &entries[i].entities;
        let n = entities.len();
        let ghost before = all_entities(models.take(i as int));
        proof {
            assert(models.take(i + 1).drop_last() == models.take(i as int));
            assert(models.take(i + 1).last() == entries@[i as int]@);
            assert(before + entities@.take(0) =~= before);
        }
        let mut j: usize = 0;
        while j < n
            invariant
                j <= n,
                n == entities@.len(),
                found@ == distinct(before + entities@.take(j as int)),
            decreases n - j,
        {
            let entity = match entities.get(j) {
                Some(e) => e,
                None => 0,
            };
            proof {
                let next = before + entities@.take(j + 1);
                assert(next.drop_last() =~= before + entities@.take(j as int));
                assert(next.last() == entity);
            }
            if !found.contains(entity) {
                found.push(entity);
            }
            j += 1;
        }
        proof {
            assert(entities@.take(n as int) == entities@);
        }
        i += 1;
    }
    assert(models.take(entries.len() as int) == models);
    found
}

/// The winning declarations of the entities that were selected, in the order
/// in which the entities were first selected.
#[derive(Debug, Default)]
pub struct StyleSheetState {
    entries: Vec<EntityStyle>,
}

impl View for StyleSheetState {
    type V = Seq<EntityStyleModel>;

    closed spec fn view(&self) -> Seq<EntityStyleModel> {
        self.entries@.map_values(|e: EntityStyle| e@)
    }
}

impl StyleSheetState {
    /// A state without an entity.
    pub fn new() -> (state: StyleSheetState)
        ensures
            state@ == Seq::<EntityStyleModel>::empty(),
    {
        let state = StyleSheetState { entries: Vec::new() };
        assert(state@ =~= Seq::<EntityStyleModel>::empty());
        state
    }

    /// How many entities have a style.
    pub fn len(&self) -> (len: usize)
        ensures
            len == self@.len(),
    {
        self.entries.len()
    }

    /// Whether no entity has a style.
    pub fn is_empty(&self) -> (empty: bool)
        ensures
            empty == (self@.len() == 0),
    {
        self.entries.len() == 0
    }

    /// The entities with their styles, in the order in which the entities
    /// were first selected.
    pub fn iter(&self) -> (entries: &Vec<EntityStyle>)
        ensures
            entries@.map_values(|e: EntityStyle| e@) == self@,
    {
        &self.entries
    }

    /// Forgets all styles.
    pub fn clear(&mut self)
        ensures
            final(self)@ == Seq::<EntityStyleModel>::empty(),
    {
        self.entries.clear();
        assert(self@ =~= Seq::<EntityStyleModel>::empty());
    }

    fn find(&self, entity: Entity) -> (at: usize)
        ensures
            at == state_place(self@, entity),
            at <= self.entries.len(),
    {
        let ghost pred = |e: EntityStyleModel| e.entity == entity;
        let mut i: usize = 0;
        while i < self.entries.len()
            invariant
                i <= self.entries.len(),
                pred == |e: EntityStyleModel| e.entity == entity,
                forall|k: int| 0 <= k < i ==> !pred(#[trigger] self@[k]),
            decreases self.entries.len() - i,
        {
            assert(self@[i as int] == self.entries@[i as int]@);
            if self.entries[i].entity == entity {
                proof {
                    lemma_first_index_is(self@, pred, i as int);
                }
                return i;
            }
            i += 1;
        }
        proof {
            lemma_first_index_is(self@, pred, i as int);
        }
        i
    }

    /// The style of an entity, if it has one.
    pub fn get(&self, entity: Entity) -> (style: Option<&ComputedStyle>)
        ensures
            match style {
                Some(s) => state_place(self@, entity) < self@.len() && s@ == style_in(
                    self@,
                    entity,
                ),
                None => state_place(self@, entity) >= self@.len(),
            },
    {
        let at = self.find(entity);
        if at < self.entries.len() {
            assert(self@[at as int] == self.entries@[at as int]@);
            Some(&self.entries[at].style)
        } else {
            None
        }
    }

    /// Applies one sheet to an entity: the rules of the selectors that have
    /// selected the entity, in the order of the cascade.
    pub fn apply_to_entity(
        &mut self,
        sheet: &StyleSheetAsset,
        handle: SheetHandle,
        selected: &SelectedEntities,
        entity: Entity,
    )
        ensures
            final(self)@ == state_with(
                old(self)@,
                entity,
                entity_style(style_in(old(self)@, entity), sheet@, handle, selected@, entity),
            ),
    {
        let found = matching_selectors(selected, entity);
        let sorted = sort_selectors(&found);
        let at = self.find(entity);
        let ghost before = self@;
        proof {
            lemma_first_index(before, |e: EntityStyleModel| e.entity == entity);
        }
        if at < self.entries.len() {
            assert(before[at as int] == self.entries@[at as int]@);
            let mut entry = self.entries.remove(at);
            entry.style.apply_selectors(sheet, handle, &sorted);
            self.entries.insert(at, entry);
            assert(self@ =~= before.update(at as int, entry@));
        } else {
            let mut style = ComputedStyle::new();
            style.apply_selectors(sheet, handle, &sorted);
            let entry = EntityStyle { entity, style };
            self.entries.push(entry);
            assert(self@ =~= before.push(entry@));
        }
    }

    /// Applies one sheet to all the entities that its selectors have selected.
    pub fn apply_sheet(
        &mut self,
        sheet: &StyleSheetAsset,
        handle: SheetHandle,
        selected: &SelectedEntities,
    )
        ensures
            final(self)@ == apply_sheet(old(self)@, sheet@, handle, selected@),
    {
        let entities = selected_entities(selected);
        let n = entities.len();
        let mut i: usize = 0;
        while i < n
            invariant
                i <= n,
                n == entities@.len(),
                self@ == apply_entities(
                    old(self)@,
                    sheet@,
                    handle,
                    selected@,
                    entities@.take(i as int),
                ),
            decreases n - i,
        {
            let entity = match entities.get(i) {
                Some(e) => e,
                None => 0,
            };
            proof {
                assert(entities@.take(i + 1).drop_last() == entities@.take(i as int));
                assert(entities@.take(i + 1).last() == entity);
            }
            self.apply_to_entity(sheet, handle, selected, entity);
            i += 1;
        }
        assert(entities@.take(n as int) == entities@);
    }
}

/// Maps what was selected for each style sheet, in the order in which the
/// sheets first had a selection.
#[derive(Debug, Default)]
pub struct StyleSheetStateBuilder {
    entries: Vec<SheetSelection>,
}

impl View for StyleSheetStateBuilder {
    type V = Seq<SheetSelectionModel>;

    closed spec fn view(&self) -> Seq<SheetSelectionModel> {
        self.entries@.map_values(|s: SheetSelection| s@)
    }
}

impl StyleSheetStateBuilder {
    /// Nothing selected.
    pub fn new() -> (builder: StyleSheetStateBuilder)
        ensures
            builder@ == Seq::<SheetSelectionModel>::empty(),
    {
        let builder = StyleSheetStateBuilder { entries: Vec::new() };
        assert(builder@ =~= Seq::<SheetSelectionModel>::empty());
        builder
    }

    /// For how many style sheets something was selected.
    pub fn len(&self) -> (len: usize)
        ensures
            len == self@.len(),
    {
        self.entries.len()
    }

    /// What was selected, style sheet by style sheet.
    pub fn entries(&self) -> (entries: &Vec<SheetSelection>)
        ensures
            entries@.map_values(|s: SheetSelection| s@) == self@,
    {
        &self.entries
    }

    fn find(&self, handle: SheetHandle) -> (at: usize)
        ensures
            at == builder_place(self@, handle),
            at <= self.entries.len(),
    {
        let ghost pred = |s: SheetSelectionModel| s.stylesheet == handle;
        let mut i: usize = 0;
        while i < self.entries.len()
            invariant
                i <= self.entries.len(),
                pred == |s: SheetSelectionModel| s.stylesheet == handle,
                forall|k: int| 0 <= k < i ==> !pred(#[trigger] self@[k]),
            decreases self.entries.len() - i,
        {
            assert(self@[i as int] == self.entries@[i as int]@);
            if self.entries[i].stylesheet == handle {
                proof {
                    lemma_first_index_is(self@, pred, i as int);
                }
                return i;
            }
            i += 1;
        }
        proof {
            lemma_first_index_is(self@, pred, i as int);
        }
        i
    }

    /// Takes in more entities that a selector of a style sheet has selected.
    pub fn add(&mut self, handle: SheetHandle, selector: &Selector, entities: &EntityList)
        ensures
            final(self)@ == builder_with(old(self)@, handle, selector@, entities@),
    {
        let at = self.find(handle);
        let ghost before = self@;
        proof {
            lemma_first_index(before, |s: SheetSelectionModel| s.stylesheet == handle);
        }
        if at < self.entries.len() {
            assert(before[at as int] == self.entries@[at as int]@);
            let mut entry = self.entries.remove(at);
            entry.selected.add(selector, entities);
            self.entries.insert(at, entry);
            assert(self@ =~= before.update(at as int, entry@));
        } else {
            let mut selected = SelectedEntities::new();
            selected.add(selector, entities);
            let entry = SheetSelection { stylesheet: handle, selected };
            self.entries.push(entry);
            assert(self@ =~= before.push(entry@));
        }
    }

    /// Compiles what was selected into the winning declaration of each
    /// property of each entity: the state holds each entity once, and for each
    /// entity one declaration for each property that a rule declares for it.
    pub fn build(&self, assets: &StyleSheets) -> (state: StyleSheetState)
        ensures
            state@ == built(self@, assets@),
            each_entity_once(state@),
    {
        let ghost models = self@;
        let mut state = StyleSheetState::new();
        let mut i: usize = 0;
        while i < self.entries.len()
            invariant
                i <= self.entries.len(),
                models == self@,
                state@ == built(models.take(i as int), assets@),
            decreases self.entries.len() - i,
        {
            let entry = &self.entries[i];
            proof {
                assert(models.take(i + 1).drop_last() == models.take(i as int));
                assert(models.take(i + 1).last() == entry@);
            }
            match assets.get(entry.stylesheet) {
                Some(sheet) => {
                    state.apply_sheet(sheet, entry.stylesheet, &entry.selected);
                },
                None => {},
            }
            i += 1;
        }
        proof {
            assert(models.take(self.entries.len() as int) == models);
            lemma_built_once(models, assets@);
        }
        state
    }
}

} // verus!
