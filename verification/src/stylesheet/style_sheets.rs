use vstd::prelude::*;

use super::style_sheet_asset::{StyleSheetAsset, StyleSheetModel};
use crate::seqs::{
    first_index, lemma_filter_last, lemma_filter_member, lemma_filter_none, lemma_first_index,
    lemma_first_index_is, lemma_first_index_push, lemma_first_index_update,
};
use crate::system::graph::SheetHandle;

verus! {

/// A style sheet that the host has loaded, under its handle.
#[derive(Debug)]
pub struct LoadedSheet {
    pub handle: SheetHandle,
    pub sheet: StyleSheetAsset,
}

/// What a [`LoadedSheet`] holds.
pub struct LoadedSheetModel {
    pub handle: SheetHandle,
    pub sheet: StyleSheetModel,
}

impl View for LoadedSheet {
    type V = LoadedSheetModel;

    open spec fn view(&self) -> LoadedSheetModel {
        LoadedSheetModel { handle: self.handle, sheet: self.sheet@ }
    }
}

/// The place in a list of the sheet loaded under a handle, or the length of
/// the list where none is.
pub open spec fn sheet_place(sheets: Seq<LoadedSheetModel>, handle: SheetHandle) -> int {
    first_index(sheets, |s: LoadedSheetModel| s.handle == handle)
}

/// The sheet loaded under a handle, if one is.
pub open spec fn loaded(sheets: Seq<LoadedSheetModel>, handle: SheetHandle) -> Option<
    StyleSheetModel,
> {
    let at = sheet_place(sheets, handle);
    if 0 <= at < sheets.len() {
        Some(sheets[at].sheet)
    } else {
        None
    }
}

/// The sheets of a list after a sheet was loaded under a handle: it takes the
/// place of the sheet that was loaded under the handle, or stands at the end.
pub open spec fn with_sheet(
    sheets: Seq<LoadedSheetModel>,
    handle: SheetHandle,
    sheet: StyleSheetModel,
) -> Seq<LoadedSheetModel> {
    let at = sheet_place(sheets, handle);
    if 0 <= at < sheets.len() {
        sheets.update(at, LoadedSheetModel { handle, sheet })
    } else {
        sheets.push(LoadedSheetModel { handle, sheet })
    }
}

/// The style sheets that the host has loaded.
#[derive(Debug, Default)]
pub struct StyleSheets {
    pub sheets: Vec<LoadedSheet>,
}

impl View for StyleSheets {
    type V = Seq<LoadedSheetModel>;

    open spec fn view(&self) -> Seq<LoadedSheetModel> {
        self.sheets@.map_values(|s: LoadedSheet| s@)
    }
}

impl StyleSheets {
    /// No style sheets.
    pub fn new() -> (sheets: StyleSheets)
        ensures
            sheets@ == Seq::<LoadedSheetModel>::empty(),
    {
        let sheets = StyleSheets { sheets: Vec::new() };
        assert(sheets@ =~= Seq::<LoadedSheetModel>::empty());
        sheets
    }

    fn find(&self, handle: SheetHandle) -> (at: usize)
        ensures
            at == sheet_place(self@, handle),
            at <= self.sheets.len(),
    {
        let ghost pred = |s: LoadedSheetModel| s.handle == handle;
        let mut i: usize = 0;
        while i < self.sheets.len()
            invariant
                i <= self.sheets.len(),
                pred == |s: LoadedSheetModel| s.handle == handle,
                forall|k: int| 0 <= k < i ==> !pred(#[trigger] self@[k]),
            decreases self.sheets.len() - i,
        {
            assert(self@[i as int] == self.sheets@[i as int]@);
            if self.sheets[i].handle == handle {
                proof {
                    lemma_first_index_is(self@, pred, i as int);
                }
                return i;
            }
            i += 1;
        }
        proof {
            lemma_first_index_is(self@, pred, i as int);
        }
        i
    }

    /// The sheet loaded under a handle, if one is.
    pub fn get(&self, handle: SheetHandle) -> (sheet: Option<&StyleSheetAsset>)
        ensures
            match sheet {
                Some(s) => loaded(self@, handle) == Some(s@),
                None => loaded(self@, handle) is None,
            },
    {
        let at = self.find(handle);
        if at < self.sheets.len() {
            assert(self@[at as int] == self.sheets@[at as int]@);
            Some(&self.sheets[at].sheet)
        } else {
            None
        }
    }

    /// Forgets the sheets loaded under a handle.
    pub fn remove(&mut self, handle: SheetHandle)
        ensures
            final(self)@ == old(self)@.filter(|s: LoadedSheetModel| s.handle != handle),
            loaded(final(self)@, handle) is None,
    {
        let ghost keep = |s: LoadedSheetModel| s.handle != handle;
        let ghost before = self@;
        let mut kept: Vec<LoadedSheet> = Vec::new();
        proof {
            lemma_filter_none(before.skip(before.len() as int), keep);
            assert(kept@.map_values(|s: LoadedSheet| s@) =~= before.skip(
                before.len() as int,
            ).filter(keep).reverse());
        }
        while self.sheets.len() > 0
            invariant
                keep == |s: LoadedSheetModel| s.handle != handle,
                self@ == before.take(self.sheets.len() as int),
                self.sheets.len() <= before.len(),
                kept@.map_values(|s: LoadedSheet| s@) == before.skip(
                    self.sheets.len() as int,
                ).filter(keep).reverse(),
            decreases self.sheets.len(),
        {
            let ghost n = self.sheets.len() as int;
            let ghost models = kept@.map_values(|s: LoadedSheet| s@);
            assert(self@[n - 1] == self.sheets@[n - 1]@);
            let entry = self.sheets.pop().unwrap();
            proof {
                assert(self@ =~= before.take(n - 1));
                assert(entry@ == before[n - 1]);
                assert(before.skip(n - 1) =~= seq![before[n - 1]] + before.skip(n));
                vstd::seq::Seq::filter_distributes_over_add(
                    seq![before[n - 1]],
                    before.skip(n),
                    keep,
                );
                lemma_filter_last(seq![before[n - 1]], keep);
                lemma_filter_none(seq![before[n - 1]].drop_last(), keep);
            }
            if entry.handle != handle {
                kept.push(entry);
                proof {
                    assert(seq![before[n - 1]].filter(keep) =~= seq![before[n - 1]]);
                    assert(kept@.map_values(|s: LoadedSheet| s@) =~= models.push(entry@));
                    assert((seq![before[n - 1]] + before.skip(n).filter(keep)).reverse()
                        =~= before.skip(n).filter(keep).reverse().push(before[n - 1]));
                }
            } else {
                proof {
                    assert(seq![before[n - 1]].filter(keep) =~= Seq::<LoadedSheetModel>::empty());
                    assert(Seq::<LoadedSheetModel>::empty() + before.skip(n).filter(keep)
                        =~= before.skip(n).filter(keep));
                }
            }
        }
        proof {
            assert(before.skip(0) =~= before);
        }
        let ghost reversed = kept@.map_values(|s: LoadedSheet| s@);
        while kept.len() > 0
            invariant
                reversed == before.filter(keep).reverse(),
                kept.len() <= reversed.len(),
                kept@.map_values(|s: LoadedSheet| s@) == reversed.take(kept.len() as int),
                self@ == reversed.skip(kept.len() as int).reverse(),
            decreases kept.len(),
        {
            let ghost n = kept.len() as int;
            let ghost models = self@;
            assert(kept@.map_values(|s: LoadedSheet| s@)[n - 1] == kept@[n - 1]@);
            let entry = kept.pop().unwrap();
            self.sheets.push(entry);
            proof {
                assert(kept@.map_values(|s: LoadedSheet| s@) =~= reversed.take(n - 1));
                assert(self@ =~= models.push(entry@));
                assert(reversed.skip(n - 1).reverse() =~= reversed.skip(n).reverse().push(
                    reversed[n - 1],
                ));
            }
        }
        proof {
            assert(reversed.skip(0) =~= reversed);
            assert(reversed.reverse() =~= before.filter(keep));
            let after = before.filter(keep);
            lemma_first_index(after, |s: LoadedSheetModel| s.handle == handle);
            let at = sheet_place(after, handle);
            if at < after.len() {
                assert(after.contains(after[at]));
                lemma_filter_member(before, keep, after[at]);
            }
        }
    }

    /// Loads a sheet under a handle, in place of the sheet that was loaded
    /// under it before.
    pub fn insert(&mut self, handle: SheetHandle, sheet: StyleSheetAsset)
        ensures
            final(self)@ == with_sheet(old(self)@, handle, sheet@),
            loaded(final(self)@, handle) == Some(sheet@),
            forall|other: SheetHandle|
                other != handle ==> loaded(final(self)@, other) == loaded(old(self)@, other),
    {
        let at = self.find(handle);
        let ghost before = self@;
        proof {
            lemma_first_index(before, |s: LoadedSheetModel| s.handle == handle);
        }
        let entry = LoadedSheet { handle, sheet };
        if at < self.sheets.len() {
            self.sheets.set(at, entry);
            assert(self@ =~= before.update(at as int, entry@));
        } else {
            self.sheets.push(entry);
            assert(self@ =~= before.push(entry@));
        }
        proof {
            let after = self@;
            let own = |s: LoadedSheetModel| s.handle == handle;
            lemma_first_index(before, own);
            if at < before.len() {
                lemma_first_index_update(before, own, at as int, entry@);
            } else {
                lemma_first_index_push(before, own, entry@);
            }
            assert forall|other: SheetHandle| other != handle implies loaded(after, other)
                == loaded(before, other) by {
                let others = |s: LoadedSheetModel| s.handle == other;
                lemma_first_index(before, others);
                if at < before.len() {
                    lemma_first_index_update(before, others, at as int, entry@);
                } else {
                    lemma_first_index_push(before, others, entry@);
                }
            }
        }
    }
}

} // verus!
