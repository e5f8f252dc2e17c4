use vstd::prelude::*;

use crate::system::graph::SheetHandle;

verus! {

/// Applies a style sheet on the entity which has this component, and on all
/// that is below it.
///
/// The rules of the sheet are applied once when the component is added, and
/// again when the sheet changes. To apply them anew for another reason, like
/// a new child, use [`StyleSheet::refresh`].
#[derive(Clone, Copy, Debug, Default, PartialEq, Eq, Structural)]
pub struct StyleSheet {
    sheet: SheetHandle,
}

impl StyleSheet {
    /// The handle that the component holds.
    pub closed spec fn held(&self) -> SheetHandle {
        self.sheet
    }

    /// Creates a new [`StyleSheet`] from the given handle.
    pub fn new(handle: SheetHandle) -> (created: StyleSheet)
        ensures
            created.held() == handle,
    {
        StyleSheet { sheet: handle }
    }

    /// Reapplies the style sheet on the entity and all that is below it. The
    /// component stays as it is: that it was touched is what the host goes by.
    pub fn refresh(&mut self)
        ensures
            *final(self) == *old(self),
    {
    }

    /// The handle of the style sheet.
    pub fn handle(&self) -> (handle: SheetHandle)
        ensures
            handle == self.held(),
    {
        self.sheet
    }

    /// Changes the handle of the style sheet.
    pub fn set(&mut self, handle: SheetHandle)
        ensures
            final(self).held() == handle,
    {
        self.sheet = handle;
    }
}

} // verus!
