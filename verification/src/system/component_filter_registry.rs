use vstd::prelude::*;

use crate::text::same_text;

verus! {

/// The texts of a list, each as a sequence of characters.
pub open spec fn text_models(texts: Seq<String>) -> Seq<Seq<char>> {
    texts.map_values(|s: String| s@)
}

/// Whether a list of texts holds a text.
pub fn contains_text(texts: &Vec<String>, text: &str) -> (found: bool)
    ensures
        found == text_models(texts@).contains(text@),
{
    let ghost models = text_models(texts@);
    let mut i: usize = 0;
    while i < texts.len()
        invariant
            i <= texts.len(),
            models == text_models(texts@),
            forall|k: int| 0 <= k < i ==> models[k] != text@,
        decreases texts.len() - i,
    {
        assert(models[i as int] == texts@[i as int]@);
        if same_text(texts[i].as_str(), text) {
            return true;
        }
        i += 1;
    }
    false
}

/// The component selectors that the host has registered, by their names. A
/// component element of a selector matches only under a registered name.
#[derive(Clone, Debug, Default)]
pub struct ComponentFilterRegistry(pub Vec<String>);

impl View for ComponentFilterRegistry {
    type V = Seq<Seq<char>>;

    open spec fn view(&self) -> Seq<Seq<char>> {
        text_models(self.0@)
    }
}

impl ComponentFilterRegistry {
    /// Registers a component selector under a name, unless the name is
    /// registered already.
    pub fn register(&mut self, name: &str)
        ensures
            final(self)@ == if old(self)@.contains(name@) {
                old(self)@
            } else {
                old(self)@.push(name@)
            },
    {
        if !contains_text(&self.0, name) {
            let ghost before = self@;
            let text = String::from_str(name);
            self.0.push(text);
            assert(self@ =~= before.push(name@));
        }
    }

    /// Whether a component selector is registered under the name.
    pub fn is_registered(&self, name: &str) -> (registered: bool)
        ensures
            registered == self@.contains(name@),
    {
        contains_text(&self.0, name)
    }
}

} // verus!
