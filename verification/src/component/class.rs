use vstd::prelude::*;

use crate::seqs::lemma_filter_member;
use crate::text::{from_chars, same_text, to_chars};

verus! {

/// Whether a character is one of the blanks of ASCII: space, tab, line feed,
/// form feed or carriage return.
pub open spec fn is_blank(c: char) -> bool {
    c == ' ' || c == '\t' || c == '\n' || c == '\x0C' || c == '\r'
}

/// What a scan of a text for words has found: the words that have ended, and
/// the characters of the word that has not.
pub struct Scan {
    pub words: Seq<Seq<char>>,
    pub word: Seq<char>,
}

/// The scan of a text, first character to last: a blank ends a word, any
/// other character goes on with one.
pub open spec fn scan(text: Seq<char>) -> Scan
    decreases text.len(),
{
    if text.len() == 0 {
        Scan { words: Seq::empty(), word: Seq::empty() }
    } else {
        let before = scan(text.drop_last());
        if !is_blank(text.last()) {
            Scan { words: before.words, word: before.word.push(text.last()) }
        } else if before.word.len() > 0 {
            Scan { words: before.words.push(before.word), word: Seq::empty() }
        } else {
            before
        }
    }
}

/// The words of a text: its runs of characters between blanks.
pub open spec fn words(text: Seq<char>) -> Seq<Seq<char>> {
    let found = scan(text);
    if found.word.len() > 0 {
        found.words.push(found.word)
    } else {
        found.words
    }
}

/// The words of a list, with one space between two of them.
pub open spec fn joined(words: Seq<Seq<char>>) -> Seq<char>
    decreases words.len(),
{
    if words.len() == 0 {
        Seq::empty()
    } else if words.len() == 1 {
        words[0]
    } else {
        joined(words.drop_last()) + seq![' '] + words.last()
    }
}

/// The class names of a text after `class` was added: the text itself where
/// it holds the name already, the name where the text is empty, else the text, a
/// space and the name.
pub open spec fn with_class(text: Seq<char>, class: Seq<char>) -> Seq<char> {
    if words(text).contains(class) {
        text
    } else if text.len() == 0 {
        class
    } else {
        text + seq![' '] + class
    }
}

/// The class names of a text after `class` was removed: the text itself
/// where it does not hold the name, else its other names with one space between
/// two of them.
pub open spec fn without_class(text: Seq<char>, class: Seq<char>) -> Seq<char> {
    if words(text).contains(class) {
        joined(words(text).filter(other_than(class)))
    } else {
        text
    }
}

/// Whether a word is another one than `class`.
pub open spec fn other_than(class: Seq<char>) -> spec_fn(Seq<char>) -> bool {
    |w: Seq<char>| w != class
}

/// What a scan finds in a text with one more character at its end.
pub proof fn lemma_scan_push(text: Seq<char>, c: char)
    ensures
        scan(text.push(c)) == if !is_blank(c) {
            Scan { words: scan(text).words, word: scan(text).word.push(c) }
        } else if scan(text).word.len() > 0 {
            Scan { words: scan(text).words.push(scan(text).word), word: Seq::empty() }
        } else {
            scan(text)
        },
{
    assert(text.push(c).drop_last() =~= text);
}

/// What a scan finds in a text that goes on with a text without a blank: the
/// word that has not ended goes on with it.
pub proof fn lemma_scan_word(text: Seq<char>, word: Seq<char>)
    requires
        forall|i: int| 0 <= i < word.len() ==> !is_blank(word[i]),
    ensures
        scan(text + word) == (Scan { words: scan(text).words, word: scan(text).word + word }),
    decreases word.len(),
{
    if word.len() == 0 {
        assert(text + word =~= text);
        assert(scan(text).word + word =~= scan(text).word);
    } else {
        let front = word.drop_last();
        lemma_scan_word(text, front);
        lemma_scan_push(text + front, word.last());
        assert((text + front).push(word.last()) =~= text + word);
        assert((scan(text).word + front).push(word.last()) =~= scan(text).word + word);
    }
}

/// A class name that was added is one of the class names, where the name is
/// a word: not empty and without a blank. The class names that were there before
/// are there after.
pub proof fn lemma_with_class(text: Seq<char>, class: Seq<char>, other: Seq<char>)
    requires
        class.len() > 0,
        forall|i: int| 0 <= i < class.len() ==> !is_blank(class[i]),
    ensures
        words(with_class(text, class)).contains(class),
        words(text).contains(other) ==> words(with_class(text, class)).contains(other),
{
    if words(text).contains(class) {
    } else if text.len() == 0 {
        lemma_scan_word(Seq::empty(), class);
        assert(Seq::<char>::empty() + class =~= class);
        assert(words(class) =~= seq![class]);
        assert(seq![class][0] == class);
        assert(words(text) =~= Seq::<Seq<char>>::empty());
    } else {
        let spaced = text + seq![' '];
        assert(spaced =~= text.push(' '));
        lemma_scan_push(text, ' ');
        assert(scan(spaced).words == words(text));
        assert(scan(spaced).word =~= Seq::<char>::empty());
        lemma_scan_word(spaced, class);
        assert(Seq::<char>::empty() + class =~= class);
        assert(with_class(text, class) == spaced + class);
        let after = words(spaced + class);
        assert(after == words(text).push(class));
        assert(after[after.len() - 1] == class);
        if words(text).contains(other) {
            let k = choose|k: int| 0 <= k < words(text).len() && words(text)[k] == other;
            assert(after[k] == other);
        }
    }
}

/// Whether a text is a word: not empty and without a blank.
pub open spec fn is_word(word: Seq<char>) -> bool {
    word.len() > 0 && forall|i: int| 0 <= i < word.len() ==> !is_blank(#[trigger] word[i])
}

/// What a scan finds are words: each word that has ended is not empty and
/// holds no blank, and the word that has not ended holds no blank.
pub proof fn lemma_scan_finds_words(text: Seq<char>)
    ensures
        forall|k: int| 0 <= k < scan(text).words.len() ==> is_word(#[trigger] scan(text).words[k]),
        forall|i: int| 0 <= i < scan(text).word.len() ==> !is_blank(#[trigger] scan(text).word[i]),
        forall|k: int| 0 <= k < words(text).len() ==> is_word(#[trigger] words(text)[k]),
    decreases text.len(),
{
    if text.len() > 0 {
        let before = scan(text.drop_last());
        let after = scan(text);
        lemma_scan_finds_words(text.drop_last());
        if !is_blank(text.last()) {
            assert forall|i: int| 0 <= i < after.word.len() implies !is_blank(
                #[trigger] after.word[i],
            ) by {
                if i < before.word.len() {
                    assert(after.word[i] == before.word[i]);
                }
            }
        } else if before.word.len() > 0 {
            assert(is_word(before.word));
            assert forall|k: int| 0 <= k < after.words.len() implies is_word(
                #[trigger] after.words[k],
            ) by {
                if k < before.words.len() {
                    assert(after.words[k] == before.words[k]);
                }
            }
        }
        let all = words(text);
        assert forall|k: int| 0 <= k < all.len() implies is_word(#[trigger] all[k]) by {
            if k < after.words.len() {
                assert(all[k] == after.words[k]);
            } else {
                assert(all[k] == after.word);
            }
        }
    }
}

/// The words of a list of words that were joined are the words of the list.
pub proof fn lemma_words_of_joined(list: Seq<Seq<char>>)
    requires
        forall|k: int| 0 <= k < list.len() ==> is_word(#[trigger] list[k]),
    ensures
        words(joined(list)) == list,
    decreases list.len(),
{
    if list.len() == 0 {
        assert(words(joined(list)) =~= list);
    } else if list.len() == 1 {
        assert(is_word(list[0]));
        lemma_scan_word(Seq::empty(), list[0]);
        assert(Seq::<char>::empty() + list[0] =~= list[0]);
        assert(words(list[0]) =~= list);
    } else {
        let front = list.drop_last();
        assert forall|k: int| 0 <= k < front.len() implies is_word(#[trigger] front[k]) by {
            assert(front[k] == list[k]);
        }
        lemma_words_of_joined(front);
        let text = joined(front);
        let spaced = text + seq![' '];
        assert(spaced =~= text.push(' '));
        lemma_scan_push(text, ' ');
        assert(scan(spaced) == (Scan { words: front, word: Seq::empty() }));
        assert(is_word(list.last()));
        lemma_scan_word(spaced, list.last());
        assert(Seq::<char>::empty() + list.last() =~= list.last());
        assert(words(spaced + list.last()) =~= list);
    }
}

/// A class name that was removed is none of the class names any more, and
/// every other class name is one of them after exactly when it was one before.
pub proof fn lemma_without_class(text: Seq<char>, class: Seq<char>, other: Seq<char>)
    ensures
        !words(without_class(text, class)).contains(class),
        other != class ==> (words(without_class(text, class)).contains(other) <==> words(
            text,
        ).contains(other)),
{
    if words(text).contains(class) {
        let keep = other_than(class);
        let kept = words(text).filter(keep);
        lemma_scan_finds_words(text);
        assert forall|k: int| 0 <= k < kept.len() implies is_word(#[trigger] kept[k]) by {
            assert(kept.contains(kept[k]));
            lemma_filter_member(words(text), keep, kept[k]);
            let at = choose|at: int| 0 <= at < words(text).len() && words(text)[at] == kept[k];
            assert(is_word(words(text)[at]));
        }
        lemma_words_of_joined(kept);
        assert(!keep(class));
        assert(other != class ==> keep(other));
        lemma_filter_member(words(text), keep, class);
        lemma_filter_member(words(text), keep, other);
    }
}

/// Sets the class names of an entity, by which the selectors of a style
/// sheet match it.
///
/// As in a style sheet, a single class name can be given or a list separated
/// by blanks.
#[derive(Debug, Default, Clone)]
pub struct Class(String);

impl View for Class {
    type V = Seq<char>;

    closed spec fn view(&self) -> Seq<char> {
        self.0@
    }
}

impl Class {
    /// Creates a new [`Class`] with the given class names.
    ///
    /// Multiple class names can be used separated by blanks.
    pub fn new(class: &str) -> (created: Class)
        ensures
            created@ == class@,
    {
        Class(String::from_str(class))
    }

    /// The class names as they were given.
    pub fn as_str(&self) -> (text: &str)
        ensures
            text@ == self@,
    {
        self.0.as_str()
    }

    /// The class names, one by one.
    pub fn names(&self) -> (names: Vec<String>)
        ensures
            names@.map_values(|s: String| s@) == words(self@),
    {
        let chars = to_chars(self.0.as_str());
        let mut names: Vec<String> = Vec::new();
        let mut start: usize = 0;
        let mut i: usize = 0;
        let ghost text = self@;
        proof {
            assert(names@.map_values(|s: String| s@) =~= Seq::<Seq<char>>::empty());
            assert(chars@.subrange(0, 0) =~= Seq::<char>::empty());
        }
        while i < chars.len()
            invariant
                start <= i <= chars.len(),
                chars@ == text,
                names@.map_values(|s: String| s@) == scan(text.take(i as int)).words,
                chars@.subrange(start as int, i as int) == scan(text.take(i as int)).word,
            decreases chars.len() - i,
        {
            let ghost before = names@.map_values(|s: String| s@);
            proof {
                assert(text.take(i + 1).drop_last() == text.take(i as int));
                assert(text.take(i + 1).last() == chars@[i as int]);
            }
            let c = chars[i];
            if c == ' ' || c == '\t' || c == '\n' || c == '\x0C' || c == '\r' {
                if start < i {
                    let word = from_chars(&chars, start, i);
                    names.push(word);
                    proof {
                        assert(names@.map_values(|s: String| s@) =~= before.push(word@));
                    }
                }
                start = i + 1;
                proof {
                    assert(chars@.subrange(start as int, i + 1) =~= Seq::<char>::empty());
                }
            } else {
                proof {
                    assert(chars@.subrange(start as int, i + 1) =~= chars@.subrange(
                        start as int,
                        i as int,
                    ).push(c));
                }
            }
            i += 1;
        }
        proof {
            assert(text.take(chars.len() as int) == text);
        }
        if start < chars.len() {
            let ghost before = names@.map_values(|s: String| s@);
            let word = from_chars(&chars, start, chars.len());
            names.push(word);
            proof {
                assert(names@.map_values(|s: String| s@) =~= before.push(word@));
            }
        }
        names
    }

    /// Checks if any of this class names matches the given class name.
    pub fn contains_class(&self, class: &str) -> (found: bool)
        ensures
            found == words(self@).contains(class@),
    {
        let names = self.names();
        let ghost models = names@.map_values(|s: String| s@);
        let mut i: usize = 0;
        while i < names.len()
            invariant
                i <= names.len(),
                models == names@.map_values(|s: String| s@),
                models == words(self@),
                forall|k: int| 0 <= k < i ==> models[k] != class@,
            decreases names.len() - i,
        {
            assert(models[i as int] == names@[i as int]@);
            if same_text(names[i].as_str(), class) {
                return true;
            }
            i += 1;
        }
        false
    }

    /// Whether no class name was given: not even a blank.
    pub fn is_empty(&self) -> (empty: bool)
        ensures
            empty == (self@.len() == 0),
    {
        self.0.as_str().unicode_len() == 0
    }

    /// Adds a class name, unless it is one of the class names already.
    pub fn add_class(&mut self, class: &str)
        ensures
            final(self)@ == with_class(old(self)@, class@),
    {
        if !self.contains_class(class) {
            if self.is_empty() {
                self.0 = String::from_str(class);
            } else {
                let mut text = self.0.clone();
                text.append(" ");
                proof {
                    reveal_strlit(" ");
                    assert(" "@ =~= seq![' ']);
                }
                text.append(class);
                self.0 = text;
            }
        }
    }

    /// Removes a class name, and leaves one space between the names that stay.
    pub fn remove_class(&mut self, class: &str)
        ensures
            final(self)@ == without_class(old(self)@, class@),
    {
        let names = self.names();
        let ghost models = names@.map_values(|s: String| s@);
        let ghost keep = other_than(class@);
        let mut text = String::new();
        let mut found = false;
        let mut kept: usize = 0;
        let mut i: usize = 0;
        proof {
            crate::seqs::lemma_filter_none(models.take(0), keep);
            reveal_strlit(" ");
            assert(" "@ =~= seq![' ']);
        }
        while i < names.len()
            invariant
                i <= names.len(),
                " "@ == seq![' '],
                models == names@.map_values(|s: String| s@),
                keep == other_than(class@),
                kept == models.take(i as int).filter(keep).len(),
                text@ == joined(models.take(i as int).filter(keep)),
                found == models.take(i as int).contains(class@),
            decreases names.len() - i,
        {
            proof {
                let next = models.take(i + 1);
                assert(next.drop_last() == models.take(i as int));
                assert(next.last() == names@[i as int]@);
                crate::seqs::lemma_filter_last(next, keep);
                crate::seqs::lemma_filter_len_bound(models.take(i as int), keep);
                if models.take(i as int).contains(class@) {
                    let k = choose|k: int|
                        0 <= k < models.take(i as int).len() && models.take(i as int)[k] == class@;
                    assert(next[k] == class@);
                }
                if next.contains(class@) && !(next.last() == class@) {
                    let k = choose|k: int| 0 <= k < next.len() && next[k] == class@;
                    assert(models.take(i as int)[k] == class@);
                }
            }
            if same_text(names[i].as_str(), class) {
                found = true;
            } else {
                let ghost before = models.take(i as int).filter(keep);
                if kept > 0 {
                    text.append(" ");
                }
                text.append(names[i].as_str());
                kept += 1;
                proof {
                    let after = before.push(names@[i as int]@);
                    assert(after.drop_last() == before);
                    if before.len() == 0 {
                        assert(text@ =~= names@[i as int]@);
                    }
                }
            }
            i += 1;
        }
        proof {
            assert(models.take(names.len() as int) == models);
        }
        if found {
            self.0 = text;
        }
    }

    /// Whether the class matches the class element `element` of a selector.
    pub fn matches(&self, element: &str) -> (matched: bool)
        ensures
            matched == words(self@).contains(element@),
    {
        self.contains_class(element)
    }
}

} // verus!
