//! Texts as sequences of characters.

use vstd::prelude::*;

verus! {

/// `String::push` of std: the text with one more character at its end.
#[verifier::external_body]
pub(crate) fn push_char(text: &mut String, c: char)
    ensures
        final(text)@ == old(text)@.push(c),
{
    text.push(c)
}

/// The characters of a text, in order.
pub fn to_chars(text: &str) -> (chars: Vec<char>)
    ensures
        chars@ == text@,
{
    let mut chars: Vec<char> = Vec::new();
    for c in it: text.chars()
        invariant
            chars@ == it.seq().take(it.index() as int),
            it.seq() == text@,
    {
        chars.push(c);
    }
    chars
}

/// The text made of the characters `chars[from..to]`.
pub fn from_chars(chars: &Vec<char>, from: usize, to: usize) -> (text: String)
    requires
        from <= to <= chars.len(),
    ensures
        text@ == chars@.subrange(from as int, to as int),
{
    let mut text = String::new();
    let mut i: usize = from;
    while i < to
        invariant
            from <= i <= to <= chars.len(),
            text@ == chars@.subrange(from as int, i as int),
        decreases to - i,
    {
        push_char(&mut text, chars[i]);
        i += 1;
        assert(chars@.subrange(from as int, i as int) == chars@.subrange(
            from as int,
            i - 1,
        ).push(chars@[i - 1]));
    }
    text
}

/// The character of a digit.
pub open spec fn digit(d: nat) -> char {
    ((48 + d % 10) as u8) as char
}

/// A number written in decimal digits.
pub open spec fn digits(n: nat) -> Seq<char>
    decreases n,
{
    if n < 10 {
        seq![digit(n)]
    } else {
        digits(n / 10).push(digit(n % 10))
    }
}

/// Writes a number in decimal digits behind a text.
pub fn push_digits(text: &mut String, n: u128)
    ensures
        final(text)@ == old(text)@ + digits(n as nat),
    decreases n,
{
    if n >= 10 {
        push_digits(text, n / 10);
    }
    let ghost before = text@;
    let d: u8 = (n % 10) as u8;
    push_char(text, (48 + d) as char);
    proof {
        if n >= 10 {
            assert(text@ =~= old(text)@ + digits((n / 10) as nat).push(digit((n % 10) as nat)));
        } else {
            assert(text@ =~= old(text)@ + seq![digit(n as nat)]);
        }
    }
}

/// How many lines end in a text: how many line feeds it holds.
pub open spec fn lines_in(text: Seq<char>) -> nat {
    text.filter(|c: char| c == '\n').len()
}

/// How many characters stand in a text behind its last line feed.
pub open spec fn column_in(text: Seq<char>) -> nat
    decreases text.len(),
{
    if text.len() == 0 || text.last() == '\n' {
        0
    } else {
        column_in(text.drop_last()) + 1
    }
}

/// Finds the place behind a text: how many lines end in it, and how many
/// characters stand behind its last line feed.
pub fn place_behind(text: &str) -> (place: (usize, usize))
    ensures
        place.0 == lines_in(text@),
        place.1 == column_in(text@),
{
    let chars = to_chars(text);
    let ghost feeds = |c: char| c == '\n';
    let mut line: usize = 0;
    let mut column: usize = 0;
    let mut i: usize = 0;
    proof {
        crate::seqs::lemma_filter_none(chars@.take(0), feeds);
    }
    while i < chars.len()
        invariant
            i <= chars.len(),
            chars@ == text@,
            feeds == |c: char| c == '\n',
            line <= i,
            column <= i,
            line == chars@.take(i as int).filter(feeds).len(),
            column == column_in(chars@.take(i as int)),
        decreases chars.len() - i,
    {
        proof {
            let next = chars@.take(i + 1);
            assert(next.drop_last() == chars@.take(i as int));
            assert(next.last() == chars@[i as int]);
            crate::seqs::lemma_filter_last(next, feeds);
        }
        if chars[i] == '\n' {
            line += 1;
            column = 0;
        } else {
            column += 1;
        }
        i += 1;
    }
    assert(chars@.take(chars.len() as int) == chars@);
    (line, column)
}

/// Whether two texts hold the same characters.
pub fn same_text(a: &str, b: &str) -> (same: bool)
    ensures
        same == (a@ == b@),
{
    let x = to_chars(a);
    let y = to_chars(b);
    if x.len() != y.len() {
        return false;
    }
    let mut i: usize = 0;
    while i < x.len()
        invariant
            i <= x.len(),
            x.len() == y.len(),
            x@ == a@,
            y@ == b@,
            forall|k: int| 0 <= k < i ==> x@[k] == y@[k],
        decreases x.len() - i,
    {
        if x[i] != y[i] {
            return false;
        }
        i += 1;
    }
    assert(a@ =~= b@);
    true
}

} // verus!
