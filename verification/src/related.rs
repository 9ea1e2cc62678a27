//! Which call sites go with a definition.
//!
//! A call site is taken to go with a definition where the label of the call
//! is one of the words of the label of the definition. This matches names
//! only: it takes in calls to other things of the same name, and it misses
//! calls made under another name.

use vstd::prelude::*;
use crate::node::CodeNode;

verus! {

/// Whether `c` separates words: a space, a tab, a line feed or a carriage
/// return.
pub open spec fn is_space(c: char) -> bool {
    c == ' ' || c == '\t' || c == '\n' || c == '\r'
}

/// `word` stands in `label` from the index `at` on, with a separator or an
/// end of `label` on either side.
pub open spec fn token_at(label: Seq<char>, word: Seq<char>, at: int) -> bool {
    &&& 0 <= at
    &&& at + word.len() <= label.len()
    &&& label.subrange(at, at + word.len()) == word
    &&& at == 0 || is_space(label[at - 1])
    &&& at + word.len() == label.len() || is_space(label[at + word.len()])
}

/// `word` is one of the words of `label`: it is not empty, holds no
/// separator, and stands in `label` between separators.
pub open spec fn is_token(label: Seq<char>, word: Seq<char>) -> bool {
    &&& word.len() > 0
    &&& forall|j: int| 0 <= j < word.len() ==> !is_space(#[trigger] word[j])
    &&& exists|at: int| token_at(label, word, at)
}

/// The test that picks the call sites that go with the label `label`.
pub open spec fn goes_with(label: Seq<char>) -> spec_fn(CodeNode) -> bool {
    |call: CodeNode| is_token(label, call.label@)
}

/// The characters of `text`.
pub fn chars_of(text: &str) -> (chars: Vec<char>)
    ensures
        chars@ == text@,
{
    let mut chars: Vec<char> = Vec::new();
    for c in iter: text.chars()
        invariant
            iter.seq() == text@,
            chars@ == iter.seq().take(iter.index()),
    {
        chars.push(c);
        assert(iter.seq().take(iter.index() + 1) =~= iter.seq().take(iter.index()).push(c));
    }
    assert(text@.take(text@.len() as int) =~= text@);
    chars
}

/// Whether `c` separates words.
pub fn separates(c: char) -> (space: bool)
    ensures
        space == is_space(c),
{
    c == ' ' || c == '\t' || c == '\n' || c == '\r'
}

/// Whether `word` stands in `label` from the index `at` on.
fn stands_at(label: &Vec<char>, word: &Vec<char>, at: usize) -> (found: bool)
    requires
        at + word.len() <= label.len(),
    ensures
        found == (label@.subrange(at as int, at + word.len()) == word@),
{
    let mut j: usize = 0;
    while j < word.len()
        invariant
            j <= word.len(),
            at + word.len() <= label.len(),
            forall|k: int| 0 <= k < j ==> label@[at + k] == word@[k],
        decreases word.len() - j,
    {
        if label[at + j] != word[j] {
            assert(label@.subrange(at as int, at + word.len())[j as int] != word@[j as int]);
            return false;
        }
        j = j + 1;
    }
    assert(label@.subrange(at as int, at + word.len()) =~= word@);
    true
}

/// Whether `word` is one of the words of `label`.
pub fn holds_token(label: &Vec<char>, word: &Vec<char>) -> (held: bool)
    ensures
        held == is_token(label@, word@),
{
    let n = word.len();
    if n == 0 || n > label.len() {
        return false;
    }
    let mut j: usize = 0;
    while j < n
        invariant
            j <= n,
            n == word.len(),
            forall|k: int| 0 <= k < j ==> !is_space(#[trigger] word@[k]),
        decreases n - j,
    {
        if separates(word[j]) {
            return false;
        }
        j = j + 1;
    }
    let last = label.len() - n;
    let mut at: usize = 0;
    while at <= last
        invariant
            at <= last + 1,
            n == word.len(),
            0 < n <= label.len(),
            last == label.len() - n,
            forall|k: int| 0 <= k < word.len() ==> !is_space(#[trigger] word@[k]),
            forall|k: int| 0 <= k < at ==> !token_at(label@, word@, k),
        decreases last + 1 - at,
    {
        let opens = at == 0 || separates(label[at - 1]);
        let closes = at + n == label.len() || separates(label[at + n]);
        if opens && closes && stands_at(label, word, at) {
            assert(token_at(label@, word@, at as int));
            return true;
        }
        at = at + 1;
    }
    false
}

/// The call sites of `calls` that go with the definition labelled `label`,
/// in the order in which they stand in `calls`.
pub fn related_calls(label: &str, calls: &Vec<CodeNode>) -> (related: Vec<CodeNode>)
    ensures
        related@ == calls@.filter(goes_with(label@)),
{
    let words = chars_of(label);
    let mut related: Vec<CodeNode> = Vec::new();
    let mut i: usize = 0;
    while i < calls.len()
        invariant
            i <= calls.len(),
            words@ == label@,
            related@ == calls@.take(i as int).filter(goes_with(label@)),
        decreases calls.len() - i,
    {
        let call = &calls[i];
        let name = chars_of(call.label.as_str());
        proof {
            assert(calls@.take(i + 1).drop_last() =~= calls@.take(i as int));
            assert(calls@.take(i + 1).last() == *call);
            reveal(Seq::filter);
        }
        if holds_token(&words, &name) {
            related.push(call.clone());
        }
        i = i + 1;
    }
    assert(calls@.take(i as int) =~= calls@);
    related
}

} // verus!
