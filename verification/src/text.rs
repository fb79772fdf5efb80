use vstd::prelude::*;

verus! {

/// The characters of `text`, in order.
pub fn chars_of(text: &str) -> (chars: Vec<char>)
    ensures
        chars@ == text@,
{
    let mut chars: Vec<char> = Vec::new();
    for c in it: text.chars()
        invariant
            chars@ == it.seq().take(it.index() as int),
            it.seq() == text@,
    {
        chars.push(c);
    }
    chars
}

/// Whether `text` reads exactly as `word`.
pub fn same_text(text: &Vec<char>, word: &Vec<char>) -> (same: bool)
    ensures
        same == (text@ == word@),
{
    if text.len() != word.len() {
        return false;
    }
    let mut i: usize = 0;
    while i < text.len()
        invariant
            i <= text.len(),
            text.len() == word.len(),
            text@.take(i as int) == word@.take(i as int),
        decreases text.len() - i,
    {
        if text[i] != word[i] {
            return false;
        }
        assert(text@.take(i + 1) == text@.take(i as int).push(text@[i as int]));
        assert(word@.take(i + 1) == word@.take(i as int).push(word@[i as int]));
        i += 1;
    }
    assert(text@.take(i as int) == text@);
    assert(word@.take(i as int) == word@);
    true
}

/// Whether `text` begins with `word`.
pub fn starts_with(text: &Vec<char>, word: &Vec<char>) -> (starts: bool)
    ensures
        starts == word@.is_prefix_of(text@),
{
    if text.len() < word.len() {
        return false;
    }
    let mut i: usize = 0;
    while i < word.len()
        invariant
            i <= word.len(),
            word.len() <= text.len(),
            text@.take(i as int) == word@.take(i as int),
        decreases word.len() - i,
    {
        if text[i] != word[i] {
            assert(text@.subrange(0, word@.len() as int)[i as int] != word@[i as int]);
            return false;
        }
        assert(text@.take(i + 1) == text@.take(i as int).push(text@[i as int]));
        assert(word@.take(i + 1) == word@.take(i as int).push(word@[i as int]));
        i += 1;
    }
    assert(word@.take(i as int) == word@);
    assert(text@.subrange(0, word@.len() as int) == text@.take(i as int));
    true
}

} // verus!
