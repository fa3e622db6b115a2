//! Texts as sequences of characters.
use vstd::prelude::*;

verus! {

/// `String::push` of the standard library appends the character to the end
/// of the string and changes nothing else.
pub assume_specification[ String::push ](s: &mut String, c: char)
    ensures
        final(s)@ == old(s)@.push(c),
;

/// The characters of `s`, in order.
pub fn chars_of(s: &str) -> (chars: Vec<char>)
    ensures
        chars@ == s@,
{
    broadcast use vstd::string::axiom_spec_iter;

    let mut chars: Vec<char> = Vec::new();
    for c in it: s.chars()
        invariant
            it.seq() == s@,
            chars@ == it.seq().take(it.index()),
    {
        chars.push(c);
    }
    chars
}

/// The text made of `chars`, in order.
pub fn text_of(chars: &Vec<char>) -> (s: String)
    ensures
        s@ == chars@,
{
    let mut s = String::new();
    let mut i: usize = 0;
    while i < chars.len()
        invariant
            i <= chars.len(),
            s@ == chars@.take(i as int),
        decreases chars.len() - i,
    {
        s.push(chars[i]);
        i += 1;
    }
    s
}

/// The first position of `c` in `chars`, if it occurs.
pub fn find_char(chars: &Vec<char>, c: char) -> (found: Option<usize>)
    ensures
        found is Some <==> chars@.contains(c),
        found matches Some(k) ==> k < chars.len() && chars@[k as int] == c && forall|j: int|
            0 <= j < k ==> chars@[j] != c,
{
    let mut k: usize = 0;
    while k < chars.len()
        invariant
            k <= chars.len(),
            forall|j: int| 0 <= j < k ==> chars@[j] != c,
        decreases chars.len() - k,
    {
        if chars[k] == c {
            return Some(k);
        }
        k += 1;
    }
    None
}

/// Tells whether `c` occurs in `chars`.
pub fn contains_char(chars: &Vec<char>, c: char) -> (found: bool)
    ensures
        found == chars@.contains(c),
{
    find_char(chars, c).is_some()
}

/// Tells whether some character occurs twice in `chars`.
pub fn has_duplicates(chars: &Vec<char>) -> (twice: bool)
    ensures
        twice == !chars@.no_duplicates(),
{
    let mut i: usize = 0;
    while i < chars.len()
        invariant
            i <= chars.len(),
            forall|a: int, b: int| 0 <= a < i && 0 <= b < i && a != b ==> chars@[a] != chars@[b],
        decreases chars.len() - i,
    {
        let mut j: usize = 0;
        while j < i
            invariant
                j <= i,
                i < chars.len(),
                forall|b: int| 0 <= b < j ==> chars@[b] != chars@[i as int],
            decreases i - j,
        {
            if chars[j] == chars[i] {
                assert(chars@[j as int] == chars@[i as int] && j != i);
                return true;
            }
            j += 1;
        }
        i += 1;
    }
    false
}

} // verus!
