//! Materialised layouts.
use vstd::prelude::*;
use crate::text::text_of;

verus! {

/// What one keyboard position holds.
#[derive(Clone, Copy, Debug, PartialEq, Eq)]
pub struct LayoutKey {
    /// The character at this position.
    pub symbol: char,
    /// Whether the search leaves this position alone.
    pub fixed: bool,
}

/// A layout: the character at every keyboard position, fixed or movable. A
/// layout is made once and never changed.
#[derive(Clone, Debug, PartialEq, Eq)]
pub struct Layout {
    keys: Vec<LayoutKey>,
}

impl View for Layout {
    type V = Seq<LayoutKey>;

    closed spec fn view(&self) -> Seq<LayoutKey> {
        self.keys@
    }
}

/// The key that holds `symbol` and is fixed or not as `fixed` says.
pub open spec fn key_spec(symbol: char, fixed: bool) -> LayoutKey {
    LayoutKey { symbol, fixed }
}

/// The characters of a layout, position by position.
pub open spec fn symbols_of(keys: Seq<LayoutKey>) -> Seq<char> {
    Seq::new(keys.len(), |i: int| keys[i].symbol)
}

impl Layout {
    /// The layout with the given keys.
    pub fn from_keys(keys: Vec<LayoutKey>) -> (layout: Layout)
        ensures
            layout@ == keys@,
    {
        Layout { keys }
    }

    /// The number of positions.
    pub fn len(&self) -> (n: usize)
        ensures
            n == self@.len(),
    {
        self.keys.len()
    }

    /// What the position `index` holds, if there is such a position.
    pub fn key_at(&self, index: usize) -> (key: Option<LayoutKey>)
        ensures
            key == if index < self@.len() {
                Some(self@[index as int])
            } else {
                None
            },
    {
        if index < self.keys.len() {
            Some(self.keys[index])
        } else {
            None
        }
    }

    /// The layout as a text: the characters of all positions, in order.
    pub fn as_text(&self) -> (text: String)
        ensures
            text@ == symbols_of(self@),
    {
        let mut chars: Vec<char> = Vec::new();
        let mut i: usize = 0;
        while i < self.keys.len()
            invariant
                i <= self.keys.len(),
                chars@ == symbols_of(self@).take(i as int),
            decreases self.keys.len() - i,
        {
            chars.push(self.keys[i].symbol);
            i += 1;
        }
        text_of(&chars)
    }
}

} // verus!
