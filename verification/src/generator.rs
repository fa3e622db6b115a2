//! The mapping between permutations and layout texts.
//!
//! A configuration names the base layout (one character per keyboard
//! position), the movable characters in slot order, and the fixed characters.
//! A permutation `p` stands for the layout in which the position of the
//! `k`-th movable character holds the movable character number `p[k]`; every
//! other position holds what the base layout holds there.
use vstd::prelude::*;
use crate::error::{ConfigError, InvalidPermutationError, ParseError};
use crate::permutation::{find_permutation_fault, is_permutation, permutation_fault};
use crate::layout::{key_spec, symbols_of, Layout, LayoutKey};
use crate::rng::SearchRng;
use crate::permutation::{identity, identity_spec, random_permutation, random_permutation_spec};
use crate::text::{chars_of, contains_char, find_char, has_duplicates, text_of};

verus! {

/// Some character of `slots` is also in `fixed`.
#[verifier::opaque]
pub open spec fn overlapping(slots: Seq<char>, fixed: Seq<char>) -> bool {
    exists|k: int| 0 <= k < slots.len() && fixed.contains(#[trigger] slots[k])
}

/// Some character of `base` is neither in `slots` nor in `fixed`.
#[verifier::opaque]
pub open spec fn unassigned(slots: Seq<char>, fixed: Seq<char>, base: Seq<char>) -> bool {
    exists|i: int|
        0 <= i < base.len() && !slots.contains(#[trigger] base[i]) && !fixed.contains(base[i])
}

/// Some character of `chars` does not occur in `base`.
#[verifier::opaque]
pub open spec fn missing(chars: Seq<char>, base: Seq<char>) -> bool {
    exists|k: int| 0 <= k < chars.len() && !base.contains(#[trigger] chars[k])
}

/// What is wrong with a configuration, if anything. The base layout must hold
/// no character twice, and its characters must be exactly the movable and the
/// fixed ones, with no character in both groups. The faults are named in the
/// order of the variants of [`ConfigError`].
pub open spec fn config_fault(slots: Seq<char>, fixed: Seq<char>, base: Seq<char>) -> Option<
    ConfigError,
> {
    if !base.no_duplicates() {
        Some(ConfigError::DuplicateInLayout)
    } else if !slots.no_duplicates() {
        Some(ConfigError::DuplicateSlot)
    } else if overlapping(slots, fixed) {
        Some(ConfigError::FixedAndMovable)
    } else if unassigned(slots, fixed, base) {
        Some(ConfigError::UnassignedCharacter)
    } else if missing(slots, base) {
        Some(ConfigError::MissingMovableCharacter)
    } else if missing(fixed, base) {
        Some(ConfigError::MissingFixedCharacter)
    } else {
        None
    }
}

/// The movable characters that a base layout and its fixed characters leave:
/// those of the base layout that are not fixed, in the order of the layout.
pub open spec fn derived_slots(base: Seq<char>, fixed: Seq<char>) -> Seq<char> {
    base.filter(|c: char| !fixed.contains(c))
}

/// The layout text that the permutation `p` stands for.
pub open spec fn render_spec(base: Seq<char>, slots: Seq<char>, p: Seq<usize>) -> Seq<char> {
    Seq::new(
        base.len(),
        |i: int|
            if slots.contains(base[i]) {
                slots[p[slots.index_of(base[i])] as int]
            } else {
                base[i]
            },
    )
}

/// Some position that holds a fixed character in `base` holds another
/// character in `text`.
pub open spec fn fixed_moved(base: Seq<char>, slots: Seq<char>, text: Seq<char>) -> bool {
    exists|i: int| 0 <= i < base.len() && !slots.contains(#[trigger] base[i]) && text[i] != base[i]
}

/// Some position that holds a movable character in `base` holds a character
/// in `text` that is not movable.
pub open spec fn unknown_at_slot(base: Seq<char>, slots: Seq<char>, text: Seq<char>) -> bool {
    exists|i: int|
        0 <= i < base.len() && slots.contains(#[trigger] base[i]) && !slots.contains(text[i])
}

/// What is wrong with `text` as an arrangement of the configured characters,
/// if anything. The faults are named in the order of the variants of
/// [`ParseError`].
pub open spec fn parse_fault(base: Seq<char>, slots: Seq<char>, text: Seq<char>) -> Option<
    ParseError,
> {
    if text.len() != base.len() {
        Some(ParseError::WrongLength)
    } else if fixed_moved(base, slots, text) {
        Some(ParseError::FixedCharacterMoved)
    } else if unknown_at_slot(base, slots, text) {
        Some(ParseError::UnknownCharacter)
    } else if !text.no_duplicates() {
        Some(ParseError::DuplicateCharacter)
    } else {
        None
    }
}

/// The permutation that stands for `text`: for each slot, the number of the
/// movable character that `text` holds at the slot's position.
pub open spec fn parsed_spec(base: Seq<char>, slots: Seq<char>, text: Seq<char>) -> Seq<usize> {
    Seq::new(slots.len(), |k: int| slots.index_of(text[base.index_of(slots[k])]) as usize)
}

/// In a sequence without duplicates, the index of the entry at `i` is `i`.
pub proof fn lemma_index_of_entry(s: Seq<char>, i: int)
    requires
        s.no_duplicates(),
        0 <= i < s.len(),
    ensures
        s.index_of(s[i]) == i,
{
    let k = s.index_of(s[i]);
    assert(0 <= k < s.len() && s[k] == s[i]);
}

/// The index of a character that occurs addresses an entry that holds it.
pub proof fn lemma_index_of_member(s: Seq<char>, c: char)
    requires
        s.contains(c),
    ensures
        0 <= s.index_of(c) < s.len(),
        s[s.index_of(c)] == c,
{
}

/// The text of a permutation is an arrangement of the configured characters,
/// and it stands for that permutation and no other.
pub proof fn lemma_parse_of_render(
    slots: Seq<char>,
    fixed: Seq<char>,
    base: Seq<char>,
    p: Seq<usize>,
)
    requires
        config_fault(slots, fixed, base) is None,
        is_permutation(p, slots.len()),
    ensures
        parse_fault(base, slots, render_spec(base, slots, p)) is None,
        parsed_spec(base, slots, render_spec(base, slots, p)) == p,
{
    reveal(missing);
    let text = render_spec(base, slots, p);
    assert forall|i: int| 0 <= i < base.len() && slots.contains(#[trigger] base[i]) implies {
        let k = slots.index_of(base[i]);
        0 <= k < slots.len() && text[i] == slots[p[k] as int] && slots.contains(text[i])
    } by {
        lemma_index_of_member(slots, base[i]);
        let k = slots.index_of(base[i]);
        assert((p[k] as nat) < slots.len());
    }
    assert(!fixed_moved(base, slots, text));
    assert(!unknown_at_slot(base, slots, text));
    assert forall|a: int, b: int| 0 <= a < text.len() && 0 <= b < text.len() && a != b implies text[a]
        != text[b] by {
        assert(base[a] != base[b]);
        if slots.contains(base[a]) && slots.contains(base[b]) {
            lemma_index_of_member(slots, base[a]);
            lemma_index_of_member(slots, base[b]);
            let ka = slots.index_of(base[a]);
            let kb = slots.index_of(base[b]);
            assert(ka != kb);
            assert(p[ka] != p[kb]);
            assert((p[ka] as nat) < slots.len() && (p[kb] as nat) < slots.len());
        } else if slots.contains(base[a]) {
            assert(slots.contains(text[a]));
        } else if slots.contains(base[b]) {
            assert(slots.contains(text[b]));
        }
    }
    let q = parsed_spec(base, slots, text);
    assert forall|k: int| 0 <= k < slots.len() implies q[k] == p[k] by {
        assert(base.contains(slots[k]));
        lemma_index_of_member(base, slots[k]);
        let i = base.index_of(slots[k]);
        assert(slots.contains(base[i]));
        lemma_index_of_entry(slots, k);
        assert(text[i] == slots[p[k] as int]);
        assert((p[k] as nat) < slots.len());
        lemma_index_of_entry(slots, p[k] as int);
    }
    assert(q =~= p);
}

/// The permutation read from an arrangement is a permutation, and its text is
/// that arrangement.
pub proof fn lemma_render_of_parse(
    slots: Seq<char>,
    fixed: Seq<char>,
    base: Seq<char>,
    text: Seq<char>,
)
    requires
        config_fault(slots, fixed, base) is None,
        parse_fault(base, slots, text) is None,
        slots.len() <= usize::MAX,
    ensures
        is_permutation(parsed_spec(base, slots, text), slots.len()),
        render_spec(base, slots, parsed_spec(base, slots, text)) == text,
{
    reveal(missing);
    let q = parsed_spec(base, slots, text);
    assert forall|k: int| 0 <= k < slots.len() implies {
        let i = base.index_of(slots[k]);
        &&& 0 <= i < base.len()
        &&& base[i] == slots[k]
        &&& slots.contains(text[i])
        &&& 0 <= #[trigger] q[k] < slots.len()
        &&& slots[q[k] as int] == text[i]
    } by {
        assert(base.contains(slots[k]));
        lemma_index_of_member(base, slots[k]);
        let i = base.index_of(slots[k]);
        assert(slots.contains(base[i]));
        assert(slots.contains(text[i]));
        lemma_index_of_member(slots, text[i]);
    }
    assert forall|a: int, b: int| 0 <= a < q.len() && 0 <= b < q.len() && a != b implies q[a]
        != q[b] by {
        let ia = base.index_of(slots[a]);
        let ib = base.index_of(slots[b]);
        assert(slots[a] != slots[b]);
        assert(ia != ib);
        assert(text[ia] != text[ib]);
        assert(0 <= q[a] < slots.len() && 0 <= q[b] < slots.len());
    }
    assert forall|k: int| 0 <= k < q.len() implies (#[trigger] q[k] as nat) < slots.len() by {
        assert(0 <= q[k] < slots.len());
    }
    let back = render_spec(base, slots, q);
    assert forall|i: int| 0 <= i < base.len() implies back[i] == text[i] by {
        if slots.contains(base[i]) {
            lemma_index_of_member(slots, base[i]);
            let k = slots.index_of(base[i]);
            lemma_index_of_entry(base, i);
            assert(base.index_of(slots[k]) == i);
            assert(0 <= q[k] < slots.len());
        } else {
            assert(text[i] == base[i]);
        }
    }
    assert(back =~= text);
}

/// Reading an arrangement, writing the permutation out and reading the text
/// again gives the same permutation, and the text written is the arrangement
/// itself.
pub proof fn lemma_round_trip(slots: Seq<char>, fixed: Seq<char>, base: Seq<char>, text: Seq<char>)
    requires
        config_fault(slots, fixed, base) is None,
        parse_fault(base, slots, text) is None,
        slots.len() <= usize::MAX,
    ensures
        render_spec(base, slots, parsed_spec(base, slots, text)) == text,
        parse_fault(base, slots, render_spec(base, slots, parsed_spec(base, slots, text))) is None,
        parsed_spec(base, slots, render_spec(base, slots, parsed_spec(base, slots, text)))
            == parsed_spec(base, slots, text),
{
    lemma_render_of_parse(slots, fixed, base, text);
    lemma_parse_of_render(slots, fixed, base, parsed_spec(base, slots, text));
}

/// The layout that the permutation `p` stands for: the characters of its text,
/// each marked as fixed where the base layout holds a character that is not
/// movable.
pub open spec fn layout_spec(base: Seq<char>, slots: Seq<char>, p: Seq<usize>) -> Seq<LayoutKey> {
    Seq::new(
        base.len(),
        |i: int| key_spec(render_spec(base, slots, p)[i], !slots.contains(base[i])),
    )
}

/// Turns permutations into layouts and layout texts, and texts back into
/// permutations.
#[derive(Clone, Debug)]
pub struct PermutationLayoutGenerator {
    base: Vec<char>,
    movable: Vec<char>,
    fixed: Vec<char>,
    positions: Vec<usize>,
}

impl PermutationLayoutGenerator {
    /// The base layout, one character per position.
    pub closed spec fn base(&self) -> Seq<char> {
        self.base@
    }

    /// The movable characters, in slot order.
    pub closed spec fn movable(&self) -> Seq<char> {
        self.movable@
    }

    /// The fixed characters.
    pub closed spec fn fixed(&self) -> Seq<char> {
        self.fixed@
    }

    /// For each slot, the position of its character in the base layout.
    pub closed spec fn positions(&self) -> Seq<usize> {
        self.positions@
    }

    /// The configuration is valid, and every slot knows its position.
    pub open spec fn wf(&self) -> bool {
        &&& config_fault(self.movable(), self.fixed(), self.base()) is None
        &&& self.positions().len() == self.movable().len()
        &&& forall|k: int|
            0 <= k < self.movable().len() ==> #[trigger] self.positions()[k] as int
                == self.base().index_of(self.movable()[k])
    }

    /// The layout text of `p` under this configuration.
    pub open spec fn render(&self, p: Seq<usize>) -> Seq<char> {
        render_spec(self.base(), self.movable(), p)
    }

    /// The permutation of `text` under this configuration.
    pub open spec fn parsed(&self, text: Seq<char>) -> Seq<usize> {
        parsed_spec(self.base(), self.movable(), text)
    }

    /// What is wrong with `text` under this configuration.
    pub open spec fn fault_of(&self, text: Seq<char>) -> Option<ParseError> {
        parse_fault(self.base(), self.movable(), text)
    }

    /// Checks a configuration and finds the position of every slot.
    #[verifier::loop_isolation(false)]
    fn assemble(slots: Vec<char>, fixed: Vec<char>, base: Vec<char>) -> (made: Result<
        PermutationLayoutGenerator,
        ConfigError,
    >)
        ensures
            match made {
                Ok(generator) => {
                    &&& config_fault(slots@, fixed@, base@) is None
                    &&& generator.wf()
                    &&& generator.base() == base@
                    &&& generator.movable() == slots@
                    &&& generator.fixed() == fixed@
                },
                Err(fault) => config_fault(slots@, fixed@, base@) == Some(fault),
            },
    {
        proof {
            reveal(unassigned);
            reveal(missing);
            reveal(overlapping);
        }
        if has_duplicates(&base) {
            return Err(ConfigError::DuplicateInLayout);
        }
        if has_duplicates(&slots) {
            return Err(ConfigError::DuplicateSlot);
        }
        let mut k: usize = 0;
        while k < slots.len()
            invariant
                k <= slots.len(),
                forall|j: int| 0 <= j < k ==> !fixed@.contains(#[trigger] slots@[j]),
            decreases slots.len() - k,
        {
            if contains_char(&fixed, slots[k]) {
                assert(fixed@.contains(slots@[k as int]));
                assert(overlapping(slots@, fixed@));
                return Err(ConfigError::FixedAndMovable);
            }
            k += 1;
        }
        assert(!overlapping(slots@, fixed@));
        let mut i: usize = 0;
        while i < base.len()
            invariant
                i <= base.len(),
                forall|j: int|
                    0 <= j < i ==> slots@.contains(#[trigger] base@[j]) || fixed@.contains(
                        base@[j],
                    ),
            decreases base.len() - i,
        {
            if !contains_char(&slots, base[i]) && !contains_char(&fixed, base[i]) {
                assert(!slots@.contains(base@[i as int]) && !fixed@.contains(base@[i as int]));
                assert(unassigned(slots@, fixed@, base@));
                return Err(ConfigError::UnassignedCharacter);
            }
            i += 1;
        }
        assert(!unassigned(slots@, fixed@, base@));
        let mut positions: Vec<usize> = Vec::new();
        let mut k: usize = 0;
        while k < slots.len()
            invariant
                k <= slots.len(),
                positions.len() == k,
                base@.no_duplicates(),
                forall|j: int| 0 <= j < k ==> base@.contains(#[trigger] slots@[j]),
                forall|j: int|
                    0 <= j < k ==> #[trigger] positions@[j] as int == base@.index_of(slots@[j]),
            decreases slots.len() - k,
        {
            match find_char(&base, slots[k]) {
                Some(position) => {
                    proof {
                        lemma_index_of_entry(base@, position as int);
                    }
                    positions.push(position);
                },
                None => {
                    assert(!base@.contains(slots@[k as int]));
                    assert(missing(slots@, base@));
                    return Err(ConfigError::MissingMovableCharacter);
                },
            }
            k += 1;
        }
        assert(!missing(slots@, base@));
        let mut k: usize = 0;
        while k < fixed.len()
            invariant
                k <= fixed.len(),
                forall|j: int| 0 <= j < k ==> base@.contains(#[trigger] fixed@[j]),
            decreases fixed.len() - k,
        {
            if !contains_char(&base, fixed[k]) {
                assert(!base@.contains(fixed@[k as int]));
                assert(missing(fixed@, base@));
                return Err(ConfigError::MissingFixedCharacter);
            }
            k += 1;
        }
        assert(!missing(fixed@, base@));
        Ok(PermutationLayoutGenerator { base, movable: slots, fixed, positions })
    }

    /// Makes a generator for the base layout `base_layout`, whose movable
    /// characters are those of `slot_set`, in that order, and whose other
    /// characters are those of `fixed_characters`. The configuration is
    /// refused unless the characters of the base layout are exactly the
    /// movable and the fixed ones, each once, and no character is both.
    pub fn construct(slot_set: &str, fixed_characters: &str, base_layout: &str) -> (made: Result<
        PermutationLayoutGenerator,
        ConfigError,
    >)
        ensures
            match made {
                Ok(generator) => {
                    &&& config_fault(slot_set@, fixed_characters@, base_layout@) is None
                    &&& generator.wf()
                    &&& generator.base() == base_layout@
                    &&& generator.movable() == slot_set@
                    &&& generator.fixed() == fixed_characters@
                },
                Err(fault) => config_fault(slot_set@, fixed_characters@, base_layout@) == Some(
                    fault,
                ),
            },
    {
        let slots: Vec<char> = chars_of(slot_set);
        let fixed: Vec<char> = chars_of(fixed_characters);
        let base: Vec<char> = chars_of(base_layout);
        Self::assemble(slots, fixed, base)
    }

    /// Makes a generator for the layout `layout` in which the characters of
    /// `fixed_characters` stay where they are and all others are movable, in
    /// the order in which the layout holds them.
    #[verifier::loop_isolation(false)]
    pub fn from_layout(layout: &str, fixed_characters: &str) -> (made: Result<
        PermutationLayoutGenerator,
        ConfigError,
    >)
        ensures
            match made {
                Ok(generator) => {
                    &&& config_fault(
                        derived_slots(layout@, fixed_characters@),
                        fixed_characters@,
                        layout@,
                    ) is None
                    &&& generator.wf()
                    &&& generator.base() == layout@
                    &&& generator.movable() == derived_slots(layout@, fixed_characters@)
                    &&& generator.fixed() == fixed_characters@
                },
                Err(fault) => config_fault(
                    derived_slots(layout@, fixed_characters@),
                    fixed_characters@,
                    layout@,
                ) == Some(fault),
            },
    {
        let fixed: Vec<char> = chars_of(fixed_characters);
        let base: Vec<char> = chars_of(layout);
        let ghost movable = |c: char| !fixed@.contains(c);
        let mut slots: Vec<char> = Vec::new();
        let mut i: usize = 0;
        while i < base.len()
            invariant
                i <= base.len(),
                movable == |c: char| !fixed@.contains(c),
                slots@ == base@.take(i as int).filter(movable),
            decreases base.len() - i,
        {
            proof {
                assert(base@.take(i + 1) == base@.take(i as int).push(base@[i as int]));
                base@.take(i as int).lemma_filter_push(base@[i as int], movable);
            }
            if !contains_char(&fixed, base[i]) {
                slots.push(base[i]);
            }
            i += 1;
        }
        assert(base@.take(base.len() as int) == base@);
        Self::assemble(slots, fixed, base)
    }

    /// The number of slots, which is the length of every permutation.
    pub fn slot_count(&self) -> (n: usize)
        ensures
            n == self.movable().len(),
    {
        self.movable.len()
    }

    /// The number of keyboard positions.
    pub fn position_count(&self) -> (n: usize)
        ensures
            n == self.base().len(),
    {
        self.base.len()
    }

    /// The base layout as a text.
    pub fn base_layout(&self) -> (text: String)
        ensures
            text@ == self.base(),
    {
        text_of(&self.base)
    }

    /// The movable characters, in slot order.
    pub fn permutable_keys(&self) -> (keys: Vec<char>)
        ensures
            keys@ == self.movable(),
    {
        self.movable.clone()
    }

    /// The fixed characters.
    pub fn fixed_keys(&self) -> (keys: Vec<char>)
        ensures
            keys@ == self.fixed(),
    {
        self.fixed.clone()
    }

    /// The permutation that stands for the base layout.
    pub fn identity_permutation(&self) -> (p: Vec<usize>)
        ensures
            p@ == identity_spec(self.movable().len()),
            is_permutation(p@, self.movable().len()),
    {
        identity(self.movable.len())
    }

    /// A random permutation of the slot set, drawn from `rng`.
    pub fn generate_random(&self, rng: &mut SearchRng) -> (p: Vec<usize>)
        ensures
            p@ == random_permutation_spec(self.movable().len(), old(rng)@).0,
            final(rng)@ == random_permutation_spec(self.movable().len(), old(rng)@).1,
            is_permutation(p@, self.movable().len()),
    {
        random_permutation(self.movable.len(), rng)
    }

    /// The characters of the layout text of the permutation `p`.
    #[verifier::loop_isolation(false)]
    fn render_chars(&self, p: &Vec<usize>) -> (text: Vec<char>)
        requires
            self.wf(),
            is_permutation(p@, self.movable().len()),
        ensures
            text@ == self.render(p@),
    {
        proof {
            reveal(missing);
        }
        let mut text: Vec<char> = self.base.clone();
        let mut k: usize = 0;
        while k < self.movable.len()
            invariant
                k <= self.movable.len(),
                self.wf(),
                is_permutation(p@, self.movable().len()),
                text.len() == self.base.len(),
                forall|i: int|
                    0 <= i < self.base@.len() ==> #[trigger] text@[i] == if self.movable@.contains(
                        self.base@[i],
                    ) && self.movable@.index_of(self.base@[i]) < k {
                        self.movable@[p@[self.movable@.index_of(self.base@[i])] as int]
                    } else {
                        self.base@[i]
                    },
            decreases self.movable.len() - k,
        {
            let position: usize = self.positions[k];
            let ghost before = text@;
            proof {
                assert(self.positions()[k as int] as int == self.base().index_of(
                    self.movable()[k as int],
                ));
                assert(self.base@.contains(self.movable@[k as int]));
                lemma_index_of_member(self.base@, self.movable@[k as int]);
                lemma_index_of_entry(self.movable@, k as int);
                assert((p@[k as int] as nat) < self.movable@.len());
            }
            text.set(position, self.movable[p[k]]);
            assert forall|i: int| 0 <= i < self.base@.len() implies #[trigger] text@[i]
                == if self.movable@.contains(self.base@[i]) && self.movable@.index_of(
                self.base@[i],
            ) < k + 1 {
                self.movable@[p@[self.movable@.index_of(self.base@[i])] as int]
            } else {
                self.base@[i]
            } by {
                if i != position {
                    assert(text@[i] == before[i]);
                    if self.movable@.contains(self.base@[i]) {
                        lemma_index_of_member(self.movable@, self.base@[i]);
                    }
                }
            }
            k += 1;
        }
        proof {
            assert forall|i: int| 0 <= i < self.base@.len() implies text@[i] == self.render(
                p@,
            )[i] by {
                if self.movable@.contains(self.base@[i]) {
                    lemma_index_of_member(self.movable@, self.base@[i]);
                }
            }
            assert(text@ =~= self.render(p@));
        }
        text
    }

    /// The layout text of the permutation `p`. A sequence that is no
    /// permutation of the slot set is refused.
    pub fn generate_string(&self, p: &Vec<usize>) -> (made: Result<String, InvalidPermutationError>)
        requires
            self.wf(),
        ensures
            match made {
                Ok(text) => is_permutation(p@, self.movable().len()) && text@ == self.render(p@),
                Err(fault) => permutation_fault(p@, self.movable().len()) == Some(fault),
            },
    {
        match find_permutation_fault(p, self.movable.len()) {
            Some(fault) => Err(fault),
            None => {
                let chars: Vec<char> = self.render_chars(p);
                Ok(text_of(&chars))
            },
        }
    }

    /// The layout of the permutation `p`. A sequence that is no permutation
    /// of the slot set is refused.
    #[verifier::loop_isolation(false)]
    pub fn generate_layout(&self, p: &Vec<usize>) -> (made: Result<Layout, InvalidPermutationError>)
        requires
            self.wf(),
        ensures
            match made {
                Ok(layout) => {
                    &&& is_permutation(p@, self.movable().len())
                    &&& layout@ == layout_spec(self.base(), self.movable(), p@)
                    &&& symbols_of(layout@) == self.render(p@)
                },
                Err(fault) => permutation_fault(p@, self.movable().len()) == Some(fault),
            },
    {
        match find_permutation_fault(p, self.movable.len()) {
            Some(fault) => Err(fault),
            None => {
                let chars: Vec<char> = self.render_chars(p);
                let mut keys: Vec<LayoutKey> = Vec::new();
                let ghost wanted = layout_spec(self.base(), self.movable(), p@);
                let mut i: usize = 0;
                while i < self.base.len()
                    invariant
                        i <= self.base.len(),
                        keys.len() == i,
                        chars@ == self.render(p@),
                        wanted == layout_spec(self.base(), self.movable(), p@),
                        forall|j: int| 0 <= j < i ==> keys@[j] == wanted[j],
                    decreases self.base.len() - i,
                {
                    let fixed: bool = !contains_char(&self.movable, self.base[i]);
                    let key = LayoutKey { symbol: chars[i], fixed };
                    assert(key == wanted[i as int]);
                    keys.push(key);
                    i += 1;
                }
                assert(keys@ =~= wanted);
                let layout = Layout::from_keys(keys);
                assert(symbols_of(layout@) =~= self.render(p@));
                Ok(layout)
            },
        }
    }

    /// The permutation that stands for the layout text `layout_text`. A text
    /// that is no arrangement of the configured characters is refused.
    #[verifier::loop_isolation(false)]
    pub fn permutation_for(&self, layout_text: &str) -> (read: Result<Vec<usize>, ParseError>)
        requires
            self.wf(),
        ensures
            match read {
                Ok(p) => {
                    &&& self.fault_of(layout_text@) is None
                    &&& p@ == self.parsed(layout_text@)
                    &&& is_permutation(p@, self.movable().len())
                    &&& self.render(p@) == layout_text@
                },
                Err(fault) => self.fault_of(layout_text@) == Some(fault),
            },
    {
        proof {
            reveal(missing);
        }
        let text: Vec<char> = chars_of(layout_text);
        if text.len() != self.base.len() {
            return Err(ParseError::WrongLength);
        }
        let mut i: usize = 0;
        while i < self.base.len()
            invariant
                i <= self.base.len(),
                text.len() == self.base.len(),
                forall|j: int|
                    0 <= j < i ==> self.movable@.contains(#[trigger] self.base@[j]) || text@[j]
                        == self.base@[j],
            decreases self.base.len() - i,
        {
            if !contains_char(&self.movable, self.base[i]) && text[i] != self.base[i] {
                assert(!self.movable@.contains(self.base@[i as int]) && text@[i as int]
                    != self.base@[i as int]);
                return Err(ParseError::FixedCharacterMoved);
            }
            i += 1;
        }
        assert(!fixed_moved(self.base(), self.movable(), text@));
        let mut i: usize = 0;
        while i < self.base.len()
            invariant
                i <= self.base.len(),
                text.len() == self.base.len(),
                forall|j: int|
                    0 <= j < i ==> !self.movable@.contains(#[trigger] self.base@[j])
                        || self.movable@.contains(text@[j]),
            decreases self.base.len() - i,
        {
            if contains_char(&self.movable, self.base[i]) && !contains_char(
                &self.movable,
                text[i],
            ) {
                assert(self.movable@.contains(self.base@[i as int]) && !self.movable@.contains(
                    text@[i as int],
                ));
                return Err(ParseError::UnknownCharacter);
            }
            i += 1;
        }
        assert(!unknown_at_slot(self.base(), self.movable(), text@));
        if has_duplicates(&text) {
            return Err(ParseError::DuplicateCharacter);
        }
        proof {
            assert(self.movable.len() <= usize::MAX);
            lemma_render_of_parse(self.movable(), self.fixed(), self.base(), text@);
        }
        let mut p: Vec<usize> = Vec::new();
        let mut k: usize = 0;
        while k < self.movable.len()
            invariant
                k <= self.movable.len(),
                self.wf(),
                self.fault_of(text@) is None,
                text.len() == self.base.len(),
                p@ == self.parsed(text@).take(k as int),
            decreases self.movable.len() - k,
        {
            proof {
                assert(self.positions()[k as int] as int == self.base().index_of(
                    self.movable()[k as int],
                ));
                assert(self.base@.contains(self.movable@[k as int]));
                lemma_index_of_member(self.base@, self.movable@[k as int]);
            }
            let position: usize = self.positions[k];
            let symbol: char = text[position];
            assert(self.movable@.contains(self.base@[position as int]));
            assert(self.movable@.contains(symbol));
            let index: usize = match find_char(&self.movable, symbol) {
                Some(index) => index,
                None => 0,
            };
            proof {
                lemma_index_of_entry(self.movable@, index as int);
                assert(p@.push(index) == self.parsed(text@).take(k + 1));
            }
            p.push(index);
            k += 1;
        }
        assert(self.parsed(text@).take(self.movable@.len() as int) == self.parsed(text@));
        Ok(p)
    }
}

} // verus!
