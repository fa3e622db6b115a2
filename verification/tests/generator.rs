use evolve_keyboard_layout::error::{ConfigError, InvalidPermutationError, ParseError};
use evolve_keyboard_layout::generator::PermutationLayoutGenerator;
use evolve_keyboard_layout::layout::LayoutKey;
use evolve_keyboard_layout::permutation::check_permutation;
use evolve_keyboard_layout::rng::SearchRng;

#[test]
fn identity_renders_the_base_layout() {
    let generator = PermutationLayoutGenerator::construct("abc", "xy", "xaybc").unwrap();
    let identity = generator.identity_permutation();
    assert_eq!(identity, vec![0, 1, 2]);
    assert_eq!(generator.generate_string(&identity).unwrap(), "xaybc");
}

#[test]
fn permutation_moves_only_movable_characters() {
    let generator = PermutationLayoutGenerator::construct("abc", "xy", "xaybc").unwrap();
    assert_eq!(generator.generate_string(&vec![2, 0, 1]).unwrap(), "xcyab");
}

#[test]
fn slot_order_need_not_follow_the_layout() {
    let generator = PermutationLayoutGenerator::construct("cab", "xy", "xaybc").unwrap();
    // slot 0 is the position of 'c', slot 1 that of 'a', slot 2 that of 'b'
    assert_eq!(generator.generate_string(&vec![0, 1, 2]).unwrap(), "xaybc");
    assert_eq!(generator.generate_string(&vec![1, 2, 0]).unwrap(), "xbyca");
}

#[test]
fn character_both_fixed_and_movable_is_refused() {
    let made = PermutationLayoutGenerator::construct("abc", "cx", "xabc");
    assert_eq!(made.err(), Some(ConfigError::FixedAndMovable));
}

#[test]
fn wrong_length_is_refused() {
    let generator = PermutationLayoutGenerator::construct("abc", "", "abc").unwrap();
    assert_eq!(
        generator.generate_string(&vec![0, 1]).err(),
        Some(InvalidPermutationError::WrongLength)
    );
}

#[test]
fn text_round_trip() {
    let generator = PermutationLayoutGenerator::from_layout("xaybc", "xy").unwrap();
    let p = generator.permutation_for("xbyca").unwrap();
    assert_eq!(p, vec![1, 2, 0]);
    let text = generator.generate_string(&p).unwrap();
    assert_eq!(text, "xbyca");
    assert_eq!(generator.permutation_for(&text).unwrap(), p);
    assert_eq!(generator.permutation_for("axybc").err(), Some(ParseError::FixedCharacterMoved));
}

#[test]
fn configuration_faults_are_named_in_order() {
    let fault = |slots: &str, fixed: &str, base: &str| {
        PermutationLayoutGenerator::construct(slots, fixed, base).err()
    };
    assert_eq!(fault("abc", "x", "xabc"), None);
    assert_eq!(fault("abc", "x", "xabca"), Some(ConfigError::DuplicateInLayout));
    assert_eq!(fault("abca", "x", "xabc"), Some(ConfigError::DuplicateSlot));
    assert_eq!(fault("abc", "xb", "xabc"), Some(ConfigError::FixedAndMovable));
    assert_eq!(fault("ab", "x", "xabc"), Some(ConfigError::UnassignedCharacter));
    assert_eq!(fault("abcd", "x", "xabc"), Some(ConfigError::MissingMovableCharacter));
    assert_eq!(fault("abc", "xy", "xabc"), Some(ConfigError::MissingFixedCharacter));
    // a duplicate in the layout is named before all else
    assert_eq!(fault("aab", "a", "xaa"), Some(ConfigError::DuplicateInLayout));
    // fixed characters may be named twice
    assert_eq!(fault("abc", "xx", "xabc"), None);
    // nothing movable, nothing at all
    assert_eq!(fault("", "ab", "ab"), None);
    assert_eq!(fault("", "", ""), None);
}

#[test]
fn movable_characters_are_derived_from_the_layout() {
    let generator = PermutationLayoutGenerator::from_layout("q.we,r", ",.").unwrap();
    assert_eq!(generator.permutable_keys(), vec!['q', 'w', 'e', 'r']);
    assert_eq!(generator.fixed_keys(), vec![',', '.']);
    assert_eq!(generator.slot_count(), 4);
    assert_eq!(generator.position_count(), 6);
    assert_eq!(generator.base_layout(), "q.we,r");
    assert_eq!(generator.generate_string(&vec![3, 2, 1, 0]).unwrap(), "r.ew,q");
    assert_eq!(
        PermutationLayoutGenerator::from_layout("qwe", "x").err(),
        Some(ConfigError::MissingFixedCharacter)
    );
    assert_eq!(
        PermutationLayoutGenerator::from_layout("qwq", "").err(),
        Some(ConfigError::DuplicateInLayout)
    );
}

#[test]
fn layout_marks_fixed_positions() {
    let generator = PermutationLayoutGenerator::from_layout("a-b", "-").unwrap();
    let layout = generator.generate_layout(&vec![1, 0]).unwrap();
    assert_eq!(layout.as_text(), "b-a");
    assert_eq!(layout.key_at(0), Some(LayoutKey { symbol: 'b', fixed: false }));
    assert_eq!(layout.key_at(1), Some(LayoutKey { symbol: '-', fixed: true }));
    assert_eq!(layout.key_at(2), Some(LayoutKey { symbol: 'a', fixed: false }));
    assert_eq!(
        generator.generate_layout(&vec![1, 1]).err(),
        Some(InvalidPermutationError::DuplicateIndex)
    );
    assert_eq!(
        generator.generate_layout(&vec![2, 0]).err(),
        Some(InvalidPermutationError::IndexOutOfRange)
    );
}

#[test]
fn parse_faults_are_named_in_order() {
    let generator = PermutationLayoutGenerator::from_layout("xaybc", "xy").unwrap();
    assert_eq!(generator.permutation_for("xayb").err(), Some(ParseError::WrongLength));
    assert_eq!(generator.permutation_for("yaxbc").err(), Some(ParseError::FixedCharacterMoved));
    assert_eq!(generator.permutation_for("xaybz").err(), Some(ParseError::UnknownCharacter));
    assert_eq!(generator.permutation_for("xaybx").err(), Some(ParseError::UnknownCharacter));
    assert_eq!(generator.permutation_for("xaybb").err(), Some(ParseError::DuplicateCharacter));
    assert_eq!(generator.permutation_for("xaybc").unwrap(), vec![0, 1, 2]);
}

#[test]
fn round_trip_over_all_arrangements() {
    let generator = PermutationLayoutGenerator::from_layout("a1bc2d", "12").unwrap();
    let movable = ['a', 'b', 'c', 'd'];
    let mut seen = 0;
    for i in 0..4 {
        for j in 0..4 {
            for k in 0..4 {
                for l in 0..4 {
                    let p = vec![i, j, k, l];
                    if !check_permutation(&p, 4) {
                        assert!(generator.generate_string(&p).is_err());
                        continue;
                    }
                    let text = generator.generate_string(&p).unwrap();
                    let expected: String =
                        [movable[i], '1', movable[j], movable[k], '2', movable[l]].iter().collect();
                    assert_eq!(text, expected);
                    let back = generator.permutation_for(&text).unwrap();
                    assert_eq!(back, p);
                    assert_eq!(generator.generate_string(&back).unwrap(), text);
                    seen += 1;
                }
            }
        }
    }
    assert_eq!(seen, 24);
}

#[test]
fn random_permutations_are_valid_and_repeatable() {
    let generator = PermutationLayoutGenerator::from_layout("abcdefgh", "h").unwrap();
    let mut rng = SearchRng::seeded(1);
    let mut again = SearchRng::seeded(1);
    for _ in 0..20 {
        let p = generator.generate_random(&mut rng);
        assert!(check_permutation(&p, 7));
        assert_eq!(p, generator.generate_random(&mut again));
        let text = generator.generate_string(&p).unwrap();
        assert_eq!(text.chars().last(), Some('h'));
    }
}
