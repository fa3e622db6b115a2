use evolve_keyboard_layout::error::{
    AlreadyTerminatedError, ConfigError, EvaluationError, InvalidParameterError,
    InvalidPermutationError, OptimizationError, ParseError,
};

#[test]
fn every_error_names_its_fault() {
    assert_eq!(
        InvalidPermutationError::WrongLength.message(),
        "the permutation does not have one index per slot"
    );
    assert_eq!(
        InvalidPermutationError::IndexOutOfRange.message(),
        "the permutation holds an index outside the slot set"
    );
    assert_eq!(
        InvalidPermutationError::DuplicateIndex.message(),
        "the permutation holds an index twice"
    );
    assert_eq!(
        ConfigError::FixedAndMovable.message(),
        "a character is both fixed and movable"
    );
    assert_eq!(
        ConfigError::DuplicateInLayout.message(),
        "a character occurs twice in the base layout"
    );
    assert_eq!(
        ParseError::FixedCharacterMoved.message(),
        "a fixed position holds another character than the base layout"
    );
    assert_eq!(
        InvalidParameterError::InitialTemperature.message(),
        "the initial temperature is not positive and cannot be corrected"
    );
    assert_eq!(AlreadyTerminatedError.message(), "the search has ended");
}

#[test]
fn optimization_error_passes_the_message_on() {
    assert_eq!(
        OptimizationError::Config(ConfigError::MissingFixedCharacter).message(),
        ConfigError::MissingFixedCharacter.message()
    );
    assert_eq!(
        OptimizationError::InvalidParameter(InvalidParameterError::NoKeySwitches).message(),
        "the number of key switches is zero"
    );
    assert_eq!(
        OptimizationError::Parse(ParseError::WrongLength).message(),
        "the layout text does not have one character per position"
    );
    assert_eq!(
        OptimizationError::InvalidPermutation(InvalidPermutationError::WrongLength).message(),
        InvalidPermutationError::WrongLength.message()
    );
    let failure = EvaluationError { reason: String::from("no n-grams") };
    assert_eq!(failure.message(), "no n-grams");
    assert_eq!(OptimizationError::Evaluation(failure).message(), "no n-grams");
}
