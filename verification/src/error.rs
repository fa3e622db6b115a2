//! The errors that the search engine reports.
use vstd::prelude::*;

verus! {

/// Why a sequence of slot indices is no permutation of the slot set.
#[derive(Clone, Copy, Debug, PartialEq, Eq)]
pub enum InvalidPermutationError {
    /// The sequence does not have one index per slot.
    WrongLength,
    /// Some index does not address a slot.
    IndexOutOfRange,
    /// Some index occurs twice.
    DuplicateIndex,
}

impl InvalidPermutationError {
    /// A sentence that names the fault.
    pub fn message(&self) -> (text: String)
        ensures
            text@ == self.message_spec(),
    {
        match self {
            InvalidPermutationError::WrongLength => String::from_str(
                "the permutation does not have one index per slot",
            ),
            InvalidPermutationError::IndexOutOfRange => String::from_str(
                "the permutation holds an index outside the slot set",
            ),
            InvalidPermutationError::DuplicateIndex => String::from_str(
                "the permutation holds an index twice",
            ),
        }
    }

    /// The characters of [`InvalidPermutationError::message`].
    pub open spec fn message_spec(&self) -> Seq<char> {
        match self {
            InvalidPermutationError::WrongLength => "the permutation does not have one index per slot"@,
            InvalidPermutationError::IndexOutOfRange => "the permutation holds an index outside the slot set"@,
            InvalidPermutationError::DuplicateIndex => "the permutation holds an index twice"@,
        }
    }
}

/// Why a layout configuration is refused.
#[derive(Clone, Copy, Debug, PartialEq, Eq)]
pub enum ConfigError {
    /// A character occurs twice in the base layout.
    DuplicateInLayout,
    /// A character occurs twice in the slot set.
    DuplicateSlot,
    /// A character is both fixed and movable.
    FixedAndMovable,
    /// A character of the base layout is neither fixed nor movable.
    UnassignedCharacter,
    /// A movable character does not occur in the base layout.
    MissingMovableCharacter,
    /// A fixed character does not occur in the base layout.
    MissingFixedCharacter,
}

impl ConfigError {
    /// A sentence that names the fault.
    pub fn message(&self) -> (text: String)
        ensures
            text@ == self.message_spec(),
    {
        match self {
            ConfigError::DuplicateInLayout => String::from_str(
                "a character occurs twice in the base layout",
            ),
            ConfigError::DuplicateSlot => String::from_str(
                "a character occurs twice in the slot set",
            ),
            ConfigError::FixedAndMovable => String::from_str(
                "a character is both fixed and movable",
            ),
            ConfigError::UnassignedCharacter => String::from_str(
                "a character of the base layout is neither fixed nor movable",
            ),
            ConfigError::MissingMovableCharacter => String::from_str(
                "a movable character does not occur in the base layout",
            ),
            ConfigError::MissingFixedCharacter => String::from_str(
                "a fixed character does not occur in the base layout",
            ),
        }
    }

    /// The characters of [`ConfigError::message`].
    pub open spec fn message_spec(&self) -> Seq<char> {
        match self {
            ConfigError::DuplicateInLayout => "a character occurs twice in the base layout"@,
            ConfigError::DuplicateSlot => "a character occurs twice in the slot set"@,
            ConfigError::FixedAndMovable => "a character is both fixed and movable"@,
            ConfigError::UnassignedCharacter => "a character of the base layout is neither fixed nor movable"@,
            ConfigError::MissingMovableCharacter => "a movable character does not occur in the base layout"@,
            ConfigError::MissingFixedCharacter => "a fixed character does not occur in the base layout"@,
        }
    }
}

/// Why a layout text is no arrangement of the configured characters.
#[derive(Clone, Copy, Debug, PartialEq, Eq)]
pub enum ParseError {
    /// The text does not have one character per position.
    WrongLength,
    /// A fixed position holds another character than the base layout.
    FixedCharacterMoved,
    /// A movable position holds a character that is not movable.
    UnknownCharacter,
    /// A character occurs twice.
    DuplicateCharacter,
}

impl ParseError {
    /// A sentence that names the fault.
    pub fn message(&self) -> (text: String)
        ensures
            text@ == self.message_spec(),
    {
        match self {
            ParseError::WrongLength => String::from_str(
                "the layout text does not have one character per position",
            ),
            ParseError::FixedCharacterMoved => String::from_str(
                "a fixed position holds another character than the base layout",
            ),
            ParseError::UnknownCharacter => String::from_str(
                "a movable position holds a character that is not movable",
            ),
            ParseError::DuplicateCharacter => String::from_str(
                "a character occurs twice in the layout text",
            ),
        }
    }

    /// The characters of [`ParseError::message`].
    pub open spec fn message_spec(&self) -> Seq<char> {
        match self {
            ParseError::WrongLength => "the layout text does not have one character per position"@,
            ParseError::FixedCharacterMoved => "a fixed position holds another character than the base layout"@,
            ParseError::UnknownCharacter => "a movable position holds a character that is not movable"@,
            ParseError::DuplicateCharacter => "a character occurs twice in the layout text"@,
        }
    }
}

/// Why optimization parameters are refused.
#[derive(Clone, Copy, Debug, PartialEq, Eq)]
pub enum InvalidParameterError {
    /// The population would have no member.
    EmptyPopulation,
    /// The search would run for no generation.
    NoGenerations,
    /// Fewer than two individuals would make up a set of parents.
    TooFewParents,
    /// The initial temperature is not positive and no positive default was
    /// given to replace it.
    InitialTemperature,
    /// A candidate would not differ from the current solution.
    NoKeySwitches,
    /// Progress would be reported every zero iterations.
    NoCadence,
    /// The cooling schedule would not lower the temperature.
    CoolingRate,
}

impl InvalidParameterError {
    /// A sentence that names the fault.
    pub fn message(&self) -> (text: String)
        ensures
            text@ == self.message_spec(),
    {
        match self {
            InvalidParameterError::EmptyPopulation => String::from_str(
                "the population size is zero",
            ),
            InvalidParameterError::NoGenerations => String::from_str(
                "the generation limit is zero",
            ),
            InvalidParameterError::TooFewParents => String::from_str(
                "fewer than two individuals per parents",
            ),
            InvalidParameterError::InitialTemperature => String::from_str(
                "the initial temperature is not positive and cannot be corrected",
            ),
            InvalidParameterError::NoKeySwitches => String::from_str(
                "the number of key switches is zero",
            ),
            InvalidParameterError::NoCadence => String::from_str(
                "the progress cadence is zero",
            ),
            InvalidParameterError::CoolingRate => String::from_str(
                "the cooling schedule does not lower the temperature",
            ),
        }
    }

    /// The characters of [`InvalidParameterError::message`].
    pub open spec fn message_spec(&self) -> Seq<char> {
        match self {
            InvalidParameterError::EmptyPopulation => "the population size is zero"@,
            InvalidParameterError::NoGenerations => "the generation limit is zero"@,
            InvalidParameterError::TooFewParents => "fewer than two individuals per parents"@,
            InvalidParameterError::InitialTemperature => "the initial temperature is not positive and cannot be corrected"@,
            InvalidParameterError::NoKeySwitches => "the number of key switches is zero"@,
            InvalidParameterError::NoCadence => "the progress cadence is zero"@,
            InvalidParameterError::CoolingRate => "the cooling schedule does not lower the temperature"@,
        }
    }
}

/// A step was asked of a search that has ended.
#[derive(Clone, Copy, Debug, PartialEq, Eq)]
pub struct AlreadyTerminatedError;

impl AlreadyTerminatedError {
    /// A sentence that names the fault.
    pub fn message(&self) -> (text: String)
        ensures
            text@ == "the search has ended"@,
    {
        String::from_str("the search has ended")
    }
}

/// The evaluation function has failed on a layout, for the reason given.
#[derive(Clone, Debug, PartialEq, Eq)]
pub struct EvaluationError {
    /// What the evaluation function says of its failure.
    pub reason: String,
}

impl EvaluationError {
    /// The reason of the failure.
    pub fn message(&self) -> (text: String)
        ensures
            text@ == self.reason@,
    {
        self.reason.clone()
    }
}

/// Why a search could not start, or why it has ended before its time.
#[derive(Clone, Debug, PartialEq, Eq)]
pub enum OptimizationError {
    /// The layout configuration is refused.
    Config(ConfigError),
    /// The optimization parameters are refused.
    InvalidParameter(InvalidParameterError),
    /// A layout text is no layout of the keyboard.
    Parse(ParseError),
    /// A sequence of indices is no permutation of the slot set.
    InvalidPermutation(InvalidPermutationError),
    /// The evaluation function has failed.
    Evaluation(EvaluationError),
}

impl OptimizationError {
    /// A sentence that names the fault.
    pub fn message(&self) -> (text: String)
        ensures
            text@ == self.message_spec(),
    {
        match self {
            OptimizationError::Config(fault) => fault.message(),
            OptimizationError::InvalidParameter(fault) => fault.message(),
            OptimizationError::Parse(fault) => fault.message(),
            OptimizationError::InvalidPermutation(fault) => fault.message(),
            OptimizationError::Evaluation(fault) => fault.message(),
        }
    }

    /// The characters of [`OptimizationError::message`].
    pub open spec fn message_spec(&self) -> Seq<char> {
        match self {
            OptimizationError::Config(fault) => fault.message_spec(),
            OptimizationError::InvalidParameter(fault) => fault.message_spec(),
            OptimizationError::Parse(fault) => fault.message_spec(),
            OptimizationError::InvalidPermutation(fault) => fault.message_spec(),
            OptimizationError::Evaluation(fault) => fault.reason@,
        }
    }
}

} // verus!
