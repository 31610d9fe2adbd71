use vstd::prelude::*;

verus! {

/// The snake's next head cell is already part of its body.
#[derive(Clone, Copy, PartialEq, Eq, Structural, Debug)]
pub struct SelfEatingStepError;

/// Turning this way would make the snake's next step eat itself.
#[derive(Clone, Copy, PartialEq, Eq, Structural, Debug)]
pub struct SelfTurningDirectionError;

/// Why a round ended.
#[derive(Clone, Copy, PartialEq, Eq, Structural, Debug)]
pub enum GameError {
    KilledByWall,
    SelfTurningDirectionError(SelfTurningDirectionError),
    SelfEatingStepError(SelfEatingStepError),
}

impl SelfEatingStepError {
    /// A human-readable description.
    pub fn message(&self) -> (r: &'static str)
        ensures
            r@ == "This step is self-eating!"@,
    {
        "This step is self-eating!"
    }
}

impl SelfTurningDirectionError {
    /// A human-readable description.
    pub fn message(&self) -> (r: &'static str)
        ensures
            r@ == "This direction would cause a self-turning step!"@,
    {
        "This direction would cause a self-turning step!"
    }
}

impl GameError {
    /// A human-readable description; a wrapped error keeps its own.
    pub fn message(&self) -> (r: &'static str)
        ensures
            *self == GameError::KilledByWall ==> r@ == "You've been killed by the wall"@,
            *self is SelfEatingStepError ==> r@ == "This step is self-eating!"@,
            *self is SelfTurningDirectionError ==> r@
                == "This direction would cause a self-turning step!"@,
    {
        match self {
            GameError::KilledByWall => "You've been killed by the wall",
            GameError::SelfEatingStepError(e) => e.message(),
            GameError::SelfTurningDirectionError(e) => e.message(),
        }
    }
}

impl From<SelfEatingStepError> for GameError {
    fn from(err: SelfEatingStepError) -> (r: GameError) {
        GameError::SelfEatingStepError(err)
    }
}

impl vstd::std_specs::convert::FromSpecImpl<SelfEatingStepError> for GameError {
    open spec fn obeys_from_spec() -> bool {
        true
    }

    open spec fn from_spec(err: SelfEatingStepError) -> GameError {
        GameError::SelfEatingStepError(err)
    }
}

impl From<SelfTurningDirectionError> for GameError {
    fn from(err: SelfTurningDirectionError) -> (r: GameError) {
        GameError::SelfTurningDirectionError(err)
    }
}

impl vstd::std_specs::convert::FromSpecImpl<SelfTurningDirectionError> for GameError {
    open spec fn obeys_from_spec() -> bool {
        true
    }

    open spec fn from_spec(err: SelfTurningDirectionError) -> GameError {
        GameError::SelfTurningDirectionError(err)
    }
}

} // verus!
