use vstd::prelude::*;

verus! {

/// What an input that the rules refuse got wrong.
#[derive(PartialEq, Eq, Structural, Clone, Copy, Debug)]
pub enum InvalidInput {
    EmptyGameName,
    GameNameTooLong,
    StartingLifeOutOfRange,
    GameFinished,
    LifeChangeTooLarge,
    LifeOutOfRange,
    DamageChangeTooLarge,
    DamageOutOfRange,
    CommanderNumber,
    SelfDamage,
    PlayerNotInGame,
    PlayerMismatch,
    MalformedRequest,
}

/// What an existing record collides with.
#[derive(PartialEq, Eq, Structural, Clone, Copy, Debug)]
pub enum ConflictKind {
    GameNameTaken,
    AlreadySeated,
}

/// Errors of the game store and of the session layer above it.
#[derive(Debug)]
pub enum ApiError {
    GameNotFound,
    PlayerNotFound,
    Conflict(ConflictKind),
    Invalid(InvalidInput),
    NotActive,
    Capacity,
    Transport(String),
    Internal,
}

/// The text that explains an invalid input.
pub open spec fn invalid_text(i: InvalidInput) -> Seq<char> {
    match i {
        InvalidInput::EmptyGameName => "Game name cannot be empty"@,
        InvalidInput::GameNameTooLong => "Game name too long (max 100 characters)"@,
        InvalidInput::StartingLifeOutOfRange => "Starting life must be between 1 and 999"@,
        InvalidInput::GameFinished => "Cannot join finished game"@,
        InvalidInput::LifeChangeTooLarge => "Life change too large (max ±100)"@,
        InvalidInput::LifeOutOfRange => "Life total out of range"@,
        InvalidInput::DamageChangeTooLarge => "Commander damage change too large (max ±50)"@,
        InvalidInput::DamageOutOfRange => "Commander damage must be between 0 and 999"@,
        InvalidInput::CommanderNumber => "Commander number must be 1 or 2"@,
        InvalidInput::SelfDamage => "Players cannot deal commander damage to themselves"@,
        InvalidInput::PlayerNotInGame => "One or both players not found in game"@,
        InvalidInput::PlayerMismatch => "Player ID in path does not match request"@,
        InvalidInput::MalformedRequest => "Invalid JSON"@,
    }
}

impl InvalidInput {
    pub fn message(&self) -> (r: &'static str)
        ensures
            r@ == invalid_text(*self),
    {
        match self {
            InvalidInput::EmptyGameName => "Game name cannot be empty",
            InvalidInput::GameNameTooLong => "Game name too long (max 100 characters)",
            InvalidInput::StartingLifeOutOfRange => "Starting life must be between 1 and 999",
            InvalidInput::GameFinished => "Cannot join finished game",
            InvalidInput::LifeChangeTooLarge => "Life change too large (max ±100)",
            InvalidInput::LifeOutOfRange => "Life total out of range",
            InvalidInput::DamageChangeTooLarge => "Commander damage change too large (max ±50)",
            InvalidInput::DamageOutOfRange => "Commander damage must be between 0 and 999",
            InvalidInput::CommanderNumber => "Commander number must be 1 or 2",
            InvalidInput::SelfDamage => "Players cannot deal commander damage to themselves",
            InvalidInput::PlayerNotInGame => "One or both players not found in game",
            InvalidInput::PlayerMismatch => "Player ID in path does not match request",
            InvalidInput::MalformedRequest => "Invalid JSON",
        }
    }
}

impl ApiError {
    /// The text a client is shown for this error. Storage details never leak.
    pub fn message(&self) -> (r: String)
        ensures
            *self is GameNotFound ==> r@ == "Game not found"@,
            *self is PlayerNotFound ==> r@ == "Player not found"@,
            *self == ApiError::Conflict(ConflictKind::GameNameTaken) ==> r@
                == "Game name already exists"@,
            *self == ApiError::Conflict(ConflictKind::AlreadySeated) ==> r@
                == "User already in game"@,
            *self matches ApiError::Invalid(i) ==> r@ == "Invalid request: "@ + invalid_text(i),
            *self is NotActive ==> r@ == "Game is not active"@,
            *self is Capacity ==> r@ == "Game is full (max 8 players)"@,
            *self matches ApiError::Transport(m) ==> r@ == "WebSocket error: "@ + m@,
            *self is Internal ==> r@ == "Internal server error"@,
    {
        match self {
            ApiError::GameNotFound => String::from_str("Game not found"),
            ApiError::PlayerNotFound => String::from_str("Player not found"),
            ApiError::Conflict(ConflictKind::GameNameTaken) => String::from_str(
                "Game name already exists",
            ),
            ApiError::Conflict(ConflictKind::AlreadySeated) => String::from_str(
                "User already in game",
            ),
            ApiError::Invalid(i) => String::from_str("Invalid request: ").concat(i.message()),
            ApiError::NotActive => String::from_str("Game is not active"),
            ApiError::Capacity => String::from_str("Game is full (max 8 players)"),
            ApiError::Transport(m) => String::from_str("WebSocket error: ").concat(m.as_str()),
            ApiError::Internal => String::from_str("Internal server error"),
        }
    }

    /// The HTTP status code a request/response caller is answered with.
    pub fn status_code(&self) -> (r: u16)
        ensures
            (*self is GameNotFound || *self is PlayerNotFound) ==> r == 404,
            *self is Conflict ==> r == 409,
            (*self is Invalid || *self is NotActive || *self is Capacity || *self is Transport)
                ==> r == 400,
            *self is Internal ==> r == 500,
    {
        match self {
            ApiError::GameNotFound | ApiError::PlayerNotFound => 404,
            ApiError::Conflict(_) => 409,
            ApiError::Invalid(_) | ApiError::NotActive | ApiError::Capacity
            | ApiError::Transport(_) => 400,
            ApiError::Internal => 500,
        }
    }
}

} // verus!
