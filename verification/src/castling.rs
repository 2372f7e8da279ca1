//! The castling rights of both sides.
use vstd::prelude::*;

verus! {

/// Which castling moves each side may still make.
#[derive(Clone, Copy, PartialEq, Eq, Debug, Structural)]
pub struct CastlingRights {
    pub white_kingside: bool,
    pub white_queenside: bool,
    pub black_kingside: bool,
    pub black_queenside: bool,
}

impl CastlingRights {
    pub open spec fn spec_new() -> Self {
        CastlingRights {
            white_kingside: true,
            white_queenside: true,
            black_kingside: true,
            black_queenside: true,
        }
    }

    pub open spec fn spec_none() -> Self {
        CastlingRights {
            white_kingside: false,
            white_queenside: false,
            black_kingside: false,
            black_queenside: false,
        }
    }

    /// All four rights, as at the start of a game.
    #[verifier::when_used_as_spec(spec_new)]
    pub fn new() -> (r: Self)
        ensures
            r == Self::spec_new(),
    {
        CastlingRights {
            white_kingside: true,
            white_queenside: true,
            black_kingside: true,
            black_queenside: true,
        }
    }

    /// No right at all.
    #[verifier::when_used_as_spec(spec_none)]
    pub fn none() -> (r: Self)
        ensures
            r == Self::spec_none(),
    {
        CastlingRights {
            white_kingside: false,
            white_queenside: false,
            black_kingside: false,
            black_queenside: false,
        }
    }
}

} // verus!
