use vstd::prelude::*;

verus! {

/// The side to move in a chess position.
#[derive(Clone, Copy, Debug, PartialEq, Eq, Structural)]
pub enum Color {
    White,
    Black,
}

/// Result of a finished game.
#[derive(Clone, Copy, Debug, PartialEq, Eq, Structural)]
pub enum GameOutcome {
    /// White wins
    WhiteWin,
    /// Black wins
    BlackWin,
    /// Draw
    Draw,
}

/// Stockfish evaluation metric. Either centipawn advantage or forced mate.
#[derive(Clone, Copy, Debug, PartialEq, Eq, Structural)]
pub enum EvaluationScore {
    /// Material advantage of `n` centipawns. Positive for white, negative for black.
    CentipawnAdvantage(i32),

    /// Forced mate in `n`. Positive for white, negative for black.
    Mate(i32),
}

/// A score whose payload can be negated without leaving `i32`.
pub open spec fn score_wf(s: EvaluationScore) -> bool {
    match s {
        EvaluationScore::CentipawnAdvantage(n) => n > i32::MIN,
        EvaluationScore::Mate(n) => n > i32::MIN,
    }
}

/// Conversion from the engine's side-to-move frame to the absolute
/// (white-positive) frame: the payload is negated exactly when the side to
/// move is black.
pub open spec fn abs_score(s: EvaluationScore, relative_to: Color) -> EvaluationScore {
    match s {
        EvaluationScore::CentipawnAdvantage(n) => EvaluationScore::CentipawnAdvantage(
            if relative_to is Black {
                (-n) as i32
            } else {
                n
            },
        ),
        EvaluationScore::Mate(n) => EvaluationScore::Mate(
            if relative_to is Black {
                (-n) as i32
            } else {
                n
            },
        ),
    }
}

/// The single centipawn metric of a score: the payload for a material
/// advantage, and +/-10000 for a forced mate depending on the favored side.
pub open spec fn spec_metric(s: EvaluationScore) -> i32 {
    match s {
        EvaluationScore::CentipawnAdvantage(n) => n,
        EvaluationScore::Mate(n) => if n > 0 {
            10000
        } else {
            (-10000) as i32
        },
    }
}

impl EvaluationScore {
    /// Return `true` if the score represents a forced mate.
    pub fn is_forced_mate(&self) -> (r: bool)
        ensures
            r == (self is Mate),
    {
        match self {
            EvaluationScore::Mate(_) => true,
            _ => false,
        }
    }

    /// Return `true` if the score represents a material advantage.
    pub fn is_material_advantage(&self) -> (r: bool)
        ensures
            r == (self is CentipawnAdvantage),
    {
        match self {
            EvaluationScore::CentipawnAdvantage(_) => true,
            _ => false,
        }
    }

    /// Convert to centipawn advantage. If the score is a forced mate,
    /// return `10000` for white or `-10000` for black.
    pub fn as_metric(&self) -> (r: i32)
        ensures
            r == spec_metric(*self),
    {
        match self {
            EvaluationScore::CentipawnAdvantage(n) => *n,
            EvaluationScore::Mate(n) => {
                if *n > 0 {
                    10000
                } else {
                    -10000
                }
            },
        }
    }

    /// Values returned by Stockfish are always relative to the side to move.
    ///
    /// This function converts the score to be absolute, given the relative side to move.
    pub fn make_absolute(self, relative_to: Color) -> (r: Self)
        requires
            score_wf(self),
        ensures
            r == abs_score(self, relative_to),
            score_wf(r),
    {
        match self {
            EvaluationScore::CentipawnAdvantage(n) => {
                if matches!(relative_to, Color::Black) {
                    EvaluationScore::CentipawnAdvantage(-n)
                } else {
                    EvaluationScore::CentipawnAdvantage(n)
                }
            },
            EvaluationScore::Mate(n) => {
                if matches!(relative_to, Color::Black) {
                    EvaluationScore::Mate(-n)
                } else {
                    EvaluationScore::Mate(n)
                }
            },
        }
    }
}

/// Converting a relative score into the absolute frame leaves it unchanged
/// when white is to move, and negates its payload when black is to move.
pub proof fn lemma_absolute_conversion(n: i32)
    requires
        n > i32::MIN,
    ensures
        abs_score(EvaluationScore::CentipawnAdvantage(n), Color::White)
            == EvaluationScore::CentipawnAdvantage(n),
        abs_score(EvaluationScore::CentipawnAdvantage(n), Color::Black)
            == EvaluationScore::CentipawnAdvantage((-n) as i32),
        abs_score(EvaluationScore::Mate(n), Color::White) == EvaluationScore::Mate(n),
        abs_score(EvaluationScore::Mate(n), Color::Black) == EvaluationScore::Mate((-n) as i32),
{
}

} // verus!
