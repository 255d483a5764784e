//! End-of-game judgement: the outcome label computed from the two disc
//! counts.

use vstd::prelude::*;

verus! {

/// The outcome of a finished game.
#[derive(Clone, Copy, Debug, PartialEq, Eq, Structural)]
pub enum Judgement {
    Draw,
    WhiteWon,
    BlackWon,
}

/// The outcome for the given disc counts: equal counts draw; otherwise
/// the higher count wins.
pub open spec fn judgement_of(white: int, black: int) -> Judgement {
    if white == black {
        Judgement::Draw
    } else if white > black {
        Judgement::WhiteWon
    } else {
        Judgement::BlackWon
    }
}

/// Computes the outcome from the white and black disc counts.
pub fn get_judgement(white: usize, black: usize) -> (j: Judgement)
    ensures
        j == judgement_of(white as int, black as int),
{
    if white == black {
        Judgement::Draw
    } else if white > black {
        Judgement::WhiteWon
    } else {
        Judgement::BlackWon
    }
}

/// The judgement is symmetric in its two counts: swapping which count
/// is whose flips the winner, and a draw stays a draw. Being a function
/// of the counts alone, it is also deterministic.
pub proof fn lemma_judgement_swaps(white: int, black: int)
    ensures
        judgement_of(white, black) == Judgement::Draw <==> judgement_of(black, white)
            == Judgement::Draw,
        judgement_of(white, black) == Judgement::WhiteWon <==> judgement_of(black, white)
            == Judgement::BlackWon,
        judgement_of(white, black) == Judgement::BlackWon <==> judgement_of(black, white)
            == Judgement::WhiteWon,
{
}

/// The text shown for each outcome.
pub open spec fn judgement_text(j: Judgement) -> Seq<char> {
    match j {
        Judgement::Draw => "DRAW"@,
        Judgement::WhiteWon => "WHITE WON!"@,
        Judgement::BlackWon => "BLACK WON"@,
    }
}

impl Judgement {
    /// The outcome's display text.
    pub fn text(&self) -> (s: String)
        ensures
            s@ == judgement_text(*self),
    {
        match self {
            Judgement::Draw => String::from_str("DRAW"),
            Judgement::WhiteWon => String::from_str("WHITE WON!"),
            Judgement::BlackWon => String::from_str("BLACK WON"),
        }
    }
}

} // verus!
