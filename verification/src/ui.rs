//! The colors of the board's cells in the interface.

use vstd::prelude::*;

verus! {

/// What a cell is painted as when no piece stands on it.
#[derive(Debug, Clone, Copy, PartialEq, Eq, Structural)]
pub enum GameColors {
    NormalCellColor,
    SelectedCellColor,
    NearNeighbourColor,
    FarNeighbourColor,
}

impl GameColors {
    /// The style-sheet value that paints this color.
    pub open spec fn css(self) -> Seq<char> {
        match self {
            GameColors::NormalCellColor => "var(--noarmalCellColor)"@,
            GameColors::SelectedCellColor => "var(--selectedCellColor)"@,
            GameColors::NearNeighbourColor => "var(--nearNeighbourColor)"@,
            GameColors::FarNeighbourColor => "var(--farNeighbourColor)"@,
        }
    }
}

impl From<GameColors> for String {
    fn from(color: GameColors) -> (s: String)
        ensures
            s@ == color.css(),
    {
        match color {
            GameColors::NormalCellColor => "var(--noarmalCellColor)".to_owned(),
            GameColors::SelectedCellColor => "var(--selectedCellColor)".to_owned(),
            GameColors::NearNeighbourColor => "var(--nearNeighbourColor)".to_owned(),
            GameColors::FarNeighbourColor => "var(--farNeighbourColor)".to_owned(),
        }
    }
}

impl vstd::std_specs::convert::FromSpecImpl<GameColors> for String {
    open spec fn obeys_from_spec() -> bool {
        false
    }

    open spec fn from_spec(color: GameColors) -> String {
        choose|s: String| s@ == color.css()
    }
}

} // verus!
