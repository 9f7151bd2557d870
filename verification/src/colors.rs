//! The colors that tell players (and some interface elements) apart.

use vstd::prelude::*;

verus! {

/// A player color. The order of the variants is the order in which free
/// colors are handed out.
#[derive(Debug, Clone, Copy, PartialEq, Eq, Hash, Structural)]
pub enum Color {
    Green,
    Red,
    DarkRed,
    LightRed,
    Blue,
    Yellow,
    Transparent,
    BackgroundP1,
    BackgroundP2,
}

impl Color {
    /// Every color, once, in declaration order.
    pub open spec fn palette() -> Seq<Color> {
        seq![
            Color::Green,
            Color::Red,
            Color::DarkRed,
            Color::LightRed,
            Color::Blue,
            Color::Yellow,
            Color::Transparent,
            Color::BackgroundP1,
            Color::BackgroundP2,
        ]
    }

    /// The position of a color in the palette.
    pub open spec fn rank(self) -> int {
        match self {
            Color::Green => 0,
            Color::Red => 1,
            Color::DarkRed => 2,
            Color::LightRed => 3,
            Color::Blue => 4,
            Color::Yellow => 5,
            Color::Transparent => 6,
            Color::BackgroundP1 => 7,
            Color::BackgroundP2 => 8,
        }
    }

    /// The style-sheet value that paints this color.
    pub open spec fn css(self) -> Seq<char> {
        match self {
            Color::Green => "green"@,
            Color::Red => "red"@,
            Color::DarkRed => "darkred"@,
            Color::Blue => "blue"@,
            Color::Yellow => "yellow"@,
            Color::LightRed => "lightred"@,
            Color::Transparent => "transparent"@,
            Color::BackgroundP1 => "var(--background-player1)"@,
            Color::BackgroundP2 => "var(--background-player2)"@,
        }
    }

    /// Every color is in the palette, at its rank, and nowhere else.
    pub proof fn lemma_palette_complete(c: Color)
        ensures
            Color::palette().len() == 9,
            0 <= c.rank() < 9,
            Color::palette()[c.rank()] == c,
            forall|i: int| 0 <= i < 9 && Color::palette()[i] == c ==> i == c.rank(),
    {
    }

    /// Every color, once, in declaration order.
    pub fn iter() -> (all: Vec<Color>)
        ensures
            all@ == Color::palette(),
    {
        let all = vec![
            Color::Green,
            Color::Red,
            Color::DarkRed,
            Color::LightRed,
            Color::Blue,
            Color::Yellow,
            Color::Transparent,
            Color::BackgroundP1,
            Color::BackgroundP2,
        ];
        assert(all@ =~= Color::palette());
        all
    }
}

impl From<Color> for String {
    fn from(color: Color) -> (s: String)
        ensures
            s@ == color.css(),
    {
        match color {
            Color::Green => "green".to_owned(),
            Color::Red => "red".to_owned(),
            Color::DarkRed => "darkred".to_owned(),
            Color::Blue => "blue".to_owned(),
            Color::Yellow => "yellow".to_owned(),
            Color::LightRed => "lightred".to_owned(),
            Color::Transparent => "transparent".to_owned(),
            Color::BackgroundP1 => "var(--background-player1)".to_owned(),
            Color::BackgroundP2 => "var(--background-player2)".to_owned(),
        }
    }
}

impl vstd::std_specs::convert::FromSpecImpl<Color> for String {
    open spec fn obeys_from_spec() -> bool {
        false
    }

    open spec fn from_spec(color: Color) -> String {
        choose|s: String| s@ == color.css()
    }
}

} // verus!
