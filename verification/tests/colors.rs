use hexagon::colors::Color;
use hexagon::ui::GameColors;

#[test]
fn palette_lists_every_color_in_declaration_order() {
    assert_eq!(
        Color::iter(),
        vec![
            Color::Green,
            Color::Red,
            Color::DarkRed,
            Color::LightRed,
            Color::Blue,
            Color::Yellow,
            Color::Transparent,
            Color::BackgroundP1,
            Color::BackgroundP2,
        ]
    );
}

#[test]
fn colors_have_their_style_sheet_values() {
    assert_eq!(String::from(Color::Green), "green");
    assert_eq!(String::from(Color::Red), "red");
    assert_eq!(String::from(Color::DarkRed), "darkred");
    assert_eq!(String::from(Color::LightRed), "lightred");
    assert_eq!(String::from(Color::Blue), "blue");
    assert_eq!(String::from(Color::Yellow), "yellow");
    assert_eq!(String::from(Color::Transparent), "transparent");
    assert_eq!(String::from(Color::BackgroundP1), "var(--background-player1)");
    assert_eq!(String::from(Color::BackgroundP2), "var(--background-player2)");
}

#[test]
fn cell_colors_have_their_style_sheet_values() {
    assert_eq!(String::from(GameColors::NormalCellColor), "var(--noarmalCellColor)");
    assert_eq!(String::from(GameColors::SelectedCellColor), "var(--selectedCellColor)");
    assert_eq!(String::from(GameColors::NearNeighbourColor), "var(--nearNeighbourColor)");
    assert_eq!(String::from(GameColors::FarNeighbourColor), "var(--farNeighbourColor)");
}
