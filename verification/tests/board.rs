use hexagon::board::{Board, Point};
use hexagon::colors::Color;
use hexagon::structures::Move;

fn sorted(mut points: Vec<Point>) -> Vec<Point> {
    points.sort();
    points
}

fn piece_count(board: &Board, color: Color) -> usize {
    board.pieces().iter().filter(|(_, c)| *c == color).count()
}

#[test]
fn hexagon_of_radius_eight_has_169_cells() {
    let board = Board::generate_hexagon(8, Color::Red, Color::Green);
    assert_eq!(board.points().len(), 169);
    assert_eq!(board.turn(), Color::Red);
    assert_eq!(board.max_size(), 8);
}

#[test]
fn hexagon_holds_exactly_the_cells_within_its_radius() {
    let board = Board::generate_hexagon(4, Color::Red, Color::Green);
    let mut expected: Vec<Point> = Vec::new();
    for q in -10..11 {
        for r in -10..11 {
            let y: i32 = -q - r;
            let inside = q.abs() < 4 && r.abs() < 4 && y.abs() < 4;
            assert_eq!(board.contains_point(&(q, r)), inside);
            if inside {
                expected.push((q, r));
            }
        }
    }
    assert_eq!(expected.len(), 37);
    assert_eq!(sorted(board.points()), sorted(expected));
}

#[test]
fn hexagon_starts_with_two_pieces_of_each_color_on_opposite_corners() {
    let board = Board::generate_hexagon(8, Color::Red, Color::Green);
    assert_eq!(board.pieces().len(), 4);
    assert_eq!(board.piece_at(&(7, 0)), Some(Color::Red));
    assert_eq!(board.piece_at(&(-7, 7)), Some(Color::Red));
    assert_eq!(board.piece_at(&(-7, 0)), Some(Color::Green));
    assert_eq!(board.piece_at(&(7, -7)), Some(Color::Green));
    assert_eq!(board.piece_at(&(0, -7)), None);
    assert_eq!(board.piece_at(&(0, 7)), None);
    assert_eq!(board.piece_at(&(0, 0)), None);
    assert_eq!(piece_count(&board, Color::Red), 2);
    assert_eq!(piece_count(&board, Color::Green), 2);
}

#[test]
fn starting_pieces_stand_on_corners_and_face_the_other_color() {
    for size in 2..7u32 {
        let board = Board::generate_hexagon(size, Color::Blue, Color::Yellow);
        let far = size as i32 - 1;
        let pieces = board.pieces();
        assert_eq!(pieces.len(), 4);
        assert_eq!(piece_count(&board, Color::Blue), 2);
        assert_eq!(piece_count(&board, Color::Yellow), 2);
        for ((q, r), color) in pieces {
            let mut lengths = vec![q.abs(), r.abs(), (q + r).abs()];
            lengths.sort();
            assert_eq!(lengths, vec![0, far, far]);
            let facing = if color == Color::Blue { Color::Yellow } else { Color::Blue };
            assert_eq!(board.piece_at(&(-q, -r)), Some(facing));
        }
        assert_eq!(board.turn(), Color::Blue);
    }
}

#[test]
fn one_color_on_both_sides_starts_with_four_pieces() {
    let board = Board::generate_hexagon(8, Color::Red, Color::Red);
    assert_eq!(board.pieces().len(), 4);
    assert_eq!(piece_count(&board, Color::Red), 4);
}

#[test]
fn hexagon_of_size_one_is_one_cell_held_by_the_first_color() {
    let board = Board::generate_hexagon(1, Color::Blue, Color::Yellow);
    assert_eq!(board.points(), vec![(0, 0)]);
    assert_eq!(board.pieces(), vec![((0, 0), Color::Blue)]);
    assert_eq!(board.turn(), Color::Blue);
    assert_eq!(board.max_size(), 1);
}

#[test]
fn every_piece_stands_on_a_cell() {
    let board = Board::generate_hexagon(5, Color::Red, Color::Green);
    for (point, _) in board.pieces() {
        assert!(board.contains_point(&point));
    }
}

#[test]
fn neighbours_come_in_direction_order() {
    let board = Board::generate_hexagon(3, Color::Red, Color::Green);
    assert_eq!(
        board.get_neighbours(&(0, 0)),
        vec![(1, 0), (1, -1), (0, -1), (-1, 0), (-1, 1), (0, 1)]
    );
}

#[test]
fn neighbours_stop_at_the_edge() {
    let board = Board::generate_hexagon(8, Color::Red, Color::Green);
    assert_eq!(board.get_neighbours(&(7, 0)), vec![(7, -1), (6, 0), (6, 1)]);
}

#[test]
fn a_point_off_the_board_has_no_neighbours() {
    let board = Board::generate_hexagon(3, Color::Red, Color::Green);
    assert_eq!(board.get_neighbours(&(3, 0)), Vec::<Point>::new());
    assert_eq!(board.get_secondary_neighbours(&(3, 0)), Vec::<Point>::new());
}

#[test]
fn adjacency_is_symmetric_on_a_generated_board() {
    let board = Board::generate_hexagon(4, Color::Red, Color::Green);
    for a in board.points() {
        for b in board.get_neighbours(&a) {
            assert!(board.get_neighbours(&b).contains(&a));
        }
    }
}

#[test]
fn secondary_neighbours_are_the_neighbours_of_the_neighbours() {
    let board = Board::generate_hexagon(2, Color::Red, Color::Green);
    assert_eq!(
        board.get_secondary_neighbours(&(1, 0)),
        vec![
            (0, -1),
            (0, 0),
            (1, 0),
            (1, 0),
            (1, -1),
            (0, -1),
            (-1, 0),
            (-1, 1),
            (0, 1),
            (1, 0),
            (0, 0),
            (-1, 1),
        ]
    );
}

#[test]
fn secondary_neighbours_of_an_inner_cell_hold_the_cell_six_times() {
    let board = Board::generate_hexagon(4, Color::Red, Color::Green);
    let secondary = board.get_secondary_neighbours(&(0, 0));
    assert_eq!(secondary.len(), 36);
    assert_eq!(secondary.iter().filter(|p| **p == (0, 0)).count(), 6);
}

#[test]
fn a_move_from_an_empty_cell_is_illegal() {
    let board = Board::generate_hexagon(8, Color::Red, Color::Green);
    assert!(!board.is_move_legal(&Move { from: (0, 0), to: (1, 0) }));
}

#[test]
fn a_move_from_a_cell_of_the_other_color_is_illegal() {
    let board = Board::generate_hexagon(8, Color::Red, Color::Green);
    assert!(!board.is_move_legal(&Move { from: (7, -7), to: (6, -6) }));
}

#[test]
fn a_move_onto_its_own_origin_is_illegal() {
    let board = Board::generate_hexagon(8, Color::Red, Color::Green);
    assert!(board.get_secondary_neighbours(&(7, 0)).contains(&(7, 0)));
    assert!(!board.is_move_legal(&Move { from: (7, 0), to: (7, 0) }));
}

#[test]
fn a_move_of_three_steps_is_illegal() {
    let board = Board::generate_hexagon(8, Color::Red, Color::Green);
    assert!(!board.is_move_legal(&Move { from: (7, 0), to: (4, 0) }));
}

#[test]
fn a_move_onto_an_occupied_cell_is_illegal() {
    let board = Board::generate_hexagon(3, Color::Red, Color::Green);
    assert_eq!(board.piece_at(&(2, -2)), Some(Color::Green));
    assert!(board.get_secondary_neighbours(&(2, 0)).contains(&(2, -2)));
    assert!(!board.is_move_legal(&Move { from: (2, 0), to: (2, -2) }));
}

#[test]
fn a_move_off_the_board_is_illegal() {
    let board = Board::generate_hexagon(8, Color::Red, Color::Green);
    assert!(!board.is_move_legal(&Move { from: (7, 0), to: (8, 0) }));
}

#[test]
fn one_and_two_steps_onto_free_cells_are_legal() {
    let board = Board::generate_hexagon(8, Color::Red, Color::Green);
    assert!(board.is_move_legal(&Move { from: (7, 0), to: (6, 0) }));
    assert!(board.is_move_legal(&Move { from: (7, 0), to: (5, 0) }));
    assert!(board.is_move_legal(&Move { from: (7, 0), to: (5, 1) }));
}

#[test]
fn legal_moves_are_the_legal_secondary_neighbours() {
    let board = Board::generate_hexagon(2, Color::Red, Color::Green);
    assert_eq!(board.get_legal_moves(&(1, 0)), vec![(0, -1), (0, 0), (0, -1), (0, 1), (0, 0)]);
    assert_eq!(board.get_legal_moves(&(1, -1)), Vec::<Point>::new());
    assert_eq!(board.get_legal_moves(&(0, 0)), Vec::<Point>::new());
}

#[test]
fn legal_moves_from_a_corner_of_a_large_board() {
    let board = Board::generate_hexagon(8, Color::Red, Color::Green);
    let moves = board.get_legal_moves(&(7, 0));
    assert_eq!(
        moves,
        vec![
            (7, -2),
            (6, -1),
            (6, 0),
            (7, -1),
            (6, -1),
            (5, 0),
            (5, 1),
            (6, 1),
            (6, 0),
            (5, 1),
            (5, 2),
        ]
    );
    for to in moves {
        assert!(board.is_move_legal(&Move { from: (7, 0), to }));
    }
}

#[test]
fn step_keeps_origin_and_jump_vacates_it() {
    let mut board = Board::generate_hexagon(8, Color::Red, Color::Green);
    assert!(board.apply_move(&Move { from: (7, 0), to: (6, 0) }));
    assert_eq!(board.piece_at(&(7, 0)), Some(Color::Red));
    assert_eq!(board.piece_at(&(6, 0)), Some(Color::Red));
    assert_eq!(board.pieces().len(), 5);
    assert!(board.apply_move(&Move { from: (7, 0), to: (5, 0) }));
    assert_eq!(board.piece_at(&(7, 0)), None);
    assert_eq!(board.piece_at(&(5, 0)), Some(Color::Red));
    assert_eq!(board.pieces().len(), 5);
    assert_eq!(board.turn(), Color::Red);
}

#[test]
fn a_move_repaints_every_occupied_neighbour_of_the_destination() {
    let mut board = Board::generate_hexagon(2, Color::Red, Color::Green);
    assert!(board.apply_move(&Move { from: (1, 0), to: (0, 0) }));
    assert_eq!(board.pieces().len(), 5);
    for point in vec![(0, 0), (1, 0), (-1, 1), (-1, 0), (1, -1)] {
        assert_eq!(board.piece_at(&point), Some(Color::Red));
    }
    assert_eq!(board.piece_at(&(0, -1)), None);
    assert_eq!(board.piece_at(&(0, 1)), None);
}

#[test]
fn a_move_leaves_pieces_away_from_the_destination_alone() {
    let mut board = Board::generate_hexagon(3, Color::Red, Color::Green);
    assert!(board.apply_move(&Move { from: (2, 0), to: (1, 0) }));
    assert_eq!(board.piece_at(&(1, 0)), Some(Color::Red));
    assert_eq!(board.piece_at(&(2, 0)), Some(Color::Red));
    assert_eq!(board.piece_at(&(2, -2)), Some(Color::Green));
    assert_eq!(board.piece_at(&(-2, 0)), Some(Color::Green));
    assert_eq!(board.piece_at(&(-2, 2)), Some(Color::Red));
    assert_eq!(board.pieces().len(), 5);
}

#[test]
fn a_jump_next_to_the_other_color_captures_it() {
    let mut board = Board::generate_hexagon(3, Color::Red, Color::Green);
    assert!(board.apply_move(&Move { from: (2, 0), to: (2, -1) }));
    assert_eq!(board.piece_at(&(2, -1)), Some(Color::Red));
    assert_eq!(board.piece_at(&(2, -2)), Some(Color::Red));
    assert_eq!(board.piece_at(&(2, 0)), Some(Color::Red));
    board.change_turn(Color::Green);
    assert!(board.apply_move(&Move { from: (-2, 0), to: (-1, 1) }));
    assert_eq!(board.piece_at(&(-2, 0)), None);
    assert_eq!(board.piece_at(&(-1, 1)), Some(Color::Green));
    assert_eq!(board.piece_at(&(-2, 2)), Some(Color::Green));
    assert_eq!(board.piece_at(&(2, 0)), Some(Color::Red));
    assert_eq!(board.piece_at(&(2, -1)), Some(Color::Red));
    assert_eq!(board.piece_at(&(2, -2)), Some(Color::Red));
    assert_eq!(board.pieces().len(), 5);
}

#[test]
fn an_illegal_move_changes_nothing() {
    let mut board = Board::generate_hexagon(8, Color::Red, Color::Green);
    let before = sorted(board.pieces().into_iter().map(|(p, _)| p).collect());
    assert!(!board.apply_move(&Move { from: (7, -7), to: (6, -6) }));
    assert!(!board.apply_move(&Move { from: (7, 0), to: (7, 0) }));
    assert!(!board.apply_move(&Move { from: (7, 0), to: (0, 0) }));
    let after = sorted(board.pieces().into_iter().map(|(p, _)| p).collect());
    assert_eq!(before, after);
    assert_eq!(board.piece_at(&(7, -7)), Some(Color::Green));
    assert_eq!(board.turn(), Color::Red);
}

#[test]
fn change_turn_sets_the_color_to_move() {
    let mut board = Board::generate_hexagon(8, Color::Red, Color::Green);
    board.change_turn(Color::Green);
    assert_eq!(board.turn(), Color::Green);
    assert!(board.is_move_legal(&Move { from: (7, -7), to: (6, -6) }));
    assert!(!board.is_move_legal(&Move { from: (7, 0), to: (6, 0) }));
    board.change_turn(Color::Yellow);
    assert_eq!(board.turn(), Color::Yellow);
    assert_eq!(board.pieces().len(), 4);
}

#[test]
fn a_copy_of_a_board_is_the_same_board() {
    let mut board = Board::generate_hexagon(3, Color::Red, Color::Green);
    let copy = board.clone();
    assert!(board.apply_move(&Move { from: (2, 0), to: (1, 0) }));
    assert_eq!(copy.piece_at(&(1, 0)), None);
    assert_eq!(copy.points(), Board::generate_hexagon(3, Color::Red, Color::Green).points());
    assert_eq!(copy.pieces().len(), 4);
}

#[test]
fn honeycomb_is_a_rectangle_of_offset_cells() {
    let board = Board::generate_honeycomb(3, 2, 2, Color::Green, Color::Red);
    assert_eq!(board.points().len(), 6 * 8);
    assert_eq!(board.max_size(), 3);
    assert_eq!(board.turn(), Color::Green);
    assert!(board.contains_point(&(0, 0)));
    assert!(board.contains_point(&(-1, -4)));
    assert!(board.contains_point(&(1, 3)));
    assert!(!board.contains_point(&(0, 4)));
    assert!(!board.contains_point(&(3, 0)));
    assert!(board.contains_point(&(-3, 0)));
    assert!(board.contains_point(&(4, -3)));
}

#[test]
fn honeycomb_places_the_pieces_on_free_cells() {
    let board = Board::generate_honeycomb(3, 2, 5, Color::Green, Color::Red);
    let pieces = board.pieces();
    assert_eq!(pieces.len(), 10);
    assert_eq!(piece_count(&board, Color::Green), 5);
    assert_eq!(piece_count(&board, Color::Red), 5);
    for (point, _) in pieces {
        assert!(board.contains_point(&point));
    }
    let mut cells: Vec<Point> = board.pieces().into_iter().map(|(p, _)| p).collect();
    cells.sort();
    cells.dedup();
    assert_eq!(cells.len(), 10);
}

#[test]
fn honeycomb_stops_filling_when_no_cell_is_free() {
    let board = Board::generate_honeycomb(1, 0, 100, Color::Green, Color::Red);
    assert_eq!(board.points().len(), 8);
    assert_eq!(board.pieces().len(), 8);
    assert_eq!(piece_count(&board, Color::Green), 4);
    assert_eq!(piece_count(&board, Color::Red), 4);
}

#[test]
fn honeycomb_of_no_width_has_no_cell() {
    let board = Board::generate_honeycomb(0, 3, 2, Color::Green, Color::Red);
    assert_eq!(board.points().len(), 0);
    assert_eq!(board.pieces().len(), 0);
}

#[test]
fn a_board_is_made_of_valid_parts() {
    let board = Board::new(
        vec![(0, 0), (1, 0), (0, 1)],
        2,
        Color::Blue,
        vec![((1, 0), Color::Blue), ((0, 1), Color::Yellow)],
    )
    .unwrap();
    assert_eq!(board.points(), vec![(0, 0), (1, 0), (0, 1)]);
    assert_eq!(board.max_size(), 2);
    assert_eq!(board.turn(), Color::Blue);
    assert_eq!(board.piece_at(&(1, 0)), Some(Color::Blue));
    assert_eq!(board.piece_at(&(0, 1)), Some(Color::Yellow));
    assert_eq!(board.piece_at(&(0, 0)), None);
    assert_eq!(board.get_neighbours(&(0, 0)), vec![(1, 0), (0, 1)]);
    assert_eq!(board.get_legal_moves(&(1, 0)), vec![(0, 0)]);
}

#[test]
fn a_board_of_separate_cells_has_no_neighbours() {
    let board = Board::new(vec![(0, 0), (5, 5)], 1, Color::Red, vec![((0, 0), Color::Red)]).unwrap();
    assert_eq!(board.get_neighbours(&(0, 0)), Vec::<Point>::new());
    assert_eq!(board.get_legal_moves(&(0, 0)), Vec::<Point>::new());
}

#[test]
fn a_board_with_a_cell_given_twice_is_none() {
    assert!(Board::new(vec![(0, 0), (1, 0), (0, 0)], 2, Color::Red, vec![]).is_none());
}

#[test]
fn a_board_with_a_piece_given_twice_is_none() {
    let pieces = vec![((0, 0), Color::Red), ((0, 0), Color::Green)];
    assert!(Board::new(vec![(0, 0), (1, 0)], 2, Color::Red, pieces).is_none());
}

#[test]
fn a_board_with_a_piece_off_its_cells_is_none() {
    assert!(Board::new(vec![(0, 0)], 2, Color::Red, vec![((1, 0), Color::Red)]).is_none());
}

#[test]
fn a_board_with_a_cell_beyond_the_limit_is_none() {
    assert!(Board::new(vec![(1073741824, 0)], 2, Color::Red, vec![]).is_none());
    assert!(Board::new(vec![(0, -1073741824)], 2, Color::Red, vec![]).is_none());
    assert!(Board::new(vec![(1073741823, -1073741823)], 2, Color::Red, vec![]).is_some());
}

#[test]
fn a_board_without_cells_is_a_board() {
    let board = Board::new(vec![], 0, Color::Red, vec![]).unwrap();
    assert_eq!(board.points().len(), 0);
    assert!(!board.is_move_legal(&Move { from: (0, 0), to: (1, 0) }));
}

#[test]
fn pieces_are_counted_by_color() {
    let mut board = Board::generate_hexagon(3, Color::Red, Color::Green);
    assert_eq!(board.piece_count(Color::Red), 2);
    assert_eq!(board.piece_count(Color::Green), 2);
    assert_eq!(board.piece_count(Color::Blue), 0);
    assert!(board.apply_move(&Move { from: (2, 0), to: (2, -1) }));
    assert_eq!(board.piece_count(Color::Red), 4);
    assert_eq!(board.piece_count(Color::Green), 1);
}
