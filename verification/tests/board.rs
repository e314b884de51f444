use tetris::board::{is_spawnable, Board, Delta, HEIGHT, WIDTH};
use tetris::piece::{Piece, Rotation, PIECES};

const BAR: [[u8; 4]; 4] = PIECES[0];
const J: [[u8; 4]; 4] = PIECES[1];
const SQUARE: [[u8; 4]; 4] = PIECES[3];

fn step(x: i32, y: i32) -> Delta {
    Delta { x, y }
}

fn fill_row(board: &mut Board, row: usize, value: u8) {
    for col in 0..10 {
        board.set_cell(row, col, value);
    }
}

fn empty() -> Vec<Vec<u8>> {
    vec![vec![0u8; 10]; 20]
}

/// A board whose row `r` holds `r % 7 + 1` in column `r % 10` and nothing else.
fn marked_board() -> Board {
    let mut board = Board::new();
    for row in 0..20 {
        board.set_cell(row, row % 10, (row % 7 + 1) as u8);
    }
    board
}

#[test]
fn new_board_is_ten_by_twenty_and_empty() {
    let board = Board::new();
    assert_eq!(board.width, 10);
    assert_eq!(board.height, 20);
    assert_eq!((WIDTH, HEIGHT), (10, 20));
    assert_eq!(board.grid, empty());
    assert!(board.is_valid());
}

#[test]
fn cell_reads_what_set_cell_wrote() {
    let mut board = Board::new();
    board.set_cell(19, 9, 7);
    board.set_cell(0, 0, 1);
    assert_eq!(board.cell(19, 9), 7);
    assert_eq!(board.cell(0, 0), 1);
    assert_eq!(board.cell(10, 5), 0);
    let mut expected = empty();
    expected[19][9] = 7;
    expected[0][0] = 1;
    assert_eq!(board.grid, expected);
}

#[test]
fn is_valid_refuses_a_broken_board() {
    let mut board = Board::new();
    board.width = 11;
    assert!(!board.is_valid());
    let mut board = Board::new();
    board.height = 19;
    assert!(!board.is_valid());
    let mut board = Board::new();
    board.grid[3][4] = 8;
    assert!(!board.is_valid());
    let mut board = Board::new();
    board.grid[19].pop();
    assert!(!board.is_valid());
    let mut board = Board::new();
    board.grid.pop();
    assert!(!board.is_valid());
    let mut board = Board::new();
    board.grid[7][7] = 7;
    assert!(board.is_valid());
}

#[test]
fn clear_top_row_empties_row_zero_only() {
    let mut board = Board::new();
    fill_row(&mut board, 0, 3);
    fill_row(&mut board, 1, 4);
    board.set_cell(19, 2, 5);
    board.clear_top_row();
    let mut expected = empty();
    expected[1] = vec![4; 10];
    expected[19][2] = 5;
    assert_eq!(board.grid, expected);
}

#[test]
fn place_piece_writes_the_occupied_cells() {
    let mut board = Board::new();
    board.place_piece(Piece { x: 2, y: 0, shape: J });
    let mut expected = empty();
    expected[0][2] = 2;
    expected[1][2] = 2;
    expected[1][3] = 2;
    expected[1][4] = 2;
    assert_eq!(board.grid, expected);
    assert!(board.is_valid());
}

#[test]
fn place_piece_takes_a_frame_that_hangs_over_the_edge() {
    let mut board = Board::new();
    board.place_piece(Piece { x: -1, y: 17, shape: SQUARE });
    let mut expected = empty();
    expected[18][0] = 4;
    expected[18][1] = 4;
    expected[19][0] = 4;
    expected[19][1] = 4;
    assert_eq!(board.grid, expected);
}

#[test]
fn place_piece_leaves_uncovered_cells_and_overwrites_covered_ones() {
    let mut board = Board::new();
    fill_row(&mut board, 1, 7);
    board.set_cell(0, 3, 6);
    board.place_piece(Piece { x: 2, y: 0, shape: J });
    let mut expected = empty();
    expected[1] = vec![7, 7, 2, 2, 2, 7, 7, 7, 7, 7];
    expected[0][2] = 2;
    expected[0][3] = 6;
    assert_eq!(board.grid, expected);
}

#[test]
fn a_piece_at_the_spawn_position_can_fall_on_an_empty_board() {
    let board = Board::new();
    for kind in 0..7 {
        let piece = Piece::from_index(kind).unwrap();
        assert!(board.piece_can_move(piece, step(0, 1)));
        assert!(board.piece_can_move(piece, step(0, 0)));
        assert!(board.piece_can_move(piece, step(-1, 0)));
        assert!(board.piece_can_move(piece, step(1, 0)));
    }
}

#[test]
fn a_piece_in_the_leftmost_column_cannot_step_left() {
    let board = Board::new();
    assert!(!board.piece_can_move(Piece { x: 0, y: 5, shape: J }, step(-1, 0)));
    assert!(board.piece_can_move(Piece { x: 1, y: 5, shape: J }, step(-1, 0)));
    assert!(!board.piece_can_move(Piece { x: -1, y: 5, shape: SQUARE }, step(-1, 0)));
    assert!(board.piece_can_move(Piece { x: 0, y: 5, shape: SQUARE }, step(-1, 0)));
}

#[test]
fn a_piece_in_the_rightmost_column_cannot_step_right() {
    let board = Board::new();
    assert!(!board.piece_can_move(Piece { x: 6, y: 5, shape: BAR }, step(1, 0)));
    assert!(board.piece_can_move(Piece { x: 5, y: 5, shape: BAR }, step(1, 0)));
    assert!(!board.piece_can_move(Piece { x: 7, y: 5, shape: SQUARE }, step(1, 0)));
}

#[test]
fn a_piece_in_the_bottom_row_cannot_step_down() {
    let board = Board::new();
    assert!(!board.piece_can_move(Piece { x: 3, y: 18, shape: BAR }, step(0, 1)));
    assert!(board.piece_can_move(Piece { x: 3, y: 17, shape: BAR }, step(0, 1)));
    assert!(!board.piece_can_move(Piece { x: 3, y: 17, shape: SQUARE }, step(0, 1)));
}

#[test]
fn a_piece_in_the_top_row_cannot_step_up() {
    let board = Board::new();
    assert!(!board.piece_can_move(Piece { x: 3, y: 0, shape: J }, step(0, -1)));
    assert!(board.piece_can_move(Piece { x: 3, y: 0, shape: BAR }, step(0, -1)));
    assert!(!board.piece_can_move(Piece { x: 3, y: -1, shape: BAR }, step(0, -1)));
}

#[test]
fn a_piece_cannot_move_onto_an_occupied_cell() {
    let mut board = Board::new();
    board.set_cell(6, 4, 1);
    let piece = Piece { x: 3, y: 4, shape: BAR };
    assert!(board.piece_can_move(piece, step(0, 0)));
    assert!(!board.piece_can_move(piece, step(0, 1)));
    assert!(board.piece_can_move(piece, step(0, 2)));
    assert!(!board.piece_can_move(Piece { x: 3, y: 5, shape: BAR }, step(0, 0)));
    assert!(!board.piece_can_move(Piece { x: 5, y: 5, shape: BAR }, step(-4, 0)));
    assert!(board.piece_can_move(Piece { x: 5, y: 5, shape: BAR }, step(0, 0)));
}

#[test]
fn a_piece_that_fits_can_stay() {
    let mut board = marked_board();
    board.set_cell(5, 5, 0);
    for y in -1..18 {
        for x in -1..8 {
            let piece = Piece { x, y, shape: SQUARE };
            let mut fits = true;
            for (row, col) in [(1, 1), (1, 2), (2, 1), (2, 2)] {
                if board.cell((y + row) as usize, (x + col) as usize) != 0 {
                    fits = false;
                }
            }
            assert_eq!(board.piece_can_move(piece, step(0, 0)), fits);
        }
    }
}

#[test]
fn an_empty_frame_can_go_anywhere() {
    let board = marked_board();
    let piece = Piece { x: 50, y: -50, shape: [[0; 4]; 4] };
    assert!(board.piece_can_move(piece, step(0, 0)));
    assert!(board.piece_can_move(piece, step(1000, 1000)));
}

#[test]
fn far_away_positions_are_refused_without_overflow() {
    let board = Board::new();
    let far = Piece { x: i32::MAX, y: i32::MAX, shape: BAR };
    assert!(!board.piece_can_move(far, step(i32::MAX, i32::MAX)));
    assert!(!board.piece_can_move(far, step(0, 0)));
    let far = Piece { x: i32::MIN, y: i32::MIN, shape: BAR };
    assert!(!board.piece_can_move(far, step(i32::MIN, i32::MIN)));
    assert!(board.piece_can_move(far, step(i32::MAX, i32::MAX)) == false);
    let back = Piece { x: i32::MAX, y: 5, shape: BAR };
    assert!(!board.piece_can_move(back, step(i32::MIN, 0)));
    let back = Piece { x: i32::MAX, y: 5, shape: BAR };
    assert!(board.piece_can_move(back, step(-i32::MAX + 3, 0)));
}

#[test]
fn piece_can_move_is_repeatable_and_changes_nothing() {
    let board = marked_board();
    let before = board.grid.clone();
    let piece = Piece { x: 4, y: 9, shape: J };
    for delta in [step(0, 0), step(0, 1), step(-1, 0), step(1, 0), step(3, -2)] {
        let first = board.piece_can_move(piece, delta);
        let second = board.piece_can_move(piece, delta);
        assert_eq!(first, second);
    }
    assert_eq!(board.grid, before);
    assert_eq!(piece, Piece { x: 4, y: 9, shape: J });
}

#[test]
fn is_spawnable_accepts_the_seven_shapes_where_they_spawn() {
    for kind in 0..7 {
        assert!(is_spawnable(Piece::from_index(kind).unwrap()));
    }
}

#[test]
fn is_spawnable_refuses_what_cannot_enter_play() {
    assert!(!is_spawnable(Piece { x: 2, y: 0, shape: [[0; 4]; 4] }));
    assert!(!is_spawnable(Piece { x: 7, y: 0, shape: BAR }));
    assert!(!is_spawnable(Piece { x: -1, y: 0, shape: BAR }));
    assert!(!is_spawnable(Piece { x: 2, y: 19, shape: BAR }));
    assert!(!is_spawnable(Piece { x: 2, y: -2, shape: BAR }));
    assert!(!is_spawnable(Piece { x: 2, y: 0, shape: [[0, 8, 0, 0], [0; 4], [0; 4], [0; 4]] }));
    assert!(is_spawnable(Piece { x: 6, y: 18, shape: BAR }));
    assert!(is_spawnable(Piece { x: -1, y: -1, shape: SQUARE }));
}

#[test]
fn top_row_is_occupied_looks_at_row_zero_only() {
    let mut board = Board::new();
    assert!(!board.top_row_is_occupied());
    fill_row(&mut board, 1, 2);
    assert!(!board.top_row_is_occupied());
    board.set_cell(0, 9, 1);
    assert!(board.top_row_is_occupied());
}

#[test]
fn drop_piece_falls_to_the_floor_of_an_empty_board() {
    let board = Board::new();
    let landed = board.drop_piece(Piece { x: 2, y: 0, shape: SQUARE });
    assert_eq!(landed, Piece { x: 2, y: 17, shape: SQUARE });
    let landed = board.drop_piece(Piece { x: 2, y: 0, shape: BAR });
    assert_eq!(landed, Piece { x: 2, y: 18, shape: BAR });
    let landed = board.drop_piece(Piece { x: 2, y: 0, shape: J });
    assert_eq!(landed, Piece { x: 2, y: 18, shape: J });
    assert_eq!(board.grid, empty());
}

#[test]
fn drop_piece_rests_on_what_is_below() {
    let mut board = Board::new();
    board.set_cell(10, 4, 3);
    let landed = board.drop_piece(Piece { x: 2, y: 0, shape: BAR });
    assert_eq!(landed, Piece { x: 2, y: 8, shape: BAR });
    let landed = board.drop_piece(Piece { x: 5, y: 0, shape: BAR });
    assert_eq!(landed, Piece { x: 5, y: 18, shape: BAR });
}

#[test]
fn drop_piece_stays_where_it_cannot_fall() {
    let mut board = Board::new();
    fill_row(&mut board, 2, 1);
    let piece = Piece { x: 2, y: 0, shape: BAR };
    assert_eq!(board.drop_piece(piece), piece);
    let inside = Piece { x: 2, y: 1, shape: BAR };
    assert_eq!(board.drop_piece(inside), Piece { x: 2, y: 18, shape: BAR });
    let outside = Piece { x: 20, y: 3, shape: BAR };
    assert_eq!(board.drop_piece(outside), outside);
}

#[test]
fn row_is_full_wants_every_cell() {
    let mut board = Board::new();
    assert!(!board.row_is_full(19));
    fill_row(&mut board, 19, 5);
    assert!(board.row_is_full(19));
    assert!(!board.row_is_full(18));
    board.set_cell(19, 9, 0);
    assert!(!board.row_is_full(19));
}

#[test]
fn collapse_row_moves_the_rows_above_down_by_one() {
    let mut board = marked_board();
    let before = board.grid.clone();
    board.collapse_row(10);
    assert_eq!(board.grid[0], vec![0u8; 10]);
    for row in 1..=10 {
        assert_eq!(board.grid[row], before[row - 1]);
    }
    for row in 11..20 {
        assert_eq!(board.grid[row], before[row]);
    }
    assert!(board.is_valid());
}

#[test]
fn collapse_row_of_the_top_row_empties_it() {
    let mut board = marked_board();
    let before = board.grid.clone();
    board.collapse_row(0);
    assert_eq!(board.grid[0], vec![0u8; 10]);
    assert_eq!(board.grid[1..], before[1..]);
}

#[test]
fn collapse_row_of_the_bottom_row_moves_every_row() {
    let mut board = marked_board();
    let before = board.grid.clone();
    board.collapse_row(19);
    assert_eq!(board.grid[0], vec![0u8; 10]);
    assert_eq!(board.grid[1..], before[..19]);
}

#[test]
fn clear_full_rows_leaves_a_board_without_full_rows() {
    let mut board = marked_board();
    let before = board.grid.clone();
    assert_eq!(board.clear_full_rows(), 0);
    assert_eq!(board.grid, before);
}

#[test]
fn clear_full_rows_takes_out_the_bottom_row() {
    let mut board = Board::new();
    fill_row(&mut board, 19, 1);
    board.set_cell(18, 3, 6);
    board.set_cell(17, 4, 5);
    board.set_cell(0, 0, 2);
    assert_eq!(board.clear_full_rows(), 1);
    let mut expected = empty();
    expected[19][3] = 6;
    expected[18][4] = 5;
    expected[1][0] = 2;
    assert_eq!(board.grid, expected);
}

#[test]
fn clear_full_rows_takes_out_two_adjacent_rows() {
    let mut board = Board::new();
    fill_row(&mut board, 19, 1);
    fill_row(&mut board, 18, 2);
    board.set_cell(17, 3, 6);
    board.set_cell(16, 4, 5);
    assert_eq!(board.clear_full_rows(), 2);
    let mut expected = empty();
    expected[19][3] = 6;
    expected[18][4] = 5;
    assert_eq!(board.grid, expected);
}

#[test]
fn clear_full_rows_takes_out_rows_that_lie_apart() {
    let mut board = Board::new();
    fill_row(&mut board, 19, 1);
    board.set_cell(18, 0, 3);
    fill_row(&mut board, 17, 2);
    board.set_cell(16, 1, 4);
    fill_row(&mut board, 10, 7);
    board.set_cell(9, 2, 5);
    assert_eq!(board.clear_full_rows(), 3);
    let mut expected = empty();
    expected[19][0] = 3;
    expected[18][1] = 4;
    expected[12][2] = 5;
    assert_eq!(board.grid, expected);
}

#[test]
fn clear_full_rows_takes_out_four_rows() {
    let mut board = Board::new();
    for row in 16..20 {
        fill_row(&mut board, row, 1);
    }
    board.set_cell(15, 9, 7);
    assert_eq!(board.clear_full_rows(), 4);
    let mut expected = empty();
    expected[19][9] = 7;
    assert_eq!(board.grid, expected);
}

#[test]
fn clear_full_rows_takes_out_a_full_row_one() {
    let mut board = Board::new();
    fill_row(&mut board, 1, 3);
    board.set_cell(0, 5, 2);
    board.set_cell(2, 6, 1);
    assert_eq!(board.clear_full_rows(), 1);
    let mut expected = empty();
    expected[1][5] = 2;
    expected[2][6] = 1;
    assert_eq!(board.grid, expected);
}

#[test]
fn clear_full_rows_does_not_start_at_the_top_row() {
    let mut board = Board::new();
    fill_row(&mut board, 0, 3);
    board.set_cell(19, 0, 1);
    let before = board.grid.clone();
    assert_eq!(board.clear_full_rows(), 0);
    assert_eq!(board.grid, before);
}

#[test]
fn clear_full_rows_takes_a_full_top_row_along() {
    let mut board = Board::new();
    fill_row(&mut board, 0, 3);
    fill_row(&mut board, 19, 1);
    board.set_cell(5, 5, 4);
    assert_eq!(board.clear_full_rows(), 2);
    let mut expected = empty();
    expected[6][5] = 4;
    assert_eq!(board.grid, expected);
}

#[test]
fn clear_full_rows_empties_a_full_board() {
    let mut board = Board::new();
    for row in 0..20 {
        fill_row(&mut board, row, 7);
    }
    assert_eq!(board.clear_full_rows(), 20);
    assert_eq!(board.grid, empty());
}

#[test]
fn placing_bars_fills_the_bottom_row_and_the_sweep_takes_it() {
    let mut board = Board::new();
    board.place_piece(Piece { x: 0, y: 17, shape: BAR });
    for x in [0, 4, 6] {
        board.place_piece(Piece { x, y: 18, shape: BAR });
    }
    assert_eq!(board.grid[19], vec![1u8; 10]);
    let row_above = board.grid[18].clone();
    assert_eq!(row_above, vec![1, 1, 1, 1, 0, 0, 0, 0, 0, 0]);
    assert_eq!(board.clear_full_rows(), 1);
    assert_eq!(board.grid[19], row_above);
    assert_eq!(board.grid[18], vec![0u8; 10]);
    assert_eq!(board.grid[0], vec![0u8; 10]);
}

#[test]
fn a_turned_bar_fits_where_the_flat_one_does_not() {
    let mut board = Board::new();
    board.set_cell(5, 3, 1);
    let mut piece = Piece { x: 2, y: 4, shape: BAR };
    assert!(!board.piece_can_move(piece, step(0, 0)));
    piece.rotate(&Rotation::Clockwise);
    assert!(board.piece_can_move(piece, step(0, 0)));
}
