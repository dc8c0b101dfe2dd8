use tictactoe::local::{is_valid_turn, main_player_turn, Board, Player, SpotCheck, TurnOutcome, SPOT_COUNT};

fn marks(board: &Board) -> Vec<String> {
    let lines = board.draw();
    let mut out = Vec::new();
    for i in [1, 3, 5] {
        for part in lines[i].split('|').filter(|p| !p.is_empty()) {
            out.push(part.to_string());
        }
    }
    out
}

#[test]
fn new_board_draws_blank_grid() {
    let board = Board::new();
    let lines = board.draw();
    assert_eq!(
        lines,
        vec!["-------", "| | | |", "-------", "| | | |", "-------", "| | | |", "-------"]
    );
    assert_eq!(SPOT_COUNT, 10);
}

#[test]
fn valid_spots_are_the_first_nine() {
    let board = Board::new();
    assert!(board.valid_spot(0));
    assert!(board.valid_spot(8));
    assert!(!board.valid_spot(9));
    assert!(!board.valid_spot(-1));
    assert!(!board.valid_spot(i32::MIN));
}

#[test]
fn blank_spots_are_not_taken() {
    let board = Board::new();
    assert!(!board.spot_taken(0));
    assert!(!board.spot_taken(9));
    assert!(board.spot_taken(10));
    assert!(board.spot_taken(-1));
}

#[test]
fn turn_places_the_mark() {
    let player = Player::new("X");
    assert_eq!(player.id, "X");
    let mut board = Board::new();
    assert_eq!(main_player_turn(&player.id, &mut board, "5\n"), TurnOutcome::Placed);
    let lines = board.draw();
    assert_eq!(lines[3], "| |X| |");
    assert_eq!(main_player_turn("O", &mut board, "  1 "), TurnOutcome::Placed);
    assert_eq!(board.draw()[1], "|O| | |");
    assert_eq!(main_player_turn("O", &mut board, "+9"), TurnOutcome::Placed);
    assert_eq!(board.draw()[5], "| | |O|");
}

#[test]
fn taken_spot_is_refused() {
    let mut board = Board::new();
    assert_eq!(main_player_turn("X", &mut board, "3"), TurnOutcome::Placed);
    assert_eq!(main_player_turn("O", &mut board, "3"), TurnOutcome::SpotTaken);
    assert_eq!(board.draw()[1], "| | |X|");
    assert_eq!(is_valid_turn(&board, 2), SpotCheck::SpotTaken);
    assert_eq!(is_valid_turn(&board, 3), SpotCheck::Valid);
}

#[test]
fn out_of_range_spot_is_refused() {
    let mut board = Board::new();
    assert_eq!(main_player_turn("X", &mut board, "10"), TurnOutcome::InvalidSpot);
    assert_eq!(main_player_turn("X", &mut board, "0"), TurnOutcome::InvalidSpot);
    assert_eq!(main_player_turn("X", &mut board, "-4"), TurnOutcome::InvalidSpot);
    assert_eq!(main_player_turn("X", &mut board, "-2147483648"), TurnOutcome::InvalidSpot);
    assert_eq!(is_valid_turn(&board, 9), SpotCheck::InvalidSpot);
    assert!(marks(&board).iter().all(|m| m == " "));
}

#[test]
fn non_number_is_refused() {
    let mut board = Board::new();
    assert_eq!(main_player_turn("X", &mut board, "five"), TurnOutcome::BadNumber);
    assert_eq!(main_player_turn("X", &mut board, ""), TurnOutcome::BadNumber);
    assert_eq!(main_player_turn("X", &mut board, "4 5"), TurnOutcome::BadNumber);
    assert_eq!(main_player_turn("X", &mut board, "99999999999"), TurnOutcome::BadNumber);
    assert!(marks(&board).iter().all(|m| m == " "));
}
