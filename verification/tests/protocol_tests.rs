use tictactoe::board::{Board, BoardCell, BoardError};
use tictactoe::protocol::{
    apply_cell_update, apply_login_packet, board_sync_packets, check_version_reply, first_play_message, play_response,
    plan_move, server_login_step, starting_board, C2SLoginPacket, C2SPlayPacket, LoginProgress,
    LoginStage, S2CLoginPacket, S2CPlayPacket, ServerLoginAction, SyncError,
};

#[test]
fn starting_board_has_x_in_the_middle() {
    let board = starting_board();
    assert_eq!((board.width, board.height, board.teams), (3, 3, 2));
    assert_eq!(board.get(1, 1), BoardCell::X);
    assert_eq!(board.get(0, 0), BoardCell::Empty);
}

#[test]
fn sync_packets_list_the_stored_squares() {
    let board = starting_board();
    let packets = board_sync_packets(&board);
    assert_eq!(packets.len(), 4);
    assert!(matches!(packets[0], S2CLoginPacket::UpdateBoardSize { width: 3, height: 3 }));
    assert!(matches!(packets[1], S2CLoginPacket::UpdateCell { x: 0, y: 1, cell_type: 0 }));
    assert!(matches!(packets[2], S2CLoginPacket::UpdateCell { x: 1, y: 1, cell_type: 1 }));
    assert!(matches!(packets[3], S2CLoginPacket::BoardSent {}));
}

#[test]
fn client_rebuilds_the_server_board() {
    let mut server = starting_board();
    server.put(2, 0, BoardCell::O).unwrap();
    server.put(0, 2, BoardCell::X).unwrap();
    let mut client = Board::new(0, 0);
    let mut done = false;
    for packet in board_sync_packets(&server).iter() {
        match apply_login_packet(&mut client, packet) {
            Ok(LoginProgress::Continue) => {}
            Ok(LoginProgress::Done) => {
                done = true;
                break;
            }
            Err(e) => panic!("refused: {:?}", e),
        }
    }
    assert!(done);
    assert_eq!((client.width, client.height), (3, 3));
    for y in 0..4 {
        for x in 0..4 {
            assert_eq!(client.get(x, y), server.get(x, y));
        }
    }
}

#[test]
fn login_packets_that_do_not_belong_are_refused() {
    let mut board = Board::new(3, 3);
    let kick = S2CLoginPacket::Kick { reason: "bye".to_string() };
    assert_eq!(apply_login_packet(&mut board, &kick), Err(SyncError::UnexpectedPacket));
    let version = S2CLoginPacket::SendVersion { server_version: "1".to_string() };
    assert_eq!(apply_login_packet(&mut board, &version), Err(SyncError::UnexpectedPacket));
    let bad = S2CLoginPacket::UpdateCell { x: 0, y: 0, cell_type: 7 };
    assert_eq!(
        apply_login_packet(&mut board, &bad),
        Err(SyncError::Board(BoardError::BadCellId { id: 7 }))
    );
    let outside = S2CLoginPacket::UpdateCell { x: 5, y: 0, cell_type: 1 };
    assert_eq!(
        apply_login_packet(&mut board, &outside),
        Err(SyncError::Board(BoardError::OutOfBounds))
    );
    assert!(board.cells.is_empty());
}

#[test]
fn cell_update_writes_the_square() {
    let mut board = Board::new(2, 2);
    assert_eq!(apply_cell_update(&mut board, 1, 0, 2), Ok(()));
    assert_eq!(board.get(1, 0), BoardCell::O);
    assert_eq!(apply_cell_update(&mut board, 1, 0, 3), Err(BoardError::BadCellId { id: 3 }));
    assert_eq!(apply_cell_update(&mut board, 2, 0, 1), Err(BoardError::OutOfBounds));
    assert_eq!(board.get(1, 0), BoardCell::O);
}

#[test]
fn server_login_accepts_version_then_board_request() {
    let hello = C2SLoginPacket::RequestVersion { client_version: "0.1.0".to_string() };
    assert_eq!(
        server_login_step(LoginStage::AwaitingGreeting, &hello, "0.1.0"),
        ServerLoginAction::ReplyVersion { versions_match: true }
    );
    assert_eq!(
        server_login_step(LoginStage::AwaitingGreeting, &hello, "0.2.0"),
        ServerLoginAction::ReplyVersion { versions_match: false }
    );
    assert_eq!(
        server_login_step(LoginStage::AwaitingBoardRequest, &hello, "0.1.0"),
        ServerLoginAction::Refuse
    );
    let ask = C2SLoginPacket::RequestBoard {};
    assert_eq!(server_login_step(LoginStage::AwaitingGreeting, &ask, "0.1.0"), ServerLoginAction::SendBoard);
    assert_eq!(server_login_step(LoginStage::AwaitingBoardRequest, &ask, "0.1.0"), ServerLoginAction::SendBoard);
    let unknown = C2SLoginPacket::Unknown { packet_id: 2 };
    assert_eq!(server_login_step(LoginStage::AwaitingGreeting, &unknown, "0.1.0"), ServerLoginAction::Refuse);
}

#[test]
fn client_reads_the_version_reply() {
    let reply = S2CLoginPacket::SendVersion { server_version: "0.1.0".to_string() };
    assert_eq!(check_version_reply(&reply, "0.1.0"), Ok(true));
    assert_eq!(check_version_reply(&reply, "0.1.1"), Ok(false));
    assert_eq!(check_version_reply(&S2CLoginPacket::BoardSent {}, "0.1.0"), Err(SyncError::UnexpectedPacket));
}

#[test]
fn server_answers_moves_out_of_turn() {
    let board = starting_board();
    let mv = C2SPlayPacket::UpdateCell { x: 1, y: 1, cell_type: 1 };
    assert!(matches!(
        play_response(&board, 0, 0, &mv),
        Some(S2CPlayPacket::UpdateCell { x: 1, y: 1, cell_type: 1 })
    ));
    let own = C2SPlayPacket::UpdateCell { x: 0, y: 2, cell_type: 0 };
    assert!(play_response(&board, 0, 0, &own).is_none());
    assert!(matches!(
        play_response(&board, 1, 0, &own),
        Some(S2CPlayPacket::UpdateCell { x: 0, y: 2, cell_type: 0 })
    ));
    assert!(play_response(&board, 0, 0, &C2SPlayPacket::Unknown { packet_id: 1 }).is_none());
}

#[test]
fn client_plans_moves_on_free_squares_only() {
    let board = starting_board();
    assert!(plan_move(&board, 1, 1).is_none());
    assert!(matches!(
        plan_move(&board, 0, 0),
        Some(C2SPlayPacket::UpdateCell { x: 0, y: 0, cell_type: 1 })
    ));
}

#[test]
fn play_opens_with_an_x_update() {
    assert!(matches!(first_play_message(), S2CPlayPacket::UpdateCell { x: 2, y: 1, cell_type: 1 }));
}

#[test]
fn starting_board_stores_two_rows() {
    let board = starting_board();
    assert_eq!(board.cells, vec![vec![], vec![BoardCell::Empty, BoardCell::X]]);
}

#[test]
fn updates_store_rows_as_put_does() {
    let mut board = Board::new(3, 3);
    let update = S2CLoginPacket::UpdateCell { x: 1, y: 2, cell_type: 2 };
    assert_eq!(apply_login_packet(&mut board, &update), Ok(LoginProgress::Continue));
    assert_eq!(board.cells, vec![vec![], vec![], vec![BoardCell::Empty, BoardCell::O]]);
    let size = S2CLoginPacket::UpdateBoardSize { width: 5, height: 4 };
    assert_eq!(apply_login_packet(&mut board, &size), Ok(LoginProgress::Continue));
    assert_eq!(board.cells, vec![vec![], vec![], vec![BoardCell::Empty, BoardCell::O]]);
    assert_eq!((board.width, board.height), (5, 4));
}
