use vstd::prelude::*;
use crate::board::{Board, BoardCell, BoardError, cell_id, cell_of_id, lemma_cell_id_round_trip, rows_after_put};

verus! {

/// What a client sends while it logs in.
#[derive(Debug, Clone)]
pub enum C2SLoginPacket {
    RequestVersion { client_version: String },
    RequestBoard {},
    Unknown { packet_id: u32 },
}

/// What the server sends while a client logs in.
#[derive(Debug, Clone)]
pub enum S2CLoginPacket {
    SendVersion { server_version: String },
    UpdateBoardSize { width: usize, height: usize },
    UpdateCell { x: usize, y: usize, cell_type: usize },
    BoardSent {},
    Kick { reason: String },
    Unknown { packet_id: u32 },
}

/// What a client sends while it plays.
#[derive(Debug, Clone)]
pub enum C2SPlayPacket {
    UpdateCell { x: usize, y: usize, cell_type: usize },
    Unknown { packet_id: u32 },
}

/// What the server sends while a client plays.
#[derive(Debug, Clone)]
pub enum S2CPlayPacket {
    UpdateCell { x: usize, y: usize, cell_type: usize },
    Kick { reason: String },
    Unknown { packet_id: u32 },
}

/// Why a message could not be taken in.
#[derive(Debug, Clone, Copy, PartialEq, Eq, Structural)]
pub enum SyncError {
    /// The board refused the update.
    Board(BoardError),
    /// A message came that does not belong at this point of the exchange.
    UnexpectedPacket,
}

/// Whether the board transfer goes on after a message.
#[derive(Debug, Clone, Copy, PartialEq, Eq, Structural)]
pub enum LoginProgress {
    Continue,
    Done,
}

/// The board's state as the login exchange sees it: width, height and squares.
pub type BoardState = (usize, usize, Map<(int, int), BoardCell>);

/// The state of `board`.
pub open spec fn state_of(board: Board) -> BoardState {
    (board.width, board.height, board.grid())
}

/// The state of a board that has stored nothing, with the given size.
pub open spec fn empty_state(width: usize, height: usize) -> BoardState {
    (width, height, Map::new(|p: (int, int)| true, |p: (int, int)| BoardCell::Empty))
}

/// What one update of a square does to a board state.
pub open spec fn cell_step(s: BoardState, x: usize, y: usize, cell_type: usize) -> Result<BoardState, SyncError> {
    match cell_of_id(cell_type as nat) {
        None => Err(SyncError::Board(BoardError::BadCellId { id: cell_type })),
        Some(c) => if x < s.0 && y < s.1 {
            Ok((s.0, s.1, s.2.insert((x as int, y as int), c)))
        } else {
            Err(SyncError::Board(BoardError::OutOfBounds))
        },
    }
}

/// What one message of the board transfer does to the client's board state.
pub open spec fn login_step(s: BoardState, p: S2CLoginPacket) -> Result<(BoardState, LoginProgress), SyncError> {
    match p {
        S2CLoginPacket::UpdateCell { x, y, cell_type } => match cell_step(s, x, y, cell_type) {
            Ok(t) => Ok((t, LoginProgress::Continue)),
            Err(e) => Err(e),
        },
        S2CLoginPacket::UpdateBoardSize { width, height } => Ok(((width, height, s.2), LoginProgress::Continue)),
        S2CLoginPacket::BoardSent {  } => Ok((s, LoginProgress::Done)),
        _ => Err(SyncError::UnexpectedPacket),
    }
}

/// Takes in one message of the board transfer: an updated square is written,
/// a new size is taken, the end of the transfer is reported; any other message
/// is refused. A refused message leaves the board as it was.
pub fn apply_login_packet(board: &mut Board, packet: &S2CLoginPacket) -> (res: Result<LoginProgress, SyncError>)
    ensures
        match login_step(state_of(*old(board)), *packet) {
            Ok((s, progress)) => res == Ok::<LoginProgress, SyncError>(progress) && state_of(*final(board)) == s
                && final(board).teams == old(board).teams,
            Err(e) => res == Err::<LoginProgress, SyncError>(e) && *final(board) == *old(board),
        },
        res is Ok ==> match *packet {
            S2CLoginPacket::UpdateCell { x, y, cell_type } => rows_after_put(
                *old(board),
                *final(board),
                x,
                y,
                cell_of_id(cell_type as nat).unwrap(),
            ),
            _ => final(board).cells == old(board).cells,
        },
{
    match packet {
        S2CLoginPacket::UpdateCell { x, y, cell_type } => {
            match apply_cell_update(board, *x, *y, *cell_type) {
                Ok(()) => Ok(LoginProgress::Continue),
                Err(e) => Err(SyncError::Board(e)),
            }
        },
        S2CLoginPacket::UpdateBoardSize { width, height } => {
            board.width = *width;
            board.height = *height;
            assert(board.grid() =~= old(board).grid());
            Ok(LoginProgress::Continue)
        },
        S2CLoginPacket::BoardSent {  } => Ok(LoginProgress::Done),
        _ => Err(SyncError::UnexpectedPacket),
    }
}

/// Writes the square that an update message names, as the cell kind its
/// number names.
pub fn apply_cell_update(board: &mut Board, x: usize, y: usize, cell_type: usize) -> (res: Result<(), BoardError>)
    ensures
        match cell_step(state_of(*old(board)), x, y, cell_type) {
            Ok(s) => res is Ok && state_of(*final(board)) == s && final(board).teams == old(board).teams
                && rows_after_put(*old(board), *final(board), x, y, cell_of_id(cell_type as nat).unwrap()),
            Err(SyncError::Board(e)) => res == Err::<(), BoardError>(e) && *final(board) == *old(board),
            Err(_) => false,
        },
{
    let cell = match BoardCell::from_usize(cell_type) {
        Ok(c) => c,
        Err(e) => return Err(e),
    };
    let res = board.put(x, y, cell);
    if res.is_ok() {
        assert(board.grid() =~= old(board).grid().insert((x as int, y as int), cell));
    }
    res
}

/// Where the server stands in a client's login.
#[derive(Debug, Clone, Copy, PartialEq, Eq, Structural)]
pub enum LoginStage {
    /// Nothing has come from the client yet.
    AwaitingGreeting,
    /// The versions have been exchanged; the board request must come next.
    AwaitingBoardRequest,
}

/// What the server does with a login message.
#[derive(Debug, Clone, Copy, PartialEq, Eq, Structural)]
pub enum ServerLoginAction {
    /// Answer with the server's version and wait for the board request;
    /// `versions_match` tells whether the client runs the same version.
    ReplyVersion { versions_match: bool },
    /// Send the board and go on to play.
    SendBoard,
    /// End the login: the message does not belong here.
    Refuse,
}

/// Decides what the server does with the login message `packet` at `stage`:
/// a version request may come first, and the board request must follow.
pub fn server_login_step(stage: LoginStage, packet: &C2SLoginPacket, server_version: &str) -> (action: ServerLoginAction)
    ensures
        action == match packet {
            C2SLoginPacket::RequestVersion { client_version } => if stage == LoginStage::AwaitingGreeting {
                ServerLoginAction::ReplyVersion { versions_match: client_version@ == server_version@ }
            } else {
                ServerLoginAction::Refuse
            },
            C2SLoginPacket::RequestBoard {  } => ServerLoginAction::SendBoard,
            C2SLoginPacket::Unknown { .. } => ServerLoginAction::Refuse,
        },
{
    match packet {
        C2SLoginPacket::RequestVersion { client_version } => {
            if stage == LoginStage::AwaitingGreeting {
                let ours = String::from_str(server_version);
                ServerLoginAction::ReplyVersion { versions_match: *client_version == ours }
            } else {
                ServerLoginAction::Refuse
            }
        },
        C2SLoginPacket::RequestBoard {  } => ServerLoginAction::SendBoard,
        C2SLoginPacket::Unknown { .. } => ServerLoginAction::Refuse,
    }
}

/// Reads the server's answer to the client's version request: whether the
/// server runs `client_version`; any other message is refused.
pub fn check_version_reply(packet: &S2CLoginPacket, client_version: &str) -> (res: Result<bool, SyncError>)
    ensures
        res == match packet {
            S2CLoginPacket::SendVersion { server_version } => Ok::<bool, SyncError>(server_version@ == client_version@),
            _ => Err::<bool, SyncError>(SyncError::UnexpectedPacket),
        },
{
    match packet {
        S2CLoginPacket::SendVersion { server_version } => {
            let ours = String::from_str(client_version);
            Ok(*server_version == ours)
        },
        _ => Err(SyncError::UnexpectedPacket),
    }
}

/// The board a server starts with: three by three, with an X in the middle.
pub fn starting_board() -> (board: Board)
    ensures
        board.width == 3,
        board.height == 3,
        board.teams == 2,
        board.cells@.len() == 2,
        board.cells@[0]@ == Seq::<BoardCell>::empty(),
        board.cells@[1]@ == seq![BoardCell::Empty, BoardCell::X],
        board.stored_in_bounds(),
        board.grid() == empty_state(3, 3).2.insert((1, 1), BoardCell::X),
{
    let mut board = Board::new(3, 3);
    let placed = board.put(1, 1, BoardCell::X);
    assert(placed is Ok);
    assert(board.grid() =~= empty_state(3, 3).2.insert((1, 1), BoardCell::X));
    assert(board.cells@[0]@ =~= Seq::<BoardCell>::empty());
    assert(board.cells@[1]@ =~= seq![BoardCell::Empty, BoardCell::X]);
    board
}

/// The first message of play that the server sends a client: an X at
/// column 2, row 1.
pub fn first_play_message() -> (msg: S2CPlayPacket)
    ensures
        msg == (S2CPlayPacket::UpdateCell { x: 2, y: 1, cell_type: cell_id(BoardCell::X) as usize }),
{
    S2CPlayPacket::UpdateCell { x: 2, y: 1, cell_type: BoardCell::X.to_usize() }
}

/// The server's answer to a move: a client that plays out of turn, or not for
/// its own team, is sent back the square as the board has it; a move in turn
/// gets no answer.
pub fn play_response(board: &Board, turn: usize, team: usize, packet: &C2SPlayPacket) -> (reply: Option<S2CPlayPacket>)
    ensures
        reply == match packet {
            C2SPlayPacket::UpdateCell { x, y, cell_type } => if *cell_type != team || turn != team {
                Some(S2CPlayPacket::UpdateCell { x: *x, y: *y, cell_type: cell_id(board.cell_at(*x as int, *y as int)) as usize })
            } else {
                None
            },
            C2SPlayPacket::Unknown { .. } => None,
        },
{
    match packet {
        C2SPlayPacket::UpdateCell { x, y, cell_type } => {
            if *cell_type != team || turn != team {
                let cell = board.get(*x, *y);
                Some(S2CPlayPacket::UpdateCell { x: *x, y: *y, cell_type: cell.to_usize() })
            } else {
                None
            }
        },
        C2SPlayPacket::Unknown { .. } => None,
    }
}

/// The message for the client's own move to `(x, y)`: none when the square is
/// taken, else an X written there.
pub fn plan_move(board: &Board, x: usize, y: usize) -> (msg: Option<C2SPlayPacket>)
    ensures
        msg == if board.cell_at(x as int, y as int) != BoardCell::Empty {
            None
        } else {
            Some(C2SPlayPacket::UpdateCell { x, y, cell_type: cell_id(BoardCell::X) as usize })
        },
{
    if board.occupied(x, y) {
        None
    } else {
        Some(C2SPlayPacket::UpdateCell { x, y, cell_type: BoardCell::X.to_usize() })
    }
}

/// The update messages for row `y`, one per stored square, left to right.
pub open spec fn row_updates(row: Seq<BoardCell>, y: int) -> Seq<S2CLoginPacket> {
    Seq::new(
        row.len(),
        |x: int| S2CLoginPacket::UpdateCell { x: x as usize, y: y as usize, cell_type: cell_id(row[x]) as usize },
    )
}

/// The update messages for the first `n` rows, row by row.
pub open spec fn cell_updates(rows: Seq<Seq<BoardCell>>, n: nat) -> Seq<S2CLoginPacket>
    decreases n,
{
    if n == 0 {
        Seq::empty()
    } else {
        cell_updates(rows, (n - 1) as nat) + row_updates(rows[n - 1], n - 1)
    }
}

/// The rows that `board` stores, as sequences of squares.
pub open spec fn rows_of(board: Board) -> Seq<Seq<BoardCell>> {
    board.cells@.map_values(|row: Vec<BoardCell>| row@)
}

/// The messages that transfer `board` to a client: its size, every stored
/// square, and the end mark.
pub open spec fn sync_packets(board: Board) -> Seq<S2CLoginPacket> {
    seq![S2CLoginPacket::UpdateBoardSize { width: board.width, height: board.height }]
        + cell_updates(rows_of(board), board.cells@.len())
        + seq![S2CLoginPacket::BoardSent {  }]
}

/// The messages that transfer `board` to a client that asked for it.
pub fn board_sync_packets(board: &Board) -> (packets: Vec<S2CLoginPacket>)
    ensures
        packets@ == sync_packets(*board),
{
    let ghost rows = rows_of(*board);
    let mut packets: Vec<S2CLoginPacket> = Vec::new();
    packets.push(S2CLoginPacket::UpdateBoardSize { width: board.width, height: board.height });
    let mut y: usize = 0;
    while y < board.cells.len()
        invariant
            rows == rows_of(*board),
            y <= board.cells@.len(),
            packets@ == seq![S2CLoginPacket::UpdateBoardSize { width: board.width, height: board.height }]
                + cell_updates(rows, y as nat),
        decreases board.cells@.len() - y,
    {
        let row = &board.cells[y];
        let ghost before = packets@;
        let mut x: usize = 0;
        while x < row.len()
            invariant
                rows == rows_of(*board),
                y < board.cells@.len(),
                *row == board.cells@[y as int],
                x <= row@.len(),
                packets@ == before + row_updates(rows[y as int], y as int).take(x as int),
            decreases row@.len() - x,
        {
            let cell_type = row[x].to_usize();
            packets.push(S2CLoginPacket::UpdateCell { x, y, cell_type });
            assert(row_updates(rows[y as int], y as int).take(x + 1) =~= row_updates(rows[y as int], y as int).take(
                x as int,
            ).push(S2CLoginPacket::UpdateCell { x, y, cell_type }));
            x = x + 1;
        }
        assert(row_updates(rows[y as int], y as int).take(x as int) =~= row_updates(rows[y as int], y as int));
        assert(cell_updates(rows, (y + 1) as nat) == cell_updates(rows, y as nat) + row_updates(rows[y as int], y as int));
        y = y + 1;
    }
    packets.push(S2CLoginPacket::BoardSent {  });
    packets
}

/// What a client's board state becomes when it takes in `packets` one by one,
/// stopping at the first refusal or at the end mark.
pub open spec fn replay(s: BoardState, packets: Seq<S2CLoginPacket>) -> Result<(BoardState, LoginProgress), SyncError>
    decreases packets.len(),
{
    if packets.len() == 0 {
        Ok((s, LoginProgress::Continue))
    } else {
        match login_step(s, packets[0]) {
            Err(e) => Err(e),
            Ok((t, LoginProgress::Done)) => Ok((t, LoginProgress::Done)),
            Ok((t, LoginProgress::Continue)) => replay(t, packets.drop_first()),
        }
    }
}

/// `g` with the first `k` squares of row `y` overwritten by `row`.
pub open spec fn row_written(g: Map<(int, int), BoardCell>, row: Seq<BoardCell>, y: int, k: int) -> Map<(int, int), BoardCell> {
    Map::new(
        |p: (int, int)| g.dom().contains(p),
        |p: (int, int)| if p.1 == y && 0 <= p.0 < k { row[p.0] } else { g[p] },
    )
}

/// The squares of the first `n` rows of `rows`, empty elsewhere.
pub open spec fn rows_written(rows: Seq<Seq<BoardCell>>, n: int) -> Map<(int, int), BoardCell> {
    Map::new(
        |p: (int, int)| true,
        |p: (int, int)| if 0 <= p.1 < n && 0 <= p.0 < rows[p.1].len() { rows[p.1][p.0] } else { BoardCell::Empty },
    )
}

/// Taking in `a` and then `b` is taking in `a + b`, when `a` neither ends
/// the transfer nor is refused.
proof fn lemma_replay_append(s: BoardState, a: Seq<S2CLoginPacket>, b: Seq<S2CLoginPacket>)
    requires
        replay(s, a) matches Ok((_, LoginProgress::Continue)),
    ensures
        replay(s, a + b) == replay(replay(s, a)->Ok_0.0, b),
    decreases a.len(),
{
    if a.len() > 0 {
        assert((a + b)[0] == a[0]);
        assert((a + b).drop_first() =~= a.drop_first() + b);
        match login_step(s, a[0]) {
            Ok((t, LoginProgress::Continue)) => lemma_replay_append(t, a.drop_first(), b),
            _ => {},
        }
    } else {
        assert(a + b =~= b);
    }
}

/// Taking in the first `k` updates of a row whose squares lie inside the
/// board writes those squares.
proof fn lemma_replay_row(s: BoardState, row: Seq<BoardCell>, y: int, k: int)
    requires
        0 <= k <= row.len(),
        row.len() > 0 ==> 0 <= y < s.1 && row.len() <= s.0,
        s.2.dom() == Set::<(int, int)>::full(),
    ensures
        replay(s, row_updates(row, y).take(k)) == Ok::<(BoardState, LoginProgress), SyncError>(
            ((s.0, s.1, row_written(s.2, row, y, k)), LoginProgress::Continue),
        ),
    decreases k,
{
    let ups = row_updates(row, y);
    if k == 0 {
        assert(ups.take(0) =~= Seq::<S2CLoginPacket>::empty());
        assert(row_written(s.2, row, y, 0) =~= s.2);
    } else {
        lemma_replay_row(s, row, y, k - 1);
        let mid: BoardState = (s.0, s.1, row_written(s.2, row, y, k - 1));
        let p = ups[k - 1];
        assert(ups.take(k) =~= ups.take(k - 1) + seq![p]);
        lemma_replay_append(s, ups.take(k - 1), seq![p]);
        lemma_cell_id_round_trip(row[k - 1]);
        assert(seq![p].drop_first() =~= Seq::<S2CLoginPacket>::empty());
        assert(seq![p][0] == p);
        let next: BoardState = (s.0, s.1, mid.2.insert((k - 1, y), row[k - 1]));
        assert(cell_step(mid, (k - 1) as usize, y as usize, cell_id(row[k - 1]) as usize) == Ok::<BoardState, SyncError>(next));
        assert(login_step(mid, p) == Ok::<(BoardState, LoginProgress), SyncError>((next, LoginProgress::Continue)));
        assert(replay(next, Seq::<S2CLoginPacket>::empty()) == Ok::<(BoardState, LoginProgress), SyncError>((next, LoginProgress::Continue)));
        assert(replay(mid, seq![p]) == Ok::<(BoardState, LoginProgress), SyncError>((next, LoginProgress::Continue)));
        assert(mid.2.insert((k - 1, y), row[k - 1]) =~= row_written(s.2, row, y, k));
    }
}

/// Taking in the updates of the first `n` rows writes those rows.
proof fn lemma_replay_rows(width: usize, height: usize, rows: Seq<Seq<BoardCell>>, n: int)
    requires
        0 <= n <= rows.len(),
        forall|j: int| 0 <= j < rows.len() && (#[trigger] rows[j]).len() > 0 ==> j < height && rows[j].len() <= width,
    ensures
        replay(empty_state(width, height), cell_updates(rows, n as nat)) == Ok::<(BoardState, LoginProgress), SyncError>(
            ((width, height, rows_written(rows, n)), LoginProgress::Continue),
        ),
    decreases n,
{
    if n == 0 {
        assert(rows_written(rows, 0) =~= empty_state(width, height).2);
    } else {
        lemma_replay_rows(width, height, rows, n - 1);
        let mid: BoardState = (width, height, rows_written(rows, n - 1));
        let row = rows[n - 1];
        lemma_replay_append(empty_state(width, height), cell_updates(rows, (n - 1) as nat), row_updates(row, n - 1));
        assert(mid.2.dom() =~= Set::<(int, int)>::full());
        lemma_replay_row(mid, row, n - 1, row.len() as int);
        assert(row_updates(row, n - 1).take(row.len() as int) =~= row_updates(row, n - 1));
        assert(row_written(mid.2, row, n - 1, row.len() as int) =~= rows_written(rows, n));
    }
}

/// A board that the server sends to a client arrives whole: a client that
/// starts from a fresh board and takes in the transfer messages one by one
/// ends the transfer with the server's width, height and squares, provided
/// every square the server stores lies inside its board.
pub proof fn lemma_board_transfer(board: Board, width: usize, height: usize)
    requires
        board.stored_in_bounds(),
    ensures
        replay(empty_state(width, height), sync_packets(board)) == Ok::<(BoardState, LoginProgress), SyncError>(
            (state_of(board), LoginProgress::Done),
        ),
{
    let rows = rows_of(board);
    let n = board.cells@.len();
    let size = S2CLoginPacket::UpdateBoardSize { width: board.width, height: board.height };
    let sent = S2CLoginPacket::BoardSent {  };
    let start = empty_state(board.width, board.height);
    let updates = cell_updates(rows, n);
    assert forall|j: int| 0 <= j < rows.len() && (#[trigger] rows[j]).len() > 0 implies j < board.height
        && rows[j].len() <= board.width by {
        assert(rows[j] == board.cells@[j]@);
        assert(board.in_bounds(0, j));
        assert(board.in_bounds(rows[j].len() - 1, j));
    }
    lemma_replay_rows(board.width, board.height, rows, n as int);
    assert(seq![size].drop_first() =~= Seq::<S2CLoginPacket>::empty());
    assert(seq![size][0] == size);
    assert(login_step(empty_state(width, height), size) == Ok::<(BoardState, LoginProgress), SyncError>(
        (start, LoginProgress::Continue),
    ));
    assert(replay(start, Seq::<S2CLoginPacket>::empty()) == Ok::<(BoardState, LoginProgress), SyncError>(
        (start, LoginProgress::Continue),
    ));
    assert(replay(empty_state(width, height), seq![size]) == Ok::<(BoardState, LoginProgress), SyncError>(
        (start, LoginProgress::Continue),
    ));
    assert(sync_packets(board) =~= seq![size] + (updates + seq![sent]));
    lemma_replay_append(empty_state(width, height), seq![size], updates + seq![sent]);
    lemma_replay_append(start, updates, seq![sent]);
    assert(rows_written(rows, n as int) =~= board.grid());
}

} // verus!
