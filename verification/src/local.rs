use vstd::prelude::*;
use crate::text::{trim, parse_i32, parsed_i32, trimmed};

verus! {

/// How many spots the local board keeps; the last one is never playable.
pub const SPOT_COUNT: usize = 10;

/// The text of a spot that nobody has taken.
pub open spec fn blank() -> Seq<char> {
    seq![' ']
}

/// The board of the local two-player game: a row of labelled spots, of which
/// the first nine form the three-by-three grid.
pub struct Board {
    spots: Vec<String>,
}

/// A player, known by the mark it writes into the spots it takes.
pub struct Player {
    pub id: String,
}

/// The verdict on a chosen spot index.
#[derive(Debug, Clone, Copy, PartialEq, Eq, Structural)]
pub enum SpotCheck {
    Valid,
    InvalidSpot,
    SpotTaken,
}

/// What became of a player's turn.
#[derive(Debug, Clone, Copy, PartialEq, Eq, Structural)]
pub enum TurnOutcome {
    /// The input was not a number.
    BadNumber,
    /// The number names no playable spot.
    InvalidSpot,
    /// The spot is already taken.
    SpotTaken,
    /// The player's mark now stands in the spot.
    Placed,
}

impl View for Board {
    type V = Seq<Seq<char>>;

    closed spec fn view(&self) -> Seq<Seq<char>> {
        self.spots@.map_values(|s: String| s@)
    }
}

impl Board {
    #[verifier::type_invariant]
    spec fn well_formed(self) -> bool {
        self.spots@.len() == SPOT_COUNT
    }

    /// A board on which every spot is blank.
    pub fn new() -> (board: Board)
        ensures
            board@ == Seq::new(SPOT_COUNT as nat, |i: int| blank()),
    {
        let mut spots: Vec<String> = Vec::new();
        let mut i: usize = 0;
        while i < SPOT_COUNT
            invariant
                i <= SPOT_COUNT,
                spots@.len() == i,
                forall|j: int| 0 <= j < i ==> (#[trigger] spots@[j])@ == blank(),
            decreases SPOT_COUNT - i,
        {
            let s = String::from_str(" ");
            proof {
                reveal_strlit(" ");
            }
            spots.push(s);
            i = i + 1;
        }
        let board = Board { spots };
        assert(board@ =~= Seq::new(SPOT_COUNT as nat, |i: int| blank()));
        board
    }

    /// Whether `spot` does not name a blank spot of the board.
    pub fn spot_taken(&self, spot: i32) -> (taken: bool)
        ensures
            self@.len() == SPOT_COUNT,
            taken == !(0 <= spot < SPOT_COUNT && self@[spot as int] == blank()),
    {
        proof {
            use_type_invariant(self);
        }
        if spot < 0 {
            return true;
        }
        let i = spot as usize;
        if i >= self.spots.len() {
            return true;
        }
        let blank_spot = String::from_str(" ");
        proof {
            reveal_strlit(" ");
            assert(self@[spot as int] == self.spots@[i as int]@);
            assert(blank_spot@ == blank());
        }
        !(self.spots[i] == blank_spot)
    }

    /// Whether `spot` names one of the playable spots, which are all but the last.
    pub fn valid_spot(&self, spot: i32) -> (valid: bool)
        ensures
            self@.len() == SPOT_COUNT,
            valid == (0 <= spot < SPOT_COUNT - 1),
    {
        proof {
            use_type_invariant(self);
        }
        spot >= 0 && spot < (self.spots.len() - 1) as i32
    }

    /// The lines that picture the three-by-three grid, top to bottom.
    pub fn draw(&self) -> (lines: Vec<String>)
        ensures
            lines@.len() == 7,
            lines@[0]@ == rule_line(),
            lines@[1]@ == row_line(self@[0], self@[1], self@[2]),
            lines@[2]@ == rule_line(),
            lines@[3]@ == row_line(self@[3], self@[4], self@[5]),
            lines@[4]@ == rule_line(),
            lines@[5]@ == row_line(self@[6], self@[7], self@[8]),
            lines@[6]@ == rule_line(),
            lines@[1]@ == seq!['|'] + self@[0] + seq!['|'] + self@[1] + seq!['|'] + self@[2] + seq!['|'],
            lines@[3]@ == seq!['|'] + self@[3] + seq!['|'] + self@[4] + seq!['|'] + self@[5] + seq!['|'],
            lines@[5]@ == seq!['|'] + self@[6] + seq!['|'] + self@[7] + seq!['|'] + self@[8] + seq!['|'],
    {
        proof {
            use_type_invariant(self);
            lemma_row_line(self@[0], self@[1], self@[2]);
            lemma_row_line(self@[3], self@[4], self@[5]);
            lemma_row_line(self@[6], self@[7], self@[8]);
        }
        let mut lines: Vec<String> = Vec::new();
        lines.push(rule());
        lines.push(self.row(0));
        lines.push(rule());
        lines.push(self.row(3));
        lines.push(rule());
        lines.push(self.row(6));
        lines.push(rule());
        lines
    }

    /// The line that shows the three spots from `first` on.
    fn row(&self, first: usize) -> (line: String)
        requires
            first + 3 <= self@.len(),
        ensures
            line@ == row_line(self@[first as int], self@[first + 1], self@[first + 2]),
    {
        proof {
            use_type_invariant(self);
            reveal_strlit("|");
            assert(self@[first as int] == self.spots@[first as int]@);
            assert(self@[first + 1] == self.spots@[first + 1]@);
            assert(self@[first + 2] == self.spots@[first + 2]@);
        }
        let mut line = String::from_str("|");
        line.append(self.spots[first].as_str());
        line.append("|");
        line.append(self.spots[first + 1].as_str());
        line.append("|");
        line.append(self.spots[first + 2].as_str());
        line.append("|");
        line
    }
}

/// The line that separates the rows of the grid.
pub open spec fn rule_line() -> Seq<char> {
    Seq::new(7, |i: int| '-')
}

/// The line that shows three spots between bars.
pub open spec fn row_line(a: Seq<char>, b: Seq<char>, c: Seq<char>) -> Seq<char> {
    seq!['|'] + a + seq!['|'] + b + seq!['|'] + c + seq!['|']
}

/// A row of the grid shows its three spots between bars, each spot's text at
/// its own place: the first spot right after the opening bar, the second after
/// the next bar, the third after the one after that.
pub proof fn lemma_row_line(a: Seq<char>, b: Seq<char>, c: Seq<char>)
    ensures
        row_line(a, b, c) == seq!['|'] + a + seq!['|'] + b + seq!['|'] + c + seq!['|'],
        row_line(a, b, c).len() == a.len() + b.len() as int + c.len() as int + 4 as nat,
        row_line(a, b, c).subrange(1, 1 + a.len() as int) == a,
        row_line(a, b, c).subrange(2 + a.len() as int, 2 + a.len() as int + b.len() as int) == b,
        row_line(a, b, c).subrange(3 + a.len() as int + b.len() as int, 3 + a.len() as int + b.len() as int + c.len() as int) == c,
        row_line(a, b, c)[0] == '|',
        row_line(a, b, c)[1 + a.len() as int] == '|',
        row_line(a, b, c)[2 + a.len() as int + b.len() as int] == '|',
        row_line(a, b, c)[3 + a.len() as int + b.len() as int + c.len() as int] == '|',
{
    let l = seq!['|'] + a + seq!['|'] + b + seq!['|'] + c + seq!['|'];
    assert(row_line(a, b, c) =~= l);
    assert(l.subrange(1, 1 + a.len() as int) =~= a);
    assert(l.subrange(2 + a.len() as int, 2 + a.len() as int + b.len() as int) =~= b);
    assert(l.subrange(3 + a.len() as int + b.len() as int, 3 + a.len() as int + b.len() as int + c.len() as int) =~= c);
}

/// The line between rows is seven dashes.
pub proof fn lemma_rule_line()
    ensures
        rule_line() == seq!['-', '-', '-', '-', '-', '-', '-'],
{
    assert(rule_line() =~= seq!['-', '-', '-', '-', '-', '-', '-']);
}

fn rule() -> (line: String)
    ensures
        line@ == rule_line(),
{
    let line = String::from_str("-------");
    proof {
        reveal_strlit("-------");
        assert(line@ =~= rule_line());
    }
    line
}

/// Judges the spot index `spot`: it must name a playable spot, and that spot
/// must be blank.
pub fn is_valid_turn(board: &Board, spot: i32) -> (check: SpotCheck)
    ensures
        board@.len() == SPOT_COUNT,
        check == if !(0 <= spot < SPOT_COUNT - 1) {
            SpotCheck::InvalidSpot
        } else if board@[spot as int] != blank() {
            SpotCheck::SpotTaken
        } else {
            SpotCheck::Valid
        },
{
    if !board.valid_spot(spot) {
        return SpotCheck::InvalidSpot;
    }
    if board.spot_taken(spot) {
        return SpotCheck::SpotTaken;
    }
    SpotCheck::Valid
}

/// Plays the turn of the player marked `id` on the typed line `input`: the
/// line, trimmed, must be the number of a spot counted from one; a valid,
/// blank spot then takes the player's mark.
pub fn main_player_turn(id: &str, board: &mut Board, input: &str) -> (outcome: TurnOutcome)
    ensures
        old(board)@.len() == SPOT_COUNT,
        match parsed_i32(trimmed(input@)) {
            None => outcome == TurnOutcome::BadNumber && final(board)@ == old(board)@,
            Some(n) => if !(1 <= n <= SPOT_COUNT - 1) {
                outcome == TurnOutcome::InvalidSpot && final(board)@ == old(board)@
            } else if old(board)@[n - 1] != blank() {
                outcome == TurnOutcome::SpotTaken && final(board)@ == old(board)@
            } else {
                outcome == TurnOutcome::Placed && final(board)@ == old(board)@.update(n - 1, id@)
            },
        },
{
    proof {
        use_type_invariant(&*board);
    }
    let number = parse_i32(trim(input));
    match number {
        None => TurnOutcome::BadNumber,
        Some(n) => {
            if n < 1 {
                return TurnOutcome::InvalidSpot;
            }
            let spot = n - 1;
            match is_valid_turn(board, spot) {
                SpotCheck::InvalidSpot => TurnOutcome::InvalidSpot,
                SpotCheck::SpotTaken => TurnOutcome::SpotTaken,
                SpotCheck::Valid => {
                    board.set_spot(spot as usize, id);
                    TurnOutcome::Placed
                },
            }
        },
    }
}

impl Board {
    /// Writes `id` into spot `i`.
    fn set_spot(&mut self, i: usize, id: &str)
        requires
            i < old(self)@.len(),
        ensures
            final(self)@ == old(self)@.update(i as int, id@),
    {
        proof {
            use_type_invariant(&*self);
        }
        let mark = String::from_str(id);
        self.spots[i] = mark;
        assert(self@ =~= old(self)@.update(i as int, id@));
    }
}

impl Player {
    pub fn new(id: &str) -> (player: Player)
        ensures
            player.id@ == id@,
    {
        Player { id: String::from_str(id) }
    }
}

} // verus!
