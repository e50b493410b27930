//! The turn engine: whose turn it is, and how a turn ends the game or
//! passes it on.
use vstd::prelude::*;
use crate::board::{Board, MoveError, Player, Point};
use crate::input::{Command, command_of, parse_command};
use crate::win::wins;

verus! {

/// Where the game stands.
#[derive(Clone, Copy, Debug, PartialEq, Eq, Structural)]
pub enum Status {
    AwaitingMove(Player),
    Won(Player),
    Tied,
    Quit,
}

/// The status once `p`'s piece has landed at `at`, leaving the board `m`.
pub open spec fn status_after_move(m: Map<(int, int), Player>, p: Player, at: (int, int)) -> Status {
    if wins(m, p, at) {
        Status::Won(p)
    } else {
        Status::AwaitingMove(p.spec_other())
    }
}

/// A game: the board and where the game stands.
pub struct Game {
    board: Board,
    status: Status,
}

impl Game {
    pub closed spec fn spec_board(self) -> Board {
        self.board
    }

    pub closed spec fn spec_status(self) -> Status {
        self.status
    }

    pub open spec fn wf(self) -> bool {
        self.spec_board().wf()
    }

    /// Whether carrying out `command` in the state `self` yields the state
    /// `after` with the result `r`.
    pub open spec fn applies(
        self,
        command: Command,
        after: Game,
        r: Result<Option<Point>, MoveError>,
    ) -> bool {
        let b = self.spec_board();
        let p = self.spec_status()->AwaitingMove_0;
        match command {
            Command::Quit => {
                &&& r == Ok::<Option<Point>, MoveError>(None)
                &&& after.spec_board() == b
                &&& after.spec_status() == Status::Quit
            },
            Command::Column(c) => {
                let h = b.height(c as int);
                if h == 6 {
                    &&& r == Err::<Option<Point>, MoveError>(MoveError::ColumnFull)
                    &&& after == self
                } else {
                    let at = Point { column: c, row: (6 - h) as u16 };
                    &&& r == Ok::<Option<Point>, MoveError>(Some(at))
                    &&& after.spec_board()@ == b@.insert(at@, p)
                    &&& after.spec_board().count() == b.count() + 1
                    &&& after.spec_status() == status_after_move(after.spec_board()@, p, at@)
                }
            },
        }
    }

    /// A new game: an empty board, player one to move.
    pub fn new() -> (r: Game)
        ensures
            r.wf(),
            r.spec_board()@ == Map::<(int, int), Player>::empty(),
            r.spec_board().count() == 0,
            r.spec_status() == Status::AwaitingMove(Player::One),
    {
        Game { board: Board::new(), status: Status::AwaitingMove(Player::One) }
    }

    pub fn board(&self) -> (r: &Board)
        ensures
            *r == self.spec_board(),
    {
        &self.board
    }

    pub fn status(&self) -> (r: Status)
        ensures
            r == self.spec_status(),
    {
        self.status
    }

    /// The check at the top of a turn: a full board leaves no move, so the
    /// game is tied.
    pub fn begin_turn(&mut self)
        requires
            old(self).wf(),
        ensures
            final(self).wf(),
            final(self).spec_board() == old(self).spec_board(),
            final(self).spec_status() == if old(self).spec_status() is AwaitingMove && old(
                self,
            ).spec_board().count() == 42 {
                Status::Tied
            } else {
                old(self).spec_status()
            },
    {
        if let Status::AwaitingMove(_) = self.status {
            if self.board.is_full() {
                self.status = Status::Tied;
            }
        }
    }

    /// Carries out the current player's `command`: quits, or drops a piece
    /// and decides whether it wins. A full column changes nothing.
    pub fn apply(&mut self, command: Command) -> (r: Result<Option<Point>, MoveError>)
        requires
            old(self).wf(),
            old(self).spec_status() is AwaitingMove,
            command matches Command::Column(c) ==> 1 <= c <= 7,
        ensures
            final(self).wf(),
            old(self).applies(command, *final(self), r),
    {
        let player = match self.status {
            Status::AwaitingMove(p) => p,
            _ => Player::One,
        };
        match command {
            Command::Quit => {
                self.status = Status::Quit;
                Ok(None)
            },
            Command::Column(c) => {
                match self.board.place(c, player) {
                    Err(e) => Err(e),
                    Ok(at) => {
                        if self.board.is_winning_move(player, at) {
                            self.status = Status::Won(player);
                        } else {
                            self.status = Status::AwaitingMove(player.other());
                        }
                        Ok(Some(at))
                    },
                }
            },
        }
    }

    /// Reads the current player's typed `line` and carries it out; text that
    /// is no command changes nothing.
    pub fn play(&mut self, line: &str) -> (r: Result<Option<Point>, MoveError>)
        requires
            old(self).wf(),
            old(self).spec_status() is AwaitingMove,
        ensures
            final(self).wf(),
            match command_of(line@) {
                Err(e) => r == Err::<Option<Point>, MoveError>(e) && *final(self) == *old(self),
                Ok(command) => old(self).applies(command, *final(self), r),
            },
    {
        match parse_command(line) {
            Err(e) => Err(e),
            Ok(command) => self.apply(command),
        }
    }
}

} // verus!
