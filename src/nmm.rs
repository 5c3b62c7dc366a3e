use vstd::prelude::*;
use crate::rules::{lemma_act_wf, lemma_initial_wf, lemma_revert_wf, GameModel, Position, State};

verus! {

/// The two sides of the game. White moves first.
#[derive(Clone, Copy, PartialEq, Eq, Debug, Structural)]
pub enum Color {
    Black,
    White,
}

impl Color {
    pub open spec fn opp(self) -> Color {
        match self {
            Color::Black => Color::White,
            Color::White => Color::Black,
        }
    }

    /// The other side.
    pub fn opposite(self) -> (r: Color)
        ensures
            r == self.opp(),
            r != self,
    {
        match self {
            Color::Black => Color::White,
            Color::White => Color::Black,
        }
    }
}

pub type Player = Color;

pub type Piece = Color;

/// A point of the board, numbered 0 to 23 (see `board`).
pub type Point = usize;

/// What an action does.
#[derive(Clone, Copy, PartialEq, Eq, Debug, Structural)]
pub enum ActionKind {
    Place(Point),
    Move(Point, Point),
    Remove(Point),
}

/// An action of one player.
#[derive(Clone, Copy, PartialEq, Eq, Debug, Structural)]
pub struct Action {
    pub player: Player,
    pub action: ActionKind,
}

/// Why an action or an undo was refused.
#[derive(Clone, Copy, PartialEq, Eq, Debug, Structural)]
pub enum ErrorKind {
    OutOfBounds,
    WrongPlayer,
    IllegalPlace,
    IllegalMove,
    IllegalRemove,
    ProtectedByMill,
    GameOver,
    NothingToUndo,
}

/// Stage of the game.
#[derive(Clone, Copy, PartialEq, Eq, Debug, Structural)]
pub enum Phase {
    /// Pieces are still being put on the board.
    Placing,
    /// All pieces have been placed; pieces move.
    Moving,
    /// The given player has just closed a mill and must remove a piece.
    AwaitingRemoval(Color),
    /// The given player has won.
    GameOver(Color),
}

/// The operations of a Nine Men's Morris engine.
pub trait NmmGame: Sized {
    /// Creates a new instance with an empty board.
    fn new() -> Self;

    /// Applies the given action.
    fn action(&mut self, action: Action) -> Result<(), ErrorKind>;

    /// Undoes the last action; fails if there is none.
    fn undo(&mut self) -> Result<(), ErrorKind>;

    /// All points of the board.
    fn points(&self) -> &[Option<Piece>; 24];

    /// The winner, once there is one: a side wins when the other has lost
    /// seven pieces, or cannot move.
    fn winner(&self) -> Option<Player>;
}

/// A game: the current position and one earlier position per accepted
/// action, for undo.
pub struct Game {
    state: State,
    history: Vec<State>,
}

impl View for Game {
    type V = GameModel;

    closed spec fn view(&self) -> GameModel {
        GameModel { current: self.state@, history: self.history@.map_values(|s: State| s@) }
    }
}

impl Game {
    #[verifier::type_invariant]
    spec fn inv(self) -> bool {
        self@.wf()
    }

    /// A new game: empty board, White to place, no history.
    pub fn new() -> (r: Game)
        ensures
            r@ == GameModel::initial(),
    {
        proof {
            lemma_initial_wf();
        }
        let r = Game { state: State::new(), history: Vec::new() };
        assert(r@.history =~= Seq::<Position>::empty());
        r
    }

    /// Applies `action` if the rules allow it; otherwise reports why and
    /// changes nothing.
    pub fn action(&mut self, action: Action) -> (r: Result<(), ErrorKind>)
        ensures
            match old(self)@.act(action) {
                Ok(g) => r is Ok && final(self)@ == g,
                Err(e) => r == Err::<(), ErrorKind>(e) && final(self)@ == old(self)@,
            },
    {
        proof {
            use_type_invariant(&*self);
            if self@.act(action) is Ok {
                lemma_act_wf(self@, action);
            }
        }
        match self.state.apply(action) {
            Ok(next) => {
                let ghost before = self@;
                let mut history = Vec::new();
                std::mem::swap(&mut history, &mut self.history);
                history.push(self.state);
                assert(history@.map_values(|s: State| s@) =~= before.history.push(before.current));
                self.history = history;
                self.state = next;
                Ok(())
            },
            Err(e) => Err(e),
        }
    }

    /// Restores the position before the last accepted action; fails with
    /// `NothingToUndo` when there is none.
    pub fn undo(&mut self) -> (r: Result<(), ErrorKind>)
        ensures
            match old(self)@.revert() {
                Ok(g) => r is Ok && final(self)@ == g,
                Err(e) => r == Err::<(), ErrorKind>(e) && final(self)@ == old(self)@,
            },
    {
        proof {
            use_type_invariant(&*self);
            if self@.revert() is Ok {
                lemma_revert_wf(self@);
            }
        }
        let ghost before = self@;
        let mut history = Vec::new();
        std::mem::swap(&mut history, &mut self.history);
        match history.pop() {
            Some(prev) => {
                assert(history@.map_values(|s: State| s@) =~= before.history.drop_last());
                self.state = prev;
                self.history = history;
                Ok(())
            },
            None => {
                self.history = history;
                assert(self@.history =~= before.history);
                Err(ErrorKind::NothingToUndo)
            },
        }
    }

    /// The content of each point.
    pub fn points(&self) -> (r: &[Option<Piece>; 24])
        ensures
            r@ == self@.current.board,
    {
        &self.state.board
    }

    /// The winner, once the game is over.
    pub fn winner(&self) -> (r: Option<Player>)
        ensures
            r == self@.winner(),
    {
        match self.state.phase {
            Phase::GameOver(c) => Some(c),
            _ => None,
        }
    }

    /// The current phase.
    pub fn phase(&self) -> (r: Phase)
        ensures
            r == self@.current.phase,
    {
        self.state.phase
    }

    /// The side whose turn it is.
    pub fn turn(&self) -> (r: Color)
        ensures
            r == self@.current.turn,
    {
        self.state.turn
    }
}

impl NmmGame for Game {
    fn new() -> Self {
        Game::new()
    }

    fn action(&mut self, action: Action) -> Result<(), ErrorKind> {
        Game::action(self, action)
    }

    fn undo(&mut self) -> Result<(), ErrorKind> {
        Game::undo(self)
    }

    fn points(&self) -> &[Option<Piece>; 24] {
        Game::points(self)
    }

    fn winner(&self) -> Option<Player> {
        Game::winner(self)
    }
}

} // verus!
