use vstd::prelude::*;
use crate::board::{
    adjacent, can_move, count, forms_mill, has_free_piece, has_legal_move, has_piece_outside_mills,
    in_mill, is_adjacent, is_in_mill, is_mill_formed, lemma_count_empty, lemma_count_positive,
    lemma_count_update,
};
use crate::nmm::{Action, ActionKind, Color, ErrorKind, Phase};

verus! {

/// Pieces each side brings into the game.
pub const PIECES: u8 = 9;

/// The state of a game, as a mathematical value.
pub struct Position {
    pub board: Seq<Option<Color>>,
    pub turn: Color,
    pub phase: Phase,
    pub placed_white: nat,
    pub placed_black: nat,
    pub on_board_white: nat,
    pub on_board_black: nat,
}

/// The phase that follows from how many pieces have been placed.
pub open spec fn phase_for(placed_white: nat, placed_black: nat) -> Phase {
    if placed_white + placed_black == 18 {
        Phase::Moving
    } else {
        Phase::Placing
    }
}

impl Position {
    pub open spec fn placed(self, c: Color) -> nat {
        match c {
            Color::White => self.placed_white,
            Color::Black => self.placed_black,
        }
    }

    pub open spec fn on_board(self, c: Color) -> nat {
        match c {
            Color::White => self.on_board_white,
            Color::Black => self.on_board_black,
        }
    }

    /// The player whose action is expected: the one owing a removal, else
    /// the one whose turn it is.
    pub open spec fn mover(self) -> Color {
        match self.phase {
            Phase::AwaitingRemoval(c) => c,
            _ => self.turn,
        }
    }

    /// Empty board, White to place.
    pub open spec fn initial() -> Position {
        Position {
            board: Seq::new(24, |i: int| None),
            turn: Color::White,
            phase: Phase::Placing,
            placed_white: 0,
            placed_black: 0,
            on_board_white: 0,
            on_board_black: 0,
        }
    }

    pub open spec fn winner(self) -> Option<Color> {
        match self.phase {
            Phase::GameOver(c) => Some(c),
            _ => None,
        }
    }

    /// The invariant of every reachable position.
    pub open spec fn wf(self) -> bool {
        &&& self.wf_counts()
        &&& (!(self.phase is GameOver) ==> {
            &&& self.on_board_white + 9 >= self.placed_white + 3
            &&& self.on_board_black + 9 >= self.placed_black + 3
        })
    }

    /// The invariant, but for the rule that a game goes on only while each
    /// side has three pieces or more, on the board or still to place.
    pub open spec fn wf_counts(self) -> bool {
        &&& self.board.len() == 24
        &&& self.placed_white <= 9
        &&& self.placed_black <= 9
        &&& self.on_board_white == count(self.board, Color::White)
        &&& self.on_board_black == count(self.board, Color::Black)
        &&& self.on_board_white <= self.placed_white
        &&& self.on_board_black <= self.placed_black
        &&& (self.phase is Placing ==> self.placed_white + self.placed_black < 18)
        &&& (self.phase is Moving ==> self.placed_white == 9 && self.placed_black == 9)
        &&& (self.phase is AwaitingRemoval ==> self.turn == self.phase->AwaitingRemoval_0)
    }

    /// The end-of-turn evaluation: a side left with two pieces or fewer loses;
    /// in the moving phase, so does a side to move that cannot move.
    pub open spec fn settle(self) -> Position {
        if self.on_board_white + 9 <= self.placed_white + 2 {
            Position { phase: Phase::GameOver(Color::Black), ..self }
        } else if self.on_board_black + 9 <= self.placed_black + 2 {
            Position { phase: Phase::GameOver(Color::White), ..self }
        } else if self.phase is Moving && !has_legal_move(
            self.board,
            self.turn,
            self.on_board(self.turn) == 3,
        ) {
            Position { phase: Phase::GameOver(self.turn.opp()), ..self }
        } else {
            self
        }
    }

    /// After `c` has put a piece on the board and changed it to `b`: a new
    /// mill makes `c` remove a piece, else the turn passes.
    pub open spec fn after_change(self, b: Seq<Option<Color>>, c: Color) -> Position {
        if forms_mill(self.board, b, c) {
            Position { board: b, phase: Phase::AwaitingRemoval(c), ..self }
        } else {
            Position {
                board: b,
                turn: c.opp(),
                phase: phase_for(self.placed_white, self.placed_black),
                ..self
            }.settle()
        }
    }

    pub open spec fn after_place(self, c: Color, p: int) -> Position {
        let counted = match c {
            Color::White => Position {
                placed_white: self.placed_white + 1,
                on_board_white: self.on_board_white + 1,
                ..self
            },
            Color::Black => Position {
                placed_black: self.placed_black + 1,
                on_board_black: self.on_board_black + 1,
                ..self
            },
        };
        counted.after_change(self.board.update(p, Some(c)), c)
    }

    pub open spec fn after_move(self, c: Color, from: int, to: int) -> Position {
        self.after_change(self.board.update(from, None).update(to, Some(c)), c)
    }

    pub open spec fn after_remove(self, c: Color, p: int) -> Position {
        let taken = match c {
            Color::White => Position { on_board_black: (self.on_board_black - 1) as nat, ..self },
            Color::Black => Position { on_board_white: (self.on_board_white - 1) as nat, ..self },
        };
        Position {
            board: self.board.update(p, None),
            turn: c.opp(),
            phase: phase_for(self.placed_white, self.placed_black),
            ..taken
        }.settle()
    }

    /// The result of action `a` on this position: the next position, or the
    /// reason it is refused.
    pub open spec fn step(self, a: Action) -> Result<Position, ErrorKind> {
        let c = a.player;
        if self.phase is GameOver {
            Err(ErrorKind::GameOver)
        } else if c != self.mover() {
            Err(ErrorKind::WrongPlayer)
        } else {
            match a.action {
                ActionKind::Place(p) => {
                    if p >= 24 {
                        Err(ErrorKind::OutOfBounds)
                    } else if !(self.phase is Placing) || self.placed(c) >= 9
                        || self.board[p as int] is Some {
                        Err(ErrorKind::IllegalPlace)
                    } else {
                        Ok(self.after_place(c, p as int))
                    }
                },
                ActionKind::Move(from, to) => {
                    if from >= 24 || to >= 24 {
                        Err(ErrorKind::OutOfBounds)
                    } else if !(self.phase is Moving) || self.board[from as int] != Some(c)
                        || self.board[to as int] is Some || !(self.on_board(c) == 3 || adjacent(
                        from as int,
                        to as int,
                    )) {
                        Err(ErrorKind::IllegalMove)
                    } else {
                        Ok(self.after_move(c, from as int, to as int))
                    }
                },
                ActionKind::Remove(p) => {
                    if p >= 24 {
                        Err(ErrorKind::OutOfBounds)
                    } else if !(self.phase is AwaitingRemoval) || self.board[p as int] != Some(
                        c.opp(),
                    ) {
                        Err(ErrorKind::IllegalRemove)
                    } else if in_mill(self.board, p as int) && has_free_piece(self.board, c.opp()) {
                        Err(ErrorKind::ProtectedByMill)
                    } else {
                        Ok(self.after_remove(c, p as int))
                    }
                },
            }
        }
    }
}

/// One position of a game, as the engine holds it.
#[derive(Clone, Copy)]
pub struct State {
    pub board: [Option<Color>; 24],
    pub turn: Color,
    pub phase: Phase,
    pub placed_white: u8,
    pub placed_black: u8,
    pub on_board_white: u8,
    pub on_board_black: u8,
}

impl View for State {
    type V = Position;

    open spec fn view(&self) -> Position {
        Position {
            board: self.board@,
            turn: self.turn,
            phase: self.phase,
            placed_white: self.placed_white as nat,
            placed_black: self.placed_black as nat,
            on_board_white: self.on_board_white as nat,
            on_board_black: self.on_board_black as nat,
        }
    }
}

fn next_phase(placed_white: u8, placed_black: u8) -> (r: Phase)
    requires
        placed_white <= 9,
        placed_black <= 9,
    ensures
        r == phase_for(placed_white as nat, placed_black as nat),
{
    if placed_white + placed_black == 18 {
        Phase::Moving
    } else {
        Phase::Placing
    }
}

impl State {
    /// Empty board, White to place.
    pub fn new() -> (r: State)
        ensures
            r@ == Position::initial(),
    {
        let r = State {
            board: [None; 24],
            turn: Color::White,
            phase: Phase::Placing,
            placed_white: 0,
            placed_black: 0,
            on_board_white: 0,
            on_board_black: 0,
        };
        assert(r@.board =~= Position::initial().board);
        r
    }

    pub fn placed_of(&self, c: Color) -> (r: u8)
        ensures
            r == self@.placed(c),
    {
        match c {
            Color::White => self.placed_white,
            Color::Black => self.placed_black,
        }
    }

    pub fn on_board_of(&self, c: Color) -> (r: u8)
        ensures
            r == self@.on_board(c),
    {
        match c {
            Color::White => self.on_board_white,
            Color::Black => self.on_board_black,
        }
    }

    fn settled(self) -> (r: State)
        ensures
            r@ == self@.settle(),
    {
        if self.on_board_white as u64 + 9 <= self.placed_white as u64 + 2 {
            State { phase: Phase::GameOver(Color::Black), ..self }
        } else if self.on_board_black as u64 + 9 <= self.placed_black as u64 + 2 {
            State { phase: Phase::GameOver(Color::White), ..self }
        } else if matches!(self.phase, Phase::Moving) && !can_move(
            &self.board,
            self.turn,
            self.on_board_of(self.turn) == 3,
        ) {
            State { phase: Phase::GameOver(self.turn.opposite()), ..self }
        } else {
            self
        }
    }

    /// `self` with board `b`, the mover `c` having just put a piece on it.
    fn after_change(self, b: [Option<Color>; 24], c: Color) -> (r: State)
        requires
            self.placed_white <= 9,
            self.placed_black <= 9,
        ensures
            r@ == self@.after_change(b@, c),
    {
        if is_mill_formed(&self.board, &b, c) {
            State { board: b, phase: Phase::AwaitingRemoval(c), ..self }
        } else {
            let phase = next_phase(self.placed_white, self.placed_black);
            State { board: b, turn: c.opposite(), phase, ..self }.settled()
        }
    }

    /// Applies `a`, or tells why it is refused; `self` is left as it is.
    pub fn apply(&self, a: Action) -> (r: Result<State, ErrorKind>)
        requires
            self@.wf(),
        ensures
            match self@.step(a) {
                Ok(p) => r is Ok && r->Ok_0@ == p,
                Err(e) => r == Err::<State, ErrorKind>(e),
            },
    {
        let c = a.player;
        let mover = match self.phase {
            Phase::GameOver(_) => return Err(ErrorKind::GameOver),
            Phase::AwaitingRemoval(m) => m,
            _ => self.turn,
        };
        if c != mover {
            return Err(ErrorKind::WrongPlayer);
        }
        match a.action {
            ActionKind::Place(p) => {
                if p >= 24 {
                    return Err(ErrorKind::OutOfBounds);
                }
                if !matches!(self.phase, Phase::Placing) || self.placed_of(c) >= PIECES
                    || self.board[p].is_some() {
                    return Err(ErrorKind::IllegalPlace);
                }
                let mut b = self.board;
                b[p] = Some(c);
                let counted = match c {
                    Color::White => State {
                        placed_white: self.placed_white + 1,
                        on_board_white: self.on_board_white + 1,
                        ..*self
                    },
                    Color::Black => State {
                        placed_black: self.placed_black + 1,
                        on_board_black: self.on_board_black + 1,
                        ..*self
                    },
                };
                Ok(counted.after_change(b, c))
            },
            ActionKind::Move(from, to) => {
                if from >= 24 || to >= 24 {
                    return Err(ErrorKind::OutOfBounds);
                }
                let owned = match self.board[from] {
                    Some(d) => d == c,
                    None => false,
                };
                if !matches!(self.phase, Phase::Moving) || !owned || self.board[to].is_some() || !(
                self.on_board_of(c) == 3 || is_adjacent(from, to)) {
                    return Err(ErrorKind::IllegalMove);
                }
                let mut b = self.board;
                b[from] = None;
                b[to] = Some(c);
                Ok(self.after_change(b, c))
            },
            ActionKind::Remove(p) => {
                if p >= 24 {
                    return Err(ErrorKind::OutOfBounds);
                }
                let o = c.opposite();
                let theirs = match self.board[p] {
                    Some(d) => d == o,
                    None => false,
                };
                if !matches!(self.phase, Phase::AwaitingRemoval(_)) || !theirs {
                    return Err(ErrorKind::IllegalRemove);
                }
                if is_in_mill(&self.board, p) && has_piece_outside_mills(&self.board, o) {
                    return Err(ErrorKind::ProtectedByMill);
                }
                proof {
                    lemma_count_positive(self.board@, p as int, o);
                }
                let mut b = self.board;
                b[p] = None;
                let taken = match c {
                    Color::White => State { on_board_black: self.on_board_black - 1, ..*self },
                    Color::Black => State { on_board_white: self.on_board_white - 1, ..*self },
                };
                let phase = next_phase(self.placed_white, self.placed_black);
                Ok(State { board: b, turn: o, phase, ..taken }.settled())
            },
        }
    }
}

proof fn lemma_settle_wf(p: Position)
    requires
        p.wf_counts(),
    ensures
        p.settle().wf(),
{
}

proof fn lemma_after_change_wf(s: Position, b: Seq<Option<Color>>, c: Color)
    requires
        s.board.len() == 24,
        b.len() == 24,
        s.placed_white <= 9,
        s.placed_black <= 9,
        s.placed_white + s.placed_black <= 18,
        s.on_board_white == count(b, Color::White),
        s.on_board_black == count(b, Color::Black),
        s.on_board_white <= s.placed_white,
        s.on_board_black <= s.placed_black,
        s.on_board_white + 9 >= s.placed_white + 3,
        s.on_board_black + 9 >= s.placed_black + 3,
        s.turn == c,
    ensures
        s.after_change(b, c).wf(),
{
    if !forms_mill(s.board, b, c) {
        let t = Position {
            board: b,
            turn: c.opp(),
            phase: phase_for(s.placed_white, s.placed_black),
            ..s
        };
        assert(t.wf_counts());
        lemma_settle_wf(t);
    }
}

/// Every accepted action leads from a well-formed position to a well-formed
/// one: at most nine pieces placed per side (eighteen in all), never more
/// pieces on the board than placed, and the phase in step with the counts.
pub proof fn lemma_step_wf(s: Position, a: Action)
    requires
        s.wf(),
        s.step(a) is Ok,
    ensures
        s.step(a)->Ok_0.wf(),
{
    let c = a.player;
    let o = c.opp();
    match a.action {
        ActionKind::Place(p) => {
            let b = s.board.update(p as int, Some(c));
            lemma_count_update(s.board, p as int, Some(c), c);
            lemma_count_update(s.board, p as int, Some(c), o);
            let counted = match c {
                Color::White => Position {
                    placed_white: s.placed_white + 1,
                    on_board_white: s.on_board_white + 1,
                    ..s
                },
                Color::Black => Position {
                    placed_black: s.placed_black + 1,
                    on_board_black: s.on_board_black + 1,
                    ..s
                },
            };
            lemma_after_change_wf(counted, b, c);
        },
        ActionKind::Move(from, to) => {
            let b1 = s.board.update(from as int, None);
            let b = b1.update(to as int, Some(c));
            lemma_count_update(s.board, from as int, None, c);
            lemma_count_update(s.board, from as int, None, o);
            lemma_count_update(b1, to as int, Some(c), c);
            lemma_count_update(b1, to as int, Some(c), o);
            lemma_after_change_wf(s, b, c);
        },
        ActionKind::Remove(p) => {
            lemma_count_update(s.board, p as int, None, c);
            lemma_count_update(s.board, p as int, None, o);
            let taken = match c {
                Color::White => Position { on_board_black: (s.on_board_black - 1) as nat, ..s },
                Color::Black => Position { on_board_white: (s.on_board_white - 1) as nat, ..s },
            };
            let t = Position {
                board: s.board.update(p as int, None),
                turn: o,
                phase: phase_for(s.placed_white, s.placed_black),
                ..taken
            };
            assert(t.wf_counts());
            lemma_settle_wf(t);
        },
    }
}

/// A game as a mathematical value: the current position and the positions
/// before each accepted action, oldest first.
pub struct GameModel {
    pub current: Position,
    pub history: Seq<Position>,
}

impl GameModel {
    pub open spec fn initial() -> GameModel {
        GameModel { current: Position::initial(), history: Seq::empty() }
    }

    pub open spec fn wf(self) -> bool {
        &&& self.current.wf()
        &&& forall|i: int| 0 <= i < self.history.len() ==> #[trigger] self.history[i].wf()
    }

    pub open spec fn winner(self) -> Option<Color> {
        self.current.winner()
    }

    /// Action `a`: on success the old position goes onto the history.
    pub open spec fn act(self, a: Action) -> Result<GameModel, ErrorKind> {
        match self.current.step(a) {
            Ok(p) => Ok(GameModel { current: p, history: self.history.push(self.current) }),
            Err(e) => Err(e),
        }
    }

    /// Undo: back to the last position of the history.
    pub open spec fn revert(self) -> Result<GameModel, ErrorKind> {
        if self.history.len() == 0 {
            Err(ErrorKind::NothingToUndo)
        } else {
            Ok(GameModel { current: self.history.last(), history: self.history.drop_last() })
        }
    }

    /// The game after all of `acts`, if every one of them is accepted.
    pub open spec fn run(self, acts: Seq<Action>) -> Option<GameModel>
        decreases acts.len(),
    {
        if acts.len() == 0 {
            Some(self)
        } else {
            match self.act(acts[0]) {
                Ok(g) => g.run(acts.drop_first()),
                Err(_) => None,
            }
        }
    }

    /// The game after `n` undos, if each of them succeeds.
    pub open spec fn undo_times(self, n: nat) -> Option<GameModel>
        decreases n,
    {
        if n == 0 {
            Some(self)
        } else {
            match self.undo_times((n - 1) as nat) {
                Some(g) => match g.revert() {
                    Ok(h) => Some(h),
                    Err(_) => None,
                },
                None => None,
            }
        }
    }
}

/// The new game is well formed.
pub proof fn lemma_initial_wf()
    ensures
        GameModel::initial().wf(),
{
    lemma_count_empty(24, Color::White);
    lemma_count_empty(24, Color::Black);
}

/// In every well-formed position at most eighteen pieces have been placed,
/// and no side has more pieces on the board than it has placed.
pub proof fn lemma_wf_counts(p: Position)
    requires
        p.wf(),
    ensures
        p.placed_white + p.placed_black <= 18,
        p.on_board_white <= p.placed_white,
        p.on_board_black <= p.placed_black,
{
}

/// An accepted action keeps a game well formed.
pub proof fn lemma_act_wf(g: GameModel, a: Action)
    requires
        g.wf(),
        g.act(a) is Ok,
    ensures
        g.act(a)->Ok_0.wf(),
{
    lemma_step_wf(g.current, a);
    let h = g.act(a)->Ok_0;
    assert forall|i: int| 0 <= i < h.history.len() implies #[trigger] h.history[i].wf() by {
        if i < g.history.len() {
            assert(h.history[i] == g.history[i]);
        }
    }
}

/// An undo keeps a game well formed.
pub proof fn lemma_revert_wf(g: GameModel)
    requires
        g.wf(),
        g.revert() is Ok,
    ensures
        g.revert()->Ok_0.wf(),
{
    let h = g.revert()->Ok_0;
    assert(g.history[g.history.len() - 1].wf());
    assert forall|i: int| 0 <= i < h.history.len() implies #[trigger] h.history[i].wf() by {
        assert(h.history[i] == g.history[i]);
    }
}

/// Every game reached from a well-formed one by accepted actions is well
/// formed; with `lemma_initial_wf`, so is every game reached from a new one.
pub proof fn lemma_run_wf(g: GameModel, acts: Seq<Action>)
    requires
        g.wf(),
        g.run(acts) is Some,
    ensures
        g.run(acts)->Some_0.wf(),
    decreases acts.len(),
{
    if acts.len() > 0 {
        lemma_act_wf(g, acts[0]);
        lemma_run_wf(g.act(acts[0])->Ok_0, acts.drop_first());
    }
}

/// Once a side has won, every action is refused with `GameOver`.
pub proof fn lemma_game_over_refuses(g: GameModel, a: Action)
    requires
        g.current.phase is GameOver,
    ensures
        g.act(a) == Err::<GameModel, ErrorKind>(ErrorKind::GameOver),
{
}

/// An undo right after an accepted action restores the game exactly.
pub proof fn lemma_undo_after_act(g: GameModel, a: Action)
    requires
        g.act(a) is Ok,
    ensures
        g.act(a)->Ok_0.revert() == Ok::<GameModel, ErrorKind>(g),
{
    let h = g.act(a)->Ok_0;
    assert(h.history.drop_last() =~= g.history);
}

/// After a sequence of accepted actions, as many undos succeed and give back
/// exactly the game it started from.
pub proof fn lemma_run_then_undo(g: GameModel, acts: Seq<Action>)
    requires
        g.run(acts) is Some,
    ensures
        g.run(acts)->Some_0.undo_times(acts.len()) == Some(g),
    decreases acts.len(),
{
    if acts.len() > 0 {
        let g1 = g.act(acts[0])->Ok_0;
        lemma_run_then_undo(g1, acts.drop_first());
        lemma_undo_after_act(g, acts[0]);
        let h = g.run(acts)->Some_0;
        assert(h.undo_times((acts.len() - 1) as nat) == Some(g1));
    }
}

/// From a new game, undoing every accepted action of a sequence gives back
/// the empty board with no winner.
pub proof fn lemma_run_then_undo_from_start(acts: Seq<Action>)
    requires
        GameModel::initial().run(acts) is Some,
    ensures
        GameModel::initial().run(acts)->Some_0.undo_times(acts.len()) == Some(GameModel::initial()),
        forall|p: int| 0 <= p < 24 ==> GameModel::initial().current.board[p] is None,
        GameModel::initial().winner() is None,
{
    lemma_run_then_undo(GameModel::initial(), acts);
}

/// A removal that leaves the other side with two pieces, on the board or
/// still to place, ends the game with the remover as winner.
pub proof fn lemma_capture_wins(g: GameModel, a: Action)
    requires
        g.wf(),
        g.act(a) is Ok,
        a.action is Remove,
        g.current.on_board(a.player.opp()) + 9 == g.current.placed(a.player.opp()) + 3,
    ensures
        g.act(a)->Ok_0.current.on_board(a.player.opp()) + 1 == g.current.on_board(
            a.player.opp(),
        ),
        g.act(a)->Ok_0.winner() == Some(a.player),
{
    let s = g.current;
    let c = a.player;
    assert(s.phase is AwaitingRemoval);
    if let ActionKind::Remove(p) = a.action {
        assert(s.step(a) == Ok::<Position, ErrorKind>(s.after_remove(c, p as int)));
        lemma_count_positive(s.board, p as int, c.opp());
        match c {
            Color::White => {
                assert(s.on_board_white + 9 >= s.placed_white + 3);
            },
            Color::Black => {
                assert(s.on_board_black + 9 >= s.placed_black + 3);
            },
        }
    }
}

/// When all pieces are placed and an accepted action (other than one that
/// opens a removal) leaves the side to move with no legal move, the other
/// side wins.
pub proof fn lemma_blocked_loses(g: GameModel, a: Action)
    requires
        g.wf(),
        g.act(a) is Ok,
        !(g.act(a)->Ok_0.current.phase is AwaitingRemoval),
        g.act(a)->Ok_0.current.placed_white == 9,
        g.act(a)->Ok_0.current.placed_black == 9,
        ({
            let p = g.act(a)->Ok_0.current;
            !has_legal_move(p.board, p.turn, p.on_board(p.turn) == 3)
        }),
    ensures
        g.act(a)->Ok_0.winner() == Some(g.act(a)->Ok_0.current.turn.opp()),
{
    lemma_act_wf(g, a);
}

} // verus!
