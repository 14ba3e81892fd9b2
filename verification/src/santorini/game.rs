//! The phase-typed game state machine.
//!
//! A `Game<S>` is an immutable snapshot of a match in phase `S`: first each
//! player places two pawns (`PlaceOne`, `PlaceTwo`), then play alternates
//! between moving a pawn (`Move`) and building next to the pawn that just
//! moved (`Build`), until a pawn steps onto a level-three tower or the player
//! to move is stuck (`Victory`).  Applying an action consumes the snapshot
//! and returns the next one; the only transitions are the `apply` methods.

use vstd::prelude::*;

use crate::santorini::board::Board;
use crate::santorini::board::CoordLevel;
use crate::santorini::point::lemma_point_bounds;
use crate::santorini::point::lemma_point_injective;
use crate::santorini::point::Coord;
use crate::santorini::point::Point;

verus! {

#[derive(Debug, PartialEq, Eq, Copy, Clone, Structural, Hash)]
pub enum Player {
    PlayerOne,
    PlayerTwo,
}

impl Player {
    pub open spec fn spec_other(self) -> Player {
        match self {
            Player::PlayerOne => Player::PlayerTwo,
            Player::PlayerTwo => Player::PlayerOne,
        }
    }

    pub fn other(&self) -> (r: Player)
        ensures
            r == self.spec_other(),
    {
        match self {
            Player::PlayerOne => Player::PlayerTwo,
            Player::PlayerTwo => Player::PlayerOne,
        }
    }

    /// Both players, first player first.
    pub fn iter() -> (r: [Player; 2])
        ensures
            r@ == seq![Player::PlayerOne, Player::PlayerTwo],
    {
        [Player::PlayerOne, Player::PlayerTwo]
    }
}

/// Flipping the active player twice gets back to the same player.
pub proof fn lemma_other_involutive(p: Player)
    ensures
        p.spec_other().spec_other() == p,
        p.spec_other() != p,
{
}

/// Marker for the five phases a game can be in.
pub trait GameState {

}

/// Phases in which all four pawns stand on the board.
pub trait NormalState {
    /// Where the given player's two pawns stand.
    spec fn locs(&self, player: Player) -> (Point, Point);

    fn player_locs(&self, player: Player) -> (r: [Point; 2])
        ensures
            r@ == seq![self.locs(player).0, self.locs(player).1],
    ;
}

/// A snapshot of a match in phase `S`.
#[derive(Debug, PartialEq, Eq, Clone, Copy, Hash)]
pub struct Game<S: GameState> {
    pub state: S,
    pub board: Board,
    pub player: Player,
}

impl<S: GameState> Game<S> {
    pub fn board(&self) -> (r: Board)
        ensures
            r == self.board,
    {
        self.board
    }

    /// The active player: the one who places, moves or builds next, or, in
    /// the `Victory` phase, the winner.
    pub fn player(&self) -> (r: Player)
        ensures
            r == self.player,
    {
        self.player
    }
}

/// A fresh match: an all-ground board, the first player to place.
pub fn new_game() -> (r: Game<PlaceOne>)
    ensures
        r.player == Player::PlayerOne,
        r.place_wf(),
        forall|off: int| 0 <= off < 25 ==> #[trigger] r.board.height_at(off) == 0,
{
    Game { state: PlaceOne {  }, board: Board::new(), player: Player::PlayerOne }
}

impl<S: GameState + NormalState + Copy> Game<S> {
    /// All four pawn positions: the first player's pair, then the second's.
    pub open spec fn loc4(self) -> (Point, Point, Point, Point) {
        let (a, b) = self.state.locs(Player::PlayerOne);
        let (c, d) = self.state.locs(Player::PlayerTwo);
        (a, b, c, d)
    }

    /// The basic shape shared by the pawned phases: a well-formed board and
    /// four valid, pairwise distinct pawn positions.
    pub open spec fn pawns_wf(self) -> bool {
        let (a, b, c, d) = self.loc4();
        &&& self.board.wf()
        &&& a.inv() && b.inv() && c.inv() && d.inv()
        &&& a.offset() != b.offset() && a.offset() != c.offset() && a.offset() != d.offset()
        &&& b.offset() != c.offset() && b.offset() != d.offset()
        &&& c.offset() != d.offset()
    }

    /// Whether a pawn stands on the cell with offset `off`.
    pub open spec fn occupied(self, off: int) -> bool {
        let (a, b, c, d) = self.loc4();
        a.offset() == off || b.offset() == off || c.offset() == off || d.offset() == off
    }

    /// The height the legality checks see: occupied cells count as capped.
    pub open spec fn composite_height(self, off: int) -> int {
        if self.occupied(off) {
            4
        } else {
            self.board.height_at(off)
        }
    }

    fn composite_board(&self) -> (r: CompositeBoard)
        requires
            self.pawns_wf(),
        ensures
            r.board.wf(),
            forall|off: int|
                0 <= off < 25 ==> #[trigger] r.board.height_at(off) == self.composite_height(off),
    {
        let la = self.state.player_locs(Player::PlayerOne);
        let lb = self.state.player_locs(Player::PlayerTwo);
        let mut board = self.board;
        board.cap(la[0]);
        board.cap(la[1]);
        board.cap(lb[0]);
        board.cap(lb[1]);
        proof {
            let (a, b, c, d) = self.loc4();
            lemma_point_bounds(a);
            lemma_point_bounds(b);
            lemma_point_bounds(c);
            lemma_point_bounds(d);
        }
        CompositeBoard { board }
    }

    /// The given player's two pawns, bound to this snapshot.
    pub fn player_pawns(&self, player: Player) -> (r: [Pawn<S>; 2])
        ensures
            r@ == seq![
                (Pawn { game: *self, pos: self.state.locs(player).0, player }),
                (Pawn { game: *self, pos: self.state.locs(player).1, player }),
            ],
    {
        let locs = self.state.player_locs(player);
        [
            Pawn { game: *self, pos: locs[0], player },
            Pawn { game: *self, pos: locs[1], player },
        ]
    }

    /// The active player's pawns.
    pub fn active_pawns(&self) -> (r: [Pawn<S>; 2])
        ensures
            r@ == seq![
                (Pawn { game: *self, pos: self.state.locs(self.player).0, player: self.player }),
                (Pawn { game: *self, pos: self.state.locs(self.player).1, player: self.player }),
            ],
    {
        self.player_pawns(self.player)
    }

    /// The waiting player's pawns.
    pub fn inactive_pawns(&self) -> (r: [Pawn<S>; 2])
        ensures
            r@ == seq![
                (Pawn {
                    game: *self,
                    pos: self.state.locs(self.player.spec_other()).0,
                    player: self.player.spec_other(),
                }),
                (Pawn {
                    game: *self,
                    pos: self.state.locs(self.player.spec_other()).1,
                    player: self.player.spec_other(),
                }),
            ],
    {
        let other = self.player.other();
        self.player_pawns(other)
    }

    /// Concede: the opponent of the active player wins on the spot.
    pub fn resign(self) -> (r: Game<Victory>)
        ensures
            r.player == self.player.spec_other(),
            r.board == self.board,
            r.state.locs(Player::PlayerOne) == self.state.locs(Player::PlayerOne),
            r.state.locs(Player::PlayerTwo) == self.state.locs(Player::PlayerTwo),
            self.pawns_wf() ==> r.pawns_wf(),
    {
        let la = self.state.player_locs(Player::PlayerOne);
        let lb = self.state.player_locs(Player::PlayerTwo);
        Game {
            state: Victory { p1a: la[0], p1b: la[1], p2a: lb[0], p2b: lb[1] },
            board: self.board,
            player: self.player.other(),
        }
    }
}

/// A board view in which the four pawn cells are capped, so that one masked
/// lookup answers both "is the cell free" and "is it low enough".
pub(crate) struct CompositeBoard {
    pub(crate) board: Board,
}

impl CompositeBoard {
    pub(crate) fn check(&self, loc: Point, max_height: CoordLevel) -> (r: bool)
        requires
            self.board.wf(),
        ensures
            r == (self.board.height_at(loc.offset()) <= max_height.as_int()),
    {
        self.board.less_than_equals(loc, max_height)
    }
}

/// One pawn of one player, together with the snapshot it belongs to.
#[derive(Debug, PartialEq, Eq, Clone, Copy)]
pub struct Pawn<S: GameState> {
    pub game: Game<S>,
    pub pos: Point,
    pub player: Player,
}

impl<S: GameState> Pawn<S> {
    pub fn pos(&self) -> (r: Point)
        ensures
            r == self.pos,
    {
        self.pos
    }

    pub fn player(&self) -> (r: Player)
        ensures
            r == self.player,
    {
        self.player
    }

    /// The in-bounds cells bordering this pawn's cell, in row-major order of
    /// the relative offsets.
    pub fn neighbors(&self) -> (r: Vec<Point>)
        ensures
            r@ == crate::santorini::point::neighbor_seq(self.pos),
    {
        let x = self.pos.x();
        let y = self.pos.y();
        let mut v: Vec<Point> = Vec::new();
        push_candidate(&mut v, x.0 - 1, y.0 - 1);
        push_candidate(&mut v, x.0, y.0 - 1);
        push_candidate(&mut v, x.0 + 1, y.0 - 1);
        push_candidate(&mut v, x.0 - 1, y.0);
        push_candidate(&mut v, x.0 + 1, y.0);
        push_candidate(&mut v, x.0 - 1, y.0 + 1);
        push_candidate(&mut v, x.0, y.0 + 1);
        push_candidate(&mut v, x.0 + 1, y.0 + 1);
        proof {
            assert(v@ =~= crate::santorini::point::neighbor_seq(self.pos));
        }
        v
    }
}

impl<S: GameState + NormalState + Copy> Pawn<S> {
    /// The pawn really is one of its player's two pawns in its snapshot.
    pub open spec fn wf(self) -> bool {
        let (a, b) = self.game.state.locs(self.player);
        self.pos == a || self.pos == b
    }
}

fn push_candidate(v: &mut Vec<Point>, x: i8, y: i8)
    ensures
        final(v)@ == old(v)@ + crate::santorini::point::cand_at(x as int, y as int),
{
    match Point::new_(Coord(x), Coord(y)) {
        Some(p) => v.push(p),
        None => (),
    }
}

// Victory

/// The game is over; `player` on the `Game` is the winner.
#[derive(Debug, PartialEq, Eq, Clone, Copy, Structural, Hash)]
pub struct Victory {
    pub p1a: Point,
    pub p1b: Point,
    pub p2a: Point,
    pub p2b: Point,
}

impl GameState for Victory {

}

impl NormalState for Victory {
    open spec fn locs(&self, player: Player) -> (Point, Point) {
        match player {
            Player::PlayerOne => (self.p1a, self.p1b),
            Player::PlayerTwo => (self.p2a, self.p2b),
        }
    }

    fn player_locs(&self, player: Player) -> (r: [Point; 2]) {
        match player {
            Player::PlayerOne => [self.p1a, self.p1b],
            Player::PlayerTwo => [self.p2a, self.p2b],
        }
    }
}

/// What applying a move or build returned: the next phase, or the end of the
/// game.
#[derive(Debug, PartialEq, Eq, Clone, Copy, Hash)]
pub enum ActionResult<T: GameState> {
    Continue(Game<T>),
    Victory(Game<Victory>),
}

impl<T: GameState> ActionResult<T> {
    /// The continuing game; only for results known not to end the match.
    pub fn unwrap(self) -> (r: Game<T>)
        requires
            self is Continue,
        ensures
            r == self->Continue_0,
    {
        match self {
            ActionResult::Continue(g) => g,
            ActionResult::Victory(_) => unreached(),
        }
    }

    /// The continuing game; only for results known not to end the match.
    pub fn expect(self, msg: &str) -> (r: Game<T>)
        requires
            self is Continue,
        ensures
            r == self->Continue_0,
    {
        match self {
            ActionResult::Continue(g) => g,
            ActionResult::Victory(_) => unreached(),
        }
    }
}

// Placement

/// Placing two pawns at once, bound to the snapshot the placement was
/// derived from.
#[derive(Debug, PartialEq, Eq, Clone, Copy)]
pub struct PlaceAction<T: GameState> {
    pub pos1: Point,
    pub pos2: Point,
    pub game: Game<T>,
}

impl<T: GameState> PlaceAction<T> {
    pub fn pos1(&self) -> (r: Point)
        ensures
            r == self.pos1,
    {
        self.pos1
    }

    pub fn pos2(&self) -> (r: Point)
        ensures
            r == self.pos2,
    {
        self.pos2
    }
}

/// The opening phase: the first player is yet to place its pawns.
#[derive(Debug, PartialEq, Eq, Clone, Copy, Structural, Hash)]
pub struct PlaceOne {}

impl GameState for PlaceOne {

}

impl Game<PlaceOne> {
    /// Placement snapshots keep a board no cell of which has been built
    /// above level two (in fact a fresh one), so that pawns never start on
    /// an unreachable cell.
    pub open spec fn place_wf(self) -> bool {
        &&& self.board.wf()
        &&& forall|off: int| 0 <= off < 25 ==> (#[trigger] self.board.height_at(off)) <= 2
    }

    /// The first placement is legal whenever the two cells differ.
    pub fn can_place(&self, pos1: Point, pos2: Point) -> (r: Option<PlaceAction<PlaceOne>>)
        ensures
            r is Some <==> pos1 != pos2,
            r matches Some(a) ==> a == (PlaceAction { pos1, pos2, game: *self }),
    {
        if pos1 != pos2 {
            Some(PlaceAction { pos1, pos2, game: *self })
        } else {
            None
        }
    }

    pub fn apply(self, placement: PlaceAction<PlaceOne>) -> (r: Game<PlaceTwo>)
        requires
            placement.game == self,
            placement.pos1 != placement.pos2,
            self.place_wf(),
        ensures
            r.player == Player::PlayerTwo,
            r.board == self.board,
            r.state == (PlaceTwo { l1: placement.pos1, l2: placement.pos2 }),
            r.place_wf(),
    {
        proof {
            use_type_invariant(placement.pos1);
            use_type_invariant(placement.pos2);
        }
        Game {
            state: PlaceTwo { l1: placement.pos1, l2: placement.pos2 },
            board: self.board,
            player: Player::PlayerTwo,
        }
    }
}

/// The second placement phase: the first player's pawns stand, the second
/// player is yet to place.
#[derive(Debug, PartialEq, Eq, Clone, Copy, Structural, Hash)]
pub struct PlaceTwo {
    pub l1: Point,
    pub l2: Point,
}

impl GameState for PlaceTwo {

}

impl Game<PlaceTwo> {
    pub open spec fn place_wf(self) -> bool {
        &&& self.board.wf()
        &&& forall|off: int| 0 <= off < 25 ==> (#[trigger] self.board.height_at(off)) <= 2
        &&& self.state.l1.inv()
        &&& self.state.l2.inv()
        &&& self.state.l1 != self.state.l2
    }

    /// Where the first player placed.
    pub fn player1_locs(&self) -> (r: [Point; 2])
        ensures
            r@ == seq![self.state.l1, self.state.l2],
    {
        [self.state.l1, self.state.l2]
    }

    /// The second placement is legal when the two cells differ and neither
    /// is already taken by the first player.
    pub fn can_place(&self, pos1: Point, pos2: Point) -> (r: Option<PlaceAction<PlaceTwo>>)
        ensures
            r is Some <==> (pos1 != pos2 && pos1 != self.state.l1 && pos1 != self.state.l2 && pos2
                != self.state.l1 && pos2 != self.state.l2),
            r matches Some(a) ==> a == (PlaceAction { pos1, pos2, game: *self }),
    {
        if pos1 == self.state.l1 || pos1 == self.state.l2 || pos2 == self.state.l1 || pos2
            == self.state.l2 {
            return None;
        }
        if pos1 != pos2 {
            Some(PlaceAction { pos1, pos2, game: *self })
        } else {
            None
        }
    }

    pub fn apply(self, placement: PlaceAction<PlaceTwo>) -> (r: Game<Move>)
        requires
            placement.game == self,
            self.place_wf(),
            placement.pos1 != placement.pos2,
            placement.pos1 != self.state.l1,
            placement.pos1 != self.state.l2,
            placement.pos2 != self.state.l1,
            placement.pos2 != self.state.l2,
        ensures
            r.player == Player::PlayerOne,
            r.board == self.board,
            r.state == (Move {
                p1a: self.state.l1,
                p1b: self.state.l2,
                p2a: placement.pos1,
                p2b: placement.pos2,
            }),
            r.move_wf(),
    {
        proof {
            use_type_invariant(placement.pos1);
            use_type_invariant(placement.pos2);
            lemma_points_distinct(self.state.l1, self.state.l2);
            lemma_points_distinct(self.state.l1, placement.pos1);
            lemma_points_distinct(self.state.l1, placement.pos2);
            lemma_points_distinct(self.state.l2, placement.pos1);
            lemma_points_distinct(self.state.l2, placement.pos2);
            lemma_points_distinct(placement.pos1, placement.pos2);
            lemma_point_bounds(self.state.l1);
            lemma_point_bounds(self.state.l2);
            lemma_point_bounds(placement.pos1);
            lemma_point_bounds(placement.pos2);
        }
        Game {
            state: Move {
                p1a: self.state.l1,
                p1b: self.state.l2,
                p2a: placement.pos1,
                p2b: placement.pos2,
            },
            board: self.board,
            player: Player::PlayerOne,
        }
    }
}

// Moving

/// The active player is to move one of its pawns.
#[derive(Debug, PartialEq, Eq, Clone, Copy, Structural, Hash)]
pub struct Move {
    pub p1a: Point,
    pub p1b: Point,
    pub p2a: Point,
    pub p2b: Point,
}

impl GameState for Move {

}

impl NormalState for Move {
    open spec fn locs(&self, player: Player) -> (Point, Point) {
        match player {
            Player::PlayerOne => (self.p1a, self.p1b),
            Player::PlayerTwo => (self.p2a, self.p2b),
        }
    }

    fn player_locs(&self, player: Player) -> (r: [Point; 2]) {
        match player {
            Player::PlayerOne => [self.p1a, self.p1b],
            Player::PlayerTwo => [self.p2a, self.p2b],
        }
    }
}

impl Game<Move> {
    /// A reachable move snapshot: the four pawns stand apart on a
    /// well-formed board, and none of them is higher than level two.
    pub open spec fn move_wf(self) -> bool {
        let (a, b, c, d) = self.loc4();
        &&& self.pawns_wf()
        &&& self.board.height_at(a.offset()) <= 2
        &&& self.board.height_at(b.offset()) <= 2
        &&& self.board.height_at(c.offset()) <= 2
        &&& self.board.height_at(d.offset()) <= 2
    }

    /// The move rule: one step in any direction, onto a cell that is free
    /// (not occupied, not capped) and at most one level above the mover.
    pub open spec fn move_ok(self, from: Point, to: Point) -> bool {
        &&& from.spec_distance(to) == 1
        &&& self.composite_height(to.offset()) <= self.board.height_at(from.offset()) + 1
    }

    /// Whether `p` is one of the active player's pawn positions.
    pub open spec fn is_active_loc(self, p: Point) -> bool {
        let (a, b) = self.state.locs(self.player);
        p == a || p == b
    }

    /// Whether the pawn on `from` has at least one legal move.
    pub open spec fn has_move_from(self, from: Point) -> bool {
        exists|to: Point| #[trigger] self.move_ok(from, to) && to.inv()
    }

    /// Whether the active player has any legal move at all.
    pub open spec fn can_move_any(self) -> bool {
        let (a, b) = self.state.locs(self.player);
        self.has_move_from(a) || self.has_move_from(b)
    }

    /// The legal destinations among `s` for a pawn on `from`.
    pub open spec fn targets_of(self, from: Point, s: Seq<Point>) -> Seq<Point> {
        s.filter(move_pred(self, from))
    }

    /// The legal destinations for a pawn on `from`, in neighbor order.
    pub open spec fn move_targets(self, from: Point) -> Seq<Point> {
        self.targets_of(from, crate::santorini::point::neighbor_seq(from))
    }

    /// The pawn positions after the active player's pawn steps from `from`
    /// to `to` (the first of the player's pawns standing on `from` moves).
    pub open spec fn moved_locs(self, from: Point, to: Point) -> (Point, Point, Point, Point) {
        let (a, b, c, d) = self.loc4();
        match self.player {
            Player::PlayerOne => if a == from {
                (to, b, c, d)
            } else {
                (a, to, c, d)
            },
            Player::PlayerTwo => if c == from {
                (a, b, to, d)
            } else {
                (a, b, c, to)
            },
        }
    }

    /// What applying a move yields: stepping onto a level-three cell wins at
    /// once, anything else leads to the build phase with the player kept.
    pub open spec fn spec_apply_move(self, action: MoveAction) -> ActionResult<Build> {
        let (a, b, c, d) = self.moved_locs(action.from, action.to);
        if self.board.height_at(action.to.offset()) == 3 {
            ActionResult::Victory(
                Game {
                    state: Victory { p1a: a, p1b: b, p2a: c, p2b: d },
                    board: self.board,
                    player: self.player,
                },
            )
        } else {
            ActionResult::Continue(
                Game {
                    state: Build { p1a: a, p1b: b, p2a: c, p2b: d, active_loc: action.to },
                    board: self.board,
                    player: self.player,
                },
            )
        }
    }

    pub fn apply(self, action: MoveAction) -> (r: ActionResult<Build>)
        requires
            action.game == self,
            action.valid(),
        ensures
            r == self.spec_apply_move(action),
            r matches ActionResult::Continue(g) ==> g.build_wf() && g.player == self.player
                && self.board.height_at(action.to.offset()) != 3,
            r matches ActionResult::Victory(g) ==> g.pawns_wf() && g.player == self.player
                && self.board.height_at(action.to.offset()) == 3,
    {
        proof {
            use_type_invariant(action.to);
            use_type_invariant(action.from);
            let (a, b, c, d) = self.loc4();
            lemma_point_bounds(a);
            lemma_point_bounds(b);
            lemma_point_bounds(c);
            lemma_point_bounds(d);
            lemma_point_bounds(action.to);
            assert(!self.occupied(action.to.offset()));
        }
        let s = self.state;
        let mut p1a = s.p1a;
        let mut p1b = s.p1b;
        let mut p2a = s.p2a;
        let mut p2b = s.p2b;
        match self.player {
            Player::PlayerOne => {
                if p1a == action.from {
                    p1a = action.to;
                } else {
                    p1b = action.to;
                }
            },
            Player::PlayerTwo => {
                if p2a == action.from {
                    p2a = action.to;
                } else {
                    p2b = action.to;
                }
            },
        }
        if self.board.level_at(action.to) == CoordLevel::Three {
            ActionResult::Victory(
                Game {
                    state: Victory { p1a, p1b, p2a, p2b },
                    board: self.board,
                    player: self.player,
                },
            )
        } else {
            ActionResult::Continue(
                Game {
                    state: Build { p1a, p1b, p2a, p2b, active_loc: action.to },
                    board: self.board,
                    player: self.player,
                },
            )
        }
    }
}

/// The move rule for a pawn on `from`, as a predicate on destinations.
pub open spec fn move_pred(g: Game<Move>, from: Point) -> spec_fn(Point) -> bool {
    |t: Point| g.move_ok(from, t)
}

/// What `move_targets` holds: exactly the legal destinations, each once.
pub proof fn lemma_move_targets(g: Game<Move>, from: Point)
    requires
        from.inv(),
    ensures
        forall|i: int|
            0 <= i < g.move_targets(from).len() ==> (#[trigger] g.move_targets(from)[i]).inv()
                && g.move_ok(from, g.move_targets(from)[i]),
        forall|to: Point|
            to.inv() && #[trigger] g.move_ok(from, to) ==> g.move_targets(from).contains(to),
        g.move_targets(from).no_duplicates(),
        g.move_targets(from).len() <= 8,
{
    broadcast use vstd::seq_lib::group_filter_ensures;

    let nbrs = crate::santorini::point::neighbor_seq(from);
    let pred = move_pred(g, from);
    crate::santorini::point::lemma_neighbor_nbr(from);
    crate::santorini::point::lemma_neighbor_sorted(from);
    lemma_filter_is_subset(nbrs, pred);
    lemma_filter_preserves_nodup(nbrs, pred);
    assert forall|i: int|
        0 <= i < g.move_targets(from).len() implies (#[trigger] g.move_targets(from)[i]).inv()
        && g.move_ok(from, g.move_targets(from)[i]) by {
        let t = g.move_targets(from)[i];
        assert(nbrs.contains(t));
        assert(pred(t));
    }
    assert forall|to: Point|
        to.inv() && #[trigger] g.move_ok(from, to) implies g.move_targets(from).contains(to) by {
        crate::santorini::point::lemma_neighbor_complete(from, to);
        let k = choose|k: int| 0 <= k < nbrs.len() && nbrs[k] == to;
        assert(pred(nbrs[k]));
        assert(nbrs.filter(pred).contains(nbrs[k]));
    }
}

/// Moving one pawn one step, bound to the snapshot the move was derived
/// from.
#[derive(Debug, PartialEq, Eq, Clone, Copy)]
pub struct MoveAction {
    pub from: Point,
    pub to: Point,
    pub game: Game<Move>,
}

impl MoveAction {
    pub fn from(&self) -> (r: Point)
        ensures
            r == self.from,
    {
        self.from
    }

    pub fn to(&self) -> (r: Point)
        ensures
            r == self.to,
    {
        self.to
    }

    /// The action moves one of the active player's pawns by the move rule,
    /// in a reachable snapshot.
    pub open spec fn valid(self) -> bool {
        &&& self.game.move_wf()
        &&& self.from.inv()
        &&& self.to.inv()
        &&& self.game.is_active_loc(self.from)
        &&& self.game.move_ok(self.from, self.to)
    }
}

impl Pawn<Move> {
    /// The highest level this pawn may step onto: one above where it stands.
    fn level_limit(&self) -> (r: CoordLevel)
        requires
            self.game.move_wf(),
            self.wf(),
        ensures
            r.as_int() == self.game.board.height_at(self.pos.offset()) + 1,
    {
        match self.game.board.level_at(self.pos) {
            CoordLevel::Ground => CoordLevel::One,
            CoordLevel::One => CoordLevel::Two,
            CoordLevel::Two => CoordLevel::Three,
            _ => unreached(),
        }
    }

    /// The move of this pawn to `to`, if it is the active player's pawn and
    /// the move rule allows the step.
    pub fn can_move(&self, to: Point) -> (r: Option<MoveAction>)
        requires
            self.game.move_wf(),
            self.wf(),
        ensures
            r is Some <==> (self.player == self.game.player && self.game.move_ok(self.pos, to)),
            r matches Some(a) ==> a == (MoveAction { from: self.pos, to, game: self.game })
                && a.valid(),
    {
        proof {
            use_type_invariant(to);
            use_type_invariant(self.pos);
            lemma_point_bounds(to);
        }
        if self.player != self.game.player {
            return None;
        }
        if self.pos.distance(to) != 1 {
            return None;
        }
        let limit = self.level_limit();
        let composite = self.game.composite_board();
        if !composite.check(to, limit) {
            return None;
        }
        Some(MoveAction { from: self.pos, to, game: self.game })
    }

    /// Whether this pawn has any legal move; unlike `can_move` this does not
    /// ask whose turn it is.
    #[verifier::loop_isolation(false)]
    pub fn has_actions(&self) -> (r: bool)
        requires
            self.game.move_wf(),
            self.wf(),
        ensures
            r == self.game.has_move_from(self.pos),
    {
        proof {
            use_type_invariant(self.pos);
            crate::santorini::point::lemma_neighbor_nbr(self.pos);
        }
        let nbrs = self.neighbors();
        let limit = self.level_limit();
        let composite = self.game.composite_board();
        let mut i: usize = 0;
        while i < nbrs.len()
            invariant
                i <= nbrs@.len(),
                forall|k: int|
                    0 <= k < i ==> !self.game.move_ok(self.pos, #[trigger] nbrs@[k]),
            decreases nbrs@.len() - i,
        {
            let t = nbrs[i];
            proof {
                use_type_invariant(t);
                lemma_point_bounds(t);
            }
            if composite.check(t, limit) {
                proof {
                    assert(self.game.move_ok(self.pos, t));
                }
                return true;
            }
            i += 1;
        }
        proof {
            if self.game.has_move_from(self.pos) {
                let to = choose|to: Point|
                    #[trigger] self.game.move_ok(self.pos, to) && to.inv();
                crate::santorini::point::lemma_neighbor_complete(self.pos, to);
                let k = choose|k: int| 0 <= k < nbrs@.len() && nbrs@[k] == to;
                assert(!self.game.move_ok(self.pos, nbrs@[k]));
            }
        }
        false
    }

    /// Every legal move of this pawn, in neighbor order; empty for a pawn of
    /// the waiting player.
    #[verifier::loop_isolation(false)]
    pub fn actions(&self) -> (r: Vec<MoveAction>)
        requires
            self.game.move_wf(),
            self.wf(),
        ensures
            self.player == self.game.player ==> r@.len() == self.game.move_targets(
                self.pos,
            ).len(),
            self.player != self.game.player ==> r@.len() == 0,
            forall|i: int|
                0 <= i < r@.len() ==> (#[trigger] r@[i]) == (MoveAction {
                    from: self.pos,
                    to: self.game.move_targets(self.pos)[i],
                    game: self.game,
                }) && r@[i].valid(),
    {
        let mut out: Vec<MoveAction> = Vec::new();
        if self.player != self.game.player {
            return out;
        }
        proof {
            use_type_invariant(self.pos);
            crate::santorini::point::lemma_neighbor_nbr(self.pos);
            lemma_move_targets(self.game, self.pos);
        }
        let nbrs = self.neighbors();
        let limit = self.level_limit();
        let composite = self.game.composite_board();
        let ghost pred = move_pred(self.game, self.pos);
        let mut i: usize = 0;
        while i < nbrs.len()
            invariant
                i <= nbrs@.len(),
                out@.len() == self.game.targets_of(self.pos, nbrs@.take(i as int)).len(),
                forall|k: int|
                    0 <= k < out@.len() ==> (#[trigger] out@[k]) == (MoveAction {
                        from: self.pos,
                        to: self.game.targets_of(self.pos, nbrs@.take(i as int))[k],
                        game: self.game,
                    }),
            decreases nbrs@.len() - i,
        {
            let t = nbrs[i];
            proof {
                use_type_invariant(t);
                lemma_point_bounds(t);
            }
            let ok = composite.check(t, limit);
            proof {
                reveal(Seq::filter);
                let prefix = nbrs@.take(i as int);
                let prefix1 = nbrs@.take(i as int + 1);
                assert(prefix1.drop_last() =~= prefix);
                assert(prefix1.last() == t);
                if self.game.move_ok(self.pos, t) {
                    assert(self.game.targets_of(self.pos, prefix1) == self.game.targets_of(
                        self.pos,
                        prefix,
                    ).push(t));
                } else {
                    assert(self.game.targets_of(self.pos, prefix1) == self.game.targets_of(
                        self.pos,
                        prefix,
                    ));
                }
            }
            if ok {
                out.push(MoveAction { from: self.pos, to: t, game: self.game });
            }
            i += 1;
        }
        proof {
            assert(nbrs@.take(nbrs@.len() as int) =~= nbrs@);
            assert forall|i2: int| 0 <= i2 < out@.len() implies (#[trigger] out@[i2]).valid() by {
                assert(out@[i2].game.move_ok(out@[i2].from, out@[i2].to));
            }
        }
        out
    }
}

/// A sequence's filtrate only holds elements of the sequence.
proof fn lemma_filter_is_subset<A>(s: Seq<A>, pred: spec_fn(A) -> bool)
    ensures
        forall|i: int| 0 <= i < s.filter(pred).len() ==> s.contains(#[trigger] s.filter(pred)[i]),
    decreases s.len(),
{
    reveal(Seq::filter);
    if s.len() != 0 {
        let d = s.drop_last();
        lemma_filter_is_subset(d, pred);
        assert forall|i: int|
            0 <= i < s.filter(pred).len() implies s.contains(#[trigger] s.filter(pred)[i]) by {
            let f = s.filter(pred);
            let fd = d.filter(pred);
            if i < fd.len() {
                assert(f[i] == fd[i]);
                assert(d.contains(fd[i]));
                let j = choose|j: int| 0 <= j < d.len() && d[j] == fd[i];
                assert(s[j] == fd[i]);
            } else {
                assert(f[i] == s.last());
                assert(s[s.len() - 1] == s.last());
            }
        }
    }
}

/// Filtering keeps distinct entries distinct.
proof fn lemma_filter_preserves_nodup<A>(s: Seq<A>, pred: spec_fn(A) -> bool)
    requires
        s.no_duplicates(),
    ensures
        s.filter(pred).no_duplicates(),
    decreases s.len(),
{
    reveal(Seq::filter);
    if s.len() != 0 {
        let d = s.drop_last();
        assert(d.no_duplicates());
        lemma_filter_preserves_nodup(d, pred);
        if pred(s.last()) {
            lemma_filter_is_subset(d, pred);
            let fd = d.filter(pred);
            assert(!fd.contains(s.last())) by {
                if fd.contains(s.last()) {
                    let i = choose|i: int| 0 <= i < fd.len() && fd[i] == s.last();
                    assert(d.contains(fd[i]));
                    let j = choose|j: int| 0 <= j < d.len() && d[j] == fd[i];
                    assert(s[j] == s[s.len() - 1]);
                }
            }
            assert(s.filter(pred) == fd.push(s.last()));
            assert forall|i: int, j: int|
                0 <= i < j < s.filter(pred).len() implies s.filter(pred)[i] != s.filter(pred)[j] by {
                if j < fd.len() {
                } else {
                    assert(s.filter(pred)[j] == s.last());
                    assert(s.filter(pred)[i] == fd[i]);
                }
            }
        }
    }
}

// Building

/// The pawn on `active_loc` has just moved and must now build.
#[derive(Debug, PartialEq, Eq, Clone, Copy, Structural, Hash)]
pub struct Build {
    pub p1a: Point,
    pub p1b: Point,
    pub p2a: Point,
    pub p2b: Point,
    pub active_loc: Point,
}

impl GameState for Build {

}

impl NormalState for Build {
    open spec fn locs(&self, player: Player) -> (Point, Point) {
        match player {
            Player::PlayerOne => (self.p1a, self.p1b),
            Player::PlayerTwo => (self.p2a, self.p2b),
        }
    }

    fn player_locs(&self, player: Player) -> (r: [Point; 2]) {
        match player {
            Player::PlayerOne => [self.p1a, self.p1b],
            Player::PlayerTwo => [self.p2a, self.p2b],
        }
    }
}

impl Game<Build> {
    /// A reachable build snapshot: like `move_wf`, and the building pawn is
    /// one of the active player's.
    pub open spec fn build_wf(self) -> bool {
        let (a, b, c, d) = self.loc4();
        let (x, y) = self.state.locs(self.player);
        &&& self.pawns_wf()
        &&& self.board.height_at(a.offset()) <= 2
        &&& self.board.height_at(b.offset()) <= 2
        &&& self.board.height_at(c.offset()) <= 2
        &&& self.board.height_at(d.offset()) <= 2
        &&& (self.state.active_loc == x || self.state.active_loc == y)
    }

    /// The build rule: one step from the pawn that just moved, onto a free,
    /// uncapped cell.
    pub open spec fn build_ok(self, loc: Point) -> bool {
        &&& self.state.active_loc.spec_distance(loc) == 1
        &&& self.composite_height(loc.offset()) <= 3
    }

    /// The legal build sites among `s`.
    pub open spec fn build_targets_of(self, s: Seq<Point>) -> Seq<Point> {
        s.filter(build_pred(self))
    }

    /// The legal build sites, in neighbor order around the active pawn.
    pub open spec fn build_targets(self) -> Seq<Point> {
        self.build_targets_of(crate::santorini::point::neighbor_seq(self.state.active_loc))
    }

    /// The move snapshot reached by building at `action.loc`: one level
    /// higher there, and the turn passed to the other player.
    pub open spec fn next_move_game(self, action: BuildAction) -> Game<Move> {
        Game {
            state: Move {
                p1a: self.state.p1a,
                p1b: self.state.p1b,
                p2a: self.state.p2a,
                p2b: self.state.p2b,
            },
            board: self.board.spec_build(action.loc.offset()),
            player: self.player.spec_other(),
        }
    }

    /// What applying a build yields: the next move snapshot, unless the new
    /// active player has no legal move at all, in which case the builder
    /// wins by stalemate.
    pub open spec fn spec_apply_build(self, action: BuildAction) -> ActionResult<Move> {
        let g2 = self.next_move_game(action);
        if g2.can_move_any() {
            ActionResult::Continue(g2)
        } else {
            ActionResult::Victory(
                Game {
                    state: Victory {
                        p1a: self.state.p1a,
                        p1b: self.state.p1b,
                        p2a: self.state.p2a,
                        p2b: self.state.p2b,
                    },
                    board: g2.board,
                    player: self.player,
                },
            )
        }
    }

    /// The pawn that just moved and must build now.
    pub fn active_pawn(&self) -> (r: Pawn<Build>)
        ensures
            r == (Pawn { game: *self, pos: self.state.active_loc, player: self.player }),
            self.build_wf() ==> r.wf(),
    {
        Pawn { game: *self, pos: self.state.active_loc, player: self.player }
    }

    pub fn apply(self, action: BuildAction) -> (r: ActionResult<Move>)
        requires
            action.game == self,
            action.valid(),
        ensures
            r == self.spec_apply_build(action),
            r matches ActionResult::Continue(g) ==> g == self.next_move_game(action)
                && g.move_wf() && g.player == self.player.spec_other() && g.can_move_any(),
            r matches ActionResult::Victory(g) ==> g.pawns_wf() && g.player == self.player
                && !self.next_move_game(action).can_move_any(),
    {
        proof {
            use_type_invariant(action.loc);
            let (a, b, c, d) = self.loc4();
            lemma_point_bounds(a);
            lemma_point_bounds(b);
            lemma_point_bounds(c);
            lemma_point_bounds(d);
            lemma_point_bounds(action.loc);
            assert(!self.occupied(action.loc.offset()));
        }
        let mut board = self.board;
        board.build(action.loc);
        let new_game = Game {
            state: Move {
                p1a: self.state.p1a,
                p1b: self.state.p1b,
                p2a: self.state.p2a,
                p2b: self.state.p2b,
            },
            board,
            player: self.player.other(),
        };
        proof {
            assert(new_game == self.next_move_game(action));
            assert(new_game.move_wf());
        }
        // After a move there is always at least one legal build site (the
        // cell the pawn came from), so a stalemate only ever shows up here,
        // as a new active player none of whose pawns can move.
        let pawns = new_game.active_pawns();
        if pawns[0].has_actions() || pawns[1].has_actions() {
            ActionResult::Continue(new_game)
        } else {
            ActionResult::Victory(
                Game {
                    state: Victory {
                        p1a: self.state.p1a,
                        p1b: self.state.p1b,
                        p2a: self.state.p2a,
                        p2b: self.state.p2b,
                    },
                    board: new_game.board,
                    player: self.player,
                },
            )
        }
    }
}

/// The build rule around the active pawn, as a predicate on build sites.
pub open spec fn build_pred(g: Game<Build>) -> spec_fn(Point) -> bool {
    |t: Point| g.build_ok(t)
}

/// What `build_targets` holds: exactly the legal build sites, each once.
pub proof fn lemma_build_targets(g: Game<Build>)
    requires
        g.state.active_loc.inv(),
    ensures
        forall|i: int|
            0 <= i < g.build_targets().len() ==> (#[trigger] g.build_targets()[i]).inv()
                && g.build_ok(g.build_targets()[i]),
        forall|loc: Point|
            loc.inv() && #[trigger] g.build_ok(loc) ==> g.build_targets().contains(loc),
        g.build_targets().no_duplicates(),
        g.build_targets().len() <= 8,
{
    broadcast use vstd::seq_lib::group_filter_ensures;

    let nbrs = crate::santorini::point::neighbor_seq(g.state.active_loc);
    let pred = build_pred(g);
    crate::santorini::point::lemma_neighbor_nbr(g.state.active_loc);
    crate::santorini::point::lemma_neighbor_sorted(g.state.active_loc);
    lemma_filter_is_subset(nbrs, pred);
    lemma_filter_preserves_nodup(nbrs, pred);
    assert forall|i: int|
        0 <= i < g.build_targets().len() implies (#[trigger] g.build_targets()[i]).inv()
        && g.build_ok(g.build_targets()[i]) by {
        let t = g.build_targets()[i];
        assert(nbrs.contains(t));
        assert(pred(t));
    }
    assert forall|loc: Point|
        loc.inv() && #[trigger] g.build_ok(loc) implies g.build_targets().contains(loc) by {
        crate::santorini::point::lemma_neighbor_complete(g.state.active_loc, loc);
        let k = choose|k: int| 0 <= k < nbrs.len() && nbrs[k] == loc;
        assert(pred(nbrs[k]));
        assert(nbrs.filter(pred).contains(nbrs[k]));
    }
}

/// Building one level on one cell, bound to the snapshot the build was
/// derived from.
#[derive(Debug, PartialEq, Eq, Clone, Copy)]
pub struct BuildAction {
    pub loc: Point,
    pub game: Game<Build>,
}

impl BuildAction {
    pub fn loc(&self) -> (r: Point)
        ensures
            r == self.loc,
    {
        self.loc
    }

    /// The action builds next to the pawn that just moved, by the build
    /// rule, in a reachable snapshot.
    pub open spec fn valid(self) -> bool {
        &&& self.game.build_wf()
        &&& self.loc.inv()
        &&& self.game.build_ok(self.loc)
    }
}

impl Pawn<Build> {
    /// The build at `loc`, if this pawn is the one that just moved and the
    /// build rule allows the site.
    pub fn can_build(&self, loc: Point) -> (r: Option<BuildAction>)
        requires
            self.game.build_wf(),
            self.wf(),
        ensures
            r is Some <==> (self.pos == self.game.state.active_loc && self.game.build_ok(loc)),
            r matches Some(a) ==> a == (BuildAction { loc, game: self.game }) && a.valid(),
    {
        proof {
            use_type_invariant(loc);
            use_type_invariant(self.pos);
            lemma_point_bounds(loc);
        }
        if self.pos == self.game.state.active_loc && self.pos.distance(loc) == 1
            && self.game.composite_board().check(loc, CoordLevel::Three) {
            Some(BuildAction { loc, game: self.game })
        } else {
            None
        }
    }

    /// Every legal build of this pawn, in neighbor order; empty for any pawn
    /// but the one that just moved.
    #[verifier::loop_isolation(false)]
    pub fn actions(&self) -> (r: Vec<BuildAction>)
        requires
            self.game.build_wf(),
            self.wf(),
        ensures
            self.pos == self.game.state.active_loc ==> r@.len()
                == self.game.build_targets().len(),
            self.pos != self.game.state.active_loc ==> r@.len() == 0,
            forall|i: int|
                0 <= i < r@.len() ==> (#[trigger] r@[i]) == (BuildAction {
                    loc: self.game.build_targets()[i],
                    game: self.game,
                }) && r@[i].valid(),
    {
        let mut out: Vec<BuildAction> = Vec::new();
        if self.pos != self.game.state.active_loc {
            return out;
        }
        proof {
            use_type_invariant(self.pos);
            crate::santorini::point::lemma_neighbor_nbr(self.pos);
            lemma_build_targets(self.game);
        }
        let nbrs = self.neighbors();
        let composite = self.game.composite_board();
        let mut i: usize = 0;
        while i < nbrs.len()
            invariant
                i <= nbrs@.len(),
                out@.len() == self.game.build_targets_of(nbrs@.take(i as int)).len(),
                forall|k: int|
                    0 <= k < out@.len() ==> (#[trigger] out@[k]) == (BuildAction {
                        loc: self.game.build_targets_of(nbrs@.take(i as int))[k],
                        game: self.game,
                    }),
            decreases nbrs@.len() - i,
        {
            let t = nbrs[i];
            proof {
                use_type_invariant(t);
                lemma_point_bounds(t);
            }
            let ok = composite.check(t, CoordLevel::Three);
            proof {
                reveal(Seq::filter);
                let prefix = nbrs@.take(i as int);
                let prefix1 = nbrs@.take(i as int + 1);
                assert(prefix1.drop_last() =~= prefix);
                assert(prefix1.last() == t);
                if self.game.build_ok(t) {
                    assert(self.game.build_targets_of(prefix1) == self.game.build_targets_of(
                        prefix,
                    ).push(t));
                } else {
                    assert(self.game.build_targets_of(prefix1) == self.game.build_targets_of(
                        prefix,
                    ));
                }
            }
            if ok {
                out.push(BuildAction { loc: t, game: self.game });
            }
            i += 1;
        }
        proof {
            assert(nbrs@.take(nbrs@.len() as int) =~= nbrs@);
            assert forall|i2: int| 0 <= i2 < out@.len() implies (#[trigger] out@[i2]).valid() by {
                assert(out@[i2].game.build_ok(out@[i2].loc));
            }
        }
        out
    }
}

/// What applying a valid move yields, phase by phase: the continuing build
/// snapshot is reachable, the winning snapshot keeps its pawns apart.
pub proof fn lemma_spec_apply_move(g: Game<Move>, a: MoveAction)
    requires
        a.game == g,
        a.valid(),
    ensures
        g.spec_apply_move(a) matches ActionResult::Continue(gb) ==> gb.build_wf() && gb.player
            == g.player && gb.board == g.board && gb.state.active_loc == a.to,
        g.spec_apply_move(a) matches ActionResult::Victory(gv) ==> gv.pawns_wf() && gv.player
            == g.player && gv.board == g.board,
{
    let (x, y, z, w) = g.loc4();
    lemma_point_bounds(x);
    lemma_point_bounds(y);
    lemma_point_bounds(z);
    lemma_point_bounds(w);
    lemma_point_bounds(a.to);
    assert(!g.occupied(a.to.offset()));
}

/// What applying a valid build yields: either the next move snapshot, which
/// is reachable and has a move available, or a stalemate win.
pub proof fn lemma_spec_apply_build(g: Game<Build>, a: BuildAction)
    requires
        a.game == g,
        a.valid(),
    ensures
        g.next_move_game(a).move_wf(),
        g.spec_apply_build(a) matches ActionResult::Continue(gm) ==> gm == g.next_move_game(a)
            && gm.can_move_any(),
        g.spec_apply_build(a) matches ActionResult::Victory(gv) ==> gv.pawns_wf() && gv.player
            == g.player && !g.next_move_game(a).can_move_any(),
{
    let (x, y, z, w) = g.loc4();
    lemma_point_bounds(x);
    lemma_point_bounds(y);
    lemma_point_bounds(z);
    lemma_point_bounds(w);
    lemma_point_bounds(a.loc);
    assert(!g.occupied(a.loc.offset()));
    let nb = g.board.spec_build(a.loc.offset());
    assert(nb.wf() && nb.height_at(a.loc.offset()) == g.board.height_at(a.loc.offset()) + 1
        && forall|off: int|
        0 <= off < 25 && off != a.loc.offset() ==> #[trigger] nb.height_at(off)
            == g.board.height_at(off)) by {
        crate::santorini::board::lemma_board_spec_build(g.board, a.loc);
    }
}

/// Distinct valid points sit on distinct cells.
pub proof fn lemma_points_distinct(p: Point, q: Point)
    requires
        p.inv(),
        q.inv(),
        p != q,
    ensures
        p.offset() != q.offset(),
{
    if p.offset() == q.offset() {
        lemma_point_injective(p, q);
    }
}

} // verus!
