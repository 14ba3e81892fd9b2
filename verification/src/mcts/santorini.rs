//! The Santorini instantiation of the search: nodes, the exhaustive
//! enumeration of one turn's options, expansion, and the semi-greedy random
//! playouts.

use vstd::prelude::*;

use crate::mcts::Expansion;
use crate::rng::SeededRng;
use crate::santorini::board::lemma_board_spec_build;
use crate::santorini::board::lemma_total_height_bound;
use crate::santorini::board::lemma_total_height_build;
use crate::santorini::board::total_height;
use crate::santorini::game::lemma_build_targets;
use crate::santorini::game::lemma_move_targets;
use crate::santorini::game::lemma_spec_apply_build;
use crate::santorini::game::lemma_spec_apply_move;
use crate::santorini::point::lemma_point_bounds;
use crate::santorini::ActionResult;
use crate::santorini::Build;
use crate::santorini::BuildAction;
use crate::santorini::Game;
use crate::santorini::Move;
use crate::santorini::MoveAction;
use crate::santorini::Pawn;
use crate::santorini::Player;
use crate::santorini::NormalState;
use crate::santorini::Point;

verus! {

/// One enumerated option for a turn: the move, the build that followed it
/// (none when the move itself won), and the state it all led to.
pub type TurnOutcome = ((MoveAction, Option<BuildAction>), ActionResult<Move>);

/// Where a search node stands: in the middle of a game, or at a win for the
/// given player.
#[derive(Debug, PartialEq, Eq, Clone, Copy)]
pub enum NodeState {
    Move(Game<Move>),
    Victory(Player),
}

/// A search state: the move-and-build pair that led here (absent at the
/// root), and the game reached.
#[derive(Debug, Clone, Copy)]
pub struct SantoriniNode {
    pub mv: Option<MoveAction>,
    pub build: Option<BuildAction>,
    pub game: NodeState,
}

impl SantoriniNode {
    /// A node over a reachable game snapshot; a mid-game node always has a
    /// move available, as every snapshot the state machine hands out does.
    pub open spec fn wf(self) -> bool {
        match self.game {
            NodeState::Move(g) => g.move_wf() && g.can_move_any(),
            NodeState::Victory(_) => true,
        }
    }

    /// Whether this node stands for exactly the given mid-game snapshot.
    pub fn matches(&self, game: Game<Move>) -> (r: bool)
        ensures
            r == (self.game matches NodeState::Move(g) && g == game),
    {
        match self.game {
            NodeState::Move(g) => g.state == game.state && g.board == game.board && g.player
                == game.player,
            NodeState::Victory(_) => false,
        }
    }
}

impl From<Game<Move>> for SantoriniNode {
    fn from(game: Game<Move>) -> (r: SantoriniNode) {
        SantoriniNode { mv: None, build: None, game: NodeState::Move(game) }
    }
}

impl vstd::std_specs::convert::FromSpecImpl<Game<Move>> for SantoriniNode {
    open spec fn obeys_from_spec() -> bool {
        true
    }

    open spec fn from_spec(game: Game<Move>) -> SantoriniNode {
        SantoriniNode { mv: None, build: None, game: NodeState::Move(game) }
    }
}

/// The outcome stands for a genuine option in `g`: a legal move of the
/// active player, followed, unless the move already won, by a legal build,
/// with the state that the rules produce.
pub open spec fn outcome_ok(g: Game<Move>, e: TurnOutcome) -> bool {
    let ((mv, ob), res) = e;
    &&& mv.game == g
    &&& mv.valid()
    &&& match g.spec_apply_move(mv) {
        ActionResult::Victory(gv) => ob is None && res == ActionResult::<Move>::Victory(gv),
        ActionResult::Continue(gb) => ob matches Some(b) && b.game == gb && b.valid() && res
            == gb.spec_apply_build(b),
    }
}

/// `outcome_ok`, and the continuing game is itself reachable and movable.
pub open spec fn outcome_wf(g: Game<Move>, e: TurnOutcome) -> bool {
    &&& outcome_ok(g, e)
    &&& (e.1 matches ActionResult::Continue(gm) ==> gm.move_wf() && gm.can_move_any())
}

/// The outcomes of the first `k` legal builds that can follow the move `mv`
/// into the build snapshot `gb`.
pub open spec fn build_outcomes(gb: Game<Build>, mv: MoveAction, k: int) -> Seq<TurnOutcome>
    decreases k,
{
    if k <= 0 {
        Seq::empty()
    } else {
        let b = BuildAction { loc: gb.build_targets()[k - 1], game: gb };
        build_outcomes(gb, mv, k - 1).push(((mv, Some(b)), gb.spec_apply_build(b)))
    }
}

/// All outcomes that start with the move `mv`: the single winning entry if
/// the move wins, else one entry per legal build.
pub open spec fn move_outcome_block(g: Game<Move>, mv: MoveAction) -> Seq<TurnOutcome> {
    match g.spec_apply_move(mv) {
        ActionResult::Victory(gv) => seq![
            ((mv, Option::<BuildAction>::None), ActionResult::<Move>::Victory(gv)),
        ],
        ActionResult::Continue(gb) => build_outcomes(gb, mv, gb.build_targets().len() as int),
    }
}

/// All outcomes that start with one of the first `k` legal moves of the
/// pawn on `from`.
pub open spec fn pawn_outcomes(g: Game<Move>, from: Point, k: int) -> Seq<TurnOutcome>
    decreases k,
{
    if k <= 0 {
        Seq::empty()
    } else {
        let mv = MoveAction { from, to: g.move_targets(from)[k - 1], game: g };
        pawn_outcomes(g, from, k - 1) + move_outcome_block(g, mv)
    }
}

/// Every option the active player has in `g`, first pawn first, moves in
/// neighbor order, builds in neighbor order.
pub open spec fn turn_outcomes(g: Game<Move>) -> Seq<TurnOutcome> {
    let (a, b) = g.state.locs(g.player);
    pawn_outcomes(g, a, g.move_targets(a).len() as int) + pawn_outcomes(
        g,
        b,
        g.move_targets(b).len() as int,
    )
}

/// Whether any option of the active player ends the game at once, by
/// stepping onto a tower or by stalemating the opponent.
pub open spec fn any_victory(g: Game<Move>) -> bool {
    exists|i: int|
        0 <= i < turn_outcomes(g).len() && (#[trigger] turn_outcomes(g)[i]).1 is Victory
}

proof fn lemma_build_outcomes_index(gb: Game<Build>, mv: MoveAction, k: int)
    requires
        0 <= k <= gb.build_targets().len(),
    ensures
        build_outcomes(gb, mv, k).len() == k,
        forall|i: int|
            0 <= i < k ==> #[trigger] build_outcomes(gb, mv, k)[i] == ((
                mv,
                Some((BuildAction { loc: gb.build_targets()[i], game: gb })),
            ), gb.spec_apply_build((BuildAction { loc: gb.build_targets()[i], game: gb }))),
    decreases k,
{
    if k > 0 {
        lemma_build_outcomes_index(gb, mv, k - 1);
    }
}

/// Every entry of a move's block is a genuine option starting with that
/// move.
proof fn lemma_block_sound(g: Game<Move>, mv: MoveAction)
    requires
        mv.game == g,
        mv.valid(),
    ensures
        forall|i: int|
            0 <= i < move_outcome_block(g, mv).len() ==> outcome_ok(
                g,
                #[trigger] move_outcome_block(g, mv)[i],
            ) && move_outcome_block(g, mv)[i].0.0 == mv,
{
    lemma_spec_apply_move(g, mv);
    match g.spec_apply_move(mv) {
        ActionResult::Victory(_) => {
        },
        ActionResult::Continue(gb) => {
            lemma_build_targets(gb);
            lemma_build_outcomes_index(gb, mv, gb.build_targets().len() as int);
            assert forall|i: int|
                0 <= i < move_outcome_block(g, mv).len() implies outcome_ok(
                g,
                #[trigger] move_outcome_block(g, mv)[i],
            ) && move_outcome_block(g, mv)[i].0.0 == mv by {
                let b = BuildAction { loc: gb.build_targets()[i], game: gb };
                assert(b.valid());
            }
        },
    }
}

proof fn lemma_pawn_outcomes_sound(g: Game<Move>, from: Point, k: int)
    requires
        g.move_wf(),
        from.inv(),
        g.is_active_loc(from),
        0 <= k <= g.move_targets(from).len(),
    ensures
        forall|i: int|
            0 <= i < pawn_outcomes(g, from, k).len() ==> outcome_ok(
                g,
                #[trigger] pawn_outcomes(g, from, k)[i],
            ) && pawn_outcomes(g, from, k)[i].0.0.from == from,
    decreases k,
{
    if k > 0 {
        lemma_pawn_outcomes_sound(g, from, k - 1);
        lemma_move_targets(g, from);
        let mv = MoveAction { from, to: g.move_targets(from)[k - 1], game: g };
        assert(mv.valid());
        lemma_block_sound(g, mv);
        assert forall|i: int|
            0 <= i < pawn_outcomes(g, from, k).len() implies outcome_ok(
            g,
            #[trigger] pawn_outcomes(g, from, k)[i],
        ) && pawn_outcomes(g, from, k)[i].0.0.from == from by {
            let prev = pawn_outcomes(g, from, k - 1);
            if i < prev.len() {
                assert(pawn_outcomes(g, from, k)[i] == prev[i]);
            } else {
                assert(pawn_outcomes(g, from, k)[i] == move_outcome_block(g, mv)[i - prev.len()]);
            }
        }
    }
}

/// Soundness of the enumeration: every enumerated outcome is a genuine
/// option of the active player, produced exactly as the rules say.
#[verifier::rlimit(60)]
pub proof fn lemma_turn_outcomes_sound(g: Game<Move>)
    requires
        g.move_wf(),
    ensures
        forall|i: int|
            0 <= i < turn_outcomes(g).len() ==> outcome_ok(g, #[trigger] turn_outcomes(g)[i]),
{
    let (a, b) = g.state.locs(g.player);
    lemma_move_targets(g, a);
    lemma_move_targets(g, b);
    let na = g.move_targets(a).len() as int;
    let nb = g.move_targets(b).len() as int;
    lemma_pawn_outcomes_sound(g, a, na);
    lemma_pawn_outcomes_sound(g, b, nb);
    assert forall|i: int|
        0 <= i < turn_outcomes(g).len() implies outcome_ok(g, #[trigger] turn_outcomes(g)[i]) by {
        let pa = pawn_outcomes(g, a, na);
        let pb = pawn_outcomes(g, b, nb);
        if i < pa.len() {
            assert(turn_outcomes(g)[i] == pa[i]);
        } else {
            assert(turn_outcomes(g)[i] == pb[i - pa.len()]);
        }
    }
}

proof fn lemma_pawn_outcomes_contains(g: Game<Move>, from: Point, n: int, k: int, j: int)
    requires
        0 <= k < n,
        0 <= j < move_outcome_block(
            g,
            (MoveAction { from, to: g.move_targets(from)[k], game: g }),
        ).len(),
    ensures
        exists|i: int|
            0 <= i < pawn_outcomes(g, from, n).len() && #[trigger] pawn_outcomes(g, from, n)[i]
                == move_outcome_block(
                g,
                (MoveAction { from, to: g.move_targets(from)[k], game: g }),
            )[j],
    decreases n,
{
    let mvk = MoveAction { from, to: g.move_targets(from)[k], game: g };
    let prev = pawn_outcomes(g, from, n - 1);
    if k == n - 1 {
        assert(pawn_outcomes(g, from, n)[prev.len() + j] == move_outcome_block(g, mvk)[j]);
    } else {
        lemma_pawn_outcomes_contains(g, from, n - 1, k, j);
        let i0 = choose|i0: int|
            0 <= i0 < prev.len() && #[trigger] prev[i0] == move_outcome_block(g, mvk)[j];
        assert(pawn_outcomes(g, from, n)[i0] == move_outcome_block(g, mvk)[j]);
    }
}

/// Completeness of the enumeration: every move the rules allow, paired with
/// every build that may follow it (or with no build when the move wins),
/// occurs among the enumerated outcomes.
#[verifier::rlimit(60)]
pub proof fn lemma_turn_outcomes_complete(g: Game<Move>, mv: MoveAction, ob: Option<BuildAction>)
    requires
        g.move_wf(),
        mv.game == g,
        mv.valid(),
        match g.spec_apply_move(mv) {
            ActionResult::Victory(_) => ob is None,
            ActionResult::Continue(gb) => ob matches Some(b) && b.game == gb && b.valid(),
        },
    ensures
        exists|i: int|
            0 <= i < turn_outcomes(g).len() && (#[trigger] turn_outcomes(g)[i]).0 == (mv, ob),
{
    let (a, b) = g.state.locs(g.player);
    lemma_move_targets(g, a);
    lemma_move_targets(g, b);
    let na = g.move_targets(a).len() as int;
    let nb = g.move_targets(b).len() as int;
    let from = mv.from;
    assert(from == a || from == b);
    let n = if from == a {
        na
    } else {
        nb
    };
    assert(g.move_targets(from).contains(mv.to));
    let k = choose|k: int| 0 <= k < g.move_targets(from).len() && g.move_targets(from)[k] == mv.to;
    let mvk = MoveAction { from, to: g.move_targets(from)[k], game: g };
    assert(mvk == mv);
    let j: int = match g.spec_apply_move(mv) {
        ActionResult::Victory(_) => 0,
        ActionResult::Continue(gb) => {
            let bb = ob->Some_0;
            lemma_build_targets(gb);
            assert(gb.build_targets().contains(bb.loc));
            let j = choose|j: int|
                0 <= j < gb.build_targets().len() && gb.build_targets()[j] == bb.loc;
            lemma_build_outcomes_index(gb, mv, gb.build_targets().len() as int);
            assert((BuildAction { loc: gb.build_targets()[j], game: gb }) == bb);
            assert(move_outcome_block(g, mv)[j].0 == (mv, ob));
            j
        },
    };
    assert(move_outcome_block(g, mv)[j].0 == (mv, ob));
    lemma_pawn_outcomes_contains(g, from, n, k, j);
    let i0 = choose|i0: int|
        0 <= i0 < pawn_outcomes(g, from, n).len() && #[trigger] pawn_outcomes(g, from, n)[i0]
            == move_outcome_block(g, mvk)[j];
    let pa = pawn_outcomes(g, a, na);
    if from == a {
        assert(turn_outcomes(g)[i0] == pa[i0]);
        assert((turn_outcomes(g)[i0]).0 == (mv, ob));
    } else {
        assert(turn_outcomes(g)[pa.len() + i0] == pawn_outcomes(g, b, nb)[i0]);
        assert((turn_outcomes(g)[pa.len() + i0]).0 == (mv, ob));
    }
}

proof fn lemma_block_distinct(g: Game<Move>, mv: MoveAction)
    requires
        mv.game == g,
        mv.valid(),
    ensures
        forall|i: int, j: int|
            0 <= i < j < move_outcome_block(g, mv).len() ==> (#[trigger] move_outcome_block(
                g,
                mv,
            )[i]).0 != (#[trigger] move_outcome_block(g, mv)[j]).0,
{
    lemma_spec_apply_move(g, mv);
    match g.spec_apply_move(mv) {
        ActionResult::Victory(_) => {
        },
        ActionResult::Continue(gb) => {
            lemma_build_targets(gb);
            lemma_build_outcomes_index(gb, mv, gb.build_targets().len() as int);
        },
    }
}

#[verifier::rlimit(60)]
proof fn lemma_pawn_outcomes_distinct(g: Game<Move>, from: Point, k: int)
    requires
        g.move_wf(),
        from.inv(),
        g.is_active_loc(from),
        0 <= k <= g.move_targets(from).len(),
    ensures
        forall|i: int|
            0 <= i < pawn_outcomes(g, from, k).len() ==> exists|m: int|
                0 <= m < k && (#[trigger] pawn_outcomes(g, from, k)[i]).0.0.to
                    == g.move_targets(from)[m],
        forall|i: int, j: int|
            0 <= i < j < pawn_outcomes(g, from, k).len() ==> (#[trigger] pawn_outcomes(
                g,
                from,
                k,
            )[i]).0 != (#[trigger] pawn_outcomes(g, from, k)[j]).0,
    decreases k,
{
    if k > 0 {
        lemma_pawn_outcomes_distinct(g, from, k - 1);
        lemma_move_targets(g, from);
        let mv = MoveAction { from, to: g.move_targets(from)[k - 1], game: g };
        assert(mv.valid());
        lemma_block_sound(g, mv);
        lemma_block_distinct(g, mv);
        let prev = pawn_outcomes(g, from, k - 1);
        let blk = move_outcome_block(g, mv);
        let cur = pawn_outcomes(g, from, k);
        assert forall|i: int|
            0 <= i < cur.len() implies exists|m: int|
            0 <= m < k && (#[trigger] cur[i]).0.0.to == g.move_targets(from)[m] by {
            if i < prev.len() {
                assert(cur[i] == prev[i]);
                let m0 = choose|m0: int|
                    0 <= m0 < k - 1 && (#[trigger] prev[i]).0.0.to == g.move_targets(from)[m0];
                assert(0 <= m0 < k && cur[i].0.0.to == g.move_targets(from)[m0]);
            } else {
                assert(cur[i] == blk[i - prev.len()]);
                assert(cur[i].0.0 == mv);
                assert(0 <= k - 1 < k && cur[i].0.0.to == g.move_targets(from)[k - 1]);
            }
        }
        assert forall|i: int, j: int|
            0 <= i < j < cur.len() implies (#[trigger] cur[i]).0 != (#[trigger] cur[j]).0 by {
            if j < prev.len() {
                assert(cur[i] == prev[i] && cur[j] == prev[j]);
            } else if i >= prev.len() {
                assert(cur[i] == blk[i - prev.len()] && cur[j] == blk[j - prev.len()]);
            } else {
                assert(cur[i] == prev[i] && cur[j] == blk[j - prev.len()]);
                let m0 = choose|m0: int|
                    0 <= m0 < k - 1 && (#[trigger] prev[i]).0.0.to == g.move_targets(from)[m0];
                assert(g.move_targets(from)[m0] != g.move_targets(from)[k - 1]);
                assert(cur[j].0.0 == mv);
            }
        }
    }
}

/// The enumeration repeats no `(move, build)` pair.
#[verifier::rlimit(60)]
pub proof fn lemma_turn_outcomes_distinct(g: Game<Move>)
    requires
        g.move_wf(),
    ensures
        forall|i: int, j: int|
            0 <= i < j < turn_outcomes(g).len() ==> (#[trigger] turn_outcomes(g)[i]).0 != (
            #[trigger] turn_outcomes(g)[j]).0,
{
    let (a, b) = g.state.locs(g.player);
    let na = g.move_targets(a).len() as int;
    let nb = g.move_targets(b).len() as int;
    lemma_pawn_outcomes_distinct(g, a, na);
    lemma_pawn_outcomes_distinct(g, b, nb);
    lemma_pawn_outcomes_sound(g, a, na);
    lemma_pawn_outcomes_sound(g, b, nb);
    let pa = pawn_outcomes(g, a, na);
    let pb = pawn_outcomes(g, b, nb);
    assert(a.offset() != b.offset());
    assert forall|i: int, j: int|
        0 <= i < j < turn_outcomes(g).len() implies (#[trigger] turn_outcomes(g)[i]).0 != (
    #[trigger] turn_outcomes(g)[j]).0 by {
        if j < pa.len() {
            assert(turn_outcomes(g)[i] == pa[i] && turn_outcomes(g)[j] == pa[j]);
        } else if i >= pa.len() {
            assert(turn_outcomes(g)[i] == pb[i - pa.len()] && turn_outcomes(g)[j] == pb[j
                - pa.len()]);
        } else {
            assert(turn_outcomes(g)[i] == pa[i] && turn_outcomes(g)[j] == pb[j - pa.len()]);
            assert(pa[i].0.0.from == a && pb[j - pa.len()].0.0.from == b);
        }
    }
}

/// Applying equal actions to equal snapshots yields equal outcomes: a
/// replay on a cloned snapshot cannot diverge.
pub proof fn lemma_apply_deterministic(
    g1: Game<Move>,
    g2: Game<Move>,
    a1: MoveAction,
    a2: MoveAction,
    b1: BuildAction,
    b2: BuildAction,
)
    requires
        g1 == g2,
        a1 == a2,
        b1 == b2,
    ensures
        g1.spec_apply_move(a1) == g2.spec_apply_move(a2),
        b1.game.spec_apply_build(b1) == b2.game.spec_apply_build(b2),
{
}

/// Every move leaves at least one option behind: the winning entry, or at
/// worst a build on the cell the pawn vacated.
proof fn lemma_block_nonempty(g: Game<Move>, mv: MoveAction)
    requires
        mv.game == g,
        mv.valid(),
    ensures
        move_outcome_block(g, mv).len() >= 1,
{
    lemma_spec_apply_move(g, mv);
    match g.spec_apply_move(mv) {
        ActionResult::Victory(_) => {
        },
        ActionResult::Continue(gb) => {
            lemma_point_bounds(mv.from);
            lemma_point_bounds(mv.to);
            assert(!gb.occupied(mv.from.offset()));
            assert(mv.to.spec_distance(mv.from) == 1);
            assert(gb.build_ok(mv.from));
            lemma_build_targets(gb);
            assert(gb.build_targets().contains(mv.from));
        },
    }
}

/// The first `k` moves of a pawn yield at least `k` outcomes.
proof fn lemma_pawn_outcomes_len(g: Game<Move>, from: Point, k: int)
    requires
        g.move_wf(),
        from.inv(),
        g.is_active_loc(from),
        0 <= k <= g.move_targets(from).len(),
    ensures
        pawn_outcomes(g, from, k).len() >= k,
    decreases k,
{
    if k > 0 {
        lemma_pawn_outcomes_len(g, from, k - 1);
        lemma_move_targets(g, from);
        let mv = MoveAction { from, to: g.move_targets(from)[k - 1], game: g };
        assert(mv.valid());
        lemma_block_nonempty(g, mv);
    }
}

/// A player that can move has at least one full option to enumerate.
proof fn lemma_turn_outcomes_nonempty(g: Game<Move>)
    requires
        g.move_wf(),
        g.can_move_any(),
    ensures
        turn_outcomes(g).len() >= 1,
{
    let (a, b) = g.state.locs(g.player);
    lemma_move_targets(g, a);
    lemma_move_targets(g, b);
    if g.has_move_from(a) {
        let to = choose|to: Point| #[trigger] g.move_ok(a, to) && to.inv();
        assert(g.move_targets(a).contains(to));
        lemma_pawn_outcomes_len(g, a, g.move_targets(a).len() as int);
    } else {
        let to = choose|to: Point| #[trigger] g.move_ok(b, to) && to.inv();
        assert(g.move_targets(b).contains(to));
        lemma_pawn_outcomes_len(g, b, g.move_targets(b).len() as int);
    }
}

/// Every continuing option adds exactly one level to the board.
proof fn lemma_outcome_total(g: Game<Move>, e: TurnOutcome)
    requires
        outcome_ok(g, e),
        e.1 is Continue,
    ensures
        total_height((e.1->Continue_0).board) == total_height(g.board) + 1,
{
    let mv = e.0.0;
    lemma_spec_apply_move(g, mv);
    match g.spec_apply_move(mv) {
        ActionResult::Victory(_) => {
        },
        ActionResult::Continue(gb) => {
            let b = e.0.1->Some_0;
            lemma_spec_apply_build(gb, b);
            lemma_point_bounds(b.loc);
            let (x, y, z, w) = gb.loc4();
            lemma_point_bounds(x);
            lemma_point_bounds(y);
            lemma_point_bounds(z);
            lemma_point_bounds(w);
            assert(!gb.occupied(b.loc.offset()));
            lemma_board_spec_build(gb.board, b.loc);
            lemma_total_height_build(
                gb.board,
                gb.board.spec_build(b.loc.offset()),
                b.loc.offset(),
            );
        },
    }
}

/// Append every outcome that starts with a move of `pawn`.
#[verifier::loop_isolation(false)]
fn pawn_outcomes_into(game: &Game<Move>, pawn: &Pawn<Move>, out: &mut Vec<TurnOutcome>)
    requires
        game.move_wf(),
        pawn.wf(),
        pawn.game == *game,
        pawn.player == game.player,
    ensures
        final(out)@ == old(out)@ + pawn_outcomes(
            *game,
            pawn.pos,
            game.move_targets(pawn.pos).len() as int,
        ),
        forall|k: int|
            old(out)@.len() <= k < final(out)@.len() ==> outcome_wf(
                *game,
                #[trigger] final(out)@[k],
            ),
{
    proof {
        use_type_invariant(pawn.pos);
        lemma_move_targets(*game, pawn.pos);
    }
    let moves = pawn.actions();
    proof {
        assert(out@ =~= old(out)@ + pawn_outcomes(*game, pawn.pos, 0));
    }
    let mut i: usize = 0;
    while i < moves.len()
        invariant
            i <= moves@.len(),
            out@ == old(out)@ + pawn_outcomes(*game, pawn.pos, i as int),
            forall|k: int|
                old(out)@.len() <= k < out@.len() ==> outcome_wf(*game, #[trigger] out@[k]),
        decreases moves@.len() - i,
    {
        let mv = moves[i];
        match (*game).apply(mv) {
            ActionResult::Victory(gv) => {
                out.push(((mv, None), ActionResult::Victory(gv)));
                proof {
                    assert(move_outcome_block(*game, mv) == seq![
                        ((mv, Option::<BuildAction>::None), ActionResult::<Move>::Victory(gv)),
                    ]);
                    assert(out@ =~= old(out)@ + pawn_outcomes(*game, pawn.pos, i as int + 1));
                }
            },
            ActionResult::Continue(gb) => {
                proof {
                    lemma_build_targets(gb);
                    assert(out@ =~= old(out)@ + pawn_outcomes(*game, pawn.pos, i as int)
                        + build_outcomes(gb, mv, 0));
                }
                let builds = gb.active_pawn().actions();
                let mut j: usize = 0;
                while j < builds.len()
                    invariant
                        j <= builds@.len(),
                        out@ == old(out)@ + pawn_outcomes(*game, pawn.pos, i as int)
                            + build_outcomes(gb, mv, j as int),
                        forall|k: int|
                            old(out)@.len() <= k < out@.len() ==> outcome_wf(
                                *game,
                                #[trigger] out@[k],
                            ),
                    decreases builds@.len() - j,
                {
                    let b = builds[j];
                    let res = gb.apply(b);
                    out.push(((mv, Some(b)), res));
                    proof {
                        assert(out@ =~= old(out)@ + pawn_outcomes(*game, pawn.pos, i as int)
                            + build_outcomes(gb, mv, j as int + 1));
                    }
                    j += 1;
                }
                proof {
                    assert(build_outcomes(gb, mv, builds@.len() as int) == move_outcome_block(
                        *game,
                        mv,
                    ));
                    assert(out@ =~= old(out)@ + pawn_outcomes(*game, pawn.pos, i as int + 1));
                }
            },
        }
        i += 1;
    }
}

/// Every `(move, build)` option of the active player, with its outcome, in
/// enumeration order.
pub fn possible_actions(game: &Game<Move>) -> (r: Vec<TurnOutcome>)
    requires
        game.move_wf(),
    ensures
        r@ == turn_outcomes(*game),
        forall|i: int| 0 <= i < r@.len() ==> outcome_wf(*game, #[trigger] r@[i]),
{
    let mut out: Vec<TurnOutcome> = Vec::new();
    let pawns = game.active_pawns();
    pawn_outcomes_into(game, &pawns[0], &mut out);
    pawn_outcomes_into(game, &pawns[1], &mut out);
    proof {
        assert(out@ =~= turn_outcomes(*game));
    }
    out
}

/// The search node an outcome leads to.
pub open spec fn node_of_outcome(e: TurnOutcome) -> SantoriniNode {
    SantoriniNode {
        mv: Some(e.0.0),
        build: e.0.1,
        game: match e.1 {
            ActionResult::Continue(gm) => NodeState::Move(gm),
            ActionResult::Victory(gv) => NodeState::Victory(gv.player),
        },
    }
}

/// The search nodes of the first `k` outcomes of `s`.
pub open spec fn nodes_of(s: Seq<TurnOutcome>, k: int) -> Seq<SantoriniNode>
    decreases k,
{
    if k <= 0 {
        Seq::empty()
    } else {
        nodes_of(s, k - 1).push(node_of_outcome(s[k - 1]))
    }
}

proof fn lemma_nodes_of_index(s: Seq<TurnOutcome>, k: int)
    requires
        0 <= k <= s.len(),
    ensures
        nodes_of(s, k).len() == k,
        forall|i: int| 0 <= i < k ==> #[trigger] nodes_of(s, k)[i] == node_of_outcome(s[i]),
    decreases k,
{
    if k > 0 {
        lemma_nodes_of_index(s, k - 1);
    }
}

/// Every child the expansion policy yields is itself a well-formed search
/// node, so playouts and further expansions may start from it.
pub proof fn lemma_expansion_children_wf(g: Game<Move>)
    requires
        g.move_wf(),
    ensures
        forall|i: int|
            0 <= i < turn_outcomes(g).len() ==> (#[trigger] nodes_of(
                turn_outcomes(g),
                turn_outcomes(g).len() as int,
            )[i]).wf(),
{
    let s = turn_outcomes(g);
    lemma_turn_outcomes_sound(g);
    lemma_nodes_of_index(s, s.len() as int);
    assert forall|i: int|
        0 <= i < s.len() implies (#[trigger] nodes_of(s, s.len() as int)[i]).wf() by {
        let e = s[i];
        let mv = e.0.0;
        lemma_spec_apply_move(g, mv);
        match g.spec_apply_move(mv) {
            ActionResult::Victory(_) => {
            },
            ActionResult::Continue(gb) => {
                let b = e.0.1->Some_0;
                lemma_spec_apply_build(gb, b);
            },
        }
    }
}

/// The expansion policy: one child per `(move, build)` option.
pub struct SantoriniExpansion {}

impl Expansion<SantoriniNode> for SantoriniExpansion {
    open spec fn pre(&self, state: SantoriniNode) -> bool {
        state.wf()
    }

    open spec fn spec_expand(&self, state: SantoriniNode) -> Seq<SantoriniNode> {
        match state.game {
            NodeState::Victory(_) => Seq::empty(),
            NodeState::Move(g) => nodes_of(turn_outcomes(g), turn_outcomes(g).len() as int),
        }
    }

    #[verifier::loop_isolation(false)]
    fn expand(&self, state: &SantoriniNode) -> (r: Vec<SantoriniNode>) {
        match state.game {
            NodeState::Victory(_) => Vec::new(),
            NodeState::Move(g) => {
                let entries = possible_actions(&g);
                let mut out: Vec<SantoriniNode> = Vec::new();
                let mut i: usize = 0;
                while i < entries.len()
                    invariant
                        i <= entries@.len(),
                        out@ == nodes_of(entries@, i as int),
                    decreases entries@.len() - i,
                {
                    let e = entries[i];
                    let child = SantoriniNode {
                        mv: Some(e.0.0),
                        build: e.0.1,
                        game: match e.1 {
                            ActionResult::Continue(gm) => NodeState::Move(gm),
                            ActionResult::Victory(gv) => NodeState::Victory(gv.player()),
                        },
                    };
                    out.push(child);
                    i += 1;
                }
                out
            },
        }
    }
}

/// What a playout step found: a winning option for the player to move, or
/// a randomly chosen continuation.
enum PossibleAction {
    Victory,
    Continue(Game<Move>),
}

/// Scan the active player's options in enumeration order; report a win as
/// soon as any option wins, and otherwise pick one continuation uniformly
/// at random by reservoir sampling.
#[verifier::loop_isolation(false)]
fn find_action(game: Game<Move>, rng: &mut SeededRng) -> (r: PossibleAction)
    requires
        game.move_wf(),
    ensures
        r is Victory <==> any_victory(game),
        r matches PossibleAction::Continue(g2) ==> g2.move_wf(),
        (game.can_move_any() && !any_victory(game)) ==> (r matches PossibleAction::Continue(g2)
            && g2.can_move_any() && total_height(g2.board) == total_height(game.board) + 1),
{
    let entries = possible_actions(&game);
    let mut choice = game;
    let mut count: u64 = 0;
    let mut i: usize = 0;
    while i < entries.len()
        invariant
            i <= entries@.len(),
            count <= i,
            i > 0 ==> count >= 1,
            count == 0 ==> choice == game,
            count >= 1 ==> choice.move_wf() && choice.can_move_any() && total_height(choice.board)
                == total_height(game.board) + 1,
            choice.move_wf(),
            forall|k: int| 0 <= k < i ==> !((#[trigger] entries@[k]).1 is Victory),
        decreases entries@.len() - i,
    {
        let e = entries[i];
        match e.1 {
            ActionResult::Victory(_) => {
                proof {
                    assert((turn_outcomes(game)[i as int]).1 is Victory);
                }
                return PossibleAction::Victory;
            },
            ActionResult::Continue(g2) => {
                proof {
                    assert(outcome_wf(game, entries@[i as int]));
                    lemma_outcome_total(game, entries@[i as int]);
                }
                count = count + 1;
                if rng.gen_below(count) == 0 {
                    choice = g2;
                }
            },
        }
        i += 1;
    }
    proof {
        if any_victory(game) {
            let k = choose|k: int|
                0 <= k < turn_outcomes(game).len() && (#[trigger] turn_outcomes(game)[k]).1
                    is Victory;
            assert(!(entries@[k].1 is Victory));
        }
        if game.can_move_any() {
            lemma_turn_outcomes_nonempty(game);
        }
    }
    PossibleAction::Continue(choice)
}

/// The semi-greedy random playout policy.
pub struct SantoriniSimulation {}

impl SantoriniSimulation {
    /// Move for each player until the game ends: take a winning option the
    /// moment one exists, and otherwise play a uniformly random one.
    ///
    /// Returns -1 if the player to move in the starting snapshot wins and
    /// +1 if the other player wins -- that is, +1 means the player who
    /// *moved into* the starting state wins, which is the perspective the
    /// search scores nodes from.  A node that is already a win scores +1.
    #[verifier::loop_isolation(false)]
    pub fn simulate(&self, state: &SantoriniNode, rng: &mut SeededRng) -> (r: i32)
        requires
            state.wf(),
        ensures
            r == 1 || r == -1,
            state.game is Victory ==> r == 1,
            state.game matches NodeState::Move(g) && any_victory(g) ==> r == -1,
    {
        let mut game = match state.game {
            NodeState::Victory(_) => {
                return 1;
            },
            NodeState::Move(g) => g,
        };
        let ghost start = game;
        let player = game.player();
        loop
            invariant
                game.move_wf(),
                game.can_move_any(),
                any_victory(start) ==> game == start && player == game.player,
            decreases 100 - total_height(game.board),
        {
            proof {
                lemma_total_height_bound(game.board);
            }
            match find_action(game, rng) {
                PossibleAction::Victory => {
                    return if game.player() == player {
                        -1
                    } else {
                        1
                    };
                },
                PossibleAction::Continue(choice) => {
                    proof {
                        lemma_total_height_bound(choice.board);
                    }
                    game = choice;
                },
            }
        }
    }
}

/// Search the options of `previous` in random order for one that the
/// opponent cannot answer with an immediate win.
#[verifier::loop_isolation(false)]
fn find_blocking_action(previous: Game<Move>, rng: &mut SeededRng) -> (r: Option<
    (Game<Move>, Game<Move>),
>)
    requires
        previous.move_wf(),
        !any_victory(previous),
    ensures
        r matches Some(p) ==> p.0.move_wf() && p.0.can_move_any() && !any_victory(p.0)
            && total_height(p.0.board) == total_height(previous.board) + 1 && p.1.move_wf()
            && p.1.can_move_any() && total_height(p.1.board) == total_height(p.0.board) + 1,
{
    broadcast use vstd::seq_lib::group_to_multiset_ensures;

    let mut actions = possible_actions(&previous);
    let ghost orig = actions@;
    rng.shuffle_outcomes(&mut actions);
    proof {
        assert forall|k: int|
            0 <= k < actions@.len() implies outcome_wf(previous, #[trigger] actions@[k]) && !(
        actions@[k].1 is Victory) by {
            assert(actions@.contains(actions@[k]));
            assert(actions@.to_multiset().count(actions@[k]) > 0);
            assert(orig.contains(actions@[k]));
            let j = choose|j: int| 0 <= j < orig.len() && orig[j] == actions@[k];
            assert(outcome_wf(previous, orig[j]));
            assert(!((#[trigger] turn_outcomes(previous)[j]).1 is Victory));
        }
    }
    let mut i: usize = 0;
    while i < actions.len()
        invariant
            i <= actions@.len(),
            forall|k: int|
                0 <= k < actions@.len() ==> outcome_wf(previous, #[trigger] actions@[k]) && !(
                actions@[k].1 is Victory),
        decreases actions@.len() - i,
    {
        let e = actions[i];
        // No option of `previous` wins outright, so each one continues.
        let new_game = e.1.unwrap();
        proof {
            lemma_outcome_total(previous, actions@[i as int]);
        }
        match find_action(new_game, rng) {
            PossibleAction::Victory => {},
            PossibleAction::Continue(choice) => {
                return Some((new_game, choice));
            },
        }
        i += 1;
    }
    None
}

/// The playout variant that backtracks one ply when the opponent has an
/// immediate winning reply, looking for a blocking line instead.
pub struct ExtendedSantoriniSimulation {}

impl ExtendedSantoriniSimulation {
    /// Like `SantoriniSimulation`, but before accepting a loss the playout
    /// backs up one move and searches, in random order, for a reply that
    /// denies the opponent the win; only a win with no blocking line ends
    /// the playout.  The score convention is the same.
    #[verifier::loop_isolation(false)]
    pub fn simulate(&self, state: &SantoriniNode, rng: &mut SeededRng) -> (r: i32)
        requires
            state.wf(),
        ensures
            r == 1 || r == -1,
            state.game is Victory ==> r == 1,
            state.game matches NodeState::Move(g) && any_victory(g) ==> r == -1,
    {
        let mut game = match state.game {
            NodeState::Victory(_) => {
                return 1;
            },
            NodeState::Move(g) => g,
        };
        let player = game.player();
        let mut previous = game;
        match find_action(game, rng) {
            PossibleAction::Victory => {
                return if game.player() == player {
                    -1
                } else {
                    1
                };
            },
            PossibleAction::Continue(choice) => {
                game = choice;
            },
        }
        loop
            invariant
                game.move_wf(),
                game.can_move_any(),
                previous.move_wf(),
                previous.can_move_any(),
                !any_victory(previous),
                total_height(game.board) == total_height(previous.board) + 1,
            decreases 100 - total_height(game.board),
        {
            proof {
                lemma_total_height_bound(game.board);
                lemma_total_height_bound(previous.board);
            }
            match find_action(game, rng) {
                PossibleAction::Continue(choice) => {
                    proof {
                        lemma_total_height_bound(choice.board);
                    }
                    previous = game;
                    game = choice;
                },
                PossibleAction::Victory => {
                    match find_blocking_action(previous, rng) {
                        Some(pair) => {
                            proof {
                                lemma_total_height_bound(pair.1.board);
                            }
                            previous = pair.0;
                            game = pair.1;
                        },
                        None => {
                            return if game.player() == player {
                                -1
                            } else {
                                1
                            };
                        },
                    }
                },
            }
        }
    }
}

} // verus!
