use santorini_ai::santorini::new_game;
use santorini_ai::santorini::ActionResult;
use santorini_ai::santorini::Game;
use santorini_ai::santorini::Move;
use santorini_ai::santorini::Player;
use santorini_ai::santorini::Point;

fn mid_game() -> Game<Move> {
    let g = new_game();
    let a = g
        .can_place(Point::new(1.into(), 1.into()), Point::new(2.into(), 1.into()))
        .expect("Invalid placement!");
    let g = g.apply(a);
    let a = g
        .can_place(Point::new(1.into(), 2.into()), Point::new(2.into(), 2.into()))
        .expect("Invalid placement!");
    g.apply(a)
}

#[test]
fn place_place_move() {
    let g = new_game();
    let a = g
        .can_place(Point::new(0.into(), 0.into()), Point::new(4.into(), 4.into()))
        .expect("Invalid placement!");
    let g = g.apply(a);
    let a = g
        .can_place(Point::new(2.into(), 4.into()), Point::new(3.into(), 1.into()))
        .expect("Invalid placement!");
    let g = g.apply(a);
    assert_eq!(g.player(), Player::PlayerOne);
    let [p0, _] = g.active_pawns();
    let targets: Vec<Point> = p0.actions().iter().map(|m| m.to()).collect();
    assert_eq!(
        targets,
        vec![
            Point::new(1.into(), 0.into()),
            Point::new(0.into(), 1.into()),
            Point::new(1.into(), 1.into()),
        ]
    );
}

#[test]
fn player_other_involution() {
    assert_eq!(Player::PlayerOne.other().other(), Player::PlayerOne);
    assert_eq!(Player::PlayerTwo.other().other(), Player::PlayerTwo);
    assert_ne!(Player::PlayerOne.other(), Player::PlayerOne);
}

#[test]
fn player_iter_lists_both() {
    assert_eq!(Player::iter(), [Player::PlayerOne, Player::PlayerTwo]);
}

#[test]
fn enumerated_moves_pass_can_move() {
    let g = mid_game();
    let [p0, p1] = g.active_pawns();
    let mut total = 0;
    for pawn in [p0, p1] {
        for mv in pawn.actions() {
            assert!(pawn.can_move(mv.to()).is_some());
            assert_eq!(mv.from(), pawn.pos());
            total += 1;
        }
    }
    assert!(total > 0);
    let [q0, q1] = g.inactive_pawns();
    assert_eq!(q0.actions().len(), 0);
    assert_eq!(q1.actions().len(), 0);
}

#[test]
fn build_flips_player_or_ends() {
    let g = mid_game();
    let [p0, _] = g.active_pawns();
    let mv = p0.actions()[0];
    let gb = g.apply(mv).expect("Invalid victory!");
    let before = gb.player();
    let b = gb.active_pawn().actions()[0];
    match gb.apply(b) {
        ActionResult::Continue(g2) => {
            assert_eq!(g2.player(), before.other());
            let [q0, q1] = g2.active_pawns();
            assert!(q0.has_actions() || q1.has_actions());
        }
        ActionResult::Victory(gv) => assert_eq!(gv.player(), before),
    }
}

#[test]
fn reapply_on_clone_is_identical() {
    let g = mid_game();
    let [p0, _] = g.active_pawns();
    let mv = p0.actions()[0];
    let r1 = g.clone().apply(mv);
    let r2 = g.clone().apply(mv);
    assert_eq!(r1, r2);
    if let ActionResult::Continue(gb) = r1 {
        let b = gb.active_pawn().actions()[0];
        assert_eq!(gb.clone().apply(b), gb.clone().apply(b));
    }
}

#[test]
fn resign_flips_winner() {
    let g = mid_game();
    let v = g.resign();
    assert_eq!(v.player(), g.player().other());
    assert_eq!(v.board(), g.board());
}
