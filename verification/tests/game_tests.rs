use santorini_ai::santorini::new_game;
use santorini_ai::santorini::ActionResult;
use santorini_ai::santorini::BuildAction;
use santorini_ai::santorini::MoveAction;
use santorini_ai::santorini::Player;
use santorini_ai::santorini::Point;

#[test]
fn place_one() {
    let g = new_game();
    assert_eq!(Player::PlayerOne, g.player());

    let pt1 = Point::new(0.into(), 0.into());
    assert_eq!(None, g.can_place(pt1, pt1));

    let pt2 = Point::new(1.into(), 1.into());
    assert_ne!(None, g.can_place(pt1, pt2));
}

#[test]
fn place_two() {
    let g = new_game();
    let pt1 = Point::new(0.into(), 3.into());
    let pt2 = Point::new(1.into(), 2.into());
    let pt3 = Point::new(2.into(), 1.into());
    let pt4 = Point::new(3.into(), 0.into());

    let placement = g.can_place(pt1, pt2).expect("Invalid placement!");
    let g = g.apply(placement);
    assert_eq!(Player::PlayerTwo, g.player());

    assert_eq!(None, g.can_place(pt3, pt3));
    assert_eq!(None, g.can_place(pt1, pt3));
    assert_eq!(None, g.can_place(pt3, pt2));
    assert_ne!(None, g.can_place(pt3, pt4));
}

#[test]
fn pawn_reporting() {
    let g = new_game();
    let pt1 = Point::new(0.into(), 0.into());
    let pt2 = Point::new(4.into(), 4.into());
    let pt3 = Point::new(2.into(), 4.into());
    let pt4 = Point::new(3.into(), 1.into());

    let action = g.can_place(pt1, pt2).expect("Invalid placement!");
    let g = g.apply(action);
    let action = g.can_place(pt3, pt4).expect("Invalid placement!");
    let g = g.apply(action);
    assert_eq!(Player::PlayerOne, g.player());

    let [pawn1, pawn2] = g.active_pawns();
    assert_eq!(pawn1.pos(), pt1);
    assert_eq!(pawn2.pos(), pt2);
    let [pawn3, pawn4] = g.inactive_pawns();
    assert_eq!(pawn3.pos(), pt3);
    assert_eq!(pawn4.pos(), pt4);

    let [pawn1, pawn2] = g.active_pawns();
    assert_eq!(pawn1.pos(), pt1);
    assert_eq!(pawn2.pos(), pt2);
    let [pawn3, pawn4] = g.inactive_pawns();
    assert_eq!(pawn3.pos(), pt3);
    assert_eq!(pawn4.pos(), pt4);

    let pt5 = Point::new(0.into(), 1.into());
    let action = pawn1.can_move(pt5).expect("Invalid move!");
    let g = g.apply(action).expect("Invalid victory!");
    assert_eq!(Player::PlayerOne, g.player());

    let [pawn1, pawn2] = g.active_pawns();
    assert_eq!(pawn1.pos(), pt5);
    assert_eq!(pawn2.pos(), pt2);
    let [pawn3, pawn4] = g.inactive_pawns();
    assert_eq!(pawn3.pos(), pt3);
    assert_eq!(pawn4.pos(), pt4);

    let [pawn1, pawn2] = g.active_pawns();
    assert_eq!(pawn1.pos(), pt5);
    assert_eq!(pawn2.pos(), pt2);
    let [pawn3, pawn4] = g.inactive_pawns();
    assert_eq!(pawn3.pos(), pt3);
    assert_eq!(pawn4.pos(), pt4);

    let action = pawn1.can_build(pt1).expect("Invalid build!");
    let g = g.apply(action).expect("Invalid victory!");
    assert_eq!(Player::PlayerTwo, g.player());

    let [pawn1, pawn2] = g.inactive_pawns();
    assert_eq!(pawn1.pos(), pt5);
    assert_eq!(pawn2.pos(), pt2);
    let [pawn3, pawn4] = g.active_pawns();
    assert_eq!(pawn3.pos(), pt3);
    assert_eq!(pawn4.pos(), pt4);

    let [pawn3, pawn4] = g.active_pawns();
    assert_eq!(pawn3.pos(), pt3);
    assert_eq!(pawn4.pos(), pt4);
    let [pawn1, pawn2] = g.inactive_pawns();
    assert_eq!(pawn1.pos(), pt5);
    assert_eq!(pawn2.pos(), pt2);
}

#[test]
fn neighbors() {
    let g = new_game();
    let pt1 = Point::new(0.into(), 0.into());
    let pt2 = Point::new(4.into(), 4.into());
    let pt3 = Point::new(2.into(), 4.into());
    let pt4 = Point::new(3.into(), 1.into());

    let action = g.can_place(pt1, pt2).expect("Invalid placement!");
    let g = g.apply(action);
    let action = g.can_place(pt3, pt4).expect("Invalid placement!");
    let g = g.apply(action);

    let [pawn1, pawn2] = g.active_pawns();
    let [pawn3, pawn4] = g.inactive_pawns();

    let neighbors1 = [
        Point::new(1.into(), 0.into()),
        Point::new(0.into(), 1.into()),
        Point::new(1.into(), 1.into()),
    ];
    let neighbors2 = [
        Point::new(3.into(), 3.into()),
        Point::new(4.into(), 3.into()),
        Point::new(3.into(), 4.into()),
    ];
    let neighbors3 = [
        Point::new(1.into(), 3.into()),
        Point::new(2.into(), 3.into()),
        Point::new(3.into(), 3.into()),
        Point::new(1.into(), 4.into()),
        Point::new(3.into(), 4.into()),
    ];
    let neighbors4 = [
        Point::new(2.into(), 0.into()),
        Point::new(3.into(), 0.into()),
        Point::new(4.into(), 0.into()),
        Point::new(2.into(), 1.into()),
        Point::new(4.into(), 1.into()),
        Point::new(2.into(), 2.into()),
        Point::new(3.into(), 2.into()),
        Point::new(4.into(), 2.into()),
    ];

    assert_eq!(pawn1.neighbors(), neighbors1);
    assert_eq!(pawn2.neighbors(), neighbors2);
    assert_eq!(pawn3.neighbors(), neighbors3);
    assert_eq!(pawn4.neighbors(), neighbors4);
}

#[test]
fn move_actions() {
    let g = new_game();
    let pt1 = Point::new(0.into(), 0.into());
    let pt2 = Point::new(3.into(), 1.into());
    let pt3 = Point::new(4.into(), 4.into());
    let pt4 = Point::new(0.into(), 3.into());

    let action = g.can_place(pt1, pt2).expect("Invalid placement!");
    let g = g.apply(action);
    let action = g.can_place(pt3, pt4).expect("Invalid placement!");
    let g = g.apply(action);

    let [pawn1, pawn2] = g.active_pawns();
    let [pawn3, pawn4] = g.inactive_pawns();

    let moves1 = [
        MoveAction {
            from: pt1,
            to: Point::new(1.into(), 0.into()),
            game: g,
        },
        MoveAction {
            from: pt1,
            to: Point::new(0.into(), 1.into()),
            game: g,
        },
        MoveAction {
            from: pt1,
            to: Point::new(1.into(), 1.into()),
            game: g,
        },
    ];
    let moves2 = [
        MoveAction {
            from: pt2,
            to: Point::new(2.into(), 0.into()),
            game: g,
        },
        MoveAction {
            from: pt2,
            to: Point::new(3.into(), 0.into()),
            game: g,
        },
        MoveAction {
            from: pt2,
            to: Point::new(4.into(), 0.into()),
            game: g,
        },
        MoveAction {
            from: pt2,
            to: Point::new(2.into(), 1.into()),
            game: g,
        },
        MoveAction {
            from: pt2,
            to: Point::new(4.into(), 1.into()),
            game: g,
        },
        MoveAction {
            from: pt2,
            to: Point::new(2.into(), 2.into()),
            game: g,
        },
        MoveAction {
            from: pt2,
            to: Point::new(3.into(), 2.into()),
            game: g,
        },
        MoveAction {
            from: pt2,
            to: Point::new(4.into(), 2.into()),
            game: g,
        },
    ];

    assert_eq!(pawn1.actions(), moves1);
    assert_eq!(pawn2.actions(), moves2);
    assert_eq!(pawn3.actions(), []);
    assert_eq!(pawn4.actions(), []);

    let g = g.apply(moves1[0]).expect("Invalid victory!");
    let build = g
        .active_pawn()
        .can_build(Point::new(0.into(), 0.into()))
        .expect("Invalid build!");
    let g = g.apply(build).expect("Invalid victory!");

    let [pawn1, pawn2] = g.inactive_pawns();
    let [pawn3, pawn4] = g.active_pawns();

    let moves3 = [
        MoveAction {
            from: pt3,
            to: Point::new(3.into(), 3.into()),
            game: g,
        },
        MoveAction {
            from: pt3,
            to: Point::new(4.into(), 3.into()),
            game: g,
        },
        MoveAction {
            from: pt3,
            to: Point::new(3.into(), 4.into()),
            game: g,
        },
    ];
    let moves4 = [
        MoveAction {
            from: pt4,
            to: Point::new(0.into(), 2.into()),
            game: g,
        },
        MoveAction {
            from: pt4,
            to: Point::new(1.into(), 2.into()),
            game: g,
        },
        MoveAction {
            from: pt4,
            to: Point::new(1.into(), 3.into()),
            game: g,
        },
        MoveAction {
            from: pt4,
            to: Point::new(0.into(), 4.into()),
            game: g,
        },
        MoveAction {
            from: pt4,
            to: Point::new(1.into(), 4.into()),
            game: g,
        },
    ];

    assert_eq!(pawn1.actions(), []);
    assert_eq!(pawn2.actions(), []);
    assert_eq!(pawn3.actions(), moves3);
    assert_eq!(pawn4.actions(), moves4);
}

#[test]
fn build_actions() {
    let g = new_game();
    let pt1 = Point::new(0.into(), 0.into());
    let pt2 = Point::new(3.into(), 1.into());
    let pt3 = Point::new(4.into(), 4.into());
    let pt4 = Point::new(2.into(), 4.into());

    let action = g.can_place(pt1, pt2).expect("Invalid placement!");
    let g = g.apply(action);
    let action = g.can_place(pt3, pt4).expect("Invalid placement!");
    let g = g.apply(action);

    let pt1a = Point::new(0.into(), 1.into());
    let [pawn1, _] = g.active_pawns();
    let action = pawn1.can_move(pt1a).expect("Invalid move!");
    let g = g.apply(action).expect("Invalid victory!");

    let [pawn1, pawn2] = g.active_pawns();
    let [pawn3, pawn4] = g.inactive_pawns();

    let build1 = [
        BuildAction {
            loc: Point::new(0.into(), 0.into()),
            game: g,
        },
        BuildAction {
            loc: Point::new(1.into(), 0.into()),
            game: g,
        },
        BuildAction {
            loc: Point::new(1.into(), 1.into()),
            game: g,
        },
        BuildAction {
            loc: Point::new(0.into(), 2.into()),
            game: g,
        },
        BuildAction {
            loc: Point::new(1.into(), 2.into()),
            game: g,
        },
    ];

    assert_eq!(pawn1.actions(), build1);
    assert_eq!(pawn2.actions(), []);
    assert_eq!(pawn3.actions(), []);
    assert_eq!(pawn4.actions(), []);
}

#[test]
fn can_move() {
    let g = new_game();
    let pt1 = Point::new(1.into(), 1.into());
    let pt2 = Point::new(2.into(), 2.into());
    let pt3 = Point::new(2.into(), 1.into());
    let pt4 = Point::new(1.into(), 2.into());

    let action = g.can_place(pt1, pt2).expect("Invalid placement!");
    let g = g.apply(action);
    let action = g.can_place(pt3, pt4).expect("Invalid placement!");
    let g = g.apply(action);

    let [pawn1, pawn2] = g.active_pawns();
    let [pawn3, _] = g.inactive_pawns();

    assert_eq!(None, pawn1.can_move(pt2));
    assert_eq!(None, pawn1.can_move(pt3));
    assert_eq!(None, pawn1.can_move(pt4));
    assert_eq!(None, pawn1.can_move(Point::new(0.into(), 3.into())));
    assert_ne!(None, pawn1.can_move(Point::new(0.into(), 2.into())));

    assert_ne!(None, pawn2.can_move(Point::new(2.into(), 3.into())));
    assert_eq!(None, pawn2.can_move(pt3));

    assert_eq!(None, pawn3.can_move(Point::new(3.into(), 1.into())));
}

#[test]
fn can_build() {
    let g = new_game();
    let pt1 = Point::new(1.into(), 1.into());
    let pt2 = Point::new(2.into(), 2.into());
    let pt3 = Point::new(2.into(), 1.into());
    let pt4 = Point::new(1.into(), 2.into());

    let action = g.can_place(pt1, pt2).expect("Invalid placement!");
    let g = g.apply(action);
    let action = g.can_place(pt3, pt4).expect("Invalid placement!");
    let g = g.apply(action);

    let pt1a = Point::new(1.into(), 0.into());
    let [pawn1, _] = g.active_pawns();
    let action = pawn1.can_move(pt1a).expect("Invalid movement!");
    let g = g.apply(action).expect("Invalid victory!");

    let [pawn1, pawn2] = g.active_pawns();
    let [pawn3, _] = g.inactive_pawns();

    assert_eq!(pawn1, g.active_pawn());

    assert_eq!(None, pawn1.can_build(pt3));
    assert_ne!(None, pawn1.can_build(pt1));

    assert_eq!(None, pawn2.can_build(pt1));
    assert_eq!(None, pawn3.can_build(pt1));
}

#[test]
fn can_move_height() {
    let g = new_game();
    let pt1 = Point::new(1.into(), 1.into());
    let pt2 = Point::new(2.into(), 2.into());
    let pt3 = Point::new(2.into(), 1.into());
    let pt4 = Point::new(1.into(), 2.into());

    let action = g.can_place(pt1, pt2).expect("Invalid placement!");
    let g = g.apply(action);
    let action = g.can_place(pt3, pt4).expect("Invalid placement!");
    let g = g.apply(action);

    // [0  ][0  ][0  ][0  ][0  ]
    // [0  ][0a1][0b1][0  ][0  ]
    // [0  ][0b2][0a2][0  ][0  ]
    // [0  ][0  ][0  ][0  ][0  ]
    // [0  ][0  ][0  ][0  ][0  ]

    let pt1a = Point::new(1.into(), 0.into());
    let [pawn1, _] = g.active_pawns();
    let action = pawn1.can_move(pt1a).expect("Invalid movement!");
    let g = g.apply(action).expect("Invalid victory!");

    let pawn1 = g.active_pawn();
    let action = pawn1.can_build(pt1).expect("Invalid build");
    let g = g.apply(action).expect("Invalid victory!");

    // [0  ][0a1][0  ][0  ][0  ]
    // [0  ][1  ][0b1][0  ][0  ]
    // [0  ][0b2][0a2][0  ][0  ]
    // [0  ][0  ][0  ][0  ][0  ]
    // [0  ][0  ][0  ][0  ][0  ]

    let pt3a = Point::new(2.into(), 0.into());
    let [pawn3, _] = g.active_pawns();
    let action = pawn3.can_move(pt3a).expect("Invalid movement!");
    let g = g.apply(action).expect("Invalid victory!");

    let pawn3 = g.active_pawn();
    let action = pawn3.can_build(pt1).expect("Invalid build");
    let g = g.apply(action).expect("Invalid victory!");

    // [0  ][0a1][0b1][0  ][0  ]
    // [0  ][2  ][0  ][0  ][0  ]
    // [0  ][0b2][0a2][0  ][0  ]
    // [0  ][0  ][0  ][0  ][0  ]
    // [0  ][0  ][0  ][0  ][0  ]

    let [pawn1, _] = g.active_pawns();
    assert_eq!(None, pawn1.can_move(pt1));

    let pt1b = Point::new(0.into(), 0.into());
    let action = pawn1.can_move(pt1b).expect("Invalid movement!");
    let g = g.apply(action).expect("Invalid victory!");

    let pawn1 = g.active_pawn();
    let action = pawn1.can_build(pt1a).expect("Invalid build");
    let g = g.apply(action).expect("Invalid victory!");

    // [0a1][1  ][0b1][0  ][0  ]
    // [0  ][2  ][0  ][0  ][0  ]
    // [0  ][0b2][0a2][0  ][0  ]
    // [0  ][0  ][0  ][0  ][0  ]
    // [0  ][0  ][0  ][0  ][0  ]

    let [pawn3, _] = g.active_pawns();
    let action = pawn3.can_move(pt1a).expect("Invalid movement!");
    let g = g.apply(action).expect("Invalid victory!");

    let pt1c = Point::new(0.into(), 1.into());
    let pawn3 = g.active_pawn();
    let action = pawn3.can_build(pt1c).expect("Invalid build");
    let g = g.apply(action).expect("Invalid victory!");

    // [0a1][1b1][0  ][0  ][0  ]
    // [1  ][2  ][0  ][0  ][0  ]
    // [0  ][0b2][0a2][0  ][0  ]
    // [0  ][0  ][0  ][0  ][0  ]
    // [0  ][0  ][0  ][0  ][0  ]

    let [pawn1, _] = g.active_pawns();
    let action = pawn1.can_move(pt1c).expect("Invalid movement!");
    let g = g.apply(action).expect("Invalid victory!");

    let pawn1 = g.active_pawn();
    let action = pawn1.can_build(pt1b).expect("Invalid build");
    let g = g.apply(action).expect("Invalid victory!");

    // [1  ][1b1][0  ][0  ][0  ]
    // [1a1][2  ][0  ][0  ][0  ]
    // [0  ][0b2][0a2][0  ][0  ]
    // [0  ][0  ][0  ][0  ][0  ]
    // [0  ][0  ][0  ][0  ][0  ]

    let [pawn3, _] = g.active_pawns();
    let action = pawn3.can_move(pt1).expect("Invalid movement!");
    let g = g.apply(action).expect("Invalid victory!");

    let pawn3 = g.active_pawn();
    let action = pawn3.can_build(pt1b).expect("Invalid build");
    let g = g.apply(action).expect("Invalid victory!");

    // [2  ][1  ][0  ][0  ][0  ]
    // [1a1][2b1][0  ][0  ][0  ]
    // [0  ][0b2][0a2][0  ][0  ]
    // [0  ][0  ][0  ][0  ][0  ]
    // [0  ][0  ][0  ][0  ][0  ]

    let [pawn1, _] = g.active_pawns();
    let action = pawn1.can_move(pt1a).expect("Invalid movement!");
    let g = g.apply(action).expect("Invalid victory!");

    let pawn1 = g.active_pawn();
    let action = pawn1.can_build(pt1b).expect("Invalid build");
    let g = g.apply(action).expect("Invalid victory!");

    // [3  ][1a1][0  ][0  ][0  ]
    // [1  ][2b1][0  ][0  ][0  ]
    // [0  ][0b2][0a2][0  ][0  ]
    // [0  ][0  ][0  ][0  ][0  ]
    // [0  ][0  ][0  ][0  ][0  ]

    let [pawn3, _] = g.active_pawns();
    assert_ne!(None, pawn3.can_move(pt1b));
    assert_eq!(None, pawn3.can_move(pt1a));
    assert_ne!(None, pawn3.can_move(pt3a));
    assert_ne!(None, pawn3.can_move(pt1c));
    assert_eq!(None, pawn3.can_move(pt1));
    assert_ne!(None, pawn3.can_move(pt3));
    assert_ne!(None, pawn3.can_move(Point::new(0.into(), 2.into())));
    assert_eq!(None, pawn3.can_move(pt4));
    assert_eq!(None, pawn3.can_move(pt2));
}

#[test]
fn can_build_capped() {
    let g = new_game();
    let pt1 = Point::new(1.into(), 1.into());
    let pt2 = Point::new(2.into(), 2.into());
    let pt3 = Point::new(2.into(), 1.into());
    let pt4 = Point::new(1.into(), 2.into());

    let action = g.can_place(pt1, pt2).expect("Invalid placement!");
    let g = g.apply(action);
    let action = g.can_place(pt3, pt4).expect("Invalid placement!");
    let g = g.apply(action);

    // [0  ][0  ][0  ][0  ][0  ]
    // [0  ][0a1][0b1][0  ][0  ]
    // [0  ][0b2][0a2][0  ][0  ]
    // [0  ][0  ][0  ][0  ][0  ]
    // [0  ][0  ][0  ][0  ][0  ]

    let pt1a = Point::new(1.into(), 0.into());
    let [pawn1, _] = g.active_pawns();
    let action = pawn1.can_move(pt1a).expect("Invalid movement!");
    let g = g.apply(action).expect("Invalid victory!");

    let pawn1 = g.active_pawn();
    let action = pawn1.can_build(pt1).expect("Invalid build");
    let g = g.apply(action).expect("Invalid victory!");

    // [0  ][0a1][0  ][0  ][0  ]
    // [0  ][1  ][0b1][0  ][0  ]
    // [0  ][0b2][0a2][0  ][0  ]
    // [0  ][0  ][0  ][0  ][0  ]
    // [0  ][0  ][0  ][0  ][0  ]

    let pt3a = Point::new(2.into(), 0.into());
    let [pawn3, _] = g.active_pawns();
    let action = pawn3.can_move(pt3a).expect("Invalid movement!");
    let g = g.apply(action).expect("Invalid victory!");

    let pawn3 = g.active_pawn();
    let action = pawn3.can_build(pt1).expect("Invalid build");
    let g = g.apply(action).expect("Invalid victory!");

    // [0  ][0a1][0b1][0  ][0  ]
    // [0  ][2  ][0  ][0  ][0  ]
    // [0  ][0b2][0a2][0  ][0  ]
    // [0  ][0  ][0  ][0  ][0  ]
    // [0  ][0  ][0  ][0  ][0  ]

    let [pawn1, _] = g.active_pawns();
    let action = pawn1.can_move(pt3).expect("Invalid movement!");
    let g = g.apply(action).expect("Invalid victory!");

    let pawn1 = g.active_pawn();
    let action = pawn1.can_build(pt1).expect("Invalid build");
    let g = g.apply(action).expect("Invalid victory!");

    // [0  ][0  ][0b1][0  ][0  ]
    // [0  ][3  ][0a1][0  ][0  ]
    // [0  ][0b2][0a2][0  ][0  ]
    // [0  ][0  ][0  ][0  ][0  ]
    // [0  ][0  ][0  ][0  ][0  ]

    let [pawn3, _] = g.active_pawns();
    let action = pawn3.can_move(pt1a).expect("Invalid movement!");
    let g = g.apply(action).expect("Invalid victory!");

    let pawn3 = g.active_pawn();
    let action = pawn3.can_build(pt1).expect("Invalid build");
    let g = g.apply(action).expect("Invalid victory!");

    // [0  ][0b1][0  ][0  ][0  ]
    // [0  ][4  ][0a1][0  ][0  ]
    // [0  ][0b2][0a2][0  ][0  ]
    // [0  ][0  ][0  ][0  ][0  ]
    // [0  ][0  ][0  ][0  ][0  ]

    let [pawn1, _] = g.active_pawns();
    let action = pawn1.can_move(pt3a).expect("Invalid movement!");
    let g = g.apply(action).expect("Invalid victory!");

    let pawn1 = g.active_pawn();
    assert_eq!(None, pawn1.can_build(pt1a));
    assert_eq!(None, pawn1.can_build(pt3a));
    assert_ne!(None, pawn1.can_build(Point::new(3.into(), 0.into())));
    assert_eq!(None, pawn1.can_build(pt1));
    assert_ne!(None, pawn1.can_build(pt3));
    assert_ne!(None, pawn1.can_build(Point::new(3.into(), 1.into())));
}

#[test]
fn victory() {
    let g = new_game();
    let pt1 = Point::new(1.into(), 1.into());
    let pt2 = Point::new(2.into(), 2.into());
    let pt3 = Point::new(2.into(), 1.into());
    let pt4 = Point::new(1.into(), 2.into());

    let action = g.can_place(pt1, pt2).expect("Invalid placement!");
    let g = g.apply(action);
    let action = g.can_place(pt3, pt4).expect("Invalid placement!");
    let g = g.apply(action);

    // [0  ][0  ][0  ][0  ][0  ]
    // [0  ][0a1][0b1][0  ][0  ]
    // [0  ][0b2][0a2][0  ][0  ]
    // [0  ][0  ][0  ][0  ][0  ]
    // [0  ][0  ][0  ][0  ][0  ]

    let pt1a = Point::new(1.into(), 0.into());
    let [pawn1, _] = g.active_pawns();
    let action = pawn1.can_move(pt1a).expect("Invalid movement!");
    let g = g.apply(action).expect("Invalid victory!");

    let pawn1 = g.active_pawn();
    let action = pawn1.can_build(pt1).expect("Invalid build");
    let g = g.apply(action).expect("Invalid victory!");

    // [0  ][0a1][0  ][0  ][0  ]
    // [0  ][1  ][0b1][0  ][0  ]
    // [0  ][0b2][0a2][0  ][0  ]
    // [0  ][0  ][0  ][0  ][0  ]
    // [0  ][0  ][0  ][0  ][0  ]

    let pt3a = Point::new(2.into(), 0.into());
    let [pawn3, _] = g.active_pawns();
    let action = pawn3.can_move(pt3a).expect("Invalid movement!");
    let g = g.apply(action).expect("Invalid victory!");

    let pawn3 = g.active_pawn();
    let action = pawn3.can_build(pt3).expect("Invalid build");
    let g = g.apply(action).expect("Invalid victory!");

    // [0  ][0a1][0b1][0  ][0  ]
    // [0  ][1  ][1  ][0  ][0  ]
    // [0  ][0b2][0a2][0  ][0  ]
    // [0  ][0  ][0  ][0  ][0  ]
    // [0  ][0  ][0  ][0  ][0  ]

    let [_, pawn2] = g.active_pawns();
    let action = pawn2.can_move(pt3).expect("Invalid movement!");
    let g = g.apply(action).expect("Invalid victory!");

    let pawn2 = g.active_pawn();
    let action = pawn2.can_build(pt2).expect("Invalid build");
    let g = g.apply(action).expect("Invalid victory!");

    // [0  ][0a1][0b1][0  ][0  ]
    // [0  ][1  ][1a2][0  ][0  ]
    // [0  ][0b2][1  ][0  ][0  ]
    // [0  ][0  ][0  ][0  ][0  ]
    // [0  ][0  ][0  ][0  ][0  ]

    let [_, pawn4] = g.active_pawns();
    let action = pawn4.can_move(pt2).expect("Invalid movement!");
    let g = g.apply(action).expect("Invalid victory!");

    let pawn4 = g.active_pawn();
    let action = pawn4.can_build(pt1).expect("Invalid build");
    let g = g.apply(action).expect("Invalid victory!");

    // [0  ][0a1][0b1][0  ][0  ]
    // [0  ][2  ][1a2][0  ][0  ]
    // [0  ][0  ][1b2][0  ][0  ]
    // [0  ][0  ][0  ][0  ][0  ]
    // [0  ][0  ][0  ][0  ][0  ]

    let [_, pawn2] = g.active_pawns();
    let action = pawn2.can_move(pt1).expect("Invalid movement!");
    let g = g.apply(action).expect("Invalid victory!");

    let pawn2 = g.active_pawn();
    let action = pawn2.can_build(pt3).expect("Invalid build");
    let g = g.apply(action).expect("Invalid victory!");

    // [0  ][0a1][0b1][0  ][0  ]
    // [0  ][2a2][2  ][0  ][0  ]
    // [0  ][0  ][1b2][0  ][0  ]
    // [0  ][0  ][0  ][0  ][0  ]
    // [0  ][0  ][0  ][0  ][0  ]

    let [_, pawn4] = g.active_pawns();
    let action = pawn4.can_move(pt4).expect("Invalid movement!");
    let g = g.apply(action).expect("Invalid victory!");

    let pawn4 = g.active_pawn();
    let action = pawn4.can_build(pt3).expect("Invalid build");
    let g = g.apply(action).expect("Invalid victory!");

    // [0  ][0a1][0b1][0  ][0  ]
    // [0  ][2a2][3  ][0  ][0  ]
    // [0  ][0b2][1  ][0  ][0  ]
    // [0  ][0  ][0  ][0  ][0  ]
    // [0  ][0  ][0  ][0  ][0  ]

    let [_, pawn2] = g.active_pawns();
    let action = pawn2.can_move(pt3).expect("Invalid movement!");
    let g = g.apply(action);

    // [0  ][0a1][0b1][0  ][0  ]
    // [0  ][2  ][3a2][0  ][0  ]
    // [0  ][0b2][1  ][0  ][0  ]
    // [0  ][0  ][0  ][0  ][0  ]
    // [0  ][0  ][0  ][0  ][0  ]

    if let ActionResult::Victory(g) = g {
        assert_eq!(g.player(), Player::PlayerOne);
    } else {
        panic!("Victory not detected!");
    }
}

#[test]
fn victory_stalemate() {
    let g = new_game();
    let pt1 = Point::new(1.into(), 1.into());
    let pt2 = Point::new(1.into(), 2.into());
    let pt3 = Point::new(0.into(), 2.into());
    let pt4 = Point::new(2.into(), 2.into());

    let action = g.can_place(pt1, pt2).expect("Invalid placement!");
    let g = g.apply(action);
    let action = g.can_place(pt3, pt4).expect("Invalid placement!");
    let g = g.apply(action);

    // [0  ][0  ][0  ][0  ][0  ]
    // [0  ][0a1][0  ][0  ][0  ]
    // [0b1][0a2][0b2][0  ][0  ]
    // [0  ][0  ][0  ][0  ][0  ]
    // [0  ][0  ][0  ][0  ][0  ]

    let pt1a = Point::new(0.into(), 0.into());
    let [pawn1, _] = g.active_pawns();
    let action = pawn1.can_move(pt1a).expect("Invalid movement!");
    let g = g.apply(action).expect("Invalid victory!");

    let wall_top = Point::new(1.into(), 0.into());
    let pawn1 = g.active_pawn();
    let action = pawn1.can_build(wall_top).expect("Invalid build");
    let g = g.apply(action).expect("Invalid victory!");

    // [0a1][1  ][0  ][0  ][0  ]
    // [0  ][0  ][0  ][0  ][0  ]
    // [0b1][0a2][0b2][0  ][0  ]
    // [0  ][0  ][0  ][0  ][0  ]
    // [0  ][0  ][0  ][0  ][0  ]

    let pt4a = Point::new(2.into(), 1.into());
    let [_, pawn4] = g.active_pawns();
    let action = pawn4.can_move(pt4a).expect("Invalid movement!");
    let g = g.apply(action).expect("Invalid victory!");

    let pawn4 = g.active_pawn();
    let action = pawn4.can_build(wall_top).expect("Invalid build");
    let g = g.apply(action).expect("Invalid victory!");

    // [0a1][2  ][0  ][0  ][0  ]
    // [0  ][0  ][0b2][0  ][0  ]
    // [0b1][0a2][0  ][0  ][0  ]
    // [0  ][0  ][0  ][0  ][0  ]
    // [0  ][0  ][0  ][0  ][0  ]

    let pt2a = Point::new(0.into(), 1.into());
    let [_, pawn2] = g.active_pawns();
    let action = pawn2.can_move(pt2a).expect("Invalid movement!");
    let g = g.apply(action).expect("Invalid victory!");

    let pawn2 = g.active_pawn();
    let action = pawn2.can_build(pt1).expect("Invalid build");
    let g = g.apply(action).expect("Invalid victory!");

    // [0a1][2  ][0  ][0  ][0  ]
    // [0a2][1  ][0b2][0  ][0  ]
    // [0b1][0  ][0  ][0  ][0  ]
    // [0  ][0  ][0  ][0  ][0  ]
    // [0  ][0  ][0  ][0  ][0  ]

    let [_, pawn4] = g.active_pawns();
    let action = pawn4.can_move(pt2).expect("Invalid movement!");
    let g = g.apply(action).expect("Invalid victory!");

    let pawn4 = g.active_pawn();
    let action = pawn4.can_build(pt1).expect("Invalid build");
    let g = g.apply(action);

    // [0a1][2  ][0  ][0  ][0  ]
    // [0a2][2  ][0  ][0  ][0  ]
    // [0b1][0b2][0  ][0  ][0  ]
    // [0  ][0  ][0  ][0  ][0  ]
    // [0  ][0  ][0  ][0  ][0  ]

    if let ActionResult::Victory(g) = g {
        assert_eq!(g.player(), Player::PlayerTwo);
    } else {
        panic!("Victory not detected!");
    }
}
