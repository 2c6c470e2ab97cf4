use sandworm::Coord;
use sandworm::GameContext;
use sandworm::GameState;
use sandworm::WormDirection;

fn coords(v: &GameContext) -> Vec<Coord> {
    v.segments()
}

#[test]
fn new_game_has_known_spawn() {
    let g = GameContext::new();
    assert_eq!(
        coords(&g),
        vec![
            Coord { x: 3, y: 1 },
            Coord { x: 2, y: 1 },
            Coord { x: 1, y: 1 },
        ]
    );
    assert_eq!(g.direction(), WormDirection::Right);
    assert_eq!(g.target(), Coord { x: 3, y: 3 });
    assert_eq!(g.state(), GameState::Paused);
    assert_eq!(g.worm_len(), 3);
    assert_eq!(g.segment(0), Coord { x: 3, y: 1 });
    assert_eq!(g.segment(2), Coord { x: 1, y: 1 });
}

#[test]
fn three_ticks_moving_right() {
    let mut g = GameContext::new();
    g.toggle_pause();
    assert_eq!(g.state(), GameState::Playing);

    g.update_state();
    assert_eq!(g.worm_len(), 3);
    assert_eq!(
        coords(&g),
        vec![
            Coord { x: 4, y: 1 },
            Coord { x: 3, y: 1 },
            Coord { x: 2, y: 1 },
        ]
    );

    g.update_state();
    assert_eq!(g.worm_len(), 3);
    assert_eq!(g.segment(0), Coord { x: 5, y: 1 });

    g.update_state();
    assert_eq!(g.worm_len(), 3);
    assert_eq!(
        coords(&g),
        vec![
            Coord { x: 6, y: 1 },
            Coord { x: 5, y: 1 },
            Coord { x: 4, y: 1 },
        ]
    );
    assert_eq!(g.state(), GameState::Playing);
    assert_eq!(g.target(), Coord { x: 3, y: 3 });
}

#[test]
fn target_hit_grows_worm_and_respawns_target() {
    let mut g = GameContext::new();
    g.toggle_pause();
    g.steer(WormDirection::Down);
    g.update_state();
    assert_eq!(g.segment(0), Coord { x: 3, y: 2 });
    // The next step lands exactly on the target at (3, 3).
    g.update_state();
    assert_eq!(g.worm_len(), 4);
    assert_eq!(
        coords(&g),
        vec![
            Coord { x: 3, y: 3 },
            Coord { x: 3, y: 2 },
            Coord { x: 3, y: 1 },
            Coord { x: 3, y: 0 },
        ]
    );
    assert_eq!(g.state(), GameState::Playing);
    let t = g.target();
    assert!(t.x >= 0 && t.x < 40 && t.y >= 0 && t.y < 30);
    for s in coords(&g) {
        assert_ne!(t, s);
    }
}

#[test]
fn left_at_x_zero_boundary_ends_game() {
    let mut g = GameContext::new();
    g.toggle_pause();
    g.steer(WormDirection::Down);
    g.update_state();
    g.steer(WormDirection::Left);
    g.update_state();
    g.update_state();
    g.update_state();
    assert_eq!(g.segment(0), Coord { x: 0, y: 2 });
    assert_eq!(g.state(), GameState::Playing);
    g.update_state();
    assert_eq!(g.state(), GameState::Over);
    assert_eq!(
        coords(&g),
        vec![
            Coord { x: 0, y: 2 },
            Coord { x: 1, y: 2 },
            Coord { x: 2, y: 2 },
        ]
    );
}

#[test]
fn upper_bound_is_inclusive_by_one_cell() {
    // The boundary test admits x equal to the grid width; only one cell
    // further ends the game.
    let worm = vec![
        Coord { x: 39, y: 5 },
        Coord { x: 38, y: 5 },
        Coord { x: 37, y: 5 },
    ];
    let mut g = GameContext::from_parts(worm, WormDirection::Right, Coord { x: 0, y: 0 }, GameState::Playing)
        .expect("a well-formed position");
    g.update_state();
    assert_eq!(g.state(), GameState::Playing);
    assert_eq!(g.segment(0), Coord { x: 40, y: 5 });
    g.update_state();
    assert_eq!(g.state(), GameState::Over);
    assert_eq!(g.segment(0), Coord { x: 40, y: 5 });
}

#[test]
fn forward_into_own_body_ends_game() {
    // A worm bent into a hook: moving forward lands on its own last segment.
    let worm = vec![
        Coord { x: 2, y: 1 },
        Coord { x: 2, y: 2 },
        Coord { x: 1, y: 2 },
        Coord { x: 1, y: 1 },
    ];
    let mut g = GameContext::from_parts(
        worm.clone(),
        WormDirection::Left,
        Coord { x: 10, y: 10 },
        GameState::Playing,
    )
    .expect("a well-formed position");
    g.update_state();
    assert_eq!(g.state(), GameState::Over);
    assert_eq!(coords(&g), worm);
    assert_eq!(g.target(), Coord { x: 10, y: 10 });
}

#[test]
fn paused_ticks_change_nothing() {
    let mut g = GameContext::new();
    assert_eq!(g.state(), GameState::Paused);
    let before = coords(&g);
    for _ in 0..5 {
        g.update_state();
        assert_eq!(coords(&g), before);
        assert_eq!(g.target(), Coord { x: 3, y: 3 });
        assert_eq!(g.state(), GameState::Paused);
        assert_eq!(g.direction(), WormDirection::Right);
    }
}

#[test]
fn over_is_terminal() {
    let mut g = GameContext::new();
    g.toggle_pause();
    g.steer(WormDirection::Up);
    g.update_state();
    g.update_state();
    assert_eq!(g.state(), GameState::Over);
    let before = coords(&g);
    g.update_state();
    assert_eq!(g.state(), GameState::Over);
    g.toggle_pause();
    assert_eq!(g.state(), GameState::Over);
    g.move_up();
    g.move_down();
    g.move_left();
    g.move_right();
    assert_eq!(g.state(), GameState::Over);
    g.steer(WormDirection::Down);
    assert_eq!(g.state(), GameState::Over);
    g.update_state();
    assert_eq!(g.state(), GameState::Over);
    assert_eq!(coords(&g), before);
}

#[test]
fn toggle_pause_alternates() {
    let mut g = GameContext::new();
    assert_eq!(g.state(), GameState::Paused);
    g.toggle_pause();
    assert_eq!(g.state(), GameState::Playing);
    g.toggle_pause();
    assert_eq!(g.state(), GameState::Paused);
}

#[test]
fn steer_refuses_exact_reversal() {
    let mut g = GameContext::new();
    assert_eq!(g.direction(), WormDirection::Right);
    g.steer(WormDirection::Left);
    assert_eq!(g.direction(), WormDirection::Right);
    g.steer(WormDirection::Down);
    assert_eq!(g.direction(), WormDirection::Down);
    g.steer(WormDirection::Up);
    assert_eq!(g.direction(), WormDirection::Down);
    g.steer(WormDirection::Left);
    assert_eq!(g.direction(), WormDirection::Left);
}

#[test]
fn move_calls_set_direction_unconditionally() {
    let mut g = GameContext::new();
    g.move_left();
    assert_eq!(g.direction(), WormDirection::Left);
    g.move_up();
    assert_eq!(g.direction(), WormDirection::Up);
    g.move_down();
    assert_eq!(g.direction(), WormDirection::Down);
    g.move_right();
    assert_eq!(g.direction(), WormDirection::Right);
}

#[test]
fn from_parts_accepts_well_formed_states() {
    let worm = vec![
        Coord { x: 5, y: 5 },
        Coord { x: 5, y: 6 },
        Coord { x: 6, y: 6 },
    ];
    let g = GameContext::from_parts(
        worm.clone(),
        WormDirection::Up,
        Coord { x: 7, y: 7 },
        GameState::Paused,
    )
    .expect("a well-formed position");
    assert_eq!(coords(&g), worm);
    assert_eq!(g.direction(), WormDirection::Up);
    assert_eq!(g.target(), Coord { x: 7, y: 7 });
    assert_eq!(g.state(), GameState::Paused);
}

#[test]
fn from_parts_rejects_bad_states() {
    // Too short.
    assert!(GameContext::from_parts(
        vec![Coord { x: 1, y: 1 }, Coord { x: 2, y: 1 }],
        WormDirection::Right,
        Coord { x: 5, y: 5 },
        GameState::Paused,
    )
    .is_none());
    // A gap between consecutive segments.
    assert!(GameContext::from_parts(
        vec![Coord { x: 1, y: 1 }, Coord { x: 3, y: 1 }, Coord { x: 4, y: 1 }],
        WormDirection::Right,
        Coord { x: 5, y: 5 },
        GameState::Paused,
    )
    .is_none());
    // A segment outside the field.
    assert!(GameContext::from_parts(
        vec![Coord { x: -2, y: 1 }, Coord { x: -1, y: 1 }, Coord { x: 0, y: 1 }],
        WormDirection::Right,
        Coord { x: 5, y: 5 },
        GameState::Paused,
    )
    .is_none());
    // The target on the worm.
    assert!(GameContext::from_parts(
        vec![Coord { x: 1, y: 1 }, Coord { x: 2, y: 1 }, Coord { x: 3, y: 1 }],
        WormDirection::Right,
        Coord { x: 2, y: 1 },
        GameState::Paused,
    )
    .is_none());
    // The target outside the spawn grid.
    assert!(GameContext::from_parts(
        vec![Coord { x: 1, y: 1 }, Coord { x: 2, y: 1 }, Coord { x: 3, y: 1 }],
        WormDirection::Right,
        Coord { x: 40, y: 5 },
        GameState::Paused,
    )
    .is_none());
}

#[test]
fn growth_extends_tail_colinearly() {
    // A straight worm about to eat: the new tail continues the tail's own
    // line, one cell past the previous last segment.
    let worm = vec![
        Coord { x: 10, y: 10 },
        Coord { x: 9, y: 10 },
        Coord { x: 8, y: 10 },
    ];
    let mut g = GameContext::from_parts(worm, WormDirection::Right, Coord { x: 11, y: 10 }, GameState::Playing)
        .expect("a well-formed position");
    g.update_state();
    assert_eq!(g.worm_len(), 4);
    assert_eq!(
        coords(&g),
        vec![
            Coord { x: 11, y: 10 },
            Coord { x: 10, y: 10 },
            Coord { x: 9, y: 10 },
            Coord { x: 8, y: 10 },
        ]
    );
}

#[test]
fn growth_at_field_edge_pokes_one_cell_out() {
    // The tail extension of a growth step is not bounds-checked: grown at
    // the field's edge, the new tail cell sits one cell outside, and the
    // game carries on.
    let worm = vec![
        Coord { x: 2, y: 2 },
        Coord { x: 2, y: 1 },
        Coord { x: 2, y: 0 },
        Coord { x: 1, y: 0 },
    ];
    let mut g = GameContext::from_parts(worm, WormDirection::Down, Coord { x: 2, y: 3 }, GameState::Playing)
        .expect("a well-formed position");
    g.update_state();
    assert_eq!(g.worm_len(), 5);
    assert_eq!(
        coords(&g),
        vec![
            Coord { x: 2, y: 3 },
            Coord { x: 2, y: 2 },
            Coord { x: 2, y: 1 },
            Coord { x: 2, y: 0 },
            Coord { x: 2, y: -1 },
        ]
    );
    assert_eq!(g.state(), GameState::Playing);
    // The next normal step drops the poked-out cell again.
    g.update_state();
    assert_eq!(g.worm_len(), 5);
    assert_eq!(g.segment(4), Coord { x: 2, y: 0 });
}
