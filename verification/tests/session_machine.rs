use tactics_core::hex::Hexagon;
use tactics_core::player::{Player, PlayerColor};
use tactics_core::session::{GameWorld, State};
use tactics_core::unit::Unit;

fn two_player_session() -> GameWorld {
    let mut session = GameWorld::new(4, 40);
    session.add_player(Player::new(
        "Player 1".to_owned(),
        PlayerColor { red: 0, green: 0, blue: 255 },
    ));
    session.add_player(Player::new(
        "Player 2".to_owned(),
        PlayerColor { red: 255, green: 0, blue: 0 },
    ));
    session.current_player = Some(0);
    session
}

#[test]
fn new_session_waits_with_an_empty_world() {
    let session = GameWorld::new(4, 40);
    assert!(matches!(session.state, State::Waiting));
    assert_eq!(session.current_player, None);
    assert_eq!(session.players.len(), 0);
    assert_eq!(session.current_path.len(), 0);
    assert_eq!(session.hexfield_size, 40);
}

#[test]
fn new_round_refreshes_every_unit_and_advances_the_player() {
    let mut session = two_player_session();
    let spent = Unit::new(10, 2, 2, 1, 1, 5, 0, 0);
    let a = session.spawn_unit(Hexagon::new_axial(2, 0), 0, spent);
    let b = session.spawn_unit(Hexagon::new_axial(-2, 0), 1, spent);

    session.on_new_round();

    for id in [a, b] {
        let unit = session.world.get_unit(id).unwrap();
        assert_eq!(unit.remaining_attacks, 1);
        assert_eq!(unit.remaining_range, unit.mobility);
        assert_eq!(unit.remaining_range, 5);
    }
    assert_eq!(session.current_player, Some(1));
    assert!(matches!(session.state, State::Waiting));

    session.on_new_round();
    assert_eq!(session.current_player, Some(0));
}

#[test]
fn selecting_a_unit_from_waiting() {
    let mut session = two_player_session();
    let unit = Unit::new(20, 5, 5, 0, 2, 3, 3, 1);
    let id = session.spawn_unit(Hexagon::new_axial(2, 0), 0, unit);

    session.select_or_act(Hexagon::new_axial(2, 0), false);

    match session.state {
        State::Selected(selected) => assert_eq!(selected, id),
        _ => panic!("expected the unit to be selected"),
    }
}

#[test]
fn clicking_an_empty_cell_from_waiting_stays_waiting() {
    let mut session = two_player_session();
    session.spawn_unit(Hexagon::new_axial(2, 0), 0, Unit::new(20, 5, 5, 0, 2, 3, 3, 1));

    session.select_or_act(Hexagon::new_axial(0, 0), false);

    assert!(matches!(session.state, State::Waiting));
}

#[test]
fn clicking_a_reachable_cell_queues_movement() {
    let mut session = two_player_session();
    let id = session.spawn_unit(Hexagon::new_axial(0, 0), 0, Unit::new(20, 5, 5, 0, 2, 3, 3, 1));

    session.select_or_act(Hexagon::new_axial(0, 0), false);
    session.select_or_act(Hexagon::new_axial(2, 0), false);

    match &session.state {
        State::Moving(entity, path, elapsed) => {
            assert_eq!(*entity, id);
            assert_eq!(*elapsed, 0);
            assert_eq!(path.len(), 2);
            assert_eq!(*path.last().unwrap(), Hexagon::new_axial(2, 0));
        }
        _ => panic!("expected a queued movement"),
    }
}

#[test]
fn visible_enemy_in_range_queues_an_attack() {
    let mut session = two_player_session();
    let attacker = session.spawn_unit(
        Hexagon::new_axial(0, 0),
        0,
        Unit::new(20, 5, 5, 0, 2, 3, 3, 1),
    );
    let defender = session.spawn_unit(
        Hexagon::new_axial(2, 0),
        1,
        Unit::new(10, 2, 2, 1, 1, 2, 2, 1),
    );

    session.select_or_act(Hexagon::new_axial(0, 0), false);
    session.select_or_act(Hexagon::new_axial(2, 0), true);

    match session.state {
        State::Attacking(a, d) => {
            assert_eq!(a, attacker);
            assert_eq!(d, defender);
        }
        _ => panic!("expected a queued attack"),
    }
}

#[test]
fn unit_without_line_of_sight_is_selected_instead_of_attacked() {
    let mut session = two_player_session();
    session.spawn_unit(Hexagon::new_axial(0, 0), 0, Unit::new(20, 5, 5, 0, 2, 3, 3, 1));
    let defender = session.spawn_unit(
        Hexagon::new_axial(2, 0),
        1,
        Unit::new(10, 2, 2, 1, 1, 2, 2, 1),
    );

    session.select_or_act(Hexagon::new_axial(0, 0), false);
    session.select_or_act(Hexagon::new_axial(2, 0), false);

    match session.state {
        State::Selected(selected) => assert_eq!(selected, defender),
        _ => panic!("expected the clicked entity to become the selection"),
    }
}

#[test]
fn acting_with_an_enemy_unit_selected_is_ignored() {
    let mut session = two_player_session();
    let enemy = session.spawn_unit(
        Hexagon::new_axial(2, 0),
        1,
        Unit::new(10, 2, 2, 1, 1, 2, 2, 1),
    );
    session.spawn_unit(Hexagon::new_axial(0, 0), 0, Unit::new(20, 5, 5, 0, 2, 3, 3, 1));

    // Selecting an enemy unit is possible; acting with it is not.
    session.select_or_act(Hexagon::new_axial(2, 0), false);
    match session.state {
        State::Selected(selected) => assert_eq!(selected, enemy),
        _ => panic!("expected the enemy unit to be selected"),
    }

    session.select_or_act(Hexagon::new_axial(0, 0), true);
    match session.state {
        State::Selected(selected) => assert_eq!(selected, enemy),
        _ => panic!("expected the click to be ignored"),
    }
}

#[test]
fn attack_step_commits_damage_and_spends_the_attack() {
    // Scenario: 4 damage against 1 armor leaves the defender at 2 integrity
    // and the attacker without attacks.
    let mut session = two_player_session();
    let attacker = session.spawn_unit(
        Hexagon::new_axial(0, 0),
        0,
        Unit::new(10, 4, 5, 0, 0, 3, 3, 1),
    );
    let defender = session.spawn_unit(
        Hexagon::new_axial(2, 0),
        1,
        Unit::new(5, 0, 2, 1, 1, 2, 2, 1),
    );

    session.state = State::Attacking(attacker, defender);
    let diff = session.step(16);

    assert!(matches!(session.state, State::Waiting));
    assert_eq!(diff.removed.len(), 0);
    let changed_attacker = session.world.get_unit(attacker).unwrap();
    assert_eq!(changed_attacker.remaining_attacks, 0);
    assert_eq!(changed_attacker.mobility, 0);
    let changed_defender = session.world.get_unit(defender).unwrap();
    assert_eq!(changed_defender.integrity, 2);
}

#[test]
fn attack_without_attacks_left_changes_nothing_and_waits() {
    let mut session = two_player_session();
    let attacker = session.spawn_unit(
        Hexagon::new_axial(0, 0),
        0,
        Unit::new(10, 4, 5, 0, 0, 3, 3, 0),
    );
    let defender = session.spawn_unit(
        Hexagon::new_axial(2, 0),
        1,
        Unit::new(5, 0, 2, 1, 1, 2, 2, 1),
    );

    session.state = State::Attacking(attacker, defender);
    let diff = session.step(16);

    assert!(matches!(session.state, State::Waiting));
    assert_eq!(diff.removed.len(), 0);
    assert_eq!(session.world.get_unit(attacker).unwrap().remaining_attacks, 0);
    assert_eq!(session.world.get_unit(attacker).unwrap().mobility, 3);
    assert_eq!(session.world.get_unit(defender).unwrap().integrity, 5);
}

#[test]
fn lethal_attack_removes_the_defender_from_the_world() {
    let mut session = two_player_session();
    let attacker = session.spawn_unit(
        Hexagon::new_axial(0, 0),
        0,
        Unit::new(10, 7, 5, 0, 0, 3, 3, 1),
    );
    let defender = session.spawn_unit(
        Hexagon::new_axial(2, 0),
        1,
        Unit::new(5, 0, 2, 1, 1, 2, 2, 1),
    );

    session.state = State::Attacking(attacker, defender);
    let diff = session.step(16);

    assert!(matches!(session.state, State::Waiting));
    assert!(!session.world.contains(defender));
    assert_eq!(diff.removed.len(), 1);
    assert_eq!(diff.removed[0], defender);
}

#[test]
fn movement_halts_early_when_the_range_runs_out() {
    // A unit with 2 remaining range and a queued 3-step path stops after
    // two steps and hands control back, the third step never attempted.
    let mut session = two_player_session();
    let id = session.spawn_unit(Hexagon::new_axial(0, 0), 0, Unit::new(20, 5, 5, 0, 2, 3, 2, 1));

    session.state = State::Moving(
        id,
        vec![
            Hexagon::new_axial(1, 0),
            Hexagon::new_axial(2, 0),
            Hexagon::new_axial(3, 0),
        ],
        0,
    );
    session.step(350);

    match session.state {
        State::Selected(selected) => assert_eq!(selected, id),
        State::Waiting => panic!("expected control to return as a selection"),
        _ => panic!("expected movement to halt"),
    }
    let unit = session.world.get_unit(id).unwrap();
    assert_eq!(unit.remaining_range, 0);
    assert_eq!(session.world.get_position(id).unwrap(), Hexagon::new_axial(2, 0));
}

#[test]
fn movement_consumes_one_cell_per_step_duration() {
    let mut session = two_player_session();
    let id = session.spawn_unit(Hexagon::new_axial(0, 0), 0, Unit::new(20, 5, 5, 0, 2, 5, 5, 1));

    session.state = State::Moving(
        id,
        vec![Hexagon::new_axial(1, 0), Hexagon::new_axial(2, 0)],
        0,
    );

    // A small delta consumes no step at all.
    session.step(50);
    assert_eq!(session.world.get_position(id).unwrap(), Hexagon::new_axial(0, 0));
    assert!(matches!(session.state, State::Moving(_, _, 50)));

    // A large delta takes both steps in one frame.
    session.step(500);
    assert_eq!(session.world.get_position(id).unwrap(), Hexagon::new_axial(2, 0));
    assert!(matches!(session.state, State::Selected(_)));
    assert_eq!(session.world.get_unit(id).unwrap().remaining_range, 3);
}

#[test]
fn step_in_waiting_changes_nothing() {
    let mut session = two_player_session();
    let id = session.spawn_unit(Hexagon::new_axial(2, 0), 0, Unit::new(20, 5, 5, 0, 2, 3, 3, 1));
    let diff = session.step(16);
    assert!(matches!(session.state, State::Waiting));
    assert_eq!(diff.added.len(), 0);
    assert_eq!(diff.removed.len(), 0);
    assert_eq!(session.world.get_unit(id).unwrap().remaining_range, 3);
}

#[test]
fn cancel_forces_waiting_and_clears_the_preview() {
    let mut session = two_player_session();
    session.spawn_unit(Hexagon::new_axial(2, 0), 0, Unit::new(20, 5, 5, 0, 2, 3, 3, 1));

    session.select_or_act(Hexagon::new_axial(2, 0), false);
    session.hover(Hexagon::new_axial(0, 0));
    assert!(matches!(session.state, State::Selected(_)));

    session.cancel();
    assert!(matches!(session.state, State::Waiting));
    assert_eq!(session.current_path.len(), 0);
}

#[test]
fn hover_previews_a_route_for_an_own_selected_unit() {
    let mut session = two_player_session();
    session.spawn_unit(Hexagon::new_axial(0, 0), 0, Unit::new(20, 5, 5, 0, 2, 3, 3, 1));

    session.select_or_act(Hexagon::new_axial(0, 0), false);
    session.hover(Hexagon::new_axial(2, 0));

    assert_eq!(session.current_path.len(), 2);
    assert_eq!(*session.current_path.last().unwrap(), Hexagon::new_axial(2, 0));

    session.clear_hover();
    assert_eq!(session.current_path.len(), 0);
}

#[test]
fn hover_clears_the_preview_while_waiting() {
    let mut session = two_player_session();
    session.current_path = vec![Hexagon::new_axial(1, 0)];
    session.hover(Hexagon::new_axial(2, 0));
    assert_eq!(session.current_path.len(), 0);
}

#[test]
fn own_unit_in_range_is_selected_not_attacked() {
    // Transition 3 queues combat on enemy units only: with line of sight
    // and in range, a second unit of one's own merely becomes the
    // selection.
    let mut session = two_player_session();
    session.spawn_unit(Hexagon::new_axial(0, 0), 0, Unit::new(20, 5, 5, 0, 2, 3, 3, 1));
    let own_other = session.spawn_unit(
        Hexagon::new_axial(2, 0),
        0,
        Unit::new(10, 2, 2, 1, 1, 2, 2, 1),
    );

    session.select_or_act(Hexagon::new_axial(0, 0), false);
    session.select_or_act(Hexagon::new_axial(2, 0), true);

    match session.state {
        State::Selected(selected) => assert_eq!(selected, own_other),
        _ => panic!("expected the own unit to be selected, not attacked"),
    }
}

#[test]
fn exactly_one_step_duration_consumes_one_cell() {
    // A cell is consumed while the accumulated time reaches the step
    // duration, boundary included.
    let mut session = two_player_session();
    let id = session.spawn_unit(Hexagon::new_axial(0, 0), 0, Unit::new(20, 5, 5, 0, 2, 5, 5, 1));

    session.state = State::Moving(
        id,
        vec![Hexagon::new_axial(1, 0), Hexagon::new_axial(2, 0)],
        0,
    );
    session.step(100);

    assert_eq!(session.world.get_position(id).unwrap(), Hexagon::new_axial(1, 0));
    assert!(matches!(session.state, State::Moving(_, _, 0)));
}

#[test]
fn initial_session_deploys_the_standard_armies() {
    let session = GameWorld::initial_session();

    assert!(matches!(session.state, State::Waiting));
    assert_eq!(session.players.len(), 2);
    assert_eq!(session.current_player, Some(0));
    assert_eq!(session.world.field_radius(), 4);

    let heavy_cell = GameWorld::get_entities_at_hexagon(&Hexagon::new_axial(2, 0), &session.world);
    assert_eq!(heavy_cell.len(), 1);
    let heavy = session.world.get_unit(heavy_cell[0]).unwrap();
    assert_eq!(heavy.integrity, 20);
    assert_eq!(heavy.damage, 5);
    assert_eq!(heavy.mobility, 5);
    assert_eq!(session.world.get_player(heavy_cell[0]), Some(0));

    let light_cell =
        GameWorld::get_entities_at_hexagon(&Hexagon::new_axial(-2, -1), &session.world);
    assert_eq!(light_cell.len(), 1);
    let light = session.world.get_unit(light_cell[0]).unwrap();
    assert_eq!(light.integrity, 10);
    assert_eq!(light.damage, 10);
    assert_eq!(light.remaining_attacks, 1);
    assert_eq!(session.world.get_player(light_cell[0]), Some(1));
}
