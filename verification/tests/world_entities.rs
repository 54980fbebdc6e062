use tactics_core::hex::Hexagon;
use tactics_core::session::GameWorld;
use tactics_core::unit::{AttackResult, Unit};
use tactics_core::world::World;

#[test]
fn find_entity_returns_entity_with_index() {
    let world = &mut World::new(4);
    world.spawn(None, None, None);
    let check_entity_index = world.spawn(None, None, None).index();

    let entity = GameWorld::find_entity(check_entity_index, world);
    let entity = match entity {
        None => panic!("Expected result with Some value"),
        Some(x) => x,
    };
    assert_eq!(entity.index(), check_entity_index)
}

#[test]
fn find_entity_returns_none_if_entity_does_not_exist() {
    let world = &World::new(4);
    let entity = GameWorld::find_entity(0, world);
    assert_eq!(entity, None);
}

#[test]
fn get_entities_at_hexagon_returns_all_entities_with_the_correct_tag_value() {
    let world = &mut World::new(4);
    world.spawn(None, Some(Hexagon::new_axial(0, 0)), None);
    world.spawn(None, Some(Hexagon::new_axial(1, 3)), None);
    world.spawn(None, Some(Hexagon::new_axial(1, 3)), None);

    let result = GameWorld::get_entities_at_hexagon(&Hexagon::new_axial(1, 3), world);
    assert!(result.iter().all(|entity| {
        let hexagon = world.get_position(*entity).unwrap();
        hexagon.get_q() == 1 && hexagon.get_r() == 3
    }));
    assert_eq!(result.len(), 2);
}

#[test]
fn handle_attack_result_updates_components() {
    let mut world = World::new(4);
    let attacker = world.spawn(Some(Unit::new(1, 1, 0, 0, 0, 0, 0, 1)), None, None);
    let defender = world.spawn(Some(Unit::new(2, 1, 0, 0, 0, 0, 0, 0)), None, None);
    let result = AttackResult {
        attacker: Unit::new(1, 1, 0, 0, 0, 0, 0, 0),
        defender: Unit::new(1, 1, 0, 0, 0, 0, 0, 0),
        actual_damage: 1,
    };

    GameWorld::handle_attack_result(&mut world, attacker, defender, result);

    let changed_attacker = world.get_unit(attacker).unwrap();
    assert_eq!(changed_attacker.remaining_attacks, 0);

    let changed_defender = world.get_unit(defender).unwrap();
    assert_eq!(changed_defender.integrity, 1);
}

#[test]
fn handle_attack_result_removes_defender_when_integrity_lower_or_eq_0() {
    let mut world = World::new(4);
    let attacker = world.spawn(Some(Unit::new(1, 2, 0, 0, 0, 0, 0, 1)), None, None);
    let defender = world.spawn(Some(Unit::new(2, 1, 0, 0, 0, 0, 0, 0)), None, None);
    let result = AttackResult {
        attacker: Unit::new(1, 1, 0, 0, 0, 0, 0, 0),
        defender: Unit::new(0, 1, 0, 0, 0, 0, 0, 0),
        actual_damage: 1,
    };

    GameWorld::handle_attack_result(&mut world, attacker, defender, result);

    assert!(!world.contains(defender));
}

#[test]
fn handle_attack_results_only_changes_affected_fields() {
    let mut world = World::new(4);
    let attacking_unit = Unit::new(1, 1, 2, 4, 5, 3, 0, 1);
    let attacker = world.spawn(Some(attacking_unit), None, None);
    let defending_unit = Unit::new(2, 4, 5, 3, 2, 4, 0, 0);
    let defender = world.spawn(Some(defending_unit), None, None);
    let result = AttackResult {
        attacker: attacking_unit,
        defender: defending_unit,
        actual_damage: 1,
    };

    GameWorld::handle_attack_result(&mut world, attacker, defender, result);

    let changed_attacker = world.get_unit(attacker).unwrap();
    assert_eq!(changed_attacker.damage, attacking_unit.damage);
    assert_eq!(
        changed_attacker.max_attack_range,
        attacking_unit.max_attack_range
    );
    assert_eq!(
        changed_attacker.min_attack_range,
        attacking_unit.min_attack_range
    );
    assert_eq!(changed_attacker.armor, attacking_unit.armor);
    assert_eq!(changed_attacker.mobility, attacking_unit.mobility);

    let changed_defender = world.get_unit(defender).unwrap();
    assert_eq!(changed_defender.damage, defending_unit.damage);
    assert_eq!(
        changed_defender.max_attack_range,
        defending_unit.max_attack_range
    );
    assert_eq!(
        changed_defender.min_attack_range,
        defending_unit.min_attack_range
    );
    assert_eq!(changed_defender.armor, defending_unit.armor);
    assert_eq!(changed_defender.mobility, defending_unit.mobility);
}

#[test]
fn move_entity_to_hexagon_updates_entity() {
    let mut world = World::new(4);
    let entity = world.spawn(
        Some(Unit::new(0, 0, 0, 0, 0, 0, 2, 0)),
        Some(Hexagon::new_axial(0, 0)),
        None,
    );

    GameWorld::move_entity_to_hexagon(entity, &Hexagon::new_axial(1, 1), &mut world);

    let hexagon = world.get_position(entity).unwrap();
    assert_eq!(hexagon.get_q(), 1);
    assert_eq!(hexagon.get_r(), 1);
}

#[test]
fn move_entity_to_hexagon_does_nothing_if_entity_cannot_move() {
    let mut world = World::new(4);
    let entity = world.spawn(
        Some(Unit::new(0, 0, 0, 0, 0, 0, 1, 0)),
        Some(Hexagon::new_axial(5, 5)),
        None,
    );
    let hexagon = world.get_position(entity).unwrap();
    assert_eq!(hexagon.get_q(), 5);
    assert_eq!(hexagon.get_r(), 5);
}

#[test]
fn move_entity_to_hexagon_keeps_position_when_range_is_short() {
    let mut world = World::new(4);
    let entity = world.spawn(
        Some(Unit::new(0, 0, 0, 0, 0, 0, 1, 0)),
        Some(Hexagon::new_axial(0, 0)),
        None,
    );

    // Distance 2 exceeds the remaining range of 1: nothing happens.
    GameWorld::move_entity_to_hexagon(entity, &Hexagon::new_axial(1, 1), &mut world);

    let hexagon = world.get_position(entity).unwrap();
    assert_eq!(hexagon.get_q(), 0);
    assert_eq!(hexagon.get_r(), 0);
    assert_eq!(world.get_unit(entity).unwrap().remaining_range, 1);
}

#[test]
fn move_entity_to_hexagon_spends_movement_budget() {
    let mut world = World::new(4);
    let entity = world.spawn(
        Some(Unit::new(0, 0, 0, 0, 0, 0, 3, 0)),
        Some(Hexagon::new_axial(0, 0)),
        None,
    );

    GameWorld::move_entity_to_hexagon(entity, &Hexagon::new_axial(2, 0), &mut world);

    assert_eq!(world.get_unit(entity).unwrap().remaining_range, 1);
}

#[test]
fn removed_entity_id_goes_stale() {
    let mut world = World::new(4);
    let entity = world.spawn(None, Some(Hexagon::new_axial(0, 0)), Some(0));
    assert!(world.contains(entity));
    assert!(world.remove(entity));
    assert!(!world.contains(entity));
    assert_eq!(world.get_position(entity), None);
    assert_eq!(world.get_player(entity), None);

    // The freed slot may be reused, but the old id must not resolve.
    let successor = world.spawn(None, None, None);
    assert!(!world.contains(entity));
    assert!(world.contains(successor));
    assert_ne!(entity, successor);
}
