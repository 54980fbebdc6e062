use tactics_core::unit::{AttackError, AttackResult, CanMove, Unit};

#[test]
pub fn attack_reduces_integrity() {
    let defender = Unit::new(5, 0, 0, 0, 0, 0, 0, 0);
    let attacker = Unit::new(0, 4, 0, 0, 0, 0, 0, 1);

    let result = attacker.attack(&defender);
    let result = match result {
        Ok(x) => x,
        Err(_) => panic!("Expected a result with Ok value"),
    };
    assert_eq!(result.defender.integrity, 1);
}

#[test]
pub fn attack_sets_attacker_mobility_to_0() {
    let defender = Unit::new(5, 0, 0, 0, 0, 0, 0, 0);
    let attacker = Unit::new(0, 4, 0, 0, 0, 5, 0, 1);

    let result = attacker.attack(&defender);
    let result = match result {
        Ok(x) => x,
        Err(_) => panic!("Expected a result with Ok value"),
    };
    assert_eq!(result.attacker.mobility, 0);
}

#[test]
pub fn attack_reduces_attacker_attacks_by_1() {
    let defender = Unit::new(5, 0, 0, 0, 0, 0, 0, 0);
    let attacker = Unit::new(0, 4, 0, 0, 0, 5, 0, 2);

    let result = attacker.attack(&defender);
    let result = match result {
        Ok(x) => x,
        Err(_) => panic!("Expected a result with Ok value"),
    };
    assert_eq!(result.attacker.remaining_attacks, 1);
    let attacker = result.attacker;
    let result = attacker.attack(&defender);
    let result = match result {
        Ok(x) => x,
        Err(_) => panic!("Expected a result with Ok value"),
    };
    assert_eq!(result.attacker.remaining_attacks, 0);
}

#[test]
pub fn attack_takes_armor_into_account() {
    let defender = Unit::new(5, 0, 0, 0, 1, 0, 0, 0);
    let attacker = Unit::new(0, 4, 0, 0, 0, 0, 0, 1);

    let result = attacker.attack(&defender);
    let result = match result {
        Ok(x) => x,
        Err(_) => panic!("Expected a result with Ok value"),
    };
    assert_eq!(result.defender.integrity, 2);
}

#[test]
pub fn attack_returns_correct_damage() {
    let defender = Unit::new(5, 0, 0, 0, 1, 0, 0, 0);
    let attacker = Unit::new(0, 4, 0, 0, 0, 0, 0, 1);

    let result = attacker.attack(&defender);
    let result = match result {
        Ok(x) => x,
        Err(_) => panic!("Expected a result with Ok value"),
    };
    assert_eq!(result.actual_damage, 3);
}

#[test]
pub fn can_move_returns_ok_with_remaining_distance_if_distance_is_below_or_equal_to_remaining_range(
) {
    let unit = Unit::new(0, 0, 0, 0, 0, 0, 5, 0);
    let result = unit.can_move(4);
    match result {
        CanMove::Yes(remaining_range) => assert_eq!(remaining_range, 1),
        _ => panic!("Expected result of Yes"),
    }

    let result = unit.can_move(5);
    match result {
        CanMove::Yes(remaining_range) => assert_eq!(remaining_range, 0),
        _ => panic!("Expected result of Yes"),
    }
}

#[test]
pub fn can_move_returns_no_if_distance_is_higher_than_remaining_range() {
    let unit = Unit::new(0, 0, 0, 0, 0, 0, 4, 0);
    let result = unit.can_move(5);
    match result {
        CanMove::No => {}
        _ => panic!("Expected result of No"),
    };
}

#[test]
fn attack_without_attacks_left_fails() {
    let defender = Unit::new(5, 0, 0, 0, 0, 0, 0, 0);
    let attacker = Unit::new(0, 4, 0, 0, 0, 0, 0, 0);

    let result = attacker.attack(&defender);
    assert!(matches!(result, Err(AttackError::NoAttacksLeft)));
}

#[test]
fn attack_scenario_with_armor_and_spent_budget() {
    // Attacker with 4 damage and one attack against a defender with 5
    // integrity and 1 armor: 3 damage dealt, 2 integrity left, no attacks
    // left afterwards.
    let attacker = Unit::new(10, 4, 0, 0, 0, 0, 0, 1);
    let defender = Unit::new(5, 0, 0, 0, 1, 0, 0, 0);

    let result = attacker.attack(&defender).expect("attack should succeed");
    assert_eq!(result.actual_damage, 3);
    assert_eq!(result.defender.integrity, 2);
    assert_eq!(result.attacker.remaining_attacks, 0);
}

#[test]
fn attack_damage_is_not_clamped_at_zero() {
    // Armor above damage heals the defender: the formula stays unclamped.
    let attacker = Unit::new(1, 2, 0, 0, 0, 0, 0, 1);
    let defender = Unit::new(5, 0, 0, 0, 7, 0, 0, 0);

    let result = attacker.attack(&defender).expect("attack should succeed");
    assert_eq!(result.actual_damage, -5);
    assert_eq!(result.defender.integrity, 10);
}

#[test]
fn attack_carries_unrelated_fields_through() {
    let attacker = Unit::new(9, 3, 6, 2, 4, 7, 5, 2);
    let defender = Unit::new(8, 5, 3, 1, 2, 6, 4, 1);

    let result = attacker.attack(&defender).expect("attack should succeed");
    let a = result.attacker;
    assert_eq!(a.integrity, 9);
    assert_eq!(a.damage, 3);
    assert_eq!(a.max_attack_range, 6);
    assert_eq!(a.min_attack_range, 2);
    assert_eq!(a.armor, 4);
    assert_eq!(a.remaining_range, 5);
    let d = result.defender;
    assert_eq!(d.damage, 5);
    assert_eq!(d.max_attack_range, 3);
    assert_eq!(d.min_attack_range, 1);
    assert_eq!(d.armor, 2);
    assert_eq!(d.mobility, 6);
    assert_eq!(d.remaining_range, 4);
    assert_eq!(d.remaining_attacks, 1);
}

#[test]
fn can_move_with_zero_distance_keeps_range() {
    let unit = Unit::new(0, 0, 0, 0, 0, 0, 3, 0);
    match unit.can_move(0) {
        CanMove::Yes(remaining_range) => assert_eq!(remaining_range, 3),
        _ => panic!("Expected result of Yes"),
    }
}

#[test]
fn attack_result_is_a_plain_value() {
    // Building the result by hand and reading it back commits nothing.
    let result = AttackResult {
        actual_damage: 1,
        attacker: Unit::new(1, 1, 0, 0, 0, 0, 0, 0),
        defender: Unit::new(2, 1, 0, 0, 0, 0, 0, 0),
    };
    assert_eq!(result.actual_damage, 1);
    assert_eq!(result.attacker.integrity, 1);
    assert_eq!(result.defender.integrity, 2);
}
