use tactics_core::hex::{generate_field, Hexagon};

#[test]
fn distance_of_a_coordinate_to_itself_is_zero() {
    let a = Hexagon::new_axial(3, -2);
    assert_eq!(a.distance_to(&a), 0);
}

#[test]
fn distance_is_symmetric() {
    let a = Hexagon::new_axial(-4, 1);
    let b = Hexagon::new_axial(2, 3);
    assert_eq!(a.distance_to(&b), b.distance_to(&a));
}

#[test]
fn distance_satisfies_the_triangle_inequality() {
    let a = Hexagon::new_axial(-4, 1);
    let b = Hexagon::new_axial(2, 3);
    let c = Hexagon::new_axial(0, -5);
    assert!(a.distance_to(&b) <= a.distance_to(&c) + c.distance_to(&b));
}

#[test]
fn distance_follows_the_axial_formula() {
    let origin = Hexagon::new_axial(0, 0);
    assert_eq!(origin.distance_to(&Hexagon::new_axial(2, 0)), 2);
    assert_eq!(origin.distance_to(&Hexagon::new_axial(1, -1)), 1);
    assert_eq!(origin.distance_to(&Hexagon::new_axial(-3, 5)), 5);
    assert_eq!(
        Hexagon::new_axial(2, -1).distance_to(&Hexagon::new_axial(-1, 2)),
        3
    );
}

#[test]
fn neighbours_are_exactly_at_distance_one() {
    let centre = Hexagon::new_axial(1, 1);
    assert!(centre.is_neighbour(&Hexagon::new_axial(2, 1)));
    assert!(centre.is_neighbour(&Hexagon::new_axial(0, 2)));
    assert!(!centre.is_neighbour(&centre));
    assert!(!centre.is_neighbour(&Hexagon::new_axial(3, 1)));
}

#[test]
fn generated_field_has_the_hexagonal_cell_count() {
    // 3 * radius^2 + 3 * radius + 1 cells.
    assert_eq!(generate_field(0).len(), 1);
    assert_eq!(generate_field(1).len(), 7);
    assert_eq!(generate_field(4).len(), 61);
}

#[test]
fn generated_field_contains_exactly_the_cells_within_the_radius() {
    let field = generate_field(4);
    assert!(field.contains(&Hexagon::new_axial(0, 0)));
    assert!(field.contains(&Hexagon::new_axial(4, -4)));
    assert!(field.contains(&Hexagon::new_axial(-4, 4)));
    assert!(field.contains(&Hexagon::new_axial(2, 2)));
    assert!(!field.contains(&Hexagon::new_axial(5, 0)));
    assert!(!field.contains(&Hexagon::new_axial(3, 2)));
    assert!(!field.contains(&Hexagon::new_axial(-1, 5)));
}

#[test]
fn generated_field_has_no_duplicate_cells() {
    let field = generate_field(2);
    for i in 0..field.len() {
        for j in (i + 1)..field.len() {
            assert_ne!(field[i], field[j]);
        }
    }
}
