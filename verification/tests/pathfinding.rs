use tactics_core::hex::Hexagon;
use tactics_core::pathfind::find_path;
use tactics_core::unit::Unit;
use tactics_core::world::World;

#[test]
fn path_on_a_free_field_is_direct() {
    // On a radius-4 field with nothing in the way, the route from (0,0) to
    // (2,0) has two cells, ends at the target, and every consecutive pair
    // of cells is adjacent.
    let world = World::new(4);
    let from = Hexagon::new_axial(0, 0);
    let to = Hexagon::new_axial(2, 0);

    let path = find_path(&from, &to, &world);

    assert_eq!(path.len(), 2);
    assert_eq!(*path.last().unwrap(), to);
    assert!(from.is_neighbour(&path[0]));
    for pair in path.windows(2) {
        assert!(pair[0].is_neighbour(&pair[1]));
    }
}

#[test]
fn path_to_the_start_cell_is_empty() {
    let world = World::new(4);
    let cell = Hexagon::new_axial(1, 1);
    assert_eq!(find_path(&cell, &cell, &world).len(), 0);
}

#[test]
fn path_to_a_cell_outside_the_field_is_empty() {
    let world = World::new(4);
    let from = Hexagon::new_axial(0, 0);
    let to = Hexagon::new_axial(9, 0);
    assert_eq!(find_path(&from, &to, &world).len(), 0);
}

#[test]
fn path_avoids_cells_occupied_by_units() {
    let mut world = World::new(4);
    // Wall off the direct line between (0,0) and (2,0).
    world.spawn(
        Some(Unit::new(1, 0, 0, 0, 0, 0, 0, 0)),
        Some(Hexagon::new_axial(1, 0)),
        None,
    );
    let from = Hexagon::new_axial(0, 0);
    let to = Hexagon::new_axial(2, 0);

    let path = find_path(&from, &to, &world);

    // The shortest detour around the wall takes three steps.
    assert_eq!(path.len(), 3);
    assert_eq!(*path.last().unwrap(), to);
    assert!(!path.contains(&Hexagon::new_axial(1, 0)));
    assert!(from.is_neighbour(&path[0]));
    for pair in path.windows(2) {
        assert!(pair[0].is_neighbour(&pair[1]));
    }
}

#[test]
fn occupied_destination_is_still_reachable() {
    // The target cell is exempt from the occupancy check, so a route up to
    // an occupied cell exists — that is how attacks are approached.
    let mut world = World::new(4);
    world.spawn(
        Some(Unit::new(1, 0, 0, 0, 0, 0, 0, 0)),
        Some(Hexagon::new_axial(2, 0)),
        None,
    );
    let from = Hexagon::new_axial(0, 0);
    let to = Hexagon::new_axial(2, 0);

    let path = find_path(&from, &to, &world);

    assert_eq!(path.len(), 2);
    assert_eq!(*path.last().unwrap(), to);
}

#[test]
fn fully_enclosed_start_has_no_route_out() {
    let mut world = World::new(4);
    let blocker = Unit::new(1, 0, 0, 0, 0, 0, 0, 0);
    for (q, r) in [(1, 0), (1, -1), (0, -1), (-1, 0), (-1, 1), (0, 1)] {
        world.spawn(Some(blocker), Some(Hexagon::new_axial(q, r)), None);
    }
    let from = Hexagon::new_axial(0, 0);
    let to = Hexagon::new_axial(3, 0);

    assert_eq!(find_path(&from, &to, &world).len(), 0);
}
