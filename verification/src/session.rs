//! The session state machine: it holds the world, the roster and the
//! current turn, interprets input events (cell selected, cell hovered,
//! cancel), drives multi-tick movement and resolves combat.
//!
//! Every anomaly — a stale entity id, a missing component, a session without
//! an active player — is recovered locally by forcing the machine back to
//! `Waiting`; no input ever leaves the session in a dangling state.

use vstd::prelude::*;
use crate::hex::{hex_distance, Hexagon, MAX_FIELD_RADIUS};
use crate::player::{Player, PlayerColor};
use crate::unit::{attack_fits, AttackResult, CanMove, Unit};
use crate::world::{EntityId, Slot, World, WorldView};
use crate::pathfind::find_path;
use crate::pathfind::walkable_route;

verus! {

broadcast use vstd::seq_lib::lemma_seq_contains_after_push;

/// Milliseconds of simulated time one movement step consumes. Movement is
/// paced by delta-time accumulation against this constant, so step counts
/// are deterministic whatever the frame rate.
pub const STEP_DURATION_MS: u64 = 100;

/// What the state machine is doing between inputs.
#[derive(Debug)]
pub enum State {
    /// Idle: no unit is active.
    Waiting,
    /// A unit is chosen and awaits a destination or a target.
    Selected(EntityId),
    /// A unit consumes a precomputed path, one cell per elapsed step
    /// duration; the third field is the accumulated, not yet consumed time
    /// in milliseconds.
    Moving(EntityId, Vec<Hexagon>, u64),
    /// A combat (attacker, defender) is queued for the next tick.
    Attacking(EntityId, EntityId),
}

/// The mathematical shape of a [`State`], with the path as a sequence.
pub ghost enum StateV {
    Waiting,
    Selected(EntityId),
    Moving(EntityId, Seq<Hexagon>, u64),
    Attacking(EntityId, EntityId),
}

impl View for State {
    type V = StateV;

    open spec fn view(&self) -> StateV {
        match self {
            State::Waiting => StateV::Waiting,
            State::Selected(e) => StateV::Selected(*e),
            State::Moving(e, path, t) => StateV::Moving(*e, path@, *t),
            State::Attacking(a, d) => StateV::Attacking(*a, *d),
        }
    }
}

/// The entity-store changes one call produced, handed back synchronously so
/// the render collaborator can mirror them without a notification channel.
#[derive(Debug)]
pub struct WorldDiff {
    pub added: Vec<EntityId>,
    pub removed: Vec<EntityId>,
}

/// The session: the single mutable object of a play session, created once
/// at game start and mutated exclusively through the methods below.
pub struct GameWorld {
    pub world: World,
    pub state: State,
    pub players: Vec<Player>,
    pub current_player: Option<usize>,
    /// The advisory hover-preview path; never influences unit data.
    pub current_path: Vec<Hexagon>,
    /// Pixel size of one field cell; read by the render collaborator only.
    pub hexfield_size: i32,
    /// Render hint: the grid overlay should be redrawn.
    pub redraw_grid: bool,
}

/// Index of the player whose turn comes after `current`, in a roster of
/// `player_count` players: one step forward, wrapping to the first player.
pub open spec fn spec_next_player(current: Option<usize>, player_count: int) -> int {
    match current {
        None => 0,
        Some(p) => if p + 1 >= player_count {
            0
        } else {
            p + 1
        },
    }
}

/// Accumulated time after a frame's delta, saturating at the top of `u64`.
pub open spec fn spec_accumulate(elapsed: u64, delta: u64) -> u64 {
    if elapsed + delta > u64::MAX {
        u64::MAX
    } else {
        (elapsed + delta) as u64
    }
}

/// What consuming movement ticks leaves behind: the world's slots and the
/// state the machine ends in.
pub ghost struct MoveOutcome {
    pub slots: Seq<Slot>,
    pub state: StateV,
}

/// The movement loop, one cell per step duration: while at least one full
/// step of time is accumulated, the unit takes the next path cell if it
/// still exists, has movement budget left and the cell is adjacent; any
/// anomaly halts movement (`Waiting` for a lost unit, `Selected` to hand
/// control back), and an exhausted budget halts it early with the path
/// unconsumed.
pub open spec fn spec_move_ticks(
    w: WorldView,
    entity: EntityId,
    path: Seq<Hexagon>,
    elapsed: u64,
) -> MoveOutcome
    decreases elapsed,
{
    if elapsed < STEP_DURATION_MS {
        if path.len() > 0 {
            MoveOutcome { slots: w.slots, state: StateV::Moving(entity, path, elapsed) }
        } else {
            MoveOutcome { slots: w.slots, state: StateV::Selected(entity) }
        }
    } else if w.unit_of(entity) is None {
        MoveOutcome { slots: w.slots, state: StateV::Waiting }
    } else if w.unit_of(entity)->0.remaining_range <= 0 {
        MoveOutcome { slots: w.slots, state: StateV::Selected(entity) }
    } else if w.position_of(entity) is None {
        MoveOutcome { slots: w.slots, state: StateV::Waiting }
    } else if path.len() == 0 {
        MoveOutcome { slots: w.slots, state: StateV::Selected(entity) }
    } else if hex_distance(w.position_of(entity)->0, path[0]) != 1 {
        MoveOutcome { slots: w.slots, state: StateV::Selected(entity) }
    } else {
        let u = w.unit_of(entity)->0;
        let moved = w.slots.update(
            entity.index as int,
            Slot {
                unit: Some(Unit { remaining_range: (u.remaining_range - 1) as i32, ..u }),
                position: Some(path[0]),
                ..w.slots[entity.index as int]
            },
        );
        spec_move_ticks(
            WorldView { slots: moved, field_radius: w.field_radius },
            entity,
            path.skip(1),
            (elapsed - STEP_DURATION_MS) as u64,
        )
    }
}

/// A live entity stands on the cell.
pub open spec fn spec_at_cell(w: WorldView, cell: Hexagon, id: EntityId) -> bool {
    w.valid_id(id) && w.position_of(id) == Some(cell)
}

/// A primary click may queue the combat `sel` against `target` on `cell`:
/// the selection belongs to the active player, the target is an enemy
/// unit-bearing entity on the cell (a unit without an owner counts as
/// hostile), the cell lies within the selected unit's attack-range band,
/// and the render collaborator reported line of sight.
pub open spec fn spec_attack_allowed(
    w: WorldView,
    current_player: Option<usize>,
    sel: EntityId,
    target: EntityId,
    cell: Hexagon,
    visible: bool,
) -> bool {
    &&& w.valid_id(sel)
    &&& target != sel
    &&& spec_at_cell(w, cell, target)
    &&& w.unit_of(target) is Some
    &&& current_player is Some
    &&& w.player_of(sel) == current_player
    &&& w.player_of(target) != current_player
    &&& (w.unit_of(sel) matches Some(u) && w.position_of(sel) matches Some(pos)
        && u.min_attack_range <= hex_distance(pos, cell) && hex_distance(pos, cell)
        <= u.max_attack_range)
    &&& visible
}

/// A primary click may send the selection moving: it is a unit of the
/// active player with a known position.
pub open spec fn spec_move_allowed(w: WorldView, current_player: Option<usize>, sel: EntityId) -> bool {
    &&& w.valid_id(sel)
    &&& current_player is Some
    &&& w.player_of(sel) == current_player
    &&& w.position_of(sel) is Some
}

/// The click concerned a unit of another player: the input is ignored and
/// nothing at all changes.
pub open spec fn spec_ignored(w: WorldView, current_player: Option<usize>, sel: EntityId) -> bool {
    &&& w.valid_id(sel)
    &&& current_player is Some
    &&& w.player_of(sel) is Some
    &&& w.player_of(sel) != current_player
}

impl GameWorld {
    /// Everything but the world and the state is unchanged.
    pub open spec fn only_state_changed(self, pre: GameWorld) -> bool {
        &&& self.players@ == pre.players@
        &&& self.current_player == pre.current_player
        &&& self.hexfield_size == pre.hexfield_size
    }

    /// A fresh session: empty world, empty roster, waiting for input.
    pub fn new(field_radius: i32, hexfield_size: i32) -> (session: GameWorld)
        requires
            0 <= field_radius <= MAX_FIELD_RADIUS,
        ensures
            session.world@.slots.len() == 0,
            session.world@.field_radius == field_radius,
            session.state is Waiting,
            session.players@.len() == 0,
            session.current_player is None,
            session.current_path@.len() == 0,
            session.hexfield_size == hexfield_size,
            session.redraw_grid,
    {
        GameWorld {
            world: World::new(field_radius),
            state: State::Waiting,
            players: Vec::new(),
            current_player: None,
            current_path: Vec::new(),
            hexfield_size,
            redraw_grid: true,
        }
    }

    /// The session the game opens with: a two-player roster, the first
    /// player active, and four units deployed symmetrically on a radius-4
    /// field — a heavy and a light unit per side, facing each other.
    pub fn initial_session() -> (session: GameWorld)
        ensures
            session.state is Waiting,
            session.current_path@.len() == 0,
            session.players@.len() == 2,
            session.current_player == Some(0usize),
            session.world@.field_radius == 4,
            session.hexfield_size == 40,
            session.world@.slots.len() == 4,
            ({
                let heavy = Unit {
                    integrity: 20,
                    damage: 5,
                    max_attack_range: 2,
                    min_attack_range: 1,
                    armor: 3,
                    mobility: 5,
                    remaining_range: 5,
                    remaining_attacks: 1,
                };
                let light = Unit {
                    integrity: 10,
                    damage: 10,
                    max_attack_range: 4,
                    min_attack_range: 2,
                    armor: 1,
                    mobility: 2,
                    remaining_range: 2,
                    remaining_attacks: 1,
                };
                let slots = session.world@.slots;
                &&& (forall|i: int| 0 <= i < 4 ==> (#[trigger] slots[i]).live)
                &&& slots[0].unit == Some(heavy) && slots[0].position == Some(
                    Hexagon { q: 2, r: 0 },
                ) && slots[0].player == Some(0usize)
                &&& slots[1].unit == Some(light) && slots[1].position == Some(
                    Hexagon { q: 2, r: 1 },
                ) && slots[1].player == Some(0usize)
                &&& slots[2].unit == Some(heavy) && slots[2].position == Some(
                    Hexagon { q: -2i32, r: 0 },
                ) && slots[2].player == Some(1usize)
                &&& slots[3].unit == Some(light) && slots[3].position == Some(
                    Hexagon { q: -2i32, r: -1i32 },
                ) && slots[3].player == Some(1usize)
            }),
    {
        let mut session = GameWorld::new(4, 40);
        session.add_player(
            Player::new("Player 1".to_owned(), PlayerColor { red: 0, green: 0, blue: 255 }),
        );
        session.add_player(
            Player::new("Player 2".to_owned(), PlayerColor { red: 255, green: 0, blue: 0 }),
        );
        let heavy = Unit::new(20, 5, 2, 1, 3, 5, 5, 1);
        let light = Unit::new(10, 10, 4, 2, 1, 2, 2, 1);
        let first = session.spawn_unit(Hexagon::new_axial(2, 0), 0, heavy);
        let second = session.spawn_unit(Hexagon::new_axial(2, 1), 0, light);
        let third = session.spawn_unit(Hexagon::new_axial(-2, 0), 1, heavy);
        let fourth = session.spawn_unit(Hexagon::new_axial(-2, -1), 1, light);
        proof {
            assert(first.index == 0 && second.index == 1 && third.index == 2 && fourth.index == 3);
        }
        session.current_player = Some(0);
        session
    }

    /// Adds one entry to the roster; done at session setup.
    pub fn add_player(&mut self, player: Player)
        ensures
            final(self).players@ == old(self).players@.push(player),
            final(self).world == old(self).world,
            final(self).state == old(self).state,
            final(self).current_player == old(self).current_player,
            final(self).current_path == old(self).current_path,
            final(self).hexfield_size == old(self).hexfield_size,
            final(self).redraw_grid == old(self).redraw_grid,
    {
        self.players.push(player);
    }

    /// Deploys a unit for a player at a coordinate; the returned id is the
    /// `added` part of the diff this mutation produces.
    pub fn spawn_unit(&mut self, coordinate: Hexagon, player_id: usize, unit: Unit) -> (id:
        EntityId)
        ensures
            final(self).world@.valid_id(id),
            !old(self).world@.valid_id(id),
            final(self).world@.slot_of(id).unit == Some(unit),
            final(self).world@.slot_of(id).position == Some(coordinate),
            final(self).world@.slot_of(id).player == Some(player_id),
            final(self).world@.field_radius == old(self).world@.field_radius,
            forall|id2: EntityId|
                old(self).world@.valid_id(id2) ==> final(self).world@.valid_id(id2) && final(self).world@.slot_of(id2) == old(self).world@.slot_of(id2),
            forall|i: int|
                0 <= i < final(self).world@.slots.len() && i != id.index ==> i < old(self).world@.slots.len() && final(self).world@.slots[i] == old(self).world@.slots[i],
            final(self).world@.slots.len() == old(self).world@.slots.len() || final(self).world@.slots.len() == old(self).world@.slots.len() + 1,
            final(self).state == old(self).state,
            final(self).only_state_changed(*old(self)),
            final(self).current_path == old(self).current_path,
            final(self).redraw_grid == old(self).redraw_grid,
    {
        self.world.spawn(Some(unit), Some(coordinate), Some(player_id))
    }

    /// Forces the machine into the given state, clearing the hover preview
    /// and asking the render collaborator for a redraw.
    pub fn set_state(&mut self, game_state: State)
        ensures
            final(self).state == game_state,
            final(self).current_path@.len() == 0,
            final(self).redraw_grid,
            final(self).world == old(self).world,
            final(self).only_state_changed(*old(self)),
    {
        self.state = game_state;
        self.current_path = Vec::new();
        self.redraw_grid = true;
    }

    /// Explicit cancel input: back to `Waiting`, hover preview cleared.
    pub fn cancel(&mut self)
        ensures
            final(self).state is Waiting,
            final(self).current_path@.len() == 0,
            final(self).redraw_grid,
            final(self).world == old(self).world,
            final(self).only_state_changed(*old(self)),
    {
        self.set_state(State::Waiting);
    }

    /// The pointer left the field: drop the hover preview, touch nothing
    /// else.
    pub fn clear_hover(&mut self)
        ensures
            final(self).current_path@.len() == 0,
            final(self).world == old(self).world,
            final(self).state == old(self).state,
            final(self).redraw_grid == old(self).redraw_grid,
            final(self).only_state_changed(*old(self)),
    {
        self.current_path = Vec::new();
    }

    /// Round rollover: every unit in the world gets one attack and its full
    /// mobility back, the turn passes to the next player in the roster, and
    /// the machine returns to `Waiting`.
    pub fn on_new_round(&mut self)
        ensures
            final(self).state is Waiting,
            final(self).current_path@.len() == 0,
            final(self).redraw_grid,
            final(self).players@ == old(self).players@,
            final(self).hexfield_size == old(self).hexfield_size,
            final(self).world@.field_radius == old(self).world@.field_radius,
            final(self).world@.slots.len() == old(self).world@.slots.len(),
            forall|i: int|
                0 <= i < final(self).world@.slots.len() ==> {
                    let pre = old(self).world@.slots[i];
                    let post = #[trigger] final(self).world@.slots[i];
                    &&& post.generation == pre.generation
                    &&& post.live == pre.live
                    &&& post.position == pre.position
                    &&& post.player == pre.player
                    &&& (pre.unit matches Some(u) ==> post.unit == Some(
                        Unit { remaining_attacks: 1, remaining_range: u.mobility, ..u },
                    ))
                    &&& (pre.unit is None ==> post.unit is None)
                },
            final(self).current_player == Some(
                spec_next_player(
                    old(self).current_player,
                    old(self).players@.len() as int,
                ) as usize,
            ),
            old(self).current_player matches Some(p) ==> (p < old(self).players@.len() ==> final(self).current_player == Some(((p + 1) % (old(self).players@.len() as int)) as usize)),
    {
        self.world.reset_units_for_round();
        let player_count = self.players.len();
        let next: usize = match self.current_player {
            None => 0,
            Some(p) => {
                if p >= player_count {
                    0
                } else if p + 1 >= player_count {
                    0
                } else {
                    p + 1
                }
            },
        };
        self.current_player = Some(next);
        self.set_state(State::Waiting);
        proof {
            let len = old(self).players@.len() as int;
            match old(self).current_player {
                Some(p) => {
                    if (p as int) < len {
                        if p + 1 == len {
                            vstd::arithmetic::div_mod::lemma_mod_self_0(len);
                        } else {
                            vstd::arithmetic::div_mod::lemma_small_mod((p + 1) as nat, len as nat);
                        }
                    }
                },
                None => {},
            }
        }
    }

    /// Resolves an index to the live entity carrying it, if any.
    pub fn find_entity(entity_index: usize, world: &World) -> (found: Option<EntityId>)
        ensures
            found is Some <==> (entity_index < world@.slots.len()
                && world@.slots[entity_index as int].live),
            found matches Some(id) ==> id.index == entity_index && world@.valid_id(id),
    {
        if entity_index < world.num_slots() {
            let slot = world.slot(entity_index);
            if slot.live {
                Some(EntityId { index: entity_index, generation: slot.generation })
            } else {
                None
            }
        } else {
            None
        }
    }

    /// All live entities standing on the given cell, each exactly once, in
    /// slot order.
    pub fn get_entities_at_hexagon(hexagon: &Hexagon, world: &World) -> (found: Vec<EntityId>)
        ensures
            forall|id: EntityId| #[trigger]
                found@.contains(id) <==> (world@.valid_id(id) && world@.position_of(id) == Some(
                    *hexagon,
                )),
            forall|i: int, j: int| 0 <= i < j < found@.len() ==> found@[i] != found@[j],
    {
        let mut found: Vec<EntityId> = Vec::new();
        let mut i: usize = 0;
        while i < world.num_slots()
            invariant
                i <= world@.slots.len(),
                forall|id: EntityId| #[trigger]
                    found@.contains(id) <==> (world@.valid_id(id) && world@.position_of(id) == Some(
                        *hexagon,
                    ) && id.index < i),
                forall|k: int, j: int| 0 <= k < j < found@.len() ==> found@[k] != found@[j],
            decreases world@.slots.len() - i,
        {
            let slot = world.slot(i);
            if slot.live {
                let matches_cell = match slot.position {
                    Some(p) => p.get_q() == hexagon.get_q() && p.get_r() == hexagon.get_r(),
                    None => false,
                };
                if matches_cell {
                    let id = EntityId { index: i, generation: slot.generation };
                    proof {
                        let pre = found@;
                        assert forall|k: int| 0 <= k < pre.len() implies pre[k] != id by {
                            assert(pre.contains(pre[k]));
                        }
                    }
                    found.push(id);
                }
            }
            i = i + 1;
        }
        found
    }

    /// Moves the entity to the given cell when its movement budget covers
    /// the distance, spending that much of the budget; otherwise, or when
    /// the id is stale or a component is missing, changes nothing.
    pub fn move_entity_to_hexagon(entity: EntityId, hexagon: &Hexagon, world: &mut World)
        ensures
            final(world)@.field_radius == old(world)@.field_radius,
            ({
                let pre = old(world)@;
                let post = final(world)@;
                &&& (pre.unit_of(entity) matches Some(u) ==> (pre.position_of(entity) matches Some(
                    pos,
                ) ==> {
                    let d = hex_distance(pos, *hexagon);
                    if d <= u.remaining_range {
                        post.slots == pre.slots.update(
                            entity.index as int,
                            Slot {
                                unit: Some(
                                    Unit { remaining_range: (u.remaining_range - d) as i32, ..u },
                                ),
                                position: Some(*hexagon),
                                ..pre.slots[entity.index as int]
                            },
                        )
                    } else {
                        post.slots == pre.slots
                    }
                }))
                &&& (pre.unit_of(entity) is None || pre.position_of(entity) is None)
                    ==> post.slots == pre.slots
            }),
    {
        let unit = match world.get_unit(entity) {
            Some(u) => u,
            None => {
                return ;
            },
        };
        let pos = match world.get_position(entity) {
            Some(p) => p,
            None => {
                return ;
            },
        };
        let distance = pos.distance_to(hexagon);
        let can_move = if distance > 0x7fff_ffffi64 {
            CanMove::No
        } else {
            unit.can_move(distance as i32)
        };
        match can_move {
            CanMove::Yes(remaining_range) => {
                let updated_unit = Unit::new(
                    unit.integrity,
                    unit.damage,
                    unit.max_attack_range,
                    unit.min_attack_range,
                    unit.armor,
                    unit.mobility,
                    remaining_range,
                    unit.remaining_attacks,
                );
                world.set_unit(entity, updated_unit);
                let updated_hexagon = Hexagon::new_axial(hexagon.get_q(), hexagon.get_r());
                world.set_position(entity, updated_hexagon);
                proof {
                    let pre = old(world)@;
                    let d = hex_distance(pos, *hexagon);
                    assert(final(world)@.slots =~= pre.slots.update(
                        entity.index as int,
                        Slot {
                            unit: Some(
                                Unit { remaining_range: (unit.remaining_range - d) as i32, ..unit },
                            ),
                            position: Some(*hexagon),
                            ..pre.slots[entity.index as int]
                        },
                    ));
                }
            },
            CanMove::No => {},
        }
    }

    /// Commits a combat outcome to the world: the attacker's unit data is
    /// replaced, and the defender is either updated or — as soon as its
    /// integrity is observed at zero or below — removed from the world.
    /// Stale ids leave the respective side untouched. Reports whether the
    /// defender was removed.
    pub fn handle_attack_result(
        world: &mut World,
        attacker: EntityId,
        defender: EntityId,
        result: AttackResult,
    ) -> (defender_removed: bool)
        ensures
            final(world)@.field_radius == old(world)@.field_radius,
            ({
                let pre = old(world)@;
                let mid_slots = if pre.valid_id(attacker) {
                    pre.slots.update(
                        attacker.index as int,
                        Slot { unit: Some(result.attacker), ..pre.slots[attacker.index as int] },
                    )
                } else {
                    pre.slots
                };
                let mid = WorldView { slots: mid_slots, field_radius: pre.field_radius };
                let post = final(world)@;
                &&& defender_removed == (mid.valid_id(defender) && result.defender.integrity <= 0)
                &&& post.slots == (if mid.valid_id(defender) {
                    if result.defender.integrity <= 0 {
                        mid_slots.update(
                            defender.index as int,
                            Slot {
                                generation: crate::world::bumped_generation(defender.generation),
                                live: false,
                                unit: None,
                                position: None,
                                player: None,
                            },
                        )
                    } else {
                        mid_slots.update(
                            defender.index as int,
                            Slot {
                                unit: Some(result.defender),
                                ..mid_slots[defender.index as int]
                            },
                        )
                    }
                } else {
                    mid_slots
                })
            }),
    {
        world.set_unit(attacker, result.attacker);
        if result.defender.integrity <= 0 {
            world.remove(defender)
        } else {
            world.set_unit(defender, result.defender);
            false
        }
    }

    /// The hover preview for a `Selected` unit may be recomputed: all the
    /// lookups that feed the route must succeed and the unit must belong to
    /// the active player.
    pub open spec fn hover_ready(w: WorldView, current_player: Option<usize>, sel: EntityId) -> bool {
        &&& w.valid_id(sel)
        &&& current_player is Some
        &&& w.player_of(sel) == current_player
        &&& w.position_of(sel) is Some
    }

    /// Recomputes the advisory hover path towards the given cell while a
    /// unit of the active player is selected — empty exactly when the cell
    /// is the unit's own or no route exists; in every other state the
    /// preview is dropped. Never mutates the world or the machine state.
    pub fn hover(&mut self, coordinate: Hexagon)
        ensures
            final(self).world == old(self).world,
            final(self).state == old(self).state,
            final(self).redraw_grid == old(self).redraw_grid,
            final(self).only_state_changed(*old(self)),
            !(old(self).state is Selected) ==> final(self).current_path@.len() == 0,
            old(self).state matches State::Selected(sel) ==> {
                let w = old(self).world@;
                if Self::hover_ready(w, old(self).current_player, sel) {
                    let pos = w.position_of(sel)->0;
                    &&& (final(self).current_path@.len() == 0 || (walkable_route(
                        w,
                        pos,
                        coordinate,
                        final(self).current_path@,
                    ) && (forall|q: Seq<Hexagon>|
                        (q.len() > 0 && #[trigger] walkable_route(w, pos, coordinate, q)) ==> final(self).current_path@.len() <= q.len())))
                    &&& (pos == coordinate ==> final(self).current_path@.len() == 0)
                    &&& ((0 <= w.field_radius <= MAX_FIELD_RADIUS && final(self).current_path@.len() == 0) ==> (pos == coordinate || !(exists|q: Seq<Hexagon>|
                        q.len() > 0 && #[trigger] walkable_route(w, pos, coordinate, q))))
                } else {
                    final(self).current_path == old(self).current_path
                }
            },
    {
        let sel = match &self.state {
            State::Selected(sel) => *sel,
            _ => {
                self.current_path = Vec::new();
                return ;
            },
        };
        if !self.world.contains(sel) {
            // Stale selection: the preview request is ignored.
            return ;
        }
        let current_player = match self.current_player {
            None => {
                return ;
            },
            Some(index) => index,
        };
        let selected_player = match Self::get_player_of_entity(&self.world, sel) {
            None => {
                return ;
            },
            Some(index) => index,
        };
        if current_player != selected_player {
            return ;
        }
        let selected_position = match self.world.get_position(sel) {
            None => {
                return ;
            },
            Some(pos) => pos,
        };
        self.current_path = find_path(&selected_position, &coordinate, &self.world);
    }

    /// Advances the machine by one frame of `delta_ms` milliseconds.
    ///
    /// `Waiting` and `Selected` frames change nothing. An `Attacking` frame
    /// resolves the queued combat — committing the outcome and removing the
    /// defender the moment its integrity is zero or below — and always
    /// returns to `Waiting`, whether the attack succeeded, the attacker had
    /// no attacks left, the ids went stale, or the unclamped damage formula
    /// could not be represented. A `Moving` frame accumulates the delta and
    /// consumes path cells as [`spec_move_ticks`] says. The returned diff
    /// names the entities this frame removed from the world.
    pub fn step(&mut self, delta_ms: u64) -> (diff: WorldDiff)
        ensures
            final(self).only_state_changed(*old(self)),
            final(self).world@.field_radius == old(self).world@.field_radius,
            diff.added@.len() == 0,
            old(self).state is Waiting || old(self).state is Selected ==> ({
                &&& final(self).world == old(self).world
                &&& final(self).state == old(self).state
                &&& final(self).current_path == old(self).current_path
                &&& final(self).redraw_grid == old(self).redraw_grid
                &&& diff.removed@.len() == 0
            }),
            old(self).state matches State::Moving(entity, path, elapsed) ==> ({
                let sim = spec_move_ticks(
                    old(self).world@,
                    entity,
                    path@,
                    spec_accumulate(elapsed, delta_ms),
                );
                &&& final(self).world@.slots == sim.slots
                &&& final(self).state@ == sim.state
                &&& final(self).current_path@.len() == 0
                &&& final(self).redraw_grid
                &&& diff.removed@.len() == 0
            }),
            old(self).state matches State::Attacking(attacker, defender) ==> ({
                let w = old(self).world@;
                &&& final(self).state is Waiting
                &&& final(self).current_path@.len() == 0
                &&& final(self).redraw_grid
                &&& if w.unit_of(attacker) is None || w.unit_of(defender) is None {
                    final(self).world == old(self).world && diff.removed@.len() == 0
                } else {
                    let au = w.unit_of(attacker)->0;
                    let du = w.unit_of(defender)->0;
                    if au.remaining_attacks <= 0 || !attack_fits(au, du) {
                        final(self).world == old(self).world && diff.removed@.len() == 0
                    } else {
                        let updated_attacker = Unit {
                            mobility: 0,
                            remaining_attacks: (au.remaining_attacks - 1) as i32,
                            ..au
                        };
                        let updated_defender = Unit {
                            integrity: (du.integrity - (au.damage - du.armor)) as i32,
                            ..du
                        };
                        let mid = w.slots.update(
                            attacker.index as int,
                            Slot {
                                unit: Some(updated_attacker),
                                ..w.slots[attacker.index as int]
                            },
                        );
                        if updated_defender.integrity <= 0 {
                            final(self).world@.slots == mid.update(
                                defender.index as int,
                                Slot {
                                    generation: crate::world::bumped_generation(
                                        defender.generation,
                                    ),
                                    live: false,
                                    unit: None,
                                    position: None,
                                    player: None,
                                },
                            ) && diff.removed@.len() == 1 && diff.removed@[0] == defender
                        } else {
                            final(self).world@.slots == mid.update(
                                defender.index as int,
                                Slot { unit: Some(updated_defender), ..mid[defender.index as int] },
                            ) && diff.removed@.len() == 0
                        }
                    }
                }
            }),
    {
        let mut removed: Vec<EntityId> = Vec::new();
        let mut current = State::Waiting;
        core::mem::swap(&mut current, &mut self.state);
        match current {
            State::Waiting => {
                WorldDiff { added: Vec::new(), removed }
            },
            State::Selected(selected) => {
                self.state = State::Selected(selected);
                WorldDiff { added: Vec::new(), removed }
            },
            State::Attacking(attacker, defender) => {
                let attacking_unit = match self.world.get_unit(attacker) {
                    None => {
                        self.set_state(State::Waiting);
                        return WorldDiff { added: Vec::new(), removed };
                    },
                    Some(u) => u,
                };
                let defending_unit = match self.world.get_unit(defender) {
                    None => {
                        self.set_state(State::Waiting);
                        return WorldDiff { added: Vec::new(), removed };
                    },
                    Some(u) => u,
                };
                let damage: i64 = attacking_unit.damage as i64 - defending_unit.armor as i64;
                let integrity_after: i64 = defending_unit.integrity as i64 - damage;
                let fits = -0x8000_0000i64 <= damage && damage <= 0x7fff_ffffi64
                    && -0x8000_0000i64 <= integrity_after && integrity_after <= 0x7fff_ffffi64;
                if attacking_unit.remaining_attacks > 0 && !fits {
                    // The unclamped damage formula leaves `i32`; recovered
                    // like any other anomaly, with the world untouched.
                    self.set_state(State::Waiting);
                    return WorldDiff { added: Vec::new(), removed };
                }
                match attacking_unit.attack(&defending_unit) {
                    Ok(result) => {
                        let defender_removed = Self::handle_attack_result(
                            &mut self.world,
                            attacker,
                            defender,
                            result,
                        );
                        if defender_removed {
                            removed.push(defender);
                        }
                    },
                    Err(_) => {
                        // No attacks left: logged by the caller, not fatal.
                    },
                }
                self.set_state(State::Waiting);
                WorldDiff { added: Vec::new(), removed }
            },
            State::Moving(entity, path, elapsed) => {
                let mut path = path;
                let mut t: u64 = if delta_ms > u64::MAX - elapsed {
                    u64::MAX
                } else {
                    elapsed + delta_ms
                };
                let ghost sim0 = spec_move_ticks(self.world@, entity, path@, t);
                while t >= STEP_DURATION_MS
                    invariant
                        self.players@ == old(self).players@,
                        self.current_player == old(self).current_player,
                        self.hexfield_size == old(self).hexfield_size,
                        self.current_path == old(self).current_path,
                        self.redraw_grid == old(self).redraw_grid,
                        self.world@.field_radius == old(self).world@.field_radius,
                        spec_move_ticks(self.world@, entity, path@, t) == sim0,
                        removed@.len() == 0,
                        old(self).state is Moving,
                        old(self).state matches State::Moving(e0, p0, t0) ==> (e0 == entity && sim0
                            == spec_move_ticks(
                            old(self).world@,
                            e0,
                            p0@,
                            spec_accumulate(t0, delta_ms),
                        )),
                    decreases t,
                {
                    let ghost w0 = self.world@;
                    let ghost path0 = path@;
                    let unit = match self.world.get_unit(entity) {
                        None => {
                            self.set_state(State::Waiting);
                            return WorldDiff { added: Vec::new(), removed };
                        },
                        Some(u) => u,
                    };
                    if unit.remaining_range <= 0 {
                        self.set_state(State::Selected(entity));
                        return WorldDiff { added: Vec::new(), removed };
                    }
                    let position = match self.world.get_position(entity) {
                        None => {
                            self.set_state(State::Waiting);
                            return WorldDiff { added: Vec::new(), removed };
                        },
                        Some(p) => p,
                    };
                    if path.len() == 0 {
                        // The path ran out before the time did.
                        self.set_state(State::Selected(entity));
                        return WorldDiff { added: Vec::new(), removed };
                    }
                    let next = path.remove(0);
                    if !position.is_neighbour(&next) {
                        self.set_state(State::Selected(entity));
                        return WorldDiff { added: Vec::new(), removed };
                    }
                    Self::move_entity_to_hexagon(entity, &next, &mut self.world);
                    t = t - STEP_DURATION_MS;
                    proof {
                        assert(path@ =~= path0.skip(1));
                        assert(spec_move_ticks(self.world@, entity, path@, t) == sim0);
                    }
                }
                if path.len() > 0 {
                    self.set_state(State::Moving(entity, path, t));
                } else {
                    self.set_state(State::Selected(entity));
                }
                WorldDiff { added: Vec::new(), removed }
            },
        }
    }

    /// The primary interaction event: a click on a grid cell.
    ///
    /// On an empty cell with a unit of the active player selected, a route
    /// is searched and movement queued (no route: back to `Waiting`). On a
    /// populated cell, an entity there becomes the selection; if a unit of
    /// the active player was already selected, clicking an enemy unit
    /// within its attack-range band with line of sight (`target_visible`,
    /// answered by the render collaborator for this cell) queues combat
    /// instead, while a second unit of one's own is merely selected, and
    /// acting with a unit of another player is ignored outright. Stale ids
    /// and missing components force `Waiting`. The world itself never
    /// changes.
    pub fn select_or_act(&mut self, coordinate: Hexagon, target_visible: bool)
        ensures
            final(self).world == old(self).world,
            final(self).only_state_changed(*old(self)),
            ({
                let w = old(self).world@;
                let cp = old(self).current_player;
                ||| (final(self).state == old(self).state && final(self).current_path == old(self).current_path && final(self).redraw_grid == old(self).redraw_grid && (old(self).state matches State::Selected(sel) && spec_ignored(w, cp, sel)))
                ||| (final(self).current_path@.len() == 0 && final(self).redraw_grid && (match final(self).state@ {
                    StateV::Waiting => true,
                    StateV::Selected(e) => spec_at_cell(w, coordinate, e),
                    StateV::Attacking(a, d) => old(self).state@ == StateV::Selected(a)
                        && spec_attack_allowed(w, cp, a, d, coordinate, target_visible),
                    StateV::Moving(e, p, t) => old(self).state@ == StateV::Selected(e) && t == 0
                        && p.len() > 0 && spec_move_allowed(w, cp, e) && walkable_route(
                        w,
                        w.position_of(e)->0,
                        coordinate,
                        p,
                    ) && (forall|q: Seq<Hexagon>|
                        (q.len() > 0 && #[trigger] walkable_route(
                            w,
                            w.position_of(e)->0,
                            coordinate,
                            q,
                        )) ==> p.len() <= q.len()),
                }))
            }),
            (old(self).state is Waiting && (exists|id: EntityId|
                spec_at_cell(old(self).world@, coordinate, id))) ==> (final(self).state@ matches
                StateV::Selected(e) && spec_at_cell(old(self).world@, coordinate, e)),
            (old(self).state is Waiting && !(exists|id: EntityId|
                spec_at_cell(old(self).world@, coordinate, id))) ==> final(self).state is Waiting,
            // Clicking the selected unit's own cell keeps it selected.
            old(self).state matches State::Selected(sel) ==> ((spec_at_cell(
                old(self).world@,
                coordinate,
                sel,
            ) && (forall|id: EntityId|
                spec_at_cell(old(self).world@, coordinate, id) ==> id == sel)) ==> final(self).state@ == StateV::Selected(sel)),
            // An allowed attack on the only entity of the cell is queued.
            old(self).state matches State::Selected(sel) ==> (forall|target: EntityId|
                (#[trigger] spec_attack_allowed(
                    old(self).world@,
                    old(self).current_player,
                    sel,
                    target,
                    coordinate,
                    target_visible,
                ) && (forall|id: EntityId|
                    spec_at_cell(old(self).world@, coordinate, id) ==> id == target)) ==> final(self).state@ == StateV::Attacking(sel, target)),
            // A click on an empty cell with an own unit selected either
            // queues movement or idles; it never changes the selection.
            old(self).state matches State::Selected(sel) ==> ((spec_move_allowed(
                old(self).world@,
                old(self).current_player,
                sel,
            ) && !(exists|id: EntityId| spec_at_cell(old(self).world@, coordinate, id))) ==> (final(self).state is Waiting || (final(self).state@ matches StateV::Moving(e, p, t) && e
                == sel))),
            // A click on an empty, reachable cell with an own unit selected
            // queues movement: the transition is owed, not optional.
            old(self).state matches State::Selected(sel) ==> ({
                let w = old(self).world@;
                (spec_move_allowed(w, old(self).current_player, sel) && 0 <= w.field_radius
                    <= MAX_FIELD_RADIUS && !(exists|id: EntityId|
                    spec_at_cell(w, coordinate, id)) && w.position_of(sel)->0 != coordinate && (
                exists|q: Seq<Hexagon>|
                    q.len() > 0 && #[trigger] walkable_route(
                        w,
                        w.position_of(sel)->0,
                        coordinate,
                        q,
                    ))) ==> final(self).state@ is Moving
            }),
            // So is a click on a reachable cell whose entities carry no
            // units (and none of them is the selection itself).
            old(self).state matches State::Selected(sel) ==> ({
                let w = old(self).world@;
                (spec_move_allowed(w, old(self).current_player, sel) && 0 <= w.field_radius
                    <= MAX_FIELD_RADIUS && (exists|id: EntityId|
                    spec_at_cell(w, coordinate, id)) && (forall|id: EntityId|
                    spec_at_cell(w, coordinate, id) ==> id != sel && w.unit_of(id) is None)
                    && w.position_of(sel)->0 != coordinate && (exists|q: Seq<Hexagon>|
                    q.len() > 0 && #[trigger] walkable_route(
                        w,
                        w.position_of(sel)->0,
                        coordinate,
                        q,
                    ))) ==> final(self).state@ is Moving
            }),
    {
        let entities = Self::get_entities_at_hexagon(&coordinate, &self.world);
        if entities.len() == 0 {
            proof {
                assert forall|id: EntityId| !spec_at_cell(old(self).world@, coordinate, id) by {
                    assert(!entities@.contains(id));
                }
            }
            let sel = match &self.state {
                State::Selected(s) => *s,
                _ => {
                    self.set_state(State::Waiting);
                    return ;
                },
            };
            if !self.world.contains(sel) {
                // Stale selection on an empty-cell click: recovered.
                self.set_state(State::Waiting);
                return ;
            }
            let current_player = match self.current_player {
                None => {
                    // A session without an active player cannot act.
                    self.set_state(State::Waiting);
                    return ;
                },
                Some(c) => c,
            };
            let selected_player = match Self::get_player_of_entity(&self.world, sel) {
                None => {
                    self.set_state(State::Waiting);
                    return ;
                },
                Some(p) => p,
            };
            if current_player != selected_player {
                return ;
            }
            let selected_position = match self.world.get_position(sel) {
                None => {
                    self.set_state(State::Waiting);
                    return ;
                },
                Some(p) => p,
            };
            let path = find_path(&selected_position, &coordinate, &self.world);
            if path.len() == 0 {
                // No route to the clicked cell: logged, machine idles.
                self.set_state(State::Waiting);
            } else {
                self.set_state(State::Moving(sel, path, 0));
            }
            return ;
        }
        let mut pending: State = State::Waiting;
        let mut i: usize = 0;
        while i < entities.len()
            invariant
                self == old(self),
                i <= entities@.len(),
                entities@.len() > 0,
                forall|id: EntityId| #[trigger]
                    entities@.contains(id) <==> spec_at_cell(old(self).world@, coordinate, id),
                ({
                    let w = old(self).world@;
                    let cp = old(self).current_player;
                    match pending@ {
                        StateV::Waiting => true,
                        StateV::Selected(e) => spec_at_cell(w, coordinate, e),
                        StateV::Attacking(a, d) => old(self).state@ == StateV::Selected(a)
                            && spec_attack_allowed(w, cp, a, d, coordinate, target_visible),
                        StateV::Moving(e, p, t) => old(self).state@ == StateV::Selected(e) && t
                            == 0 && p.len() > 0 && spec_move_allowed(w, cp, e) && walkable_route(
                            w,
                            w.position_of(e)->0,
                            coordinate,
                            p,
                        ) && (forall|q: Seq<Hexagon>|
                            (q.len() > 0 && #[trigger] walkable_route(
                                w,
                                w.position_of(e)->0,
                                coordinate,
                                q,
                            )) ==> p.len() <= q.len()),
                    }
                }),
                (old(self).state is Waiting && i > 0) ==> (pending@ matches StateV::Selected(e)
                    && spec_at_cell(old(self).world@, coordinate, e)),
                old(self).state matches State::Selected(sel) ==> ((spec_at_cell(
                    old(self).world@,
                    coordinate,
                    sel,
                ) && (forall|id: EntityId|
                    spec_at_cell(old(self).world@, coordinate, id) ==> id == sel) && i > 0)
                    ==> pending@ == StateV::Selected(sel)),
                old(self).state matches State::Selected(sel) ==> (forall|target: EntityId|
                    (#[trigger] spec_attack_allowed(
                        old(self).world@,
                        old(self).current_player,
                        sel,
                        target,
                        coordinate,
                        target_visible,
                    ) && (forall|id: EntityId|
                        spec_at_cell(old(self).world@, coordinate, id) ==> id == target) && i > 0)
                        ==> pending@ == StateV::Attacking(sel, target)),
                old(self).state matches State::Selected(sel) ==> ({
                    let w = old(self).world@;
                    (spec_move_allowed(w, old(self).current_player, sel) && 0 <= w.field_radius
                        <= MAX_FIELD_RADIUS && (forall|id: EntityId|
                        spec_at_cell(w, coordinate, id) ==> id != sel && w.unit_of(id) is None)
                        && w.position_of(sel)->0 != coordinate && (exists|q: Seq<Hexagon>|
                        q.len() > 0 && #[trigger] walkable_route(
                            w,
                            w.position_of(sel)->0,
                            coordinate,
                            q,
                        )) && i > 0) ==> pending@ is Moving
                }),
            decreases entities@.len() - i,
        {
            let clicked = entities[i];
            proof {
                assert(entities@.contains(entities@[i as int]));
            }
            pending = State::Selected(clicked);
            let selection = match &self.state {
                State::Selected(s) => Some(*s),
                _ => None,
            };
            match selection {
                None => {},
                Some(sel) => {
                    if self.world.contains(sel) && !(clicked == sel) {
                        let clicked_unit = self.world.get_unit(clicked);
                        let current_player = match self.current_player {
                            None => {
                                // A session without an active player cannot act.
                                self.set_state(State::Waiting);
                                return ;
                            },
                            Some(c) => c,
                        };
                        let selected_player = match Self::get_player_of_entity(&self.world, sel) {
                            None => {
                                self.set_state(State::Waiting);
                                return ;
                            },
                            Some(p) => p,
                        };
                        match clicked_unit {
                            Some(_) => {
                                if current_player != selected_player {
                                    return ;
                                }
                                let target_is_enemy = match Self::get_player_of_entity(
                                    &self.world,
                                    clicked,
                                ) {
                                    Some(target_player) => target_player != current_player,
                                    None => true,
                                };
                                let selected_unit = match self.world.get_unit(sel) {
                                    None => {
                                        self.set_state(State::Waiting);
                                        return ;
                                    },
                                    Some(u) => u,
                                };
                                let selected_position = match self.world.get_position(sel) {
                                    None => {
                                        self.set_state(State::Waiting);
                                        return ;
                                    },
                                    Some(p) => p,
                                };
                                let distance = selected_position.distance_to(&coordinate);
                                if target_is_enemy && selected_unit.min_attack_range as i64
                                    <= distance && distance
                                    <= selected_unit.max_attack_range as i64 && target_visible {
                                    pending = State::Attacking(sel, clicked);
                                }
                            },
                            None => {
                                if current_player != selected_player {
                                    return ;
                                }
                                let selected_position = match self.world.get_position(sel) {
                                    None => {
                                        self.set_state(State::Waiting);
                                        return ;
                                    },
                                    Some(p) => p,
                                };
                                let path = find_path(
                                    &selected_position,
                                    &coordinate,
                                    &self.world,
                                );
                                if path.len() > 0 {
                                    pending = State::Moving(sel, path, 0);
                                }
                                // No route: the warning is logged and the
                                // plain selection stands.
                            },
                        }
                    }
                },
            }
            i = i + 1;
        }
        self.set_state(pending);
    }

    /// The player-ownership tag of an entity, if the id resolves and the
    /// entity carries one.
    pub fn get_player_of_entity(world: &World, entity: EntityId) -> (player: Option<usize>)
        ensures
            player == world@.player_of(entity),
    {
        world.get_player(entity)
    }
}

} // verus!
