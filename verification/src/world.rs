//! An explicit entity table: the closed set of per-entity components (unit,
//! position, player ownership) stored in slots addressed by a
//! generation-checked index. Every lookup tolerates a stale id — an id whose
//! slot has been freed or reused resolves to nothing.

use vstd::prelude::*;
use crate::hex::Hexagon;
use crate::hex::MAX_FIELD_RADIUS;
use crate::unit::Unit;

verus! {

/// One row of the entity table. A slot holds at most one of each component;
/// a freed slot stays in the table with `live == false` and a bumped
/// generation, so ids pointing at it no longer resolve.
#[derive(Clone, Copy, PartialEq, Eq, Debug)]
pub struct Slot {
    pub generation: u64,
    pub live: bool,
    pub unit: Option<Unit>,
    pub position: Option<Hexagon>,
    pub player: Option<usize>,
}

/// A generation-checked handle to an entity. The id resolves only while the
/// slot at `index` is live and still carries the same generation.
#[derive(Clone, Copy, PartialEq, Eq, Structural, Debug, Hash)]
pub struct EntityId {
    pub index: usize,
    pub generation: u64,
}

impl EntityId {
    pub fn index(&self) -> (i: usize)
        ensures
            i == self.index,
    {
        self.index
    }
}

/// The mathematical model of a [`World`]: its slot sequence and the radius
/// of its hexagonal field.
pub ghost struct WorldView {
    pub slots: Seq<Slot>,
    pub field_radius: int,
}

impl WorldView {
    /// An id resolves while its slot is live with a matching generation.
    pub open spec fn valid_id(self, id: EntityId) -> bool {
        &&& id.index < self.slots.len()
        &&& self.slots[id.index as int].live
        &&& self.slots[id.index as int].generation == id.generation
    }

    pub open spec fn slot_of(self, id: EntityId) -> Slot {
        self.slots[id.index as int]
    }

    pub open spec fn unit_of(self, id: EntityId) -> Option<Unit> {
        if self.valid_id(id) {
            self.slot_of(id).unit
        } else {
            None
        }
    }

    pub open spec fn position_of(self, id: EntityId) -> Option<Hexagon> {
        if self.valid_id(id) {
            self.slot_of(id).position
        } else {
            None
        }
    }

    pub open spec fn player_of(self, id: EntityId) -> Option<usize> {
        if self.valid_id(id) {
            self.slot_of(id).player
        } else {
            None
        }
    }

    /// A cell is blocked when some live unit-bearing entity stands on it.
    pub open spec fn occupied_cell(self, h: Hexagon) -> bool {
        exists|i: int|
            0 <= i < self.slots.len() && (#[trigger] self.slots[i]).live && self.slots[i].unit
                is Some && self.slots[i].position == Some(h)
    }
}

/// The generation a slot carries after the entity in it is removed: one
/// higher, frozen at the top so a stale id can never come back to life.
pub open spec fn bumped_generation(g: u64) -> u64 {
    if g < u64::MAX {
        (g + 1) as u64
    } else {
        g
    }
}

/// The entity table plus the hexagonal field it is played on.
pub struct World {
    slots: Vec<Slot>,
    field_radius: i32,
}

impl View for World {
    type V = WorldView;

    closed spec fn view(&self) -> WorldView {
        WorldView { slots: self.slots@, field_radius: self.field_radius as int }
    }
}

impl World {
    /// An empty table over the hexagonal field of the given radius.
    pub fn new(field_radius: i32) -> (world: World)
        requires
            0 <= field_radius <= MAX_FIELD_RADIUS,
        ensures
            world@.slots == Seq::<Slot>::empty(),
            world@.field_radius == field_radius,
    {
        World { slots: Vec::new(), field_radius }
    }

    pub fn field_radius(&self) -> (radius: i32)
        ensures
            radius == self@.field_radius,
    {
        self.field_radius
    }

    /// Number of slots, live and freed, in the table.
    pub fn num_slots(&self) -> (n: usize)
        ensures
            n == self@.slots.len(),
    {
        self.slots.len()
    }

    /// Read-only access to one slot of the table.
    pub fn slot(&self, i: usize) -> (slot: &Slot)
        requires
            i < self@.slots.len(),
        ensures
            *slot == self@.slots[i as int],
    {
        &self.slots[i]
    }

    /// Whether the id still resolves to a live entity.
    pub fn contains(&self, id: EntityId) -> (present: bool)
        ensures
            present == self@.valid_id(id),
    {
        id.index < self.slots.len() && self.slots[id.index].live && self.slots[id.index].generation
            == id.generation
    }

    pub fn get_unit(&self, id: EntityId) -> (unit: Option<Unit>)
        ensures
            unit == self@.unit_of(id),
    {
        if self.contains(id) {
            self.slots[id.index].unit
        } else {
            None
        }
    }

    pub fn get_position(&self, id: EntityId) -> (position: Option<Hexagon>)
        ensures
            position == self@.position_of(id),
    {
        if self.contains(id) {
            self.slots[id.index].position
        } else {
            None
        }
    }

    pub fn get_player(&self, id: EntityId) -> (player: Option<usize>)
        ensures
            player == self@.player_of(id),
    {
        if self.contains(id) {
            self.slots[id.index].player
        } else {
            None
        }
    }

    /// Creates an entity with the given components, reusing a freed slot
    /// when one is available. The returned id is fresh: it did not resolve
    /// before the call.
    pub fn spawn(
        &mut self,
        unit: Option<Unit>,
        position: Option<Hexagon>,
        player: Option<usize>,
    ) -> (id: EntityId)
        ensures
            final(self)@.field_radius == old(self)@.field_radius,
            id.index < final(self)@.slots.len(),
            !old(self)@.valid_id(id),
            final(self)@.valid_id(id),
            final(self)@.slot_of(id).unit == unit,
            final(self)@.slot_of(id).position == position,
            final(self)@.slot_of(id).player == player,
            final(self)@.slots.len() == old(self)@.slots.len() || (final(self)@.slots.len() == old(
                self,
            )@.slots.len() + 1 && id.index == old(self)@.slots.len()),
            forall|i: int|
                0 <= i < final(self)@.slots.len() && i != id.index ==> i < old(self)@.slots.len()
                    && final(self)@.slots[i] == old(self)@.slots[i],
            forall|id2: EntityId|
                old(self)@.valid_id(id2) ==> final(self)@.valid_id(id2) && final(self)@.slot_of(
                    id2,
                ) == old(self)@.slot_of(id2),
    {
        let new_slot = Slot { generation: 0, live: true, unit, position, player };
        let mut i: usize = 0;
        while i < self.slots.len()
            invariant
                self == old(self),
                i <= self@.slots.len(),
                forall|j: int|
                    0 <= j < i ==> (#[trigger] self@.slots[j]).live || self@.slots[j].generation
                        == u64::MAX,
            decreases self@.slots.len() - i,
        {
            if !self.slots[i].live && self.slots[i].generation < u64::MAX {
                let generation = self.slots[i].generation;
                let revived = Slot {
                    generation,
                    live: true,
                    unit,
                    position,
                    player,
                };
                self.slots.set(i, revived);
                return EntityId { index: i, generation };
            }
            i = i + 1;
        }
        self.slots.push(new_slot);
        EntityId { index: self.slots.len() - 1, generation: 0 }
    }

    /// Attaches or replaces the unit component; reports whether the id
    /// resolved.
    pub fn set_unit(&mut self, id: EntityId, unit: Unit) -> (resolved: bool)
        ensures
            resolved == old(self)@.valid_id(id),
            final(self)@.field_radius == old(self)@.field_radius,
            resolved ==> final(self)@.slots == old(self)@.slots.update(
                id.index as int,
                Slot { unit: Some(unit), ..old(self)@.slots[id.index as int] },
            ),
            !resolved ==> final(self)@.slots == old(self)@.slots,
    {
        if self.contains(id) {
            let updated = Slot { unit: Some(unit), ..self.slots[id.index] };
            self.slots.set(id.index, updated);
            true
        } else {
            false
        }
    }

    /// Attaches or replaces the position component; reports whether the id
    /// resolved.
    pub fn set_position(&mut self, id: EntityId, position: Hexagon) -> (resolved: bool)
        ensures
            resolved == old(self)@.valid_id(id),
            final(self)@.field_radius == old(self)@.field_radius,
            resolved ==> final(self)@.slots == old(self)@.slots.update(
                id.index as int,
                Slot { position: Some(position), ..old(self)@.slots[id.index as int] },
            ),
            !resolved ==> final(self)@.slots == old(self)@.slots,
    {
        if self.contains(id) {
            let updated = Slot { position: Some(position), ..self.slots[id.index] };
            self.slots.set(id.index, updated);
            true
        } else {
            false
        }
    }

    /// Removes the entity: the slot is freed, its components dropped, and
    /// its generation bumped so the id (and any copy of it) goes stale.
    pub fn remove(&mut self, id: EntityId) -> (resolved: bool)
        ensures
            resolved == old(self)@.valid_id(id),
            final(self)@.field_radius == old(self)@.field_radius,
            resolved ==> final(self)@.slots == old(self)@.slots.update(
                id.index as int,
                Slot {
                    generation: bumped_generation(id.generation),
                    live: false,
                    unit: None,
                    position: None,
                    player: None,
                },
            ),
            !resolved ==> final(self)@.slots == old(self)@.slots,
            !final(self)@.valid_id(id),
    {
        if self.contains(id) {
            let generation = if id.generation < u64::MAX {
                id.generation + 1
            } else {
                id.generation
            };
            let freed = Slot { generation, live: false, unit: None, position: None, player: None };
            self.slots.set(id.index, freed);
            true
        } else {
            false
        }
    }

    /// Round rollover over the table: every unit gets one attack and its
    /// full mobility as movement budget back; everything else is untouched.
    pub fn reset_units_for_round(&mut self)
        ensures
            final(self)@.field_radius == old(self)@.field_radius,
            final(self)@.slots.len() == old(self)@.slots.len(),
            forall|i: int|
                0 <= i < final(self)@.slots.len() ==> {
                    let pre = old(self)@.slots[i];
                    let post = #[trigger] final(self)@.slots[i];
                    &&& post.generation == pre.generation
                    &&& post.live == pre.live
                    &&& post.position == pre.position
                    &&& post.player == pre.player
                    &&& (pre.unit matches Some(u) ==> post.unit == Some(
                        Unit { remaining_attacks: 1, remaining_range: u.mobility, ..u },
                    ))
                    &&& (pre.unit is None ==> post.unit is None)
                },
    {
        let mut i: usize = 0;
        while i < self.slots.len()
            invariant
                self@.slots.len() == old(self)@.slots.len(),
                self@.field_radius == old(self)@.field_radius,
                i <= self@.slots.len(),
                forall|j: int|
                    i <= j < self@.slots.len() ==> #[trigger] self@.slots[j] == old(self)@.slots[j],
                forall|j: int|
                    0 <= j < i ==> {
                        let pre = old(self)@.slots[j];
                        let post = #[trigger] self@.slots[j];
                        &&& post.generation == pre.generation
                        &&& post.live == pre.live
                        &&& post.position == pre.position
                        &&& post.player == pre.player
                        &&& (pre.unit matches Some(u) ==> post.unit == Some(
                            Unit { remaining_attacks: 1, remaining_range: u.mobility, ..u },
                        ))
                        &&& (pre.unit is None ==> post.unit is None)
                    },
            decreases self@.slots.len() - i,
        {
            let current = self.slots[i];
            match current.unit {
                Some(u) => {
                    let refreshed = Unit { remaining_attacks: 1, remaining_range: u.mobility, ..u };
                    let updated = Slot { unit: Some(refreshed), ..current };
                    self.slots.set(i, updated);
                },
                None => {},
            }
            i = i + 1;
        }
    }
}

} // verus!
