//! World and entity model: per-entity position, fixed per-tick displacement
//! speed, colour, and deterministic input integration.
//!
//! Positions are fixed-point integers on a plane. Coordinate arithmetic
//! wraps on overflow, so integration is total: the same ordered inputs
//! always produce the same position.

use vstd::prelude::*;

verus! {

/// A snapshot of directional intent for one tick. Multiple simultaneous
/// directions are legal; opposite directions cancel.
#[derive(Default, Debug, Clone, Copy, PartialEq, Eq, Structural)]
pub struct Input {
    pub left: bool,
    pub right: bool,
    pub up: bool,
    pub down: bool,
}

#[derive(Default, Debug, Clone, Copy, PartialEq, Eq, Structural)]
pub enum Colour {
    #[default]
    Red,
    Green,
    Blue,
}

/// One simulated entity: a position on the plane, the fixed displacement it
/// moves per tick on each active axis, and a colour for the renderer.
#[derive(Debug, Clone, Copy, PartialEq, Eq)]
pub struct Entity {
    pub position: (i64, i64),
    pub speed: i64,
    pub colour: Colour,
}

/// The displacement one step of `integrate_input` applies: left/right move
/// along x, up/down along y, each axis independently, no normalization of
/// diagonals. Arithmetic wraps at the i64 boundary.
pub open spec fn step_position(p: (i64, i64), speed: i64, input: Input) -> (i64, i64) {
    let x0 = if input.left {
        vstd::wrapping::i64_specs::wrapping_sub(p.0, speed)
    } else {
        p.0
    };
    let x1 = if input.right {
        vstd::wrapping::i64_specs::wrapping_add(x0, speed)
    } else {
        x0
    };
    let y0 = if input.up {
        vstd::wrapping::i64_specs::wrapping_sub(p.1, speed)
    } else {
        p.1
    };
    let y1 = if input.down {
        vstd::wrapping::i64_specs::wrapping_add(y0, speed)
    } else {
        y0
    };
    (x1, y1)
}

/// The position reached by integrating each input of `inputs` in order,
/// starting from `p`: the mathematical meaning of a replayed input stream.
pub open spec fn apply_inputs(p: (i64, i64), speed: i64, inputs: Seq<Input>) -> (i64, i64)
    decreases inputs.len(),
{
    if inputs.len() == 0 {
        p
    } else {
        apply_inputs(step_position(p, speed, inputs[0]), speed, inputs.drop_first())
    }
}

impl Entity {
    /// The default entity: at the origin, five units of displacement per
    /// tick, drawn red.
    pub fn new() -> (r: Self)
        ensures
            r.position == (0i64, 0i64),
            r.speed == 5,
            r.colour == Colour::Red,
    {
        Entity { position: (0, 0), speed: 5, colour: Colour::Red }
    }

    /// Apply one tick of directional intent: add or subtract `speed` along
    /// the axis of each active direction. Deterministic and total; speed and
    /// colour are untouched.
    pub fn integrate_input(&mut self, input: &Input)
        ensures
            final(self).position == step_position(old(self).position, old(self).speed, *input),
            final(self).speed == old(self).speed,
            final(self).colour == old(self).colour,
    {
        if input.left {
            self.position.0 = self.position.0.wrapping_sub(self.speed);
        }
        if input.right {
            self.position.0 = self.position.0.wrapping_add(self.speed);
        }
        if input.up {
            self.position.1 = self.position.1.wrapping_sub(self.speed);
        }
        if input.down {
            self.position.1 = self.position.1.wrapping_add(self.speed);
        }
    }
}

/// Deterministic integration: two entities that start at the same position
/// with the same speed end at the same position after the same ordered input
/// sequence, however the calls are spread over real time (integration is a
/// function of the inputs alone).
pub proof fn lemma_deterministic_integration(a: Entity, b: Entity, inputs: Seq<Input>)
    requires
        a.position == b.position,
        a.speed == b.speed,
    ensures
        apply_inputs(a.position, a.speed, inputs) == apply_inputs(b.position, b.speed, inputs),
{
}

/// Integrating a concatenation of input streams is integrating the first,
/// then the second on top of the result.
pub proof fn lemma_apply_inputs_concat(p: (i64, i64), speed: i64, a: Seq<Input>, b: Seq<Input>)
    ensures
        apply_inputs(p, speed, a + b) == apply_inputs(apply_inputs(p, speed, a), speed, b),
    decreases a.len(),
{
    if a.len() == 0 {
        assert(a + b =~= b);
    } else {
        assert((a + b)[0] == a[0]);
        assert((a + b).drop_first() =~= a.drop_first() + b);
        lemma_apply_inputs_concat(step_position(p, speed, a[0]), speed, a.drop_first(), b);
    }
}

/// Integrating one more input steps the integrated position once.
pub proof fn lemma_apply_inputs_push(p: (i64, i64), speed: i64, s: Seq<Input>, x: Input)
    ensures
        apply_inputs(p, speed, s.push(x)) == step_position(apply_inputs(p, speed, s), speed, x),
{
    lemma_apply_inputs_concat(p, speed, s, seq![x]);
    assert(s + seq![x] =~= s.push(x));
    let q = apply_inputs(p, speed, s);
    assert(seq![x].drop_first() =~= Seq::<Input>::empty());
    assert(apply_inputs(q, speed, seq![x]) == apply_inputs(
        step_position(q, speed, x),
        speed,
        Seq::<Input>::empty(),
    ));
}

/// Reconciliation convergence: if the server has integrated the first `k`
/// inputs of a stream into an authoritative position, replaying the
/// remaining inputs on top of that position reconstructs exactly the
/// position of a client that integrated the whole stream locally — the
/// predicted and authoritative simulations agree at every cutoff, with no
/// permanent drift.
pub proof fn lemma_reconciliation_convergence(
    base: (i64, i64),
    speed: i64,
    inputs: Seq<Input>,
    k: int,
)
    requires
        0 <= k <= inputs.len(),
    ensures
        apply_inputs(apply_inputs(base, speed, inputs.take(k)), speed, inputs.skip(k))
            == apply_inputs(base, speed, inputs),
{
    lemma_apply_inputs_concat(base, speed, inputs.take(k), inputs.skip(k));
    assert(inputs.take(k) + inputs.skip(k) =~= inputs);
}

/// The authoritative World: the entities the server owns, keyed by small
/// dense ids handed out at creation, starting at 1.
pub struct World {
    entities: Vec<(i32, Entity)>,
    latest_entity_id: i32,
}

impl World {
    /// The entities in creation order, each with its id. The id of the entry
    /// at index `i` is `i + 1`.
    pub closed spec fn entities_seq(&self) -> Seq<(i32, Entity)> {
        self.entities@
    }

    pub open spec fn num_entities(&self) -> int {
        self.entities_seq().len() as int
    }

    /// Ids are allocated densely from 1 upward, so the id column is fixed by
    /// the length alone.
    pub closed spec fn wf(&self) -> bool {
        &&& self.latest_entity_id == self.entities@.len()
        &&& self.entities@.len() <= i32::MAX
        &&& forall|i: int| 0 <= i < self.entities@.len() ==> (#[trigger] self.entities@[i]).0 == i + 1
    }

    /// In a well-formed world the id column is exactly 1, 2, 3, ...: the
    /// entry at index `i` carries id `i + 1`, so ids never repeat.
    pub proof fn lemma_ids_dense(&self)
        requires
            self.wf(),
        ensures
            forall|i: int|
                0 <= i < self.entities_seq().len() ==> (#[trigger] self.entities_seq()[i]).0 == i
                    + 1,
    {
    }

    /// A valid entity id: one that `add_entity` has handed out.
    pub open spec fn has_entity(&self, entity_id: i32) -> bool {
        1 <= entity_id <= self.num_entities()
    }

    pub open spec fn entity_at(&self, entity_id: i32) -> Entity
        recommends
            self.has_entity(entity_id),
    {
        self.entities_seq()[entity_id - 1].1
    }

    pub fn new() -> (r: Self)
        ensures
            r.wf(),
            r.num_entities() == 0,
    {
        World { entities: Vec::new(), latest_entity_id: 0 }
    }

    /// Insert the entity under the next id and hand that id out.
    pub fn add_entity(&mut self, entity: Entity) -> (entity_id: i32)
        requires
            old(self).wf(),
            old(self).num_entities() < i32::MAX,
        ensures
            final(self).wf(),
            entity_id == old(self).num_entities() + 1,
            final(self).entities_seq() == old(self).entities_seq().push((entity_id, entity)),
            final(self).has_entity(entity_id),
            final(self).entity_at(entity_id) == entity,
            forall|id: i32|
                old(self).has_entity(id) ==> final(self).has_entity(id) && final(self).entity_at(
                    id,
                ) == old(self).entity_at(id),
    {
        self.latest_entity_id = self.latest_entity_id + 1;
        self.entities.push((self.latest_entity_id, entity));
        self.latest_entity_id
    }

    /// Look an entity up by id; an id never handed out yields nothing.
    pub fn get_entity(&self, entity_id: i32) -> (r: Option<Entity>)
        requires
            self.wf(),
        ensures
            self.has_entity(entity_id) ==> r == Some(self.entity_at(entity_id)),
            !self.has_entity(entity_id) ==> r == None::<Entity>,
    {
        if 1 <= entity_id && (entity_id as usize) <= self.entities.len() {
            Some(self.entities[(entity_id - 1) as usize].1)
        } else {
            None
        }
    }

    /// Read-only access to every entity with its id, for the renderer and
    /// for snapshot building.
    pub fn get_entities(&self) -> (r: &Vec<(i32, Entity)>)
        ensures
            r@ == self.entities_seq(),
    {
        &self.entities
    }

    /// Replace the position of the entity under `entity_id`; every other
    /// entity and the entity's speed and colour are untouched.
    pub fn set_entity_position(&mut self, entity_id: i32, position: (i64, i64))
        requires
            old(self).wf(),
            old(self).has_entity(entity_id),
        ensures
            final(self).wf(),
            final(self).num_entities() == old(self).num_entities(),
            final(self).entities_seq() == old(self).entities_seq().update(
                entity_id - 1,
                (entity_id, (Entity { position, ..old(self).entity_at(entity_id) })),
            ),
            final(self).entity_at(entity_id) == (Entity {
                position,
                ..old(self).entity_at(entity_id)
            }),
            forall|id: i32|
                old(self).has_entity(id) && id != entity_id ==> final(self).entity_at(id) == old(
                    self,
                ).entity_at(id),
            forall|id: i32| final(self).has_entity(id) == old(self).has_entity(id),
    {
        let idx = (entity_id - 1) as usize;
        let e = self.entities[idx].1;
        self.entities[idx].1 = Entity { position, ..e };
        proof {
            assert(final(self).wf());
        }
    }

    /// Integrate one tick of input into the entity under `entity_id`: the
    /// server-side twin of `Entity::integrate_input`.
    pub fn integrate_entity_input(&mut self, entity_id: i32, input: &Input)
        requires
            old(self).wf(),
            old(self).has_entity(entity_id),
        ensures
            final(self).wf(),
            final(self).num_entities() == old(self).num_entities(),
            final(self).entities_seq() == old(self).entities_seq().update(
                entity_id - 1,
                (entity_id, (Entity {
                    position: step_position(
                        old(self).entity_at(entity_id).position,
                        old(self).entity_at(entity_id).speed,
                        *input,
                    ),
                    ..old(self).entity_at(entity_id)
                })),
            ),
            final(self).entity_at(entity_id) == (Entity {
                position: step_position(
                    old(self).entity_at(entity_id).position,
                    old(self).entity_at(entity_id).speed,
                    *input,
                ),
                ..old(self).entity_at(entity_id)
            }),
            forall|id: i32|
                old(self).has_entity(id) && id != entity_id ==> final(self).entity_at(id) == old(
                    self,
                ).entity_at(id),
            forall|id: i32| final(self).has_entity(id) == old(self).has_entity(id),
    {
        let idx = (entity_id - 1) as usize;
        let mut e = self.entities[idx].1;
        e.integrate_input(input);
        self.entities[idx].1 = e;
    }
}

} // verus!
