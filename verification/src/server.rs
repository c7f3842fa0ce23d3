//! The authoritative server: owns the World, advances scripted entities by a
//! pure function of the tick, ingests per-client input messages from its
//! inbox, and broadcasts per-client state snapshots into each client's
//! channel.

use vstd::prelude::*;

use crate::assoc::{find_entry, lookup, set_entry, upsert};
use crate::net::{
    broadcast_entry_ok, deliverable_count, enqueued_state_msg, lemma_deliverable_count_properties,
    Message, State, UnreliableNetwork, LATENCY_LIMIT_MS,
};
use crate::ticktimer::{emitted_ticks, tick_after};
use crate::sim::{step_position, Colour, Entity, Input, World};
use crate::ticktimer::TickTimer;

verus! {

/// The displacement a scripted (non-player) entity makes on the given tick:
/// a pure function of the tick number alone, cycling right, down, left, up,
/// so the entity patrols a small square. A square patrol keeps the scripted
/// path an exact integer function of the tick; a circular path would need
/// floating point, which the verified world does not admit.
pub open spec fn npc_displacement(tick: i32, speed: i64) -> (i64, i64) {
    let phase = tick & 3;
    if phase == 0 {
        (speed, 0)
    } else if phase == 1 {
        (0, speed)
    } else if phase == 2 {
        (vstd::wrapping::i64_specs::wrapping_sub(0, speed), 0)
    } else {
        (0, vstd::wrapping::i64_specs::wrapping_sub(0, speed))
    }
}

/// One scripted step: the entity displaced by `npc_displacement`, speed and
/// colour untouched.
pub open spec fn npc_step(e: Entity, tick: i32) -> Entity {
    Entity {
        position: (
            vstd::wrapping::i64_specs::wrapping_add(e.position.0, npc_displacement(tick, e.speed).0),
            vstd::wrapping::i64_specs::wrapping_add(e.position.1, npc_displacement(tick, e.speed).1),
        ),
        ..e
    }
}

/// The part of the server that client messages act on: the world's entities
/// and the per-client record of the last processed input tick.
#[verifier::ext_equal]
pub ghost struct ServerSim {
    pub entities: Seq<(i32, Entity)>,
    pub last_processed_input: Seq<(i32, i32)>,
}

/// What one client message does to the server: if it carries an input, the
/// sender's entity integrates it; either way the sender's last processed
/// input tick becomes the message's sequence — the acknowledgment later
/// echoed back as that client's reconciliation cutoff.
pub open spec fn spec_apply_client_message(
    s: ServerSim,
    players: Seq<(i32, i32)>,
    sender: i32,
    m: Message,
) -> ServerSim {
    let eid = lookup(players, sender).unwrap();
    let e = s.entities[eid - 1].1;
    let entities1 = match m.input {
        Some(t) => s.entities.update(
            eid - 1,
            (
                eid,
                Entity {
                    position: step_position(
                        e.position,
                        e.speed,
                        Input { left: t.0, right: t.1, up: t.2, down: t.3 },
                    ),
                    ..e
                },
            ),
        ),
        None => s.entities,
    };
    ServerSim {
        entities: entities1,
        last_processed_input: set_entry(s.last_processed_input, sender, m.sequence),
    }
}

/// The server after applying each queued entry in order.
pub open spec fn spec_drain_server(
    s: ServerSim,
    players: Seq<(i32, i32)>,
    entries: Seq<(u64, i32, Message)>,
) -> ServerSim
    decreases entries.len(),
{
    if entries.len() == 0 {
        s
    } else {
        spec_apply_client_message(
            spec_drain_server(s, players, entries.drop_last()),
            players,
            entries.last().1,
            entries.last().2,
        )
    }
}

/// The entity list after one scripted pass: each listed entity, in order,
/// displaced by its per-tick step.
pub open spec fn spec_step_npcs(
    entities: Seq<(i32, Entity)>,
    npc_ids: Seq<i32>,
    tick: i32,
) -> Seq<(i32, Entity)>
    decreases npc_ids.len(),
{
    if npc_ids.len() == 0 {
        entities
    } else {
        let prev = spec_step_npcs(entities, npc_ids.drop_last(), tick);
        let id = npc_ids.last();
        prev.update(id - 1, (id, npc_step(prev[id - 1].1, tick)))
    }
}

/// The server after one frame: for each emitted tick in order, the scripted
/// entities advance, and at the first tick the deliverable inbox prefix is
/// drained. Later ticks drain nothing: the head left after the first drain
/// is still pending at the same wall-clock time.
pub open spec fn spec_server_update(
    s: ServerSim,
    players: Seq<(i32, i32)>,
    npc_ids: Seq<i32>,
    ticks: Seq<i32>,
    drained: Seq<(u64, i32, Message)>,
) -> ServerSim
    decreases ticks.len(),
{
    if ticks.len() == 0 {
        s
    } else {
        let prev = spec_server_update(s, players, npc_ids, ticks.drop_last(), drained);
        let stepped = ServerSim {
            entities: spec_step_npcs(prev.entities, npc_ids, ticks.last()),
            last_processed_input: prev.last_processed_input,
        };
        if ticks.len() == 1 {
            spec_drain_server(stepped, players, drained)
        } else {
            stepped
        }
    }
}

/// What the broadcast of the j-th emitted tick of a frame looks like in a
/// client's channel: the entry is due inside the latency window and carries
/// that client's acknowledged input tick and the world snapshot, both as
/// they stand after the first j+1 ticks of the frame.
pub open spec fn frame_broadcast_ok(
    e: (u64, i32, Message),
    s0: ServerSim,
    players: Seq<(i32, i32)>,
    npc_ids: Seq<i32>,
    ticks: Seq<i32>,
    drained: Seq<(u64, i32, Message)>,
    j: int,
    now: u64,
    min: u64,
    max: u64,
    server_id: i32,
    client_id: i32,
) -> bool {
    let sj = spec_server_update(s0, players, npc_ids, ticks.take(j + 1), drained);
    let ack = match lookup(sj.last_processed_input, client_id) {
        Some(t) => t,
        None => 0i32,
    };
    broadcast_entry_ok(e, now, min, max, server_id, ack, snapshot_states(sj.entities, ticks[j]))
}

/// The snapshot of a whole entity list as broadcast on the wire, stamped
/// with the tick it was taken at.
pub open spec fn snapshot_states(entities: Seq<(i32, Entity)>, tick: i32) -> Seq<State> {
    entities.map_values(
        |p: (i32, Entity)|
            State { tick, entity_id: p.0, position: p.1.position, colour: p.1.colour },
    )
}

/// Within one broadcast message, entity ids are unique: the snapshot is
/// taken from a well-formed world, whose id column never repeats.
pub proof fn lemma_snapshot_ids_unique(w: &World, tick: i32)
    requires
        w.wf(),
    ensures
        forall|i: int, j: int|
            0 <= i < j < snapshot_states(w.entities_seq(), tick).len()
                ==> #[trigger] snapshot_states(w.entities_seq(), tick)[i].entity_id
                != #[trigger] snapshot_states(w.entities_seq(), tick)[j].entity_id,
{
    w.lemma_ids_dense();
}

/// Represents the networked server.
pub struct Server {
    pub id: i32,
    /// Timer for the fixed tick rate.
    pub tick_timer: TickTimer,
    /// The tick rate in milliseconds.
    pub tick_rate_ms: u64,
    /// The authoritative simulation data.
    pub world: World,
    /// Ids of the scripted entities, in creation order.
    pub npc_entities: Vec<i32>,
    /// Connection id of each connected client mapped to its entity id.
    pub networked_players: Vec<(i32, i32)>,
    /// Connection id of each client mapped to the last input tick the
    /// server integrated for it.
    pub last_processed_input: Vec<(i32, i32)>,
}

impl Server {
    /// The part of the server that message processing acts on.
    pub open spec fn sim(&self) -> ServerSim {
        ServerSim {
            entities: self.world.entities_seq(),
            last_processed_input: self.last_processed_input@,
        }
    }

    /// Every scripted id and every mapped player entity id names an entity
    /// the world has handed out; scripted ids are strictly increasing, so no
    /// scripted entity is stepped twice in one pass.
    pub open spec fn wf(&self) -> bool {
        &&& self.world.wf()
        &&& forall|i: int|
            0 <= i < self.npc_entities@.len() ==> self.world.has_entity(
                #[trigger] self.npc_entities@[i],
            )
        &&& forall|i: int, j: int|
            0 <= i < j < self.npc_entities@.len() ==> self.npc_entities@[i]
                < self.npc_entities@[j]
        &&& forall|i: int|
            0 <= i < self.networked_players@.len() ==> self.world.has_entity(
                (#[trigger] self.networked_players@[i]).1,
            )
    }

    pub fn new(tick_rate_ms: u64) -> (r: Self)
        ensures
            r.wf(),
            r.id == 0,
            r.tick_timer.tick_interval == tick_rate_ms,
            r.tick_timer.current_tick == 0,
            r.tick_timer.time_available == 0,
            r.tick_rate_ms == tick_rate_ms,
            r.world.num_entities() == 0,
            r.npc_entities@ == Seq::<i32>::empty(),
            r.networked_players@ == Seq::<(i32, i32)>::empty(),
            r.last_processed_input@ == Seq::<(i32, i32)>::empty(),
    {
        Server {
            id: 0,
            tick_timer: TickTimer::new(tick_rate_ms),
            tick_rate_ms,
            world: World::new(),
            npc_entities: Vec::new(),
            networked_players: Vec::new(),
            last_processed_input: Vec::new(),
        }
    }

    /// Create one scripted entity at (100, 100), drawn blue, and remember
    /// its id.
    pub fn create_npc_entities(&mut self)
        requires
            old(self).wf(),
            old(self).world.num_entities() < i32::MAX,
        ensures
            final(self).wf(),
            final(self).world.entities_seq() == old(self).world.entities_seq().push(
                ((old(self).world.num_entities() + 1) as i32, (Entity {
                    position: (100, 100),
                    speed: 5,
                    colour: Colour::Blue,
                })),
            ),
            final(self).npc_entities@ == old(self).npc_entities@.push(
                (old(self).world.num_entities() + 1) as i32,
            ),
            final(self).networked_players == old(self).networked_players,
            final(self).last_processed_input == old(self).last_processed_input,
            final(self).tick_timer == old(self).tick_timer,
    {
        let mut entity = Entity::new();
        entity.position = (100, 100);
        entity.colour = Colour::Blue;
        let npc_id = self.world.add_entity(entity);
        self.npc_entities.push(npc_id);
    }

    /// Advance every scripted entity by its pure per-tick displacement;
    /// every other entity is untouched.
    pub fn update_npc_entities(&mut self, tick: i32)
        requires
            old(self).wf(),
        ensures
            final(self).wf(),
            final(self).world.num_entities() == old(self).world.num_entities(),
            final(self).world.entities_seq() == spec_step_npcs(
                old(self).world.entities_seq(),
                old(self).npc_entities@,
                tick,
            ),
            forall|k: int|
                0 <= k < old(self).npc_entities@.len() ==> final(self).world.entity_at(
                    #[trigger] old(self).npc_entities@[k],
                ) == npc_step(old(self).world.entity_at(old(self).npc_entities@[k]), tick),
            forall|id: i32|
                old(self).world.has_entity(id) && !old(self).npc_entities@.contains(id)
                    ==> final(self).world.entity_at(id) == old(self).world.entity_at(id),
            final(self).npc_entities == old(self).npc_entities,
            final(self).networked_players == old(self).networked_players,
            final(self).last_processed_input == old(self).last_processed_input,
            final(self).tick_timer == old(self).tick_timer,
            final(self).tick_rate_ms == old(self).tick_rate_ms,
            final(self).id == old(self).id,
    {
        let phase = tick & 3;
        let mut k: usize = 0;
        while k < self.npc_entities.len()
            invariant
                self.wf(),
                self.npc_entities == old(self).npc_entities,
                self.networked_players == old(self).networked_players,
                self.last_processed_input == old(self).last_processed_input,
                self.tick_timer == old(self).tick_timer,
                self.tick_rate_ms == old(self).tick_rate_ms,
                self.id == old(self).id,
                phase == tick & 3,
                0 <= k <= self.npc_entities@.len(),
                self.world.num_entities() == old(self).world.num_entities(),
                self.world.entities_seq() == spec_step_npcs(
                    old(self).world.entities_seq(),
                    self.npc_entities@.take(k as int),
                    tick,
                ),
                forall|j: int|
                    0 <= j < k ==> self.world.entity_at(#[trigger] self.npc_entities@[j])
                        == npc_step(old(self).world.entity_at(self.npc_entities@[j]), tick),
                forall|id: i32|
                    old(self).world.has_entity(id) && !self.npc_entities@.take(k as int).contains(
                        id,
                    ) ==> self.world.entity_at(id) == old(self).world.entity_at(id),
            decreases self.npc_entities@.len() - k,
        {
            let npc_id = self.npc_entities[k];
            let ghost pre_entities = self.world.entities_seq();
            let entity = match self.world.get_entity(npc_id) {
                Some(e) => e,
                None => vstd::pervasive::unreached(),
            };
            let (dx, dy): (i64, i64) = if phase == 0 {
                (entity.speed, 0)
            } else if phase == 1 {
                (0, entity.speed)
            } else if phase == 2 {
                (0i64.wrapping_sub(entity.speed), 0)
            } else {
                (0, 0i64.wrapping_sub(entity.speed))
            };
            let new_pos = (entity.position.0.wrapping_add(dx), entity.position.1.wrapping_add(dy));
            self.world.set_entity_position(npc_id, new_pos);
            proof {
                assert(self.world.entity_at(npc_id) == npc_step(
                    old(self).world.entity_at(npc_id),
                    tick,
                ));
                assert(self.npc_entities@.take(k as int + 1).drop_last() =~= self.npc_entities@.take(
                    k as int,
                ));
                assert(new_pos == npc_step(pre_entities[npc_id - 1].1, tick).position);
                assert(self.world.entities_seq() =~= spec_step_npcs(
                    old(self).world.entities_seq(),
                    self.npc_entities@.take(k as int + 1),
                    tick,
                ));
                let taken = self.npc_entities@.take(k as int + 1);
                assert(taken[k as int] == npc_id);
                assert forall|id: i32|
                    old(self).world.has_entity(id) && !taken.contains(id) implies self.world.entity_at(
                    id,
                ) == old(self).world.entity_at(id) by {
                    assert(id != npc_id);
                    assert(!self.npc_entities@.take(k as int).contains(id)) by {
                        if self.npc_entities@.take(k as int).contains(id) {
                            let w = choose|w: int|
                                0 <= w < k && self.npc_entities@.take(k as int)[w] == id;
                            assert(taken[w] == id);
                        }
                    }
                }
            }
            k = k + 1;
        }
        proof {
            assert(self.npc_entities@.take(self.npc_entities@.len() as int) =~= self.npc_entities@);
        }
    }

    /// Register a connecting client: create its entity at the origin with
    /// the client's colour, record the connection-id-to-entity-id mapping,
    /// and hand the entity id out for assignment on the client's side.
    pub fn connect(&mut self, client_id: i32, colour: Colour) -> (entity_id: i32)
        requires
            old(self).wf(),
            old(self).world.num_entities() < i32::MAX,
        ensures
            final(self).wf(),
            entity_id == old(self).world.num_entities() + 1,
            final(self).world.entities_seq() == old(self).world.entities_seq().push(
                (entity_id, (Entity { position: (0, 0), speed: 5, colour })),
            ),
            final(self).networked_players@ == set_entry(
                old(self).networked_players@,
                client_id,
                entity_id,
            ),
            lookup(final(self).networked_players@, client_id) == Some(entity_id),
            forall|k: i32|
                k != client_id ==> lookup(final(self).networked_players@, k) == lookup(
                    old(self).networked_players@,
                    k,
                ),
            final(self).npc_entities == old(self).npc_entities,
            final(self).last_processed_input == old(self).last_processed_input,
            final(self).tick_timer == old(self).tick_timer,
            final(self).tick_rate_ms == old(self).tick_rate_ms,
            final(self).id == old(self).id,
    {
        let mut entity = Entity::new();
        entity.position = (0, 0);
        entity.colour = colour;
        let entity_id = self.world.add_entity(entity);
        upsert(&mut self.networked_players, client_id, entity_id);
        proof {
            crate::assoc::lemma_find_index_properties(old(self).networked_players@, client_id);
        }
        entity_id
    }

    /// Drain every currently deliverable message from the client-to-server
    /// channel, in send order: integrate each carried input into the
    /// sender's entity and record the message's sequence as the sender's
    /// last processed input tick.
    pub fn process_client_messages(&mut self, network: &mut UnreliableNetwork, now_ms: u64)
        requires
            old(self).wf(),
            forall|j: int|
                0 <= j < old(network).queue().len() ==> lookup(
                    old(self).networked_players@,
                    (#[trigger] old(network).queue()[j]).1,
                ).is_some(),
        ensures
            final(self).wf(),
            final(network).queue() == old(network).queue().skip(
                deliverable_count(old(network).queue(), now_ms),
            ),
            final(network).min_latency_ms == old(network).min_latency_ms,
            final(network).max_latency_ms == old(network).max_latency_ms,
            final(network).drop_rate == old(network).drop_rate,
            final(self).sim() == spec_drain_server(
                old(self).sim(),
                old(self).networked_players@,
                old(network).queue().take(deliverable_count(old(network).queue(), now_ms)),
            ),
            final(self).world.num_entities() == old(self).world.num_entities(),
            final(self).networked_players == old(self).networked_players,
            final(self).npc_entities == old(self).npc_entities,
            final(self).tick_timer == old(self).tick_timer,
            final(self).tick_rate_ms == old(self).tick_rate_ms,
            final(self).id == old(self).id,
    {
        let ghost q0 = old(network).queue();
        let ghost dc = deliverable_count(q0, now_ms);
        let ghost mut i: int = 0;
        proof {
            assert(q0.skip(0) =~= q0);
            assert(q0.take(0) =~= Seq::<(u64, i32, Message)>::empty());
        }
        loop
            invariant
                self.wf(),
                0 <= i <= q0.len(),
                network.queue() == q0.skip(i),
                deliverable_count(q0, now_ms) == i + deliverable_count(network.queue(), now_ms),
                self.sim() == spec_drain_server(old(self).sim(), old(self).networked_players@, q0.take(i)),
                forall|j: int|
                    0 <= j < q0.len() ==> lookup(
                        old(self).networked_players@,
                        (#[trigger] q0[j]).1,
                    ).is_some(),
                self.world.num_entities() == old(self).world.num_entities(),
                self.networked_players == old(self).networked_players,
                self.npc_entities == old(self).npc_entities,
                self.tick_timer == old(self).tick_timer,
                self.tick_rate_ms == old(self).tick_rate_ms,
                self.id == old(self).id,
                network.min_latency_ms == old(network).min_latency_ms,
                network.max_latency_ms == old(network).max_latency_ms,
                network.drop_rate == old(network).drop_rate,
            ensures
                deliverable_count(network.queue(), now_ms) == 0,
            decreases q0.len() - i,
        {
            let ghost pre_queue = network.queue();
            let r = network.receive(now_ms);
            match r {
                Some((client_id, message)) => {
                    proof {
                        assert(pre_queue[0] == q0[i]);
                        assert(network.queue() =~= q0.skip(i + 1));
                        assert(deliverable_count(pre_queue, now_ms) == 1 + deliverable_count(
                            network.queue(),
                            now_ms,
                        ));
                    }
                    let found = find_entry(&self.networked_players, client_id);
                    let local_entity_id = match found {
                        Some(ix) => self.networked_players[ix].1,
                        None => vstd::pervasive::unreached(),
                    };
                    proof {
                        assert(lookup(self.networked_players@, client_id) == Some(local_entity_id));
                    }
                    if let Some(input) = message.input {
                        self.world.integrate_entity_input(
                            local_entity_id,
                            &Input { left: input.0, right: input.1, up: input.2, down: input.3 },
                        );
                    }
                    upsert(&mut self.last_processed_input, client_id, message.sequence);
                    proof {
                        i = i + 1;
                        assert(q0.take(i).drop_last() =~= q0.take(i - 1));
                        assert(q0.take(i).last() == q0[i - 1]);
                        assert(self.sim() =~= spec_apply_client_message(
                            spec_drain_server(
                                old(self).sim(),
                                old(self).networked_players@,
                                q0.take(i - 1),
                            ),
                            old(self).networked_players@,
                            client_id,
                            message,
                        ));
                    }
                },
                None => {
                    break ;
                },
            }
        }
    }

    /// Take one snapshot of every world entity, stamped with this tick, and
    /// send a copy to every passed client channel — each copy's sequence set
    /// to that client's own last processed input tick (zero before any input
    /// was seen), the acknowledgment horizon the client reconciles against.
    pub fn broadcast_state(
        &self,
        outboxes: &mut Vec<(i32, UnreliableNetwork)>,
        tick: i32,
        now_ms: u64,
    )
        requires
            self.wf(),
            forall|k: int|
                0 <= k < old(outboxes)@.len() ==> {
                    let nb = (#[trigger] old(outboxes)@[k]).1;
                    nb.min_latency_ms <= nb.max_latency_ms && nb.max_latency_ms <= LATENCY_LIMIT_MS
                        && now_ms + nb.max_latency_ms <= u64::MAX
                },
        ensures
            final(outboxes)@.len() == old(outboxes)@.len(),
            forall|k: int|
                0 <= k < old(outboxes)@.len() ==> {
                    let pre = (#[trigger] old(outboxes)@[k]).1;
                    let post = final(outboxes)@[k].1;
                    let ack = match lookup(self.last_processed_input@, old(outboxes)@[k].0) {
                        Some(t) => t,
                        None => 0i32,
                    };
                    &&& final(outboxes)@[k].0 == old(outboxes)@[k].0
                    &&& post.min_latency_ms == pre.min_latency_ms
                    &&& post.max_latency_ms == pre.max_latency_ms
                    &&& post.drop_rate == pre.drop_rate
                    &&& (post.queue() == pre.queue() || enqueued_state_msg(
                        pre.queue(),
                        post.queue(),
                        now_ms,
                        pre.min_latency_ms,
                        pre.max_latency_ms,
                        self.id,
                        ack,
                        snapshot_states(self.world.entities_seq(), tick),
                    ))
                    &&& (pre.drop_rate == 0 ==> enqueued_state_msg(
                        pre.queue(),
                        post.queue(),
                        now_ms,
                        pre.min_latency_ms,
                        pre.max_latency_ms,
                        self.id,
                        ack,
                        snapshot_states(self.world.entities_seq(), tick),
                    ))
                    &&& pre.queue().is_prefix_of(post.queue())
                },
    {
        let ghost snap = snapshot_states(self.world.entities_seq(), tick);
        let entities = self.world.get_entities();
        let mut world_state: Vec<State> = Vec::new();
        let mut j: usize = 0;
        while j < entities.len()
            invariant
                0 <= j <= entities@.len(),
                entities@ == self.world.entities_seq(),
                snap == snapshot_states(self.world.entities_seq(), tick),
                world_state@ =~= snap.take(j as int),
            decreases entities@.len() - j,
        {
            let (entity_id, entity) = entities[j];
            world_state.push(
                State { tick, entity_id, position: entity.position, colour: entity.colour },
            );
            proof {
                assert(world_state@ =~= snap.take(j as int + 1));
            }
            j = j + 1;
        }
        proof {
            assert(world_state@ =~= snap);
        }

        let mut k: usize = 0;
        while k < outboxes.len()
            invariant
                0 <= k <= outboxes@.len(),
                self.wf(),
                forall|x: int|
                    0 <= x < old(outboxes)@.len() ==> {
                        let nb = (#[trigger] old(outboxes)@[x]).1;
                        nb.min_latency_ms <= nb.max_latency_ms && nb.max_latency_ms
                            <= LATENCY_LIMIT_MS && now_ms + nb.max_latency_ms <= u64::MAX
                    },
                world_state@ == snap,
                snap == snapshot_states(self.world.entities_seq(), tick),
                outboxes@.len() == old(outboxes)@.len(),
                forall|x: int|
                    k <= x < outboxes@.len() ==> #[trigger] outboxes@[x] == old(outboxes)@[x],
                forall|x: int|
                    0 <= x < k ==> {
                        let pre = (#[trigger] old(outboxes)@[x]).1;
                        let post = outboxes@[x].1;
                        let ack = match lookup(self.last_processed_input@, old(outboxes)@[x].0) {
                            Some(t) => t,
                            None => 0i32,
                        };
                        &&& outboxes@[x].0 == old(outboxes)@[x].0
                        &&& post.min_latency_ms == pre.min_latency_ms
                        &&& post.max_latency_ms == pre.max_latency_ms
                        &&& post.drop_rate == pre.drop_rate
                        &&& (post.queue() == pre.queue() || enqueued_state_msg(
                            pre.queue(),
                            post.queue(),
                            now_ms,
                            pre.min_latency_ms,
                            pre.max_latency_ms,
                            self.id,
                            ack,
                            snap,
                        ))
                        &&& (pre.drop_rate == 0 ==> enqueued_state_msg(
                            pre.queue(),
                            post.queue(),
                            now_ms,
                            pre.min_latency_ms,
                            pre.max_latency_ms,
                            self.id,
                            ack,
                            snap,
                        ))
                        &&& pre.queue().is_prefix_of(post.queue())
                    },
            decreases outboxes@.len() - k,
        {
            let client_id = outboxes[k].0;
            let found = find_entry(&self.last_processed_input, client_id);
            let last_processed_tick = match found {
                Some(ix) => self.last_processed_input[ix].1,
                None => 0,
            };
            proof {
                crate::assoc::lemma_find_index_properties(self.last_processed_input@, client_id);
            }

            let mut states_copy: Vec<State> = Vec::new();
            let mut c: usize = 0;
            while c < world_state.len()
                invariant
                    0 <= c <= world_state@.len(),
                    states_copy@ =~= world_state@.take(c as int),
                decreases world_state@.len() - c,
            {
                states_copy.push(world_state[c]);
                proof {
                    assert(states_copy@ =~= world_state@.take(c as int + 1));
                }
                c = c + 1;
            }
            proof {
                assert(states_copy@ =~= world_state@);
            }

            let message = Message {
                state: Some(states_copy),
                input: None,
                sequence: last_processed_tick,
            };
            proof {
                assert(outboxes@[k as int] == old(outboxes)@[k as int]);
            }
            let ghost pre = outboxes@[k as int].1.queue();
            let ghost msg = message;
            outboxes[k].1.send(now_ms, self.id, message);
            proof {
                let post = outboxes@[k as int].1.queue();
                if post != pre {
                    let lat = choose|lat: u64|
                        old(outboxes)@[k as int].1.min_latency_ms <= lat <= old(
                            outboxes,
                        )@[k as int].1.max_latency_ms && post == #[trigger] pre.push(
                            (((now_ms + lat) as u64), self.id, msg),
                        );
                    assert(enqueued_state_msg(
                        pre,
                        post,
                        now_ms,
                        old(outboxes)@[k as int].1.min_latency_ms,
                        old(outboxes)@[k as int].1.max_latency_ms,
                        self.id,
                        last_processed_tick,
                        snap,
                    ));
                }
            }
            k = k + 1;
        }
    }

    /// One frame of server work: for each tick the timer yields, advance the
    /// scripted entities, drain the deliverable client messages, and
    /// broadcast a snapshot to every client channel. The whole frame's
    /// effect on the simulation is exactly `spec_server_update` over the
    /// emitted ticks, and a lossless client channel receives exactly one
    /// broadcast per tick, carrying that tick's snapshot and acknowledgment.
    pub fn update(
        &mut self,
        inbox: &mut UnreliableNetwork,
        outboxes: &mut Vec<(i32, UnreliableNetwork)>,
        now_ms: u64,
        elapsed_ms: u64,
    )
        requires
            old(self).wf(),
            old(self).tick_timer.tick_interval > 0,
            old(self).tick_timer.time_available + elapsed_ms <= u64::MAX,
            forall|j: int|
                0 <= j < old(inbox).queue().len() ==> lookup(
                    old(self).networked_players@,
                    (#[trigger] old(inbox).queue()[j]).1,
                ).is_some(),
            forall|k: int|
                0 <= k < old(outboxes)@.len() ==> {
                    let nb = (#[trigger] old(outboxes)@[k]).1;
                    nb.min_latency_ms <= nb.max_latency_ms && nb.max_latency_ms <= LATENCY_LIMIT_MS
                        && now_ms + nb.max_latency_ms <= u64::MAX
                },
        ensures
            final(self).wf(),
            final(self).tick_timer.tick_interval == old(self).tick_timer.tick_interval,
            final(self).tick_timer.time_available == (old(self).tick_timer.time_available
                + elapsed_ms) % old(self).tick_timer.tick_interval as int,
            final(self).tick_timer.current_tick == tick_after(
                old(self).tick_timer.current_tick,
                ((old(self).tick_timer.time_available + elapsed_ms) / old(
                    self,
                ).tick_timer.tick_interval as int) as nat,
            ),
            final(self).sim() == spec_server_update(
                old(self).sim(),
                old(self).networked_players@,
                old(self).npc_entities@,
                emitted_ticks(
                    old(self).tick_timer.current_tick,
                    ((old(self).tick_timer.time_available + elapsed_ms) / old(
                        self,
                    ).tick_timer.tick_interval as int) as nat,
                ),
                old(inbox).queue().take(deliverable_count(old(inbox).queue(), now_ms)),
            ),
            final(self).networked_players == old(self).networked_players,
            final(self).npc_entities == old(self).npc_entities,
            final(self).tick_rate_ms == old(self).tick_rate_ms,
            final(self).id == old(self).id,
            final(inbox).min_latency_ms == old(inbox).min_latency_ms,
            final(inbox).max_latency_ms == old(inbox).max_latency_ms,
            final(inbox).drop_rate == old(inbox).drop_rate,
            (old(self).tick_timer.time_available + elapsed_ms) / old(
                self,
            ).tick_timer.tick_interval as int > 0 ==> final(inbox).queue() == old(
                inbox,
            ).queue().skip(deliverable_count(old(inbox).queue(), now_ms)),
            (old(self).tick_timer.time_available + elapsed_ms) / old(
                self,
            ).tick_timer.tick_interval as int == 0 ==> final(inbox).queue() == old(inbox).queue()
                && *final(self) == (Server { tick_timer: final(self).tick_timer, ..*old(self) })
                && final(outboxes)@ == old(outboxes)@,
            final(outboxes)@.len() == old(outboxes)@.len(),
            forall|k: int|
                0 <= k < old(outboxes)@.len() ==> final(outboxes)@[k].0 == (#[trigger] old(
                    outboxes,
                )@[k]).0 && final(outboxes)@[k].1.min_latency_ms == old(
                    outboxes,
                )@[k].1.min_latency_ms && final(outboxes)@[k].1.max_latency_ms == old(
                    outboxes,
                )@[k].1.max_latency_ms && final(outboxes)@[k].1.drop_rate == old(
                    outboxes,
                )@[k].1.drop_rate && old(outboxes)@[k].1.queue().is_prefix_of(
                    final(outboxes)@[k].1.queue(),
                ),
            forall|k: int|
                0 <= k < old(outboxes)@.len() && (#[trigger] old(outboxes)@[k]).1.drop_rate == 0
                    ==> final(outboxes)@[k].1.queue().len() == old(outboxes)@[k].1.queue().len() + (
                old(self).tick_timer.time_available + elapsed_ms) / old(
                    self,
                ).tick_timer.tick_interval as int,
            forall|k: int, j: int|
                0 <= k < old(outboxes)@.len() && (#[trigger] old(outboxes)@[k]).1.drop_rate == 0
                    && 0 <= j < (old(self).tick_timer.time_available + elapsed_ms) / old(
                    self,
                ).tick_timer.tick_interval as int ==> frame_broadcast_ok(
                    #[trigger] final(outboxes)@[k].1.queue()[old(outboxes)@[k].1.queue().len() + j],
                    old(self).sim(),
                    old(self).networked_players@,
                    old(self).npc_entities@,
                    emitted_ticks(
                        old(self).tick_timer.current_tick,
                        ((old(self).tick_timer.time_available + elapsed_ms) / old(
                            self,
                        ).tick_timer.tick_interval as int) as nat,
                    ),
                    old(inbox).queue().take(deliverable_count(old(inbox).queue(), now_ms)),
                    j,
                    now_ms,
                    old(outboxes)@[k].1.min_latency_ms,
                    old(outboxes)@[k].1.max_latency_ms,
                    old(self).id,
                    old(outboxes)@[k].0,
                ),
    {
        let ghost s0 = old(self).sim();
        let ghost players = old(self).networked_players@;
        let ghost npcs = old(self).npc_entities@;
        let ghost q0 = old(inbox).queue();
        let ghost dc = deliverable_count(q0, now_ms);
        let ghost drained = q0.take(dc);
        let ticks = self.tick_timer.tick(elapsed_ms);
        proof {
            assert(ticks@.take(0) =~= Seq::<i32>::empty());
        }
        let mut t: usize = 0;
        while t < ticks.len()
            invariant
                self.wf(),
                0 <= t <= ticks@.len(),
                ticks@.len() == (old(self).tick_timer.time_available + elapsed_ms) / old(
                    self,
                ).tick_timer.tick_interval as int,
                ticks@ == emitted_ticks(old(self).tick_timer.current_tick, ticks@.len()),
                dc == deliverable_count(q0, now_ms),
                drained == q0.take(dc),
                s0 == old(self).sim(),
                players == old(self).networked_players@,
                npcs == old(self).npc_entities@,
                self.sim() == spec_server_update(s0, players, npcs, ticks@.take(t as int), drained),
                t == 0 ==> self.world == old(self).world && self.last_processed_input == old(
                    self,
                ).last_processed_input && outboxes@ == old(outboxes)@,
                self.networked_players == old(self).networked_players,
                self.npc_entities == old(self).npc_entities,
                self.tick_rate_ms == old(self).tick_rate_ms,
                self.id == old(self).id,
                self.tick_timer.tick_interval == old(self).tick_timer.tick_interval,
                self.tick_timer.time_available == (old(self).tick_timer.time_available
                    + elapsed_ms) % old(self).tick_timer.tick_interval as int,
                self.tick_timer.current_tick == tick_after(
                    old(self).tick_timer.current_tick,
                    ticks@.len(),
                ),
                inbox.min_latency_ms == old(inbox).min_latency_ms,
                inbox.max_latency_ms == old(inbox).max_latency_ms,
                inbox.drop_rate == old(inbox).drop_rate,
                t == 0 ==> inbox.queue() == q0,
                t > 0 ==> inbox.queue() == q0.skip(deliverable_count(q0, now_ms)),
                forall|j: int|
                    0 <= j < inbox.queue().len() ==> lookup(
                        self.networked_players@,
                        (#[trigger] inbox.queue()[j]).1,
                    ).is_some(),
                outboxes@.len() == old(outboxes)@.len(),
                forall|x: int|
                    0 <= x < old(outboxes)@.len() ==> {
                        let nb = (#[trigger] old(outboxes)@[x]).1;
                        nb.min_latency_ms <= nb.max_latency_ms && nb.max_latency_ms
                            <= LATENCY_LIMIT_MS && now_ms + nb.max_latency_ms <= u64::MAX
                    },
                forall|k: int|
                    0 <= k < old(outboxes)@.len() ==> #[trigger] outboxes@[k].0 == old(
                        outboxes,
                    )@[k].0 && outboxes@[k].1.min_latency_ms == old(outboxes)@[k].1.min_latency_ms
                        && outboxes@[k].1.max_latency_ms == old(outboxes)@[k].1.max_latency_ms
                        && outboxes@[k].1.drop_rate == old(outboxes)@[k].1.drop_rate && old(
                        outboxes,
                    )@[k].1.queue().is_prefix_of(outboxes@[k].1.queue()),
                forall|k: int|
                    0 <= k < old(outboxes)@.len() && (#[trigger] old(outboxes)@[k]).1.drop_rate
                        == 0 ==> outboxes@[k].1.queue().len() == old(outboxes)@[k].1.queue().len()
                        + t,
                forall|k: int, j: int|
                    0 <= k < old(outboxes)@.len() && (#[trigger] old(outboxes)@[k]).1.drop_rate
                        == 0 && 0 <= j < t ==> frame_broadcast_ok(
                        #[trigger] outboxes@[k].1.queue()[old(outboxes)@[k].1.queue().len() + j],
                        s0,
                        players,
                        npcs,
                        ticks@,
                        drained,
                        j,
                        now_ms,
                        old(outboxes)@[k].1.min_latency_ms,
                        old(outboxes)@[k].1.max_latency_ms,
                        old(self).id,
                        old(outboxes)@[k].0,
                    ),
            decreases ticks@.len() - t,
        {
            let tick = ticks[t];
            let ghost pre_sim = self.sim();
            self.update_npc_entities(tick);
            let ghost stepped = ServerSim {
                entities: spec_step_npcs(pre_sim.entities, npcs, tick),
                last_processed_input: pre_sim.last_processed_input,
            };
            proof {
                assert(self.sim() =~= stepped);
            }
            let ghost qpre = inbox.queue();
            self.process_client_messages(inbox, now_ms);
            proof {
                let dcp = deliverable_count(qpre, now_ms);
                lemma_deliverable_count_properties(qpre, now_ms);
                assert forall|j: int| 0 <= j < inbox.queue().len() implies lookup(
                    self.networked_players@,
                    (#[trigger] inbox.queue()[j]).1,
                ).is_some() by {
                    assert(inbox.queue()[j] == qpre[j + dcp]);
                }
                assert(ticks@.take(t as int + 1).drop_last() =~= ticks@.take(t as int));
                assert(ticks@.take(t as int + 1).last() == ticks@[t as int]);
                if t > 0 {
                    lemma_deliverable_count_properties(q0, now_ms);
                    assert(deliverable_count(qpre, now_ms) == 0);
                    assert(qpre.skip(0) =~= qpre);
                    assert(qpre.take(0) =~= Seq::<(u64, i32, Message)>::empty());
                    assert(self.sim() =~= stepped);
                } else {
                    assert(qpre == q0);
                    assert(qpre.take(dcp) == drained);
                }
                assert(self.sim() =~= spec_server_update(
                    s0,
                    players,
                    npcs,
                    ticks@.take(t as int + 1),
                    drained,
                ));
            }
            let ghost obpre = outboxes@;
            proof {
                assert forall|x: int| 0 <= x < outboxes@.len() implies {
                    let nb = (#[trigger] outboxes@[x]).1;
                    nb.min_latency_ms <= nb.max_latency_ms && nb.max_latency_ms <= LATENCY_LIMIT_MS
                        && now_ms + nb.max_latency_ms <= u64::MAX
                } by {
                    assert(outboxes@[x].0 == old(outboxes)@[x].0);
                    let nb0 = old(outboxes)@[x].1;
                    assert(nb0.min_latency_ms <= nb0.max_latency_ms && nb0.max_latency_ms
                        <= LATENCY_LIMIT_MS && now_ms + nb0.max_latency_ms <= u64::MAX);
                }
            }
            self.broadcast_state(outboxes, tick, now_ms);
            proof {
                assert forall|k: int| 0 <= k < old(outboxes)@.len() implies #[trigger] outboxes@[k].0
                    == old(outboxes)@[k].0 && outboxes@[k].1.min_latency_ms == old(
                    outboxes,
                )@[k].1.min_latency_ms && outboxes@[k].1.max_latency_ms == old(
                    outboxes,
                )@[k].1.max_latency_ms && outboxes@[k].1.drop_rate == old(
                    outboxes,
                )@[k].1.drop_rate by {
                    assert(obpre[k].0 == old(outboxes)@[k].0 && obpre[k].1.min_latency_ms == old(
                        outboxes,
                    )@[k].1.min_latency_ms && obpre[k].1.max_latency_ms == old(
                        outboxes,
                    )@[k].1.max_latency_ms && obpre[k].1.drop_rate == old(outboxes)@[k].1.drop_rate);
                }
                assert forall|k: int| 0 <= k < old(outboxes)@.len() implies old(
                    outboxes,
                )@[k].1.queue().is_prefix_of(#[trigger] outboxes@[k].1.queue()) by {
                    let a = old(outboxes)@[k].1.queue();
                    let b = obpre[k].1.queue();
                    let c = outboxes@[k].1.queue();
                    assert(a.is_prefix_of(b));
                    assert(b.is_prefix_of(c));
                    assert forall|j: int| 0 <= j < a.len() implies a[j] == c[j] by {
                        assert(a[j] == b.subrange(0, a.len() as int)[j]);
                        assert(b[j] == c.subrange(0, b.len() as int)[j]);
                    }
                    assert(a =~= c.subrange(0, a.len() as int));
                }
                assert forall|k: int|
                    0 <= k < old(outboxes)@.len() && (#[trigger] old(outboxes)@[k]).1.drop_rate
                        == 0 implies outboxes@[k].1.queue().len() == old(
                    outboxes,
                )@[k].1.queue().len() + (t + 1) && (forall|j: int|
                    0 <= j < t + 1 ==> frame_broadcast_ok(
                        #[trigger] outboxes@[k].1.queue()[old(outboxes)@[k].1.queue().len() + j],
                        s0,
                        players,
                        npcs,
                        ticks@,
                        drained,
                        j,
                        now_ms,
                        old(outboxes)@[k].1.min_latency_ms,
                        old(outboxes)@[k].1.max_latency_ms,
                        old(self).id,
                        old(outboxes)@[k].0,
                    )) by {
                    let pre = obpre[k].1.queue();
                    let post = outboxes@[k].1.queue();
                    let cid = old(outboxes)@[k].0;
                    let minl = old(outboxes)@[k].1.min_latency_ms;
                    let maxl = old(outboxes)@[k].1.max_latency_ms;
                    let ack = match lookup(self.last_processed_input@, cid) {
                        Some(x) => x,
                        None => 0i32,
                    };
                    let snap = snapshot_states(self.world.entities_seq(), tick);
                    assert(enqueued_state_msg(
                        pre,
                        post,
                        now_ms,
                        minl,
                        maxl,
                        self.id,
                        ack,
                        snap,
                    ));
                    let (lat, m) = choose|lat: u64, m: Message|
                        minl <= lat <= maxl && m.sequence == ack && m.input == None::<(
                            bool,
                            bool,
                            bool,
                            bool,
                        )> && (m.state matches Some(v) && v@ == snap) && post
                            == #[trigger] pre.push((((now_ms + lat) as u64), self.id, m));
                    assert(post == pre.push((((now_ms + lat) as u64), self.id, m)));
                    assert(post[pre.len() as int] == (((now_ms + lat) as u64), self.id, m));
                    assert(broadcast_entry_ok(
                        post[pre.len() as int],
                        now_ms,
                        minl,
                        maxl,
                        old(self).id,
                        ack,
                        snap,
                    ));
                    assert(frame_broadcast_ok(
                        post[pre.len() as int],
                        s0,
                        players,
                        npcs,
                        ticks@,
                        drained,
                        t as int,
                        now_ms,
                        minl,
                        maxl,
                        old(self).id,
                        cid,
                    ));
                    assert forall|j: int| 0 <= j < t implies frame_broadcast_ok(
                        #[trigger] post[old(outboxes)@[k].1.queue().len() + j],
                        s0,
                        players,
                        npcs,
                        ticks@,
                        drained,
                        j,
                        now_ms,
                        minl,
                        maxl,
                        old(self).id,
                        cid,
                    ) by {
                        assert(post[old(outboxes)@[k].1.queue().len() + j] == pre[old(
                            outboxes,
                        )@[k].1.queue().len() + j]);
                    }
                }
            }
            t = t + 1;
        }
        proof {
            assert(ticks@.take(ticks@.len() as int) =~= ticks@);
        }
    }
}

} // verus!
