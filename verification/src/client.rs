//! The networked client: a local partial mirror of the world, client-side
//! prediction, server reconciliation against acknowledged input ticks, and
//! temporal smoothing of remote entities from the server's sparse snapshot
//! stream.

use vstd::prelude::*;

use crate::assoc::{find_entry, find_index, lemma_find_index_of_scan, lemma_find_index_properties};
use crate::net::{
    deliverable_count, enqueued_one, lemma_deliverable_count_properties, Message, State,
    UnreliableNetwork, LATENCY_LIMIT_MS,
};
use crate::server::Server;
use crate::sim::{apply_inputs, lemma_apply_inputs_push, step_position, Colour, Entity, Input};
use crate::ticktimer::{emitted_ticks, tick_after, TickTimer};

verus! {

/// The input-history entries kept after the server has acknowledged all
/// ticks before `cutoff`: those whose tick is at least `cutoff`.
pub open spec fn kept_history(history: Seq<(i32, Input)>, cutoff: i32) -> Seq<(i32, Input)> {
    history.filter(|p: (i32, Input)| p.0 >= cutoff)
}

/// The inputs of a history, in order, without their ticks.
pub open spec fn inputs_of(history: Seq<(i32, Input)>) -> Seq<Input> {
    history.map_values(|p: (i32, Input)| p.1)
}

/// Filtering distributes over appending one entry.
proof fn lemma_kept_history_push(history: Seq<(i32, Input)>, entry: (i32, Input), cutoff: i32)
    ensures
        kept_history(history.push(entry), cutoff) == if entry.0 >= cutoff {
            kept_history(history, cutoff).push(entry)
        } else {
            kept_history(history, cutoff)
        },
{
    reveal(Seq::filter);
    assert(history.push(entry).drop_last() == history);
    assert(history.push(entry).last() == entry);
}

/// The part of the client that one server state entry acts on, together
/// with the settings that decide how it is applied.
#[verifier::ext_equal]
pub ghost struct ClientSim {
    pub entities: Seq<(i32, Entity)>,
    pub input_history: Seq<(i32, Input)>,
    pub state_snapshots: Seq<(i32, State)>,
    pub input_state: Option<Input>,
    pub last_message_sequence: i32,
    pub controlled_entity: Option<i32>,
    pub client_prediction_enabled: bool,
    pub server_reconciliation_enabled: bool,
    pub extrapolation_enabled: bool,
}

/// What one per-entity state entry of a server message does to the client,
/// at local tick `tick`, where `ack_tick` is the last input tick the server
/// acknowledged for this client (the message's sequence).
///
/// An unknown entity is first created from the snapshot with the default
/// speed. The controlled entity snaps to the authoritative position and, if
/// reconciliation is on, replays every input the server has not yet seen
/// (ticks after `ack_tick`) on top of it, pruning the history to those
/// inputs; with reconciliation off the history is discarded. A remote
/// entity's snapshot is buffered for smoothing if extrapolation is on, and
/// applied directly if not.
pub open spec fn spec_apply_state(c: ClientSim, tick: i32, ack_tick: i32, s: State) -> ClientSim {
    let es = if find_index(c.entities, s.entity_id) < 0 {
        c.entities.push(
            (s.entity_id, Entity { position: s.position, speed: 5, colour: s.colour }),
        )
    } else {
        c.entities
    };
    let i = find_index(es, s.entity_id);
    let e = es[i].1;
    if c.controlled_entity == Some(s.entity_id) {
        if c.server_reconciliation_enabled {
            let cutoff = vstd::wrapping::i32_specs::wrapping_add(ack_tick, 1);
            let kept = kept_history(c.input_history, cutoff);
            ClientSim {
                entities: es.update(
                    i,
                    (
                        s.entity_id,
                        Entity {
                            position: apply_inputs(s.position, e.speed, inputs_of(kept)),
                            ..e
                        },
                    ),
                ),
                input_history: kept,
                ..c
            }
        } else {
            ClientSim {
                entities: es.update(i, (s.entity_id, Entity { position: s.position, ..e })),
                input_history: Seq::empty(),
                ..c
            }
        }
    } else if c.extrapolation_enabled {
        ClientSim { entities: es, state_snapshots: c.state_snapshots.push((tick, s)), ..c }
    } else {
        ClientSim { entities: es.update(i, (s.entity_id, Entity { position: s.position, ..e })), ..c }
    }
}

/// The client after applying each state entry of one message in order.
pub open spec fn spec_apply_states(
    c: ClientSim,
    tick: i32,
    ack_tick: i32,
    states: Seq<State>,
) -> ClientSim
    decreases states.len(),
{
    if states.len() == 0 {
        c
    } else {
        spec_apply_state(
            spec_apply_states(c, tick, ack_tick, states.drop_last()),
            tick,
            ack_tick,
            states.last(),
        )
    }
}

/// What one whole server message does to the client: a message whose
/// sequence is below the highest already processed is stale and discarded;
/// otherwise the sequence becomes the new high-water mark and each carried
/// state entry is applied in order, with the sequence as the acknowledged
/// input tick.
pub open spec fn spec_apply_message(c: ClientSim, tick: i32, m: Message) -> ClientSim {
    if m.sequence < c.last_message_sequence {
        c
    } else {
        let c1 = ClientSim { last_message_sequence: m.sequence, ..c };
        match m.state {
            Some(v) => spec_apply_states(c1, tick, m.sequence, v@),
            None => c1,
        }
    }
}

/// The client after draining the given queue entries in order.
pub open spec fn spec_drain_client(
    c: ClientSim,
    tick: i32,
    entries: Seq<(u64, i32, Message)>,
) -> ClientSim
    decreases entries.len(),
{
    if entries.len() == 0 {
        c
    } else {
        spec_apply_message(
            spec_drain_client(c, tick, entries.drop_last()),
            tick,
            entries.last().2,
        )
    }
}

/// The client after one frame's per-tick work: for each emitted tick in
/// order, the deliverable server messages are drained and applied (only the
/// first tick finds any: the head left behind is still pending at the same
/// wall-clock time), then — with a controlled entity assigned — the remote
/// entities are smoothed if extrapolation is on, and the pending input is
/// sent off. `current_tick` is the timer's counter after the frame's ticks
/// were emitted: the sequence every send of the frame carries.
pub open spec fn spec_client_update(
    c: ClientSim,
    ticks: Seq<i32>,
    smoothing: i32,
    current_tick: i32,
    drained: Seq<(u64, i32, Message)>,
) -> ClientSim
    decreases ticks.len(),
{
    if ticks.len() == 0 {
        c
    } else {
        let prev = spec_client_update(c, ticks.drop_last(), smoothing, current_tick, drained);
        let tick = ticks.last();
        let c1 = spec_drain_client(
            prev,
            tick,
            if ticks.len() == 1 {
                drained
            } else {
                Seq::empty()
            },
        );
        if c1.controlled_entity is None {
            c1
        } else {
            let c2 = if c1.extrapolation_enabled {
                spec_smooth(c1, vstd::wrapping::i32_specs::wrapping_sub(tick, smoothing))
            } else {
                c1
            };
            spec_process_input(c2, current_tick)
        }
    }
}

/// What one capture of a sampled input leaves pending: an empty sample (no
/// direction active) keeps the previously pending input, a non-empty one
/// replaces it.
pub open spec fn spec_capture(pending: Option<Input>, sample: Input) -> Option<Input> {
    if sample.left || sample.right || sample.up || sample.down {
        Some(sample)
    } else {
        pending
    }
}

/// What sending the pending input does to the client: nothing when no input
/// is pending; otherwise the pending input is consumed, appended to the
/// input history under the current local tick, and, if prediction is on and
/// the controlled entity is mirrored locally, integrated into it at once.
pub open spec fn spec_process_input(c: ClientSim, current_tick: i32) -> ClientSim
    recommends
        c.controlled_entity.is_some(),
{
    match c.input_state {
        None => c,
        Some(inp) => {
            let cid = c.controlled_entity.unwrap();
            let fi = find_index(c.entities, cid);
            let entities1 = if c.client_prediction_enabled && fi >= 0 {
                let e = c.entities[fi].1;
                c.entities.update(
                    fi,
                    (cid, Entity { position: step_position(e.position, e.speed, inp), ..e }),
                )
            } else {
                c.entities
            };
            ClientSim {
                input_state: None,
                input_history: c.input_history.push((current_tick, inp)),
                entities: entities1,
                ..c
            }
        },
    }
}

/// How many entries the smoothing pass drops from the front of the snapshot
/// buffer: the second-oldest entry is dropped as long as its tick is not
/// after the render tick, so the head pair ends up bracketing it.
pub open spec fn prune_count(q: Seq<(i32, State)>, render_tick: i32) -> int
    decreases q.len(),
{
    if q.len() >= 2 && q[1].0 <= render_tick {
        1 + prune_count(q.drop_first(), render_tick)
    } else {
        0
    }
}

/// Linear interpolation of one coordinate from `x0` (at offset 0) towards
/// `x1` (at offset `delta`), sampled at offset `f`, the fraction truncated
/// towards zero. The result always lies between `x0` and `x1`.
pub open spec fn lerp_coord(x0: i64, x1: i64, f: int, delta: int) -> i64
    recommends
        0 <= f < delta,
{
    if x1 >= x0 {
        (x0 + ((x1 - x0) * f) / delta) as i64
    } else {
        (x0 - ((x0 - x1) * f) / delta) as i64
    }
}

/// The position smoothing yields from a snapshot buffer at `render_tick`,
/// if its (pruned) two oldest snapshots bracket the render tick: the linear
/// interpolation between their positions. Nothing otherwise.
pub open spec fn interp_bracket(q: Seq<(i32, State)>, render_tick: i32) -> Option<(i64, i64)> {
    let p = q.skip(prune_count(q, render_tick));
    if p.len() >= 2 && p[0].0 <= render_tick && render_tick < p[1].0 {
        Some(
            (
                lerp_coord(
                    p[0].1.position.0,
                    p[1].1.position.0,
                    render_tick - p[0].0,
                    p[1].0 - p[0].0,
                ),
                lerp_coord(
                    p[0].1.position.1,
                    p[1].1.position.1,
                    render_tick - p[0].0,
                    p[1].0 - p[0].0,
                ),
            ),
        )
    } else {
        None
    }
}

/// Where a remote entity stands after one smoothing pass: the bracketed
/// interpolation if the buffer brackets the render tick, else its current
/// position, held unchanged.
pub open spec fn interp_result(
    q: Seq<(i32, State)>,
    render_tick: i32,
    current: (i64, i64),
) -> (i64, i64) {
    match interp_bracket(q, render_tick) {
        Some(p) => p,
        None => current,
    }
}

/// One smoothing pass at spec level: every remote entity's position becomes
/// `interp_result` of the snapshot buffer at the render tick; the buffer is
/// pruned when at least one remote entity exists, and nothing else moves.
pub open spec fn spec_smooth(c: ClientSim, render_tick: i32) -> ClientSim {
    ClientSim {
        entities: Seq::new(
            c.entities.len(),
            |i: int|
                if c.controlled_entity == Some(c.entities[i].0) {
                    c.entities[i]
                } else {
                    (
                        c.entities[i].0,
                        Entity {
                            position: interp_result(
                                c.state_snapshots,
                                render_tick,
                                c.entities[i].1.position,
                            ),
                            ..c.entities[i].1
                        },
                    )
                },
        ),
        state_snapshots: if (exists|i: int|
            0 <= i < c.entities.len() && c.controlled_entity != Some(
                (#[trigger] c.entities[i]).0,
            )) {
            c.state_snapshots.skip(prune_count(c.state_snapshots, render_tick))
        } else {
            c.state_snapshots
        },
        ..c
    }
}

/// Truncating linear interpolation of one coordinate; the executable twin of
/// `lerp_coord`.
fn lerp_coord_exec(x0: i64, x1: i64, f: i64, delta: i64) -> (r: i64)
    requires
        0 <= f < delta,
    ensures
        r == lerp_coord(x0, x1, f as int, delta as int),
{
    let fw = f as u64 as u128;
    let dw = delta as u64 as u128;
    if x1 >= x0 {
        let dx = (x1 as i128 - x0 as i128) as u128;
        proof {
            assert(dx * fw < 0x1_0000_0000_0000_0000_0000_0000_0000_0000) by (nonlinear_arith)
                requires
                    dx < 0x1_0000_0000_0000_0000,
                    fw < 0x1_0000_0000_0000_0000,
            ;
        }
        let q = (dx * fw) / dw;
        proof {
            let dxi = x1 as int - x0 as int;
            assert(dxi * f <= dxi * delta) by (nonlinear_arith)
                requires
                    0 <= f < delta,
                    dxi >= 0,
            ;
            assert(dxi * f >= 0) by (nonlinear_arith)
                requires
                    dxi >= 0,
                    f >= 0,
            ;
            vstd::arithmetic::div_mod::lemma_div_is_ordered(dxi * f, dxi * delta, delta as int);
            vstd::arithmetic::div_mod::lemma_div_multiples_vanish(dxi, delta as int);
            assert(delta * dxi == dxi * delta) by (nonlinear_arith);
            vstd::arithmetic::div_mod::lemma_div_pos_is_pos(dxi * f, delta as int);
        }
        let r128 = x0 as i128 + q as i128;
        r128 as i64
    } else {
        let dx = (x0 as i128 - x1 as i128) as u128;
        proof {
            assert(dx * fw < 0x1_0000_0000_0000_0000_0000_0000_0000_0000) by (nonlinear_arith)
                requires
                    dx < 0x1_0000_0000_0000_0000,
                    fw < 0x1_0000_0000_0000_0000,
            ;
        }
        let q = (dx * fw) / dw;
        proof {
            let dxi = x0 as int - x1 as int;
            assert(dxi * f <= dxi * delta) by (nonlinear_arith)
                requires
                    0 <= f < delta,
                    dxi >= 0,
            ;
            assert(dxi * f >= 0) by (nonlinear_arith)
                requires
                    dxi >= 0,
                    f >= 0,
            ;
            vstd::arithmetic::div_mod::lemma_div_is_ordered(dxi * f, dxi * delta, delta as int);
            vstd::arithmetic::div_mod::lemma_div_multiples_vanish(dxi, delta as int);
            assert(delta * dxi == dxi * delta) by (nonlinear_arith);
            vstd::arithmetic::div_mod::lemma_div_pos_is_pos(dxi * f, delta as int);
        }
        let r128 = x0 as i128 - q as i128;
        r128 as i64
    }
}

/// Represents the networked client.
pub struct Client {
    pub id: i32,
    /// Timer for the fixed tick rate.
    pub tick_timer: TickTimer,
    /// The tick rate in milliseconds.
    pub tick_rate_ms: u64,
    /// The local mirror of the world, filled from server snapshots.
    pub entities: Vec<(i32, Entity)>,
    /// The entity this client controls, once connected.
    pub controlled_entity: Option<i32>,
    /// The last captured non-empty input, pending until the next tick.
    pub input_state: Option<Input>,
    /// Inputs not yet acknowledged by the server, oldest first, each with
    /// the local tick it was sent under; kept for reconciliation.
    pub input_history: Vec<(i32, Input)>,
    /// High-water mark of processed server message sequences; anything
    /// below it is stale and dropped.
    pub last_message_sequence: i32,
    pub client_prediction_enabled: bool,
    pub server_reconciliation_enabled: bool,
    pub extrapolation_enabled: bool,
    /// Server snapshots of remote entities, buffered for smoothing, each
    /// with the local tick it arrived at; ticks never decrease.
    pub state_snapshots: Vec<(i32, State)>,
    /// How many ticks the rendered remote entities lag behind, so a
    /// bracketing pair of snapshots usually exists.
    pub smoothing_ticks: i32,
    pub colour: Colour,
    pub connected: bool,
}

impl Client {
    /// The part of the client that server messages act on.
    pub open spec fn sim(&self) -> ClientSim {
        ClientSim {
            entities: self.entities@,
            input_history: self.input_history@,
            state_snapshots: self.state_snapshots@,
            input_state: self.input_state,
            last_message_sequence: self.last_message_sequence,
            controlled_entity: self.controlled_entity,
            client_prediction_enabled: self.client_prediction_enabled,
            server_reconciliation_enabled: self.server_reconciliation_enabled,
            extrapolation_enabled: self.extrapolation_enabled,
        }
    }

    pub fn new(id: i32, tick_rate_ms: u64) -> (r: Self)
        ensures
            r.id == id,
            r.tick_timer.tick_interval == tick_rate_ms,
            r.tick_timer.current_tick == 0,
            r.tick_timer.time_available == 0,
            r.tick_rate_ms == tick_rate_ms,
            r.entities@ == Seq::<(i32, Entity)>::empty(),
            r.controlled_entity == None::<i32>,
            r.input_state == None::<Input>,
            r.input_history@ == Seq::<(i32, Input)>::empty(),
            r.last_message_sequence == 0,
            r.client_prediction_enabled,
            r.server_reconciliation_enabled,
            r.extrapolation_enabled,
            r.state_snapshots@ == Seq::<(i32, State)>::empty(),
            r.smoothing_ticks == 10,
            r.colour == Colour::Red,
            !r.connected,
    {
        Client {
            id,
            tick_timer: TickTimer::new(tick_rate_ms),
            tick_rate_ms,
            entities: Vec::new(),
            controlled_entity: None,
            input_state: None,
            input_history: Vec::new(),
            last_message_sequence: 0,
            client_prediction_enabled: true,
            server_reconciliation_enabled: true,
            extrapolation_enabled: true,
            state_snapshots: Vec::new(),
            smoothing_ticks: 10,
            colour: Colour::Red,
            connected: false,
        }
    }

    pub fn get_id(&self) -> (r: i32)
        ensures
            r == self.id,
    {
        self.id
    }

    /// The mirrored entities, in the order they became known.
    pub fn get_entities(&self) -> (r: Vec<Entity>)
        ensures
            r@ == self.entities@.map_values(|p: (i32, Entity)| p.1),
    {
        let mut r: Vec<Entity> = Vec::new();
        let mut i: usize = 0;
        while i < self.entities.len()
            invariant
                0 <= i <= self.entities@.len(),
                r@ =~= self.entities@.take(i as int).map_values(|p: (i32, Entity)| p.1),
            decreases self.entities@.len() - i,
        {
            r.push(self.entities[i].1);
            proof {
                assert(r@ =~= self.entities@.take(i as int + 1).map_values(
                    |p: (i32, Entity)| p.1,
                ));
            }
            i = i + 1;
        }
        proof {
            assert(self.entities@.take(self.entities@.len() as int) =~= self.entities@);
        }
        r
    }

    /// Establish the simulated connection: register with the server (which
    /// creates this client's entity), configure both directional channels
    /// with the same latency window and drop rate, take the returned entity
    /// as the controlled one and flip to connected. Calling it again
    /// re-creates the assignment, as a reconnect would.
    pub fn connect(
        &mut self,
        server: &mut Server,
        client_net: &mut UnreliableNetwork,
        server_net: &mut UnreliableNetwork,
        min_latency_ms: u64,
        max_latency_ms: u64,
        drop_rate: u64,
    )
        requires
            old(server).wf(),
            old(server).world.num_entities() < i32::MAX,
        ensures
            final(server).wf(),
            final(self).controlled_entity == Some((old(server).world.num_entities() + 1) as i32),
            final(self).connected,
            *final(self) == (Client {
                controlled_entity: final(self).controlled_entity,
                connected: true,
                ..*old(self)
            }),
            final(server).world.entities_seq() == old(server).world.entities_seq().push(
                ((old(server).world.num_entities() + 1) as i32, (Entity {
                    position: (0, 0),
                    speed: 5,
                    colour: old(self).colour,
                })),
            ),
            crate::assoc::lookup(final(server).networked_players@, old(self).id) == Some(
                (old(server).world.num_entities() + 1) as i32,
            ),
            forall|k: i32|
                k != old(self).id ==> crate::assoc::lookup(final(server).networked_players@, k)
                    == crate::assoc::lookup(old(server).networked_players@, k),
            final(server).npc_entities == old(server).npc_entities,
            final(server).last_processed_input == old(server).last_processed_input,
            final(server).tick_timer == old(server).tick_timer,
            *final(client_net) == (UnreliableNetwork {
                min_latency_ms,
                max_latency_ms,
                drop_rate,
                ..*old(client_net)
            }),
            *final(server_net) == (UnreliableNetwork {
                min_latency_ms,
                max_latency_ms,
                drop_rate,
                ..*old(server_net)
            }),
    {
        let client_entity_id = server.connect(self.id, self.colour);

        server_net.min_latency_ms = min_latency_ms;
        server_net.max_latency_ms = max_latency_ms;
        server_net.drop_rate = drop_rate;

        client_net.min_latency_ms = min_latency_ms;
        client_net.max_latency_ms = max_latency_ms;
        client_net.drop_rate = drop_rate;

        self.controlled_entity = Some(client_entity_id);
        self.connected = true;
    }

    /// Record a sampled input as pending. An empty sample (no direction
    /// active) does not overwrite a previously captured pending input; a
    /// non-empty one replaces it.
    pub fn capture_input(&mut self, sample: Input)
        ensures
            final(self).input_state == spec_capture(old(self).input_state, sample),
            *final(self) == (Client { input_state: final(self).input_state, ..*old(self) }),
    {
        if sample.left || sample.right || sample.up || sample.down {
            self.input_state = Some(sample);
        }
    }

    /// Apply one per-entity state entry of a server message, exactly as
    /// `spec_apply_state` describes.
    #[verifier::loop_isolation(false)]
    fn apply_state(&mut self, tick: i32, ack_tick: i32, state: State)
        ensures
            final(self).sim() == spec_apply_state(old(self).sim(), tick, ack_tick, state),
            final(self).id == old(self).id,
            final(self).tick_timer == old(self).tick_timer,
            final(self).tick_rate_ms == old(self).tick_rate_ms,
            final(self).input_state == old(self).input_state,
            final(self).smoothing_ticks == old(self).smoothing_ticks,
            final(self).colour == old(self).colour,
            final(self).connected == old(self).connected,
            final(self).controlled_entity == old(self).controlled_entity,
            final(self).client_prediction_enabled == old(self).client_prediction_enabled,
            final(self).server_reconciliation_enabled == old(self).server_reconciliation_enabled,
            final(self).extrapolation_enabled == old(self).extrapolation_enabled,
            final(self).last_message_sequence == old(self).last_message_sequence,
    {
        let found = find_entry(&self.entities, state.entity_id);
        let idx: usize = match found {
            Some(i) => i,
            None => {
                proof {
                    lemma_find_index_properties(self.entities@, state.entity_id);
                }
                self.entities.push(
                    (
                        state.entity_id,
                        Entity { position: state.position, speed: 5, colour: state.colour },
                    ),
                );
                proof {
                    lemma_find_index_of_scan(
                        self.entities@,
                        state.entity_id,
                        self.entities@.len() - 1,
                    );
                }
                self.entities.len() - 1
            },
        };
        let ghost es = self.entities@;
        proof {
            assert(find_index(es, state.entity_id) == idx);
            lemma_find_index_properties(es, state.entity_id);
        }

        let is_controlled = match self.controlled_entity {
            Some(cid) => cid == state.entity_id,
            None => false,
        };

        if is_controlled {
            if self.server_reconciliation_enabled {
                let cutoff = ack_tick.wrapping_add(1);

                let mut kept: Vec<(i32, Input)> = Vec::new();
                let mut h: usize = 0;
                proof {
                    assert(self.input_history@.take(0) =~= Seq::<(i32, Input)>::empty());
                    assert(kept_history(Seq::<(i32, Input)>::empty(), cutoff)
                        == Seq::<(i32, Input)>::empty()) by {
                        reveal(Seq::filter);
                    }
                }
                while h < self.input_history.len()
                    invariant
                        0 <= h <= self.input_history@.len(),
                        kept@ == kept_history(self.input_history@.take(h as int), cutoff),
                    decreases self.input_history@.len() - h,
                {
                    let entry = self.input_history[h];
                    proof {
                        assert(self.input_history@.take(h as int + 1).drop_last()
                            =~= self.input_history@.take(h as int));
                        assert(self.input_history@.take(h as int + 1) == self.input_history@.take(
                            h as int,
                        ).push(entry));
                        lemma_kept_history_push(
                            self.input_history@.take(h as int),
                            entry,
                            cutoff,
                        );
                    }
                    if entry.0 >= cutoff {
                        kept.push(entry);
                    }
                    h = h + 1;
                }
                proof {
                    assert(self.input_history@.take(self.input_history@.len() as int)
                        =~= self.input_history@);
                }

                let speed = self.entities[idx].1.speed;
                let mut e = self.entities[idx].1;
                e.position = state.position;
                let mut r: usize = 0;
                proof {
                    assert(kept@.take(0) =~= Seq::<(i32, Input)>::empty());
                    assert(inputs_of(Seq::<(i32, Input)>::empty()) =~= Seq::<Input>::empty());
                }
                while r < kept.len()
                    invariant
                        0 <= r <= kept@.len(),
                        e.speed == speed,
                        e.colour == es[idx as int].1.colour,
                        e.position == apply_inputs(
                            state.position,
                            speed,
                            inputs_of(kept@.take(r as int)),
                        ),
                    decreases kept@.len() - r,
                {
                    proof {
                        assert(inputs_of(kept@.take(r as int + 1)) =~= inputs_of(
                            kept@.take(r as int),
                        ).push(kept@[r as int].1));
                        lemma_apply_inputs_push(
                            state.position,
                            speed,
                            inputs_of(kept@.take(r as int)),
                            kept@[r as int].1,
                        );
                    }
                    let inp = kept[r].1;
                    e.integrate_input(&inp);
                    r = r + 1;
                }
                proof {
                    assert(kept@.take(kept@.len() as int) =~= kept@);
                }
                self.entities[idx].1 = e;
                self.input_history = kept;
                proof {
                    assert(self.sim() =~= spec_apply_state(old(self).sim(), tick, ack_tick, state));
                }
            } else {
                let mut e = self.entities[idx].1;
                e.position = state.position;
                self.entities[idx].1 = e;
                self.input_history.clear();
                proof {
                    assert(self.sim() =~= spec_apply_state(old(self).sim(), tick, ack_tick, state));
                }
            }
        } else if self.extrapolation_enabled {
            self.state_snapshots.push((tick, state));
            proof {
                assert(self.sim() =~= spec_apply_state(old(self).sim(), tick, ack_tick, state));
            }
        } else {
            let mut e = self.entities[idx].1;
            e.position = state.position;
            self.entities[idx].1 = e;
            proof {
                assert(self.sim() =~= spec_apply_state(old(self).sim(), tick, ack_tick, state));
            }
        }
    }

    /// Apply one whole server message, exactly as `spec_apply_message`
    /// describes: stale messages (sequence below the high-water mark) are
    /// dropped whole; fresh ones raise the mark and have each state entry
    /// applied in order.
    fn apply_server_message(&mut self, tick: i32, message: Message)
        ensures
            final(self).sim() == spec_apply_message(old(self).sim(), tick, message),
            final(self).id == old(self).id,
            final(self).tick_timer == old(self).tick_timer,
            final(self).tick_rate_ms == old(self).tick_rate_ms,
            final(self).input_state == old(self).input_state,
            final(self).smoothing_ticks == old(self).smoothing_ticks,
            final(self).colour == old(self).colour,
            final(self).connected == old(self).connected,
            final(self).controlled_entity == old(self).controlled_entity,
            final(self).client_prediction_enabled == old(self).client_prediction_enabled,
            final(self).server_reconciliation_enabled == old(self).server_reconciliation_enabled,
            final(self).extrapolation_enabled == old(self).extrapolation_enabled,
    {
        if message.sequence < self.last_message_sequence {
            return ;
        }
        self.last_message_sequence = message.sequence;
        let ack_tick = message.sequence;
        let ghost c1 = self.sim();

        if let Some(world_state) = message.state {
            proof {
                assert(world_state@.take(0) =~= Seq::<State>::empty());
            }
            let mut i: usize = 0;
            while i < world_state.len()
                invariant
                    0 <= i <= world_state@.len(),
                    self.sim() == spec_apply_states(c1, tick, ack_tick, world_state@.take(i as int)),
                    self.id == old(self).id,
                    self.tick_timer == old(self).tick_timer,
                    self.tick_rate_ms == old(self).tick_rate_ms,
                    self.input_state == old(self).input_state,
                    self.smoothing_ticks == old(self).smoothing_ticks,
                    self.colour == old(self).colour,
                    self.connected == old(self).connected,
                    self.controlled_entity == old(self).controlled_entity,
                    self.client_prediction_enabled == old(self).client_prediction_enabled,
                    self.server_reconciliation_enabled == old(self).server_reconciliation_enabled,
                    self.extrapolation_enabled == old(self).extrapolation_enabled,
                decreases world_state@.len() - i,
            {
                let state = world_state[i];
                self.apply_state(tick, ack_tick, state);
                proof {
                    assert(world_state@.take(i as int + 1).drop_last() =~= world_state@.take(
                        i as int,
                    ));
                    assert(world_state@.take(i as int + 1).last() == world_state@[i as int]);
                }
                i = i + 1;
            }
            proof {
                assert(world_state@.take(world_state@.len() as int) =~= world_state@);
            }
        }
    }

    /// Drain every currently deliverable message from the server-to-client
    /// channel, in send order, and apply each to the local mirror.
    pub fn process_server_messages(
        &mut self,
        network: &mut UnreliableNetwork,
        tick: i32,
        now_ms: u64,
    )
        ensures
            final(network).queue() == old(network).queue().skip(
                deliverable_count(old(network).queue(), now_ms),
            ),
            final(network).min_latency_ms == old(network).min_latency_ms,
            final(network).max_latency_ms == old(network).max_latency_ms,
            final(network).drop_rate == old(network).drop_rate,
            final(self).sim() == spec_drain_client(
                old(self).sim(),
                tick,
                old(network).queue().take(deliverable_count(old(network).queue(), now_ms)),
            ),
            final(self).id == old(self).id,
            final(self).tick_timer == old(self).tick_timer,
            final(self).tick_rate_ms == old(self).tick_rate_ms,
            final(self).input_state == old(self).input_state,
            final(self).smoothing_ticks == old(self).smoothing_ticks,
            final(self).colour == old(self).colour,
            final(self).connected == old(self).connected,
            final(self).controlled_entity == old(self).controlled_entity,
            final(self).client_prediction_enabled == old(self).client_prediction_enabled,
            final(self).server_reconciliation_enabled == old(self).server_reconciliation_enabled,
            final(self).extrapolation_enabled == old(self).extrapolation_enabled,
    {
        let ghost q0 = old(network).queue();
        let ghost mut i: int = 0;
        proof {
            assert(q0.skip(0) =~= q0);
            assert(q0.take(0) =~= Seq::<(u64, i32, Message)>::empty());
        }
        loop
            invariant
                0 <= i <= q0.len(),
                network.queue() == q0.skip(i),
                deliverable_count(q0, now_ms) == i + deliverable_count(network.queue(), now_ms),
                self.sim() == spec_drain_client(old(self).sim(), tick, q0.take(i)),
                network.min_latency_ms == old(network).min_latency_ms,
                network.max_latency_ms == old(network).max_latency_ms,
                network.drop_rate == old(network).drop_rate,
                self.id == old(self).id,
                self.tick_timer == old(self).tick_timer,
                self.tick_rate_ms == old(self).tick_rate_ms,
                self.input_state == old(self).input_state,
                self.smoothing_ticks == old(self).smoothing_ticks,
                self.colour == old(self).colour,
                self.connected == old(self).connected,
                self.controlled_entity == old(self).controlled_entity,
                self.client_prediction_enabled == old(self).client_prediction_enabled,
                self.server_reconciliation_enabled == old(self).server_reconciliation_enabled,
                self.extrapolation_enabled == old(self).extrapolation_enabled,
            ensures
                deliverable_count(network.queue(), now_ms) == 0,
            decreases q0.len() - i,
        {
            let ghost pre_queue = network.queue();
            let r = network.receive(now_ms);
            match r {
                Some((_sender_id, message)) => {
                    proof {
                        assert(pre_queue[0] == q0[i]);
                        assert(network.queue() =~= q0.skip(i + 1));
                    }
                    self.apply_server_message(tick, message);
                    proof {
                        i = i + 1;
                        assert(q0.take(i).drop_last() =~= q0.take(i - 1));
                        assert(q0.take(i).last() == q0[i - 1]);
                    }
                },
                None => {
                    break ;
                },
            }
        }
    }

    /// Prune the snapshot buffer for this render tick and, if the two
    /// remaining oldest snapshots bracket it, yield the interpolated
    /// position; nothing otherwise. Touches only the snapshot buffer.
    fn prune_and_bracket(&mut self, render_tick: i32) -> (r: Option<(i64, i64)>)
        ensures
            final(self).state_snapshots@ == old(self).state_snapshots@.skip(
                prune_count(old(self).state_snapshots@, render_tick),
            ),
            r == interp_bracket(old(self).state_snapshots@, render_tick),
            *final(self) == (Client { state_snapshots: final(self).state_snapshots, ..*old(self) }),
    {
        let ghost snaps0 = self.state_snapshots@;
        let ghost mut c: int = 0;
        proof {
            assert(snaps0.skip(0) =~= snaps0);
        }
        while self.state_snapshots.len() >= 2 && self.state_snapshots[1].0 <= render_tick
            invariant
                0 <= c,
                snaps0.len() == c + self.state_snapshots@.len(),
                self.state_snapshots@ == snaps0.skip(c),
                prune_count(snaps0, render_tick) == c + prune_count(
                    self.state_snapshots@,
                    render_tick,
                ),
                *self == (Client { state_snapshots: self.state_snapshots, ..*old(self) }),
            decreases self.state_snapshots@.len(),
        {
            proof {
                assert(self.state_snapshots@.drop_first() =~= snaps0.skip(c + 1));
            }
            self.state_snapshots.remove(0);
            proof {
                c = c + 1;
            }
        }

        if self.state_snapshots.len() >= 2 {
            let (t0, s0) = self.state_snapshots[0];
            let (t1, s1) = self.state_snapshots[1];
            if t0 <= render_tick && t1 >= render_tick {
                let f = render_tick as i64 - t0 as i64;
                let delta = t1 as i64 - t0 as i64;
                let lx = lerp_coord_exec(s0.position.0, s1.position.0, f, delta);
                let ly = lerp_coord_exec(s0.position.1, s1.position.1, f, delta);
                return Some((lx, ly));
            }
        }
        None
    }

    /// One smoothing pass at local tick `tick`: compute the render tick (the
    /// current tick minus the smoothing lag), prune the snapshot buffer to
    /// the bracketing pair, and set every remote entity's position to the
    /// interpolated one — or hold its last position when no bracketing pair
    /// exists yet. The controlled entity is never touched.
    pub fn interpolate_entities(&mut self, tick: i32)
        ensures
            final(self).entities@.len() == old(self).entities@.len(),
            forall|i: int|
                0 <= i < old(self).entities@.len() ==> #[trigger] final(self).entities@[i] == if old(
                    self,
                ).controlled_entity == Some(old(self).entities@[i].0) {
                    old(self).entities@[i]
                } else {
                    (
                        old(self).entities@[i].0,
                        Entity {
                            position: interp_result(
                                old(self).state_snapshots@,
                                vstd::wrapping::i32_specs::wrapping_sub(
                                    tick,
                                    old(self).smoothing_ticks,
                                ),
                                old(self).entities@[i].1.position,
                            ),
                            ..old(self).entities@[i].1
                        },
                    )
                },
            (exists|i: int|
                0 <= i < old(self).entities@.len() && old(self).controlled_entity != Some(
                    (#[trigger] old(self).entities@[i]).0,
                )) ==> final(self).state_snapshots@ == old(self).state_snapshots@.skip(
                prune_count(
                    old(self).state_snapshots@,
                    vstd::wrapping::i32_specs::wrapping_sub(tick, old(self).smoothing_ticks),
                ),
            ),
            !(exists|i: int|
                0 <= i < old(self).entities@.len() && old(self).controlled_entity != Some(
                    (#[trigger] old(self).entities@[i]).0,
                )) ==> final(self).state_snapshots@ == old(self).state_snapshots@,
            *final(self) == (Client {
                entities: final(self).entities,
                state_snapshots: final(self).state_snapshots,
                ..*old(self)
            }),
            final(self).sim() == spec_smooth(
                old(self).sim(),
                vstd::wrapping::i32_specs::wrapping_sub(tick, old(self).smoothing_ticks),
            ),
    {
        let render_tick = tick.wrapping_sub(self.smoothing_ticks);
        let ghost snaps0 = self.state_snapshots@;

        let mut decided = false;
        let mut lerped: Option<(i64, i64)> = None;
        let mut idx: usize = 0;
        while idx < self.entities.len()
            invariant
                0 <= idx <= self.entities@.len(),
                render_tick == vstd::wrapping::i32_specs::wrapping_sub(
                    tick,
                    old(self).smoothing_ticks,
                ),
                snaps0 == old(self).state_snapshots@,
                self.entities@.len() == old(self).entities@.len(),
                !decided ==> self.state_snapshots@ == snaps0 && lerped == None::<(i64, i64)>
                    && (forall|j: int|
                    0 <= j < idx ==> old(self).controlled_entity == Some(
                        (#[trigger] old(self).entities@[j]).0,
                    )),
                decided ==> self.state_snapshots@ == snaps0.skip(prune_count(snaps0, render_tick))
                    && lerped == interp_bracket(snaps0, render_tick) && (exists|j: int|
                    0 <= j < idx && old(self).controlled_entity != Some(
                        (#[trigger] old(self).entities@[j]).0,
                    )),
                forall|i: int|
                    0 <= i < idx ==> #[trigger] self.entities@[i] == if old(
                        self,
                    ).controlled_entity == Some(old(self).entities@[i].0) {
                        old(self).entities@[i]
                    } else {
                        (
                            old(self).entities@[i].0,
                            Entity {
                                position: interp_result(
                                    snaps0,
                                    render_tick,
                                    old(self).entities@[i].1.position,
                                ),
                                ..old(self).entities@[i].1
                            },
                        )
                    },
                forall|i: int|
                    idx <= i < self.entities@.len() ==> #[trigger] self.entities@[i] == old(
                        self,
                    ).entities@[i],
                *self == (Client {
                    entities: self.entities,
                    state_snapshots: self.state_snapshots,
                    ..*old(self)
                }),
            decreases self.entities@.len() - idx,
        {
            let entity_id = self.entities[idx].0;
            let is_controlled = match self.controlled_entity {
                Some(cid) => cid == entity_id,
                None => false,
            };
            if !is_controlled {
                if !decided {
                    lerped = self.prune_and_bracket(render_tick);
                    decided = true;
                }
                match lerped {
                    Some(p) => {
                        let mut e = self.entities[idx].1;
                        e.position = p;
                        self.entities[idx].1 = e;
                    },
                    None => {},
                }
            }
            idx = idx + 1;
        }
        proof {
            let sm = spec_smooth(old(self).sim(), render_tick);
            assert(self.entities@ =~= sm.entities);
            assert(self.sim() =~= sm);
        }
    }

    /// Send the pending captured input, if any, to the server with the
    /// current local tick as its sequence; integrate it locally at once if
    /// prediction is on; and append it to the input history for later
    /// reconciliation. The pending input is consumed.
    pub fn process_input(&mut self, server_network: &mut UnreliableNetwork, now_ms: u64)
        requires
            old(self).controlled_entity.is_some(),
            old(server_network).min_latency_ms <= old(server_network).max_latency_ms,
            old(server_network).max_latency_ms <= LATENCY_LIMIT_MS,
            now_ms + old(server_network).max_latency_ms <= u64::MAX,
        ensures
            final(server_network).min_latency_ms == old(server_network).min_latency_ms,
            final(server_network).max_latency_ms == old(server_network).max_latency_ms,
            final(server_network).drop_rate == old(server_network).drop_rate,
            old(server_network).queue().is_prefix_of(final(server_network).queue()),
            old(self).input_state == None::<Input> ==> *final(self) == *old(self)
                && final(server_network).queue() == old(server_network).queue(),
            final(self).sim() == spec_process_input(
                old(self).sim(),
                old(self).tick_timer.current_tick,
            ),
            old(self).input_state matches Some(inp) ==> {
                &&& final(self).input_state == None::<Input>
                &&& final(self).input_history@ == old(self).input_history@.push(
                    (old(self).tick_timer.current_tick, inp),
                )
                &&& (final(server_network).queue() == old(server_network).queue() || enqueued_one(
                    old(server_network).queue(),
                    final(server_network).queue(),
                    now_ms,
                    old(server_network).min_latency_ms,
                    old(server_network).max_latency_ms,
                    old(self).id,
                    (Message {
                        sequence: old(self).tick_timer.current_tick,
                        state: None,
                        input: Some((inp.left, inp.right, inp.up, inp.down)),
                    }),
                ))
                &&& (old(server_network).drop_rate == 0 ==> enqueued_one(
                    old(server_network).queue(),
                    final(server_network).queue(),
                    now_ms,
                    old(server_network).min_latency_ms,
                    old(server_network).max_latency_ms,
                    old(self).id,
                    (Message {
                        sequence: old(self).tick_timer.current_tick,
                        state: None,
                        input: Some((inp.left, inp.right, inp.up, inp.down)),
                    }),
                ))
                &&& (old(server_network).drop_rate >= crate::net::DROP_RATE_SCALE
                    ==> final(server_network).queue() == old(server_network).queue())
                &&& final(self).entities@ == if old(self).client_prediction_enabled && find_index(
                    old(self).entities@,
                    old(self).controlled_entity.unwrap(),
                ) >= 0 {
                    let fi = find_index(old(self).entities@, old(self).controlled_entity.unwrap());
                    let e = old(self).entities@[fi].1;
                    old(self).entities@.update(
                        fi,
                        (
                            old(self).controlled_entity.unwrap(),
                            Entity {
                                position: step_position(e.position, e.speed, inp),
                                ..e
                            },
                        ),
                    )
                } else {
                    old(self).entities@
                }
                &&& *final(self) == (Client {
                    input_state: None,
                    input_history: final(self).input_history,
                    entities: final(self).entities,
                    ..*old(self)
                })
            },
    {
        let pending = self.input_state;
        match pending {
            None => {},
            Some(input_state) => {
                self.input_state = None;
                server_network.send(
                    now_ms,
                    self.id,
                    Message {
                        state: None,
                        sequence: self.tick_timer.current_tick,
                        input: Some(
                            (input_state.left, input_state.right, input_state.up, input_state.down),
                        ),
                    },
                );

                if self.client_prediction_enabled {
                    let cid = match self.controlled_entity {
                        Some(cid) => cid,
                        None => vstd::pervasive::unreached(),
                    };
                    match find_entry(&self.entities, cid) {
                        Some(i) => {
                            proof {
                                lemma_find_index_properties(self.entities@, cid);
                            }
                            let mut e = self.entities[i].1;
                            e.integrate_input(&input_state);
                            self.entities[i].1 = e;
                        },
                        None => {},
                    }
                }

                self.input_history.push((self.tick_timer.current_tick, input_state));
            },
        }
        proof {
            assert(old(server_network).queue() =~= old(server_network).queue().subrange(
                0,
                old(server_network).queue().len() as int,
            ));
            assert(self.sim() =~= spec_process_input(
                old(self).sim(),
                old(self).tick_timer.current_tick,
            ));
        }
    }

    /// One frame of client work: capture the sampled input, then for each
    /// tick the timer yields, drain and apply the deliverable server
    /// messages, smooth the remote entities if extrapolation is on, and send
    /// the pending input. Does nothing at all while not connected. The whole
    /// frame's effect on the client is exactly `spec_client_update` over the
    /// emitted ticks, and the frame sends at most one input message: the
    /// first tick consumes the pending input, leaving nothing for the rest.
    pub fn update(
        &mut self,
        client_net: &mut UnreliableNetwork,
        server_net: &mut UnreliableNetwork,
        now_ms: u64,
        elapsed_ms: u64,
        input_sample: Input,
    )
        requires
            old(self).tick_timer.tick_interval > 0,
            old(self).tick_timer.time_available + elapsed_ms <= u64::MAX,
            old(self).connected ==> old(self).controlled_entity.is_some(),
            old(server_net).min_latency_ms <= old(server_net).max_latency_ms,
            old(server_net).max_latency_ms <= LATENCY_LIMIT_MS,
            now_ms + old(server_net).max_latency_ms <= u64::MAX,
        ensures
            !old(self).connected ==> *final(self) == *old(self) && *final(client_net) == *old(
                client_net,
            ) && *final(server_net) == *old(server_net),
            final(self).id == old(self).id,
            final(self).tick_rate_ms == old(self).tick_rate_ms,
            final(self).smoothing_ticks == old(self).smoothing_ticks,
            final(self).colour == old(self).colour,
            final(self).connected == old(self).connected,
            final(self).controlled_entity == old(self).controlled_entity,
            final(self).client_prediction_enabled == old(self).client_prediction_enabled,
            final(self).server_reconciliation_enabled == old(self).server_reconciliation_enabled,
            final(self).extrapolation_enabled == old(self).extrapolation_enabled,
            old(self).connected ==> final(self).tick_timer.tick_interval == old(
                self,
            ).tick_timer.tick_interval && final(self).tick_timer.time_available == (old(
                self,
            ).tick_timer.time_available + elapsed_ms) % old(self).tick_timer.tick_interval as int
                && final(self).tick_timer.current_tick == tick_after(
                old(self).tick_timer.current_tick,
                ((old(self).tick_timer.time_available + elapsed_ms) / old(
                    self,
                ).tick_timer.tick_interval as int) as nat,
            ),
            old(self).connected ==> final(self).sim() == spec_client_update(
                (ClientSim {
                    input_state: spec_capture(old(self).input_state, input_sample),
                    ..old(self).sim()
                }),
                emitted_ticks(
                    old(self).tick_timer.current_tick,
                    ((old(self).tick_timer.time_available + elapsed_ms) / old(
                        self,
                    ).tick_timer.tick_interval as int) as nat,
                ),
                old(self).smoothing_ticks,
                tick_after(
                    old(self).tick_timer.current_tick,
                    ((old(self).tick_timer.time_available + elapsed_ms) / old(
                        self,
                    ).tick_timer.tick_interval as int) as nat,
                ),
                old(client_net).queue().take(deliverable_count(old(client_net).queue(), now_ms)),
            ),
            final(client_net).min_latency_ms == old(client_net).min_latency_ms,
            final(client_net).max_latency_ms == old(client_net).max_latency_ms,
            final(client_net).drop_rate == old(client_net).drop_rate,
            final(server_net).min_latency_ms == old(server_net).min_latency_ms,
            final(server_net).max_latency_ms == old(server_net).max_latency_ms,
            final(server_net).drop_rate == old(server_net).drop_rate,
            old(server_net).queue().is_prefix_of(final(server_net).queue()),
            !old(self).connected || (old(self).tick_timer.time_available + elapsed_ms) / old(
                self,
            ).tick_timer.tick_interval as int == 0 || spec_capture(
                old(self).input_state,
                input_sample,
            ) == None::<Input> ==> final(server_net).queue() == old(server_net).queue(),
            old(self).connected && (old(self).tick_timer.time_available + elapsed_ms) / old(
                self,
            ).tick_timer.tick_interval as int > 0 ==> (spec_capture(
                old(self).input_state,
                input_sample,
            ) matches Some(inp) ==> {
                let msg = (Message {
                    sequence: tick_after(
                        old(self).tick_timer.current_tick,
                        ((old(self).tick_timer.time_available + elapsed_ms) / old(
                            self,
                        ).tick_timer.tick_interval as int) as nat,
                    ),
                    state: None,
                    input: Some((inp.left, inp.right, inp.up, inp.down)),
                });
                &&& (final(server_net).queue() == old(server_net).queue() || enqueued_one(
                    old(server_net).queue(),
                    final(server_net).queue(),
                    now_ms,
                    old(server_net).min_latency_ms,
                    old(server_net).max_latency_ms,
                    old(self).id,
                    msg,
                ))
                &&& (old(server_net).drop_rate == 0 ==> enqueued_one(
                    old(server_net).queue(),
                    final(server_net).queue(),
                    now_ms,
                    old(server_net).min_latency_ms,
                    old(server_net).max_latency_ms,
                    old(self).id,
                    msg,
                ))
                &&& (old(server_net).drop_rate >= crate::net::DROP_RATE_SCALE
                    ==> final(server_net).queue() == old(server_net).queue())
            }),
            old(self).connected && (old(self).tick_timer.time_available + elapsed_ms) / old(
                self,
            ).tick_timer.tick_interval as int > 0 ==> final(client_net).queue() == old(
                client_net,
            ).queue().skip(deliverable_count(old(client_net).queue(), now_ms)),
            old(self).connected && (old(self).tick_timer.time_available + elapsed_ms) / old(
                self,
            ).tick_timer.tick_interval as int == 0 ==> final(client_net).queue() == old(
                client_net,
            ).queue(),
    {
        if !self.connected {
            proof {
                assert(old(server_net).queue() =~= old(server_net).queue().subrange(
                    0,
                    old(server_net).queue().len() as int,
                ));
            }
            return ;
        }

        self.capture_input(input_sample);
        let ghost c0 = self.sim();
        let ghost q0 = old(client_net).queue();
        let ghost dc = deliverable_count(q0, now_ms);
        let ghost dr = q0.take(dc);
        let ghost smoothing0 = self.smoothing_ticks;

        let ticks = self.tick_timer.tick(elapsed_ms);
        let ghost ctv = self.tick_timer.current_tick;
        proof {
            assert(ticks@.take(0) =~= Seq::<i32>::empty());
            assert(c0 =~= (ClientSim {
                input_state: spec_capture(old(self).input_state, input_sample),
                ..old(self).sim()
            }));
        }
        let mut t: usize = 0;
        while t < ticks.len()
            invariant
                0 <= t <= ticks@.len(),
                ticks@.len() == (old(self).tick_timer.time_available + elapsed_ms) / old(
                    self,
                ).tick_timer.tick_interval as int,
                ticks@ == emitted_ticks(old(self).tick_timer.current_tick, ticks@.len()),
                dc == deliverable_count(q0, now_ms),
                dr == q0.take(dc),
                smoothing0 == old(self).smoothing_ticks,
                self.sim() == spec_client_update(c0, ticks@.take(t as int), smoothing0, ctv, dr),
                self.id == old(self).id,
                self.tick_rate_ms == old(self).tick_rate_ms,
                self.smoothing_ticks == old(self).smoothing_ticks,
                self.colour == old(self).colour,
                self.connected == old(self).connected,
                self.controlled_entity == old(self).controlled_entity,
                self.controlled_entity.is_some(),
                self.client_prediction_enabled == old(self).client_prediction_enabled,
                self.server_reconciliation_enabled == old(self).server_reconciliation_enabled,
                self.extrapolation_enabled == old(self).extrapolation_enabled,
                self.tick_timer.tick_interval == old(self).tick_timer.tick_interval,
                self.tick_timer.time_available == (old(self).tick_timer.time_available
                    + elapsed_ms) % old(self).tick_timer.tick_interval as int,
                self.tick_timer.current_tick == ctv,
                ctv == tick_after(old(self).tick_timer.current_tick, ticks@.len()),
                t == 0 ==> self.input_state == spec_capture(old(self).input_state, input_sample),
                t > 0 ==> self.input_state == None::<Input>,
                client_net.min_latency_ms == old(client_net).min_latency_ms,
                client_net.max_latency_ms == old(client_net).max_latency_ms,
                client_net.drop_rate == old(client_net).drop_rate,
                server_net.min_latency_ms == old(server_net).min_latency_ms,
                server_net.max_latency_ms == old(server_net).max_latency_ms,
                server_net.drop_rate == old(server_net).drop_rate,
                now_ms + server_net.max_latency_ms <= u64::MAX,
                server_net.max_latency_ms <= LATENCY_LIMIT_MS,
                server_net.min_latency_ms <= server_net.max_latency_ms,
                old(server_net).queue().is_prefix_of(server_net.queue()),
                t == 0 ==> server_net.queue() == old(server_net).queue(),
                t > 0 && spec_capture(old(self).input_state, input_sample) == None::<Input>
                    ==> server_net.queue() == old(server_net).queue(),
                t > 0 ==> (spec_capture(old(self).input_state, input_sample) matches Some(inp)
                    ==> {
                    let msg = (Message {
                        sequence: ctv,
                        state: None,
                        input: Some((inp.left, inp.right, inp.up, inp.down)),
                    });
                    &&& (server_net.queue() == old(server_net).queue() || enqueued_one(
                        old(server_net).queue(),
                        server_net.queue(),
                        now_ms,
                        old(server_net).min_latency_ms,
                        old(server_net).max_latency_ms,
                        old(self).id,
                        msg,
                    ))
                    &&& (old(server_net).drop_rate == 0 ==> enqueued_one(
                        old(server_net).queue(),
                        server_net.queue(),
                        now_ms,
                        old(server_net).min_latency_ms,
                        old(server_net).max_latency_ms,
                        old(self).id,
                        msg,
                    ))
                    &&& (old(server_net).drop_rate >= crate::net::DROP_RATE_SCALE
                        ==> server_net.queue() == old(server_net).queue())
                }),
                t == 0 ==> client_net.queue() == q0,
                t > 0 ==> client_net.queue() == q0.skip(deliverable_count(q0, now_ms)),
            decreases ticks@.len() - t,
        {
            let tick = ticks[t];

            let ghost pre = self.sim();
            let ghost qpre = client_net.queue();
            self.process_server_messages(client_net, tick, now_ms);
            let ghost c1 = self.sim();
            proof {
                let dcp = deliverable_count(qpre, now_ms);
                assert(ticks@.take(t as int + 1).drop_last() =~= ticks@.take(t as int));
                assert(ticks@.take(t as int + 1).last() == ticks@[t as int]);
                if t > 0 {
                    lemma_deliverable_count_properties(q0, now_ms);
                    assert(deliverable_count(qpre, now_ms) == 0);
                    assert(qpre.skip(0) =~= qpre);
                    assert(qpre.take(0) =~= Seq::<(u64, i32, Message)>::empty());
                } else {
                    assert(qpre == q0);
                    assert(qpre.take(dcp) == dr);
                }
            }

            if self.controlled_entity.is_none() {
                t = t + 1;
                continue ;
            }

            if self.extrapolation_enabled {
                self.interpolate_entities(tick);
            }
            let ghost c2 = self.sim();
            proof {
                if !c1.extrapolation_enabled {
                    assert(c2 == c1);
                }
            }

            let ghost sqpre = server_net.queue();
            self.process_input(server_net, now_ms);
            proof {
                assert(self.sim() == spec_process_input(c2, ctv));
                assert(self.sim() =~= spec_client_update(
                    c0,
                    ticks@.take(t as int + 1),
                    smoothing0,
                    ctv,
                    dr,
                ));
                if t > 0 {
                    assert(c2.input_state == None::<Input>);
                    assert(server_net.queue() == sqpre);
                }
                let a = old(server_net).queue();
                let b = sqpre;
                let cq = server_net.queue();
                assert(a.is_prefix_of(b));
                assert(b.is_prefix_of(cq));
                assert forall|j: int| 0 <= j < a.len() implies a[j] == cq[j] by {
                    assert(a[j] == b.subrange(0, a.len() as int)[j]);
                    assert(b[j] == cq.subrange(0, b.len() as int)[j]);
                }
                assert(a =~= cq.subrange(0, a.len() as int));
            }

            t = t + 1;
        }
        proof {
            assert(ticks@.take(ticks@.len() as int) =~= ticks@);
        }
    }
}

} // verus!
