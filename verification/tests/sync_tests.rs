use netsync::client::Client;
use netsync::net::{Message, ReliableOrderedNetwork, State, UnreliableNetwork, DROP_RATE_SCALE};
use netsync::server::Server;
use netsync::sim::{Colour, Entity, Input, World};
use netsync::ticktimer::TickTimer;

fn input(left: bool, right: bool, up: bool, down: bool) -> Input {
    Input { left, right, up, down }
}

fn state_msg(sequence: i32, states: Vec<State>) -> Message {
    Message { sequence, state: Some(states), input: None }
}

fn snap(tick: i32, entity_id: i32, position: (i64, i64)) -> State {
    State { tick, entity_id, position, colour: Colour::Green }
}

// Tick conservation: the ticks emitted over chunked calls equal those of one
// combined call, whatever the chunking.
#[test]
fn tick_conservation_rechunked() {
    let mut a = TickTimer::new(10);
    let mut total_a = 0;
    for dt in [3u64, 4, 9, 25, 0, 7] {
        total_a += a.tick(dt).len();
    }
    let mut b = TickTimer::new(10);
    let total_b = b.tick(3 + 4 + 9 + 25 + 0 + 7).len();
    assert_eq!(total_a, total_b);
    assert_eq!(total_a, 4); // floor(48 / 10)
    assert_eq!(a.time_available, b.time_available);
    assert_eq!(a.current_tick, b.current_tick);
}

#[test]
fn tick_timer_emits_consecutive_ticks_and_carries_remainder() {
    let mut t = TickTimer::new(10);
    assert_eq!(t.tick(9), Vec::<i32>::new());
    assert_eq!(t.tick(1), vec![0]);
    assert_eq!(t.tick(35), vec![1, 2, 3]);
    assert_eq!(t.time_available, 5);
    assert_eq!(t.current_tick, 4);
}

#[test]
fn tick_timer_wraps_tick_counter() {
    let mut t = TickTimer::new(1);
    t.current_tick = i32::MAX;
    assert_eq!(t.tick(2), vec![i32::MAX, i32::MIN]);
    assert_eq!(t.current_tick, i32::MIN + 1);
}

// Deterministic integration: the same ordered inputs from the same start
// give the same end position, and an exact one.
#[test]
fn deterministic_integration_same_inputs_same_position() {
    let mut a = Entity::new();
    let mut b = Entity::new();
    let seq = [
        input(false, true, false, false),
        input(false, true, false, true),
        input(true, false, true, false),
        input(false, false, false, true),
    ];
    for i in &seq {
        a.integrate_input(i);
    }
    for i in &seq {
        b.integrate_input(i);
    }
    assert_eq!(a.position, b.position);
    assert_eq!(a.position, (5, 5));
}

#[test]
fn integrate_input_moves_each_axis_independently() {
    let mut e = Entity::new();
    e.integrate_input(&input(false, true, false, true));
    assert_eq!(e.position, (5, 5));
    e.integrate_input(&input(true, false, true, false));
    assert_eq!(e.position, (0, 0));
    // all four directions cancel
    e.integrate_input(&input(true, true, true, true));
    assert_eq!(e.position, (0, 0));
    assert_eq!(e.speed, 5);
    assert_eq!(e.colour, Colour::Red);
}

#[test]
fn world_allocates_dense_ids_from_one() {
    let mut w = World::new();
    let a = w.add_entity(Entity::new());
    let b = w.add_entity(Entity::new());
    assert_eq!((a, b), (1, 2));
    assert!(w.get_entity(0).is_none());
    assert!(w.get_entity(3).is_none());
    assert_eq!(w.get_entity(2).unwrap().position, (0, 0));
    assert_eq!(w.get_entities().len(), 2);
}

// Staleness filter: sequences [5, 3, 7, 6] delivered in that order — 5 and 7
// accepted, 3 and 6 rejected, high-water mark ends at 7.
#[test]
fn staleness_filter_drops_out_of_order_messages() {
    let mut client = Client::new(1, 10);
    client.controlled_entity = Some(99);
    let mut net = UnreliableNetwork::new(); // zero latency, zero drop
    for seq in [5, 3, 7, 6] {
        net.send(0, 0, state_msg(seq, vec![snap(seq, 2, (seq as i64, 0))]));
    }
    client.process_server_messages(&mut net, 0, 0);
    assert_eq!(client.last_message_sequence, 7);
    // only the accepted messages buffered their snapshot (extrapolation on)
    assert_eq!(client.state_snapshots.len(), 2);
    assert_eq!(client.state_snapshots[0].1.position, (5, 0));
    assert_eq!(client.state_snapshots[1].1.position, (7, 0));
    assert!(net.messages.is_empty());
}

// Channel head-blocking: B (short latency) sent after A (long latency) is
// not delivered before A becomes deliverable.
#[test]
fn channel_head_blocking_preserves_send_order() {
    let mut net = UnreliableNetwork::new();
    net.min_latency_ms = 200;
    net.max_latency_ms = 200;
    net.send(0, 1, state_msg(1, vec![]));
    net.min_latency_ms = 10;
    net.max_latency_ms = 10;
    net.send(0, 2, state_msg(2, vec![]));

    // B's own delay has elapsed, but A still blocks the head.
    assert!(net.receive(15).is_none());
    assert!(net.receive(199).is_none());
    let (sender_a, a) = net.receive(200).unwrap();
    assert_eq!((sender_a, a.sequence), (1, 1));
    let (sender_b, b) = net.receive(200).unwrap();
    assert_eq!((sender_b, b.sequence), (2, 2));
    assert!(net.receive(200).is_none());
}

#[test]
fn reliable_channel_head_blocking_too() {
    let mut net = ReliableOrderedNetwork::new();
    net.min_latency_ms = 100;
    net.max_latency_ms = 100;
    net.send(0, 1, state_msg(1, vec![]));
    net.min_latency_ms = 0;
    net.max_latency_ms = 0;
    net.send(0, 2, state_msg(2, vec![]));
    assert!(net.receive(50).is_none());
    assert_eq!(net.receive(100).unwrap().0, 1);
    assert_eq!(net.receive(100).unwrap().0, 2);
}

// Drop rate boundary: a full drop rate never enqueues, a zero one always
// enqueues exactly one entry per send.
#[test]
fn drop_rate_boundaries() {
    let mut lossy = UnreliableNetwork::new();
    lossy.drop_rate = DROP_RATE_SCALE;
    for k in 0..10 {
        lossy.send(k, 1, state_msg(k as i32, vec![]));
    }
    assert_eq!(lossy.messages.len(), 0);

    let mut lossless = UnreliableNetwork::new();
    for k in 0..10 {
        lossless.send(k, 1, state_msg(k as i32, vec![]));
        assert_eq!(lossless.messages.len(), (k + 1) as usize);
    }
}

// The latency draw stays inside the configured window: not yet deliverable
// just before the window opens, always deliverable at its end.
#[test]
fn latency_draw_stays_in_window() {
    for _ in 0..20 {
        let mut net = UnreliableNetwork::new();
        net.min_latency_ms = 5;
        net.max_latency_ms = 10;
        net.send(100, 1, state_msg(1, vec![]));
        assert!(net.receive(104).is_none());
        assert!(net.receive(110).is_some());
    }
}

// Interpolation bracketing: buffer [(10,(0,0)), (20,(10,0))], render tick 15
// yields (5,0); render tick 25 has no upper bracket and holds the position.
#[test]
fn interpolation_brackets_and_holds() {
    let mut client = Client::new(1, 10);
    client.controlled_entity = Some(99);
    client.smoothing_ticks = 10;
    client.entities.push((2, Entity { position: (42, 13), speed: 5, colour: Colour::Green }));
    client.state_snapshots.push((10, snap(10, 2, (0, 0))));
    client.state_snapshots.push((20, snap(20, 2, (10, 0))));

    client.interpolate_entities(25); // render tick 15
    assert_eq!(client.entities[0].1.position, (5, 0));

    client.interpolate_entities(35); // render tick 25: no upper bracket
    assert_eq!(client.entities[0].1.position, (5, 0));
    // the stale lower snapshot was pruned
    assert_eq!(client.state_snapshots.len(), 1);
    assert_eq!(client.state_snapshots[0].0, 20);
}

#[test]
fn interpolation_exact_fraction_truncates() {
    let mut client = Client::new(1, 10);
    client.smoothing_ticks = 0;
    client.entities.push((2, Entity { position: (0, 0), speed: 5, colour: Colour::Green }));
    client.state_snapshots.push((0, snap(0, 2, (0, 0))));
    client.state_snapshots.push((3, snap(3, 2, (10, -10))));
    client.interpolate_entities(2); // fraction 2/3 of (10,-10)
    assert_eq!(client.entities[0].1.position, (6, -6));
}

#[test]
fn interpolation_skips_controlled_entity() {
    let mut client = Client::new(1, 10);
    client.controlled_entity = Some(2);
    client.smoothing_ticks = 10;
    client.entities.push((2, Entity { position: (42, 13), speed: 5, colour: Colour::Red }));
    client.state_snapshots.push((10, snap(10, 2, (0, 0))));
    client.state_snapshots.push((20, snap(20, 2, (10, 0))));
    client.interpolate_entities(25);
    assert_eq!(client.entities[0].1.position, (42, 13));
    // no remote entity exists, so the buffer is left alone
    assert_eq!(client.state_snapshots.len(), 2);
}

#[test]
fn capture_input_empty_sample_keeps_pending() {
    let mut client = Client::new(1, 10);
    client.capture_input(input(false, true, false, false));
    assert_eq!(client.input_state, Some(input(false, true, false, false)));
    client.capture_input(input(false, false, false, false));
    assert_eq!(client.input_state, Some(input(false, true, false, false)));
    client.capture_input(input(true, false, false, false));
    assert_eq!(client.input_state, Some(input(true, false, false, false)));
}

#[test]
fn process_input_sends_predicts_and_records() {
    let mut client = Client::new(7, 10);
    client.controlled_entity = Some(1);
    client.entities.push((1, Entity::new()));
    client.tick_timer.current_tick = 33;
    client.input_state = Some(input(false, true, false, false));
    let mut to_server = UnreliableNetwork::new();

    client.process_input(&mut to_server, 0);

    assert_eq!(client.input_state, None);
    assert_eq!(client.input_history.len(), 1);
    assert_eq!(client.input_history[0], (33, input(false, true, false, false)));
    // prediction applied locally at once
    assert_eq!(client.entities[0].1.position, (5, 0));
    // one message queued, carrying the tick as its sequence
    assert_eq!(to_server.messages.len(), 1);
    let msg = &to_server.messages[0].2;
    assert_eq!(msg.sequence, 33);
    assert_eq!(msg.input, Some((false, true, false, false)));
    assert!(msg.state.is_none());
}

#[test]
fn process_input_without_prediction_keeps_position() {
    let mut client = Client::new(7, 10);
    client.controlled_entity = Some(1);
    client.client_prediction_enabled = false;
    client.entities.push((1, Entity::new()));
    client.input_state = Some(input(false, true, false, false));
    let mut to_server = UnreliableNetwork::new();
    client.process_input(&mut to_server, 0);
    assert_eq!(client.entities[0].1.position, (0, 0));
    assert_eq!(client.input_history.len(), 1);
}

// Reconciliation: the client snaps to the authoritative position and replays
// exactly the unacknowledged inputs on top of it.
#[test]
fn reconciliation_replays_unacknowledged_inputs() {
    let mut client = Client::new(7, 10);
    client.controlled_entity = Some(1);
    client.entities.push((1, Entity::new()));
    client.input_history = vec![
        (5, input(false, true, false, false)),
        (6, input(false, true, false, false)),
        (7, input(false, false, false, true)),
    ];
    // the server has processed everything up to tick 5 and puts us at (20, 0)
    let mut net = UnreliableNetwork::new();
    net.send(0, 0, state_msg(5, vec![snap(5, 1, (20, 0))]));
    client.process_server_messages(&mut net, 0, 0);

    // ticks 6 and 7 replayed on top of (20, 0)
    assert_eq!(client.entities[0].1.position, (25, 5));
    assert_eq!(client.input_history.len(), 2);
    assert_eq!(client.input_history[0].0, 6);
}

#[test]
fn reconciliation_disabled_clears_history_and_snaps() {
    let mut client = Client::new(7, 10);
    client.server_reconciliation_enabled = false;
    client.controlled_entity = Some(1);
    client.entities.push((1, Entity::new()));
    client.input_history = vec![(6, input(false, true, false, false))];
    let mut net = UnreliableNetwork::new();
    net.send(0, 0, state_msg(5, vec![snap(5, 1, (20, 0))]));
    client.process_server_messages(&mut net, 0, 0);
    assert_eq!(client.entities[0].1.position, (20, 0));
    assert!(client.input_history.is_empty());
}

#[test]
fn unknown_entities_are_created_from_snapshots() {
    let mut client = Client::new(7, 10);
    client.controlled_entity = Some(1);
    client.extrapolation_enabled = false;
    let mut net = UnreliableNetwork::new();
    net.send(0, 0, state_msg(1, vec![snap(1, 1, (0, 0)), snap(1, 2, (30, 40))]));
    client.process_server_messages(&mut net, 0, 0);
    assert_eq!(client.entities.len(), 2);
    assert_eq!(client.entities[1].0, 2);
    assert_eq!(client.entities[1].1.position, (30, 40));
    assert_eq!(client.entities[1].1.speed, 5);
    assert_eq!(client.entities[1].1.colour, Colour::Green);
}

#[test]
fn server_connect_creates_entity_and_mapping() {
    let mut server = Server::new(10);
    let mut client = Client::new(7, 10);
    client.colour = Colour::Blue;
    let mut s2c = UnreliableNetwork::new();
    let mut c2s = UnreliableNetwork::new();
    client.connect(&mut server, &mut s2c, &mut c2s, 20, 40, 0);

    assert!(client.connected);
    assert_eq!(client.controlled_entity, Some(1));
    assert_eq!(server.world.get_entity(1).unwrap().colour, Colour::Blue);
    assert_eq!((s2c.min_latency_ms, s2c.max_latency_ms, s2c.drop_rate), (20, 40, 0));
    assert_eq!((c2s.min_latency_ms, c2s.max_latency_ms, c2s.drop_rate), (20, 40, 0));
    assert_eq!(server.networked_players, vec![(7, 1)]);
}

#[test]
fn npc_patrol_returns_to_start_every_four_ticks() {
    let mut server = Server::new(10);
    server.create_npc_entities();
    assert_eq!(server.world.get_entity(1).unwrap().position, (100, 100));
    assert_eq!(server.world.get_entity(1).unwrap().colour, Colour::Blue);
    server.update_npc_entities(0);
    assert_eq!(server.world.get_entity(1).unwrap().position, (105, 100));
    server.update_npc_entities(1);
    assert_eq!(server.world.get_entity(1).unwrap().position, (105, 105));
    server.update_npc_entities(2);
    assert_eq!(server.world.get_entity(1).unwrap().position, (100, 105));
    server.update_npc_entities(3);
    assert_eq!(server.world.get_entity(1).unwrap().position, (100, 100));
}

#[test]
fn server_integrates_input_and_echoes_acknowledgment() {
    let mut server = Server::new(10);
    let mut client = Client::new(7, 10);
    let mut s2c = UnreliableNetwork::new();
    let mut c2s = UnreliableNetwork::new();
    client.connect(&mut server, &mut s2c, &mut c2s, 0, 0, 0);
    let mut outboxes = vec![(7, s2c)];

    c2s.send(0, 7, Message { sequence: 42, state: None, input: Some((false, true, false, false)) });
    server.update(&mut c2s, &mut outboxes, 0, 10); // one tick

    assert_eq!(server.world.get_entity(1).unwrap().position, (5, 0));
    assert_eq!(server.last_processed_input, vec![(7, 42)]);
    // the broadcast carries the whole world and the client's own ack
    assert_eq!(outboxes[0].1.messages.len(), 1);
    let msg = &outboxes[0].1.messages[0].2;
    assert_eq!(msg.sequence, 42);
    let states = msg.state.as_ref().unwrap();
    assert_eq!(states.len(), 1);
    assert_eq!(states[0].entity_id, 1);
    assert_eq!(states[0].position, (5, 0));
}

// Reconciliation convergence: with zero latency and zero drop, the client's
// predicted position for its controlled entity settles on the server's
// authoritative one.
#[test]
fn zero_latency_client_and_server_converge() {
    let mut server = Server::new(10);
    let mut client = Client::new(7, 10);
    let mut s2c = UnreliableNetwork::new();
    let mut c2s = UnreliableNetwork::new();
    client.connect(&mut server, &mut s2c, &mut c2s, 0, 0, 0);
    let mut outboxes = vec![(7, s2c)];

    let mut now = 0u64;
    for frame in 0..30 {
        let sample = if frame < 10 {
            input(false, true, false, true)
        } else {
            input(false, false, false, false)
        };
        client.update(&mut outboxes[0].1, &mut c2s, now, 10, sample);
        server.update(&mut c2s, &mut outboxes, now, 10);
        now += 10;
    }

    let server_pos = server.world.get_entity(1).unwrap().position;
    let client_pos = client
        .entities
        .iter()
        .find(|(id, _)| *id == 1)
        .map(|(_, e)| e.position)
        .unwrap();
    assert_eq!(client_pos, server_pos);
    assert_eq!(server_pos, (50, 50)); // ten ticks of diagonal motion at speed 5
    // nothing left unacknowledged
    assert!(client.input_history.is_empty() || client.input_history.len() <= 1);
}

#[test]
fn client_update_does_nothing_before_connect() {
    let mut client = Client::new(7, 10);
    let mut s2c = UnreliableNetwork::new();
    let mut c2s = UnreliableNetwork::new();
    s2c.send(0, 0, state_msg(3, vec![snap(3, 1, (1, 2))]));
    client.update(&mut s2c, &mut c2s, 0, 100, input(false, true, false, false));
    assert_eq!(client.last_message_sequence, 0);
    assert_eq!(s2c.messages.len(), 1);
    assert!(c2s.messages.is_empty());
    assert_eq!(client.tick_timer.current_tick, 0);
}

// Connect is idempotently callable: reconnecting re-creates the controlled
// entity assignment and re-applies the channel parameters.
#[test]
fn reconnect_recreates_assignment() {
    let mut server = Server::new(10);
    let mut client = Client::new(7, 10);
    let mut s2c = UnreliableNetwork::new();
    let mut c2s = UnreliableNetwork::new();
    client.connect(&mut server, &mut s2c, &mut c2s, 0, 0, 0);
    assert_eq!(client.controlled_entity, Some(1));

    client.connect(&mut server, &mut s2c, &mut c2s, 30, 60, 0);
    assert!(client.connected);
    assert_eq!(client.controlled_entity, Some(2));
    assert_eq!(server.networked_players, vec![(7, 2)]);
    assert_eq!((s2c.min_latency_ms, s2c.max_latency_ms), (30, 60));
}

// With latency, server snapshots arrive late; prediction keeps the local
// entity ahead while unacknowledged inputs stay in the history.
#[test]
fn prediction_keeps_history_until_acknowledged() {
    let mut server = Server::new(10);
    let mut client = Client::new(7, 10);
    let mut s2c = UnreliableNetwork::new();
    let mut c2s = UnreliableNetwork::new();
    client.connect(&mut server, &mut s2c, &mut c2s, 1000, 1000, 0);
    let mut outboxes = vec![(7, s2c)];

    let mut now = 0u64;
    for _ in 0..5 {
        client.update(&mut outboxes[0].1, &mut c2s, now, 10, input(false, true, false, false));
        server.update(&mut c2s, &mut outboxes, now, 10);
        now += 10;
    }
    // nothing has arrived on either side yet: the inputs wait in the
    // history, and the local mirror has not even seen its first snapshot
    assert_eq!(client.input_history.len(), 5);
    assert!(client.entities.is_empty());
    assert_eq!(server.world.get_entity(1).unwrap().position, (0, 0));
    assert_eq!(c2s.messages.len(), 5);
}
