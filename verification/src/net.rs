//! The simulated network link: a one-directional message queue that delays
//! delivery by a randomized latency window and, in the unreliable variant,
//! drops messages with a configured probability.
//!
//! Delivery is send-order-preserving, gated by the oldest undelivered
//! message's timer: `receive` only ever inspects the head of the queue, so a
//! later message with a shorter drawn latency is never delivered ahead of an
//! earlier, still-pending one. That is the channel's contract, not true
//! delivery-time ordering.
//!
//! The channel holds no clock of its own: callers pass the current time in
//! milliseconds, so delivery is reproducible in tests.

use vstd::prelude::*;

use crate::sim::Colour;

verus! {

/// A per-entity wire snapshot broadcast by the server.
#[derive(Debug, Clone, Copy, PartialEq, Eq)]
pub struct State {
    /// The server tick at which this snapshot was taken. The acknowledgment
    /// a client reconciles against travels in `Message::sequence`, not here.
    pub tick: i32,
    pub entity_id: i32,
    pub position: (i64, i64),
    pub colour: Colour,
}

/// The unit exchanged over a channel. Exactly one of `state` / `input` is
/// populated: server-to-client messages carry state, client-to-server
/// messages carry the four directional intent flags. `sequence` is the
/// client's local tick in one direction and the server's last processed
/// input tick for that client in the other.
#[derive(Debug)]
pub struct Message {
    pub sequence: i32,
    pub state: Option<Vec<State>>,
    pub input: Option<(bool, bool, bool, bool)>,
}

/// Latencies are capped so that `deliver_at` arithmetic and the latency draw
/// stay exact; about twelve days in milliseconds, far beyond any simulated
/// link.
pub const LATENCY_LIMIT_MS: u64 = 0x4000_0000;

/// Drop rates are fixed-point fractions of this scale: `DROP_RATE_SCALE`
/// means every message is dropped, `0` means none is.
pub const DROP_RATE_SCALE: u64 = 1_000_000;

/// Relies on quad_rand::gen_range (the generator behind macroquad's `rand`
/// module, which re-exports it): a draw from the global PCG state mapped
/// affinely into the requested window; with bounds at most 2^30 the mapping
/// stays within [low, high].
#[verifier::external_body]
fn gen_range_u64(low: u64, high: u64) -> (r: u64)
    requires
        low < high,
        high <= LATENCY_LIMIT_MS,
    ensures
        low <= r <= high,
{
    quad_rand::gen_range(low, high)
}

/// Holds when `post` is `pre` with exactly one new entry at the tail,
/// carrying `msg` from `sender`, due at `now` plus a latency drawn from the
/// window `[min, max]`.
pub open spec fn enqueued_one(
    pre: Seq<(u64, i32, Message)>,
    post: Seq<(u64, i32, Message)>,
    now: u64,
    min: u64,
    max: u64,
    sender: i32,
    msg: Message,
) -> bool {
    exists|lat: u64|
        min <= lat <= max && post == #[trigger] pre.push((((now + lat) as u64), sender, msg))
}

/// Holds when `post` is `pre` with exactly one new entry at the tail from
/// `sender`, due at `now` plus a latency drawn from `[min, max]`, whose
/// message carries sequence `seq`, the state list `states`, and no input:
/// the shape of a server broadcast.
pub open spec fn enqueued_state_msg(
    pre: Seq<(u64, i32, Message)>,
    post: Seq<(u64, i32, Message)>,
    now: u64,
    min: u64,
    max: u64,
    sender: i32,
    seq: i32,
    states: Seq<State>,
) -> bool {
    exists|lat: u64, m: Message|
        min <= lat <= max && m.sequence == seq && m.input == None::<(bool, bool, bool, bool)> && (
        m.state matches Some(v) && v@ == states) && post == #[trigger] pre.push(
            (((now + lat) as u64), sender, m),
        )
}

/// One queue entry as a broadcast leaves it: due inside the latency window
/// from `now`, from `sender`, carrying sequence `seq`, the state list
/// `states`, and no input.
pub open spec fn broadcast_entry_ok(
    e: (u64, i32, Message),
    now: u64,
    min: u64,
    max: u64,
    sender: i32,
    seq: i32,
    states: Seq<State>,
) -> bool {
    &&& now + min <= e.0 <= now + max
    &&& e.1 == sender
    &&& e.2.sequence == seq
    &&& e.2.input == None::<(bool, bool, bool, bool)>
    &&& (e.2.state matches Some(v) && v@ == states)
}

/// How many messages a drain that only ever pops a deliverable head removes
/// from the queue at time `now`: the longest prefix whose timers have all
/// passed.
pub open spec fn deliverable_count(q: Seq<(u64, i32, Message)>, now: u64) -> int
    decreases q.len(),
{
    if q.len() == 0 || q[0].0 > now {
        0
    } else {
        1 + deliverable_count(q.drop_first(), now)
    }
}

/// The deliverable prefix is a prefix: every entry in it is due, and the
/// entry after it (if any) is not; draining it leaves nothing deliverable.
pub proof fn lemma_deliverable_count_properties(q: Seq<(u64, i32, Message)>, now: u64)
    ensures
        0 <= deliverable_count(q, now) <= q.len(),
        forall|j: int| 0 <= j < deliverable_count(q, now) ==> (#[trigger] q[j]).0 <= now,
        deliverable_count(q, now) < q.len() ==> q[deliverable_count(q, now)].0 > now,
        deliverable_count(q.skip(deliverable_count(q, now)), now) == 0,
    decreases q.len(),
{
    if q.len() > 0 && q[0].0 <= now {
        lemma_deliverable_count_properties(q.drop_first(), now);
        assert(forall|j: int|
            1 <= j < q.len() ==> (#[trigger] q[j]) == q.drop_first()[j - 1]);
        assert(q.skip(deliverable_count(q, now)) =~= q.drop_first().skip(
            deliverable_count(q.drop_first(), now),
        ));
    } else {
        assert(q.skip(0) =~= q);
    }
}

/// An inter-endpoint queue whose messages become deliverable only once
/// their drawn latency has elapsed; never drops anything.
pub struct ReliableOrderedNetwork {
    pub messages: Vec<(u64, i32, Message)>,
    pub min_latency_ms: u64,
    pub max_latency_ms: u64,
}

impl ReliableOrderedNetwork {
    /// The pending queue, oldest first: (deliver-at time in ms, sender id,
    /// message), in send order.
    pub open spec fn queue(&self) -> Seq<(u64, i32, Message)> {
        self.messages@
    }

    pub fn new() -> (r: Self)
        ensures
            r.queue() == Seq::<(u64, i32, Message)>::empty(),
            r.min_latency_ms == 0,
            r.max_latency_ms == 0,
    {
        ReliableOrderedNetwork { messages: Vec::new(), min_latency_ms: 0, max_latency_ms: 0 }
    }

    /// Append the message to the tail of the queue, due after a latency
    /// drawn from the configured window. Fire-and-forget: nothing reports
    /// when the message will arrive.
    pub fn send(&mut self, now_ms: u64, sender_id: i32, message: Message)
        requires
            old(self).min_latency_ms <= old(self).max_latency_ms,
            old(self).max_latency_ms <= LATENCY_LIMIT_MS,
            now_ms + old(self).max_latency_ms <= u64::MAX,
        ensures
            final(self).min_latency_ms == old(self).min_latency_ms,
            final(self).max_latency_ms == old(self).max_latency_ms,
            enqueued_one(
                old(self).queue(),
                final(self).queue(),
                now_ms,
                old(self).min_latency_ms,
                old(self).max_latency_ms,
                sender_id,
                message,
            ),
            old(self).queue().is_prefix_of(final(self).queue()),
    {
        let latency = if self.min_latency_ms < self.max_latency_ms {
            gen_range_u64(self.min_latency_ms, self.max_latency_ms)
        } else {
            self.min_latency_ms
        };
        let deliver_at = now_ms + latency;
        let ghost pre = self.messages@;
        self.messages.push((deliver_at, sender_id, message));
        proof {
            assert(self.messages@ =~= pre.push(((now_ms + latency) as u64, sender_id, message)));
            assert(pre =~= self.messages@.subrange(0, pre.len() as int));
        }
    }

    /// Inspect the head of the queue only: pop and return it if its timer
    /// has passed, otherwise leave the queue untouched and return nothing.
    /// Never blocks; a later-sent message is never delivered ahead of an
    /// earlier, still-pending one.
    pub fn receive(&mut self, now_ms: u64) -> (r: Option<(i32, Message)>)
        ensures
            final(self).min_latency_ms == old(self).min_latency_ms,
            final(self).max_latency_ms == old(self).max_latency_ms,
            if old(self).queue().len() > 0 && old(self).queue()[0].0 <= now_ms {
                r == Some((old(self).queue()[0].1, old(self).queue()[0].2)) && final(self).queue()
                    == old(self).queue().drop_first()
            } else {
                r == None::<(i32, Message)> && final(self).queue() == old(self).queue()
            },
    {
        if self.messages.len() > 0 && self.messages[0].0 <= now_ms {
            let (_deliver_at, sender_id, message) = self.messages.remove(0);
            proof {
                assert(self.messages@ =~= old(self).queue().drop_first());
            }
            Some((sender_id, message))
        } else {
            None
        }
    }
}

/// An inter-endpoint queue that, besides the latency window, silently drops
/// each sent message with probability `drop_rate / DROP_RATE_SCALE`.
pub struct UnreliableNetwork {
    pub messages: Vec<(u64, i32, Message)>,
    pub min_latency_ms: u64,
    pub max_latency_ms: u64,
    /// Fixed-point drop probability: parts of `DROP_RATE_SCALE`.
    pub drop_rate: u64,
}

impl UnreliableNetwork {
    /// The pending queue, oldest first: (deliver-at time in ms, sender id,
    /// message), in send order.
    pub open spec fn queue(&self) -> Seq<(u64, i32, Message)> {
        self.messages@
    }

    pub fn new() -> (r: Self)
        ensures
            r.queue() == Seq::<(u64, i32, Message)>::empty(),
            r.min_latency_ms == 0,
            r.max_latency_ms == 0,
            r.drop_rate == 0,
    {
        UnreliableNetwork {
            messages: Vec::new(),
            min_latency_ms: 0,
            max_latency_ms: 0,
            drop_rate: 0,
        }
    }

    /// With probability `drop_rate / DROP_RATE_SCALE` the message is
    /// silently discarded; otherwise it is appended to the tail of the
    /// queue, due after a latency drawn from the configured window. At the
    /// boundaries the outcome is certain: a drop rate of zero always
    /// enqueues exactly one entry, a full drop rate never enqueues.
    pub fn send(&mut self, now_ms: u64, sender_id: i32, message: Message)
        requires
            old(self).min_latency_ms <= old(self).max_latency_ms,
            old(self).max_latency_ms <= LATENCY_LIMIT_MS,
            now_ms + old(self).max_latency_ms <= u64::MAX,
        ensures
            final(self).min_latency_ms == old(self).min_latency_ms,
            final(self).max_latency_ms == old(self).max_latency_ms,
            final(self).drop_rate == old(self).drop_rate,
            final(self).queue() == old(self).queue() || enqueued_one(
                old(self).queue(),
                final(self).queue(),
                now_ms,
                old(self).min_latency_ms,
                old(self).max_latency_ms,
                sender_id,
                message,
            ),
            old(self).drop_rate == 0 ==> enqueued_one(
                old(self).queue(),
                final(self).queue(),
                now_ms,
                old(self).min_latency_ms,
                old(self).max_latency_ms,
                sender_id,
                message,
            ),
            old(self).drop_rate >= DROP_RATE_SCALE ==> final(self).queue() == old(self).queue(),
            old(self).queue().is_prefix_of(final(self).queue()),
    {
        let dropped = if self.drop_rate >= DROP_RATE_SCALE {
            true
        } else if self.drop_rate == 0 {
            false
        } else {
            gen_range_u64(0, DROP_RATE_SCALE) < self.drop_rate
        };
        if dropped {
            proof {
                assert(self.queue() =~= self.queue().subrange(0, self.queue().len() as int));
            }
            return ;
        }
        let latency = if self.min_latency_ms < self.max_latency_ms {
            gen_range_u64(self.min_latency_ms, self.max_latency_ms)
        } else {
            self.min_latency_ms
        };
        let deliver_at = now_ms + latency;
        let ghost pre = self.messages@;
        self.messages.push((deliver_at, sender_id, message));
        proof {
            assert(self.messages@ =~= pre.push(((now_ms + latency) as u64, sender_id, message)));
            assert(pre =~= self.messages@.subrange(0, pre.len() as int));
        }
    }

    /// Inspect the head of the queue only: pop and return it if its timer
    /// has passed, otherwise leave the queue untouched and return nothing.
    /// Never blocks; a later-sent message is never delivered ahead of an
    /// earlier, still-pending one, even if its own latency has elapsed.
    pub fn receive(&mut self, now_ms: u64) -> (r: Option<(i32, Message)>)
        ensures
            final(self).min_latency_ms == old(self).min_latency_ms,
            final(self).max_latency_ms == old(self).max_latency_ms,
            final(self).drop_rate == old(self).drop_rate,
            if old(self).queue().len() > 0 && old(self).queue()[0].0 <= now_ms {
                r == Some((old(self).queue()[0].1, old(self).queue()[0].2)) && final(self).queue()
                    == old(self).queue().drop_first()
            } else {
                r == None::<(i32, Message)> && final(self).queue() == old(self).queue()
            },
    {
        if self.messages.len() > 0 && self.messages[0].0 <= now_ms {
            let (_deliver_at, sender_id, message) = self.messages.remove(0);
            proof {
                assert(self.messages@ =~= old(self).queue().drop_first());
            }
            Some((sender_id, message))
        } else {
            None
        }
    }
}

} // verus!
