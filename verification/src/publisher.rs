//! Lifecycle-event fan-out: a non-blocking broadcast to zero or more
//! subscribers, each with a bounded buffer. Publishing never waits and
//! never fails: an event that does not fit a subscriber's buffer is
//! dropped for that subscriber alone.

use vstd::prelude::*;

verus! {

/// What happened to a resource.
#[derive(Debug, Clone, Copy, PartialEq, Eq, Structural)]
pub enum LifecycleEventType {
    Created,
    Removed,
}

/// A transient lifecycle event; never persisted.
#[derive(Debug, Clone, Copy, PartialEq, Eq, Structural)]
pub struct LifecycleEvent {
    pub resource_id: i64,
    pub event_type: LifecycleEventType,
}

/// Decimal digits of `n`, most significant first, as ASCII bytes.
pub open spec fn dec_bytes(n: nat) -> Seq<u8>
    decreases n,
{
    if n < 10 {
        seq![(48 + n) as u8]
    } else {
        dec_bytes(n / 10).push((48 + n % 10) as u8)
    }
}

/// The wire form of an event: a JSON object carrying exactly the
/// resource id and the event type, under the push transport's compact
/// key names (`id`, `type`), the convention the surrounding system's
/// listeners consume.
pub open spec fn event_json(id: nat, removed: bool) -> Seq<u8> {
    seq![
        '{' as u8, '"' as u8, 'i' as u8, 'd' as u8, '"' as u8, ':' as u8,
    ] + dec_bytes(id) + seq![
        ',' as u8, '"' as u8, 't' as u8, 'y' as u8, 'p' as u8, 'e' as u8, '"' as u8, ':' as u8,
        '"' as u8,
    ] + (if removed {
        seq!['r' as u8, 'e' as u8, 'm' as u8, 'o' as u8, 'v' as u8, 'e' as u8, 'd' as u8]
    } else {
        seq!['c' as u8, 'r' as u8, 'e' as u8, 'a' as u8, 't' as u8, 'e' as u8, 'd' as u8]
    }) + seq!['"' as u8, '}' as u8]
}

fn push_dec(n: u64, out: &mut Vec<u8>)
    ensures
        final(out)@ == old(out)@ + dec_bytes(n as nat),
    decreases n,
{
    if n >= 10 {
        proof {
            assert(n / 10 < n) by (nonlinear_arith)
                requires
                    n >= 10,
            ;
        }
        push_dec(n / 10, out);
        let d: u8 = 48 + (n % 10) as u8;
        out.push(d);
        proof {
            assert(final(out)@ =~= old(out)@ + dec_bytes(n as nat));
        }
    } else {
        let d: u8 = 48 + n as u8;
        out.push(d);
        proof {
            assert(final(out)@ =~= old(out)@ + dec_bytes(n as nat));
        }
    }
}

/// Serializes an event to its wire form. Ids in the store are positive,
/// so a non-negative id is all the encoder asks.
pub fn encode_event(event: &LifecycleEvent) -> (r: Vec<u8>)
    requires
        event.resource_id >= 0,
    ensures
        r@ == event_json(event.resource_id as nat, event.event_type is Removed),
{
    let mut out: Vec<u8> = Vec::new();
    out.push('{' as u8);
    out.push('"' as u8);
    out.push('i' as u8);
    out.push('d' as u8);
    out.push('"' as u8);
    out.push(':' as u8);
    push_dec(event.resource_id as u64, &mut out);
    out.push(',' as u8);
    out.push('"' as u8);
    out.push('t' as u8);
    out.push('y' as u8);
    out.push('p' as u8);
    out.push('e' as u8);
    out.push('"' as u8);
    out.push(':' as u8);
    out.push('"' as u8);
    match event.event_type {
        LifecycleEventType::Removed => {
            out.push('r' as u8);
            out.push('e' as u8);
            out.push('m' as u8);
            out.push('o' as u8);
            out.push('v' as u8);
            out.push('e' as u8);
            out.push('d' as u8);
        },
        LifecycleEventType::Created => {
            out.push('c' as u8);
            out.push('r' as u8);
            out.push('e' as u8);
            out.push('a' as u8);
            out.push('t' as u8);
            out.push('e' as u8);
            out.push('d' as u8);
        },
    }
    out.push('"' as u8);
    out.push('}' as u8);
    proof {
        assert(out@ =~= event_json(event.resource_id as nat, event.event_type is Removed));
    }
    out
}

/// One connected listener: a bounded queue of serialized events.
#[derive(Debug)]
pub struct Subscriber {
    pub queue: Vec<Vec<u8>>,
    pub capacity: usize,
}

/// Mathematical value of a subscriber.
#[verifier::ext_equal]
pub ghost struct SubscriberView {
    pub queue: Seq<Seq<u8>>,
    pub capacity: int,
}

impl View for Subscriber {
    type V = SubscriberView;

    open spec fn view(&self) -> SubscriberView {
        SubscriberView {
            queue: self.queue@.map_values(|v: Vec<u8>| v@),
            capacity: self.capacity as int,
        }
    }
}

/// The broadcast channel: a list of per-subscriber bounded queues.
#[derive(Debug)]
pub struct Publisher {
    pub subscribers: Vec<Subscriber>,
}

pub open spec fn subs_view(v: Seq<Subscriber>) -> Seq<SubscriberView> {
    v.map_values(|s: Subscriber| s@)
}

impl View for Publisher {
    type V = Seq<SubscriberView>;

    open spec fn view(&self) -> Seq<SubscriberView> {
        subs_view(self.subscribers@)
    }
}

/// How one subscriber's queue looks after an event is offered to it:
/// appended if there is room, dropped if the buffer is full.
pub open spec fn offered(q: SubscriberView, payload: Seq<u8>) -> SubscriberView {
    if q.queue.len() < q.capacity {
        SubscriberView { queue: q.queue.push(payload), capacity: q.capacity }
    } else {
        q
    }
}

fn copy_bytes(v: &Vec<u8>) -> (r: Vec<u8>)
    ensures
        r@ == v@,
{
    let mut out: Vec<u8> = Vec::new();
    let mut i: usize = 0;
    while i < v.len()
        invariant
            i <= v.len(),
            out@ == v@.take(i as int),
        decreases v.len() - i,
    {
        out.push(v[i]);
        proof {
            assert(v@.take(i + 1) =~= v@.take(i as int).push(v@[i as int]));
        }
        i += 1;
    }
    proof {
        assert(v@.take(v@.len() as int) =~= v@);
    }
    out
}

impl Publisher {
    /// A channel with no subscribers yet.
    pub fn new() -> (r: Self)
        ensures
            r@.len() == 0,
    {
        let r = Publisher { subscribers: Vec::new() };
        proof {
            assert(r@ =~= Seq::<SubscriberView>::empty());
        }
        r
    }

    /// Connects a listener with the given buffer bound.
    pub fn subscribe(&mut self, capacity: usize)
        ensures
            final(self)@ == old(self)@.push(
                SubscriberView { queue: Seq::empty(), capacity: capacity as int },
            ),
    {
        self.subscribers.push(Subscriber { queue: Vec::new(), capacity });
        proof {
            assert(final(self)@ =~~= old(self)@.push(
                SubscriberView { queue: Seq::empty(), capacity: capacity as int },
            ));
        }
    }

    /// Fire-and-forget fan-out: every subscriber with room receives the
    /// serialized event; a full buffer drops it for that subscriber. The
    /// publisher itself never waits and never fails, whatever the
    /// subscriber count or buffer state.
    pub fn publish(&mut self, event: LifecycleEvent)
        requires
            event.resource_id >= 0,
        ensures
            final(self)@.len() == old(self)@.len(),
            forall|i: int|
                0 <= i < old(self)@.len() ==> final(self)@[i] == offered(
                    old(self)@[i],
                    event_json(event.resource_id as nat, event.event_type is Removed),
                ),
    {
        let payload = encode_event(&event);
        let mut pending: Vec<Subscriber> = Vec::new();
        core::mem::swap(&mut pending, &mut self.subscribers);
        let ghost orig = subs_view(pending@);
        let mut done: Vec<Subscriber> = Vec::new();
        let mut i: usize = 0;
        while i < pending.len()
            invariant
                i <= pending.len(),
                done.len() == i,
                subs_view(pending@) == orig,
                forall|j: int| 0 <= j < i ==> done@[j]@ == offered(orig[j], payload@),
            decreases pending.len() - i,
        {
            let s = &pending[i];
            let room = s.queue.len() < s.capacity;
            let mut queue = copy_subscriber_queue(&s.queue);
            if room {
                queue.push(copy_bytes(&payload));
            }
            let ns = Subscriber { queue, capacity: s.capacity };
            proof {
                if room {
                    assert(ns@.queue =~= orig[i as int].queue.push(payload@));
                } else {
                    assert(ns@.queue =~= orig[i as int].queue);
                }
                assert(ns@ == offered(orig[i as int], payload@));
            }
            done.push(ns);
            i += 1;
        }
        self.subscribers = done;
        proof {
            assert(subs_view(done@).len() == orig.len());
        }
    }
}

fn copy_subscriber_queue(q: &Vec<Vec<u8>>) -> (r: Vec<Vec<u8>>)
    ensures
        r@.map_values(|v: Vec<u8>| v@) == q@.map_values(|v: Vec<u8>| v@),
{
    let mut out: Vec<Vec<u8>> = Vec::new();
    let mut i: usize = 0;
    while i < q.len()
        invariant
            i <= q.len(),
            out.len() == i,
            forall|j: int| 0 <= j < i ==> out@[j]@ == q@[j]@,
        decreases q.len() - i,
    {
        out.push(copy_bytes(&q[i]));
        i += 1;
    }
    proof {
        assert(out@.map_values(|v: Vec<u8>| v@) =~= q@.map_values(|v: Vec<u8>| v@));
    }
    out
}

} // verus!
