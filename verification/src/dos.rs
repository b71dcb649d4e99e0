//! The flooding benchmark: the client sends a stream of invocations of a
//! capability the server never granted, then invokes the server's end
//! handler; both sides sample their packet counters at a fixed period and
//! record how many packets passed in each period.
use vstd::prelude::*;

verus! {

/// Id the client floods: the server never grants it.
pub const INVALID_CAP: u64 = 300;

/// Id of the server's end handler.
pub const DOS_END_CAP: u64 = 200;

/// Milliseconds between two samples of the client's send counter.
pub const CLIENT_SAMPLE_MILLIS: u64 = 1;

/// Milliseconds between two samples of the server's receive counter.
pub const SERVER_SAMPLE_MILLIS: u64 = 1000;

/// Milliseconds the client waits after its last invocation before it stops
/// sampling.
pub const DRAIN_MILLIS: u64 = 1000;

/// A step of the flooding client.
#[derive(Clone, Copy, Debug, PartialEq, Eq, Structural)]
pub enum FloodStep {
    /// Send one invocation of the ungranted capability, without waiting for
    /// an answer.
    Send,
    /// Wait the given number of microseconds before the next send.
    Pause(u64),
    /// All packets are sent: drain, report and invoke the end handler.
    Last,
    /// Nothing is left to do.
    Done,
}

/// The step the flooding client takes at position `pos` when it sends
/// `packets` packets with `delay` microseconds between two of them: sends
/// and pauses in turn, starting and ending with a send, then the last step.
pub open spec fn flood_step_at(packets: int, delay: u64, pos: int) -> FloodStep {
    if packets == 0 {
        if pos == 0 {
            FloodStep::Last
        } else {
            FloodStep::Done
        }
    } else if pos < 2 * packets - 1 {
        if pos % 2 == 0 {
            FloodStep::Send
        } else {
            FloodStep::Pause(delay)
        }
    } else if pos == 2 * packets - 1 {
        FloodStep::Last
    } else {
        FloodStep::Done
    }
}

/// The progress of the flooding client.
pub struct FloodPlan {
    packets: u128,
    delay: u64,
    sent: u128,
    paused: bool,
    last_issued: bool,
}

impl FloodPlan {
    /// A pause is only due between two sends, and the last step only comes
    /// after all sends.
    pub closed spec fn wf(&self) -> bool {
        &&& self.sent <= self.packets
        &&& self.paused ==> 1 <= self.sent < self.packets
        &&& self.last_issued ==> self.sent == self.packets && !self.paused
    }

    /// The number of packets to send.
    pub closed spec fn spec_packets(&self) -> nat {
        self.packets as nat
    }

    /// The pause between two sends, in microseconds.
    pub closed spec fn spec_delay(&self) -> u64 {
        self.delay
    }

    /// The number of steps taken so far, `Done` not counted.
    pub closed spec fn position(&self) -> nat {
        let sends_and_pauses: int = if self.sent == 0 {
            0
        } else {
            2 * self.sent - 1
        };
        (sends_and_pauses + (if self.paused {
            1int
        } else {
            0int
        }) + (if self.last_issued {
            1int
        } else {
            0int
        })) as nat
    }

    /// A plan to send `packets` packets, `delay` microseconds apart, that has
    /// taken no step yet.
    pub fn new(packets: u128, delay: u64) -> (p: Self)
        ensures
            p.wf(),
            p.spec_packets() == packets,
            p.spec_delay() == delay,
            p.position() == 0,
    {
        FloodPlan { packets, delay, sent: 0, paused: false, last_issued: false }
    }

    /// The next step, once the previous one has completed.
    pub fn next_step(&mut self) -> (s: FloodStep)
        requires
            old(self).wf(),
        ensures
            final(self).wf(),
            final(self).spec_packets() == old(self).spec_packets(),
            final(self).spec_delay() == old(self).spec_delay(),
            s == flood_step_at(
                old(self).spec_packets() as int,
                old(self).spec_delay(),
                old(self).position() as int,
            ),
            final(self).position() == if s == FloodStep::Done {
                old(self).position()
            } else {
                old(self).position() + 1
            },
    {
        if self.sent < self.packets {
            if self.sent > 0 && !self.paused {
                self.paused = true;
                FloodStep::Pause(self.delay)
            } else {
                self.sent = self.sent + 1;
                self.paused = false;
                FloodStep::Send
            }
        } else if !self.last_issued {
            self.last_issued = true;
            FloodStep::Last
        } else {
            FloodStep::Done
        }
    }
}

/// The flooding client sends exactly `packets` packets, at the even
/// positions before `2 * packets - 1`; two consecutive sends are separated
/// by exactly one pause of `delay` microseconds; the last step follows the
/// last send.
pub proof fn lemma_flood_pacing(packets: int, delay: u64)
    requires
        packets >= 1,
    ensures
        forall|pos: int|
            0 <= pos ==> ((flood_step_at(packets, delay, pos) == FloodStep::Send) <==> (pos
                < 2 * packets - 1 && pos % 2 == 0)),
        forall|k: int|
            0 <= k < packets - 1 ==> {
                &&& flood_step_at(packets, delay, #[trigger] (2 * k)) == FloodStep::Send
                &&& flood_step_at(packets, delay, 2 * k + 1) == FloodStep::Pause(delay)
                &&& flood_step_at(packets, delay, 2 * k + 2) == FloodStep::Send
            },
        forall|pos: int|
            0 <= pos ==> ((flood_step_at(packets, delay, pos) is Pause) <==> (pos < 2 * packets - 1
                && pos % 2 == 1)),
        flood_step_at(packets, delay, 2 * packets - 2) == FloodStep::Send,
        flood_step_at(packets, delay, 2 * packets - 1) == FloodStep::Last,
{
    assert forall|k: int| 0 <= k < packets - 1 implies {
        &&& flood_step_at(packets, delay, #[trigger] (2 * k)) == FloodStep::Send
        &&& flood_step_at(packets, delay, 2 * k + 1) == FloodStep::Pause(delay)
        &&& flood_step_at(packets, delay, 2 * k + 2) == FloodStep::Send
    } by {
        assert((2 * k) % 2 == 0);
        assert((2 * k + 1) % 2 == 1);
        assert((2 * k + 2) % 2 == 0);
    }
    assert((2 * packets - 2) % 2 == 0);
}

/// The samples of a packet counter: for each period in turn, its index and
/// the number of packets counted during it.
pub struct RateTracker {
    period: u128,
    samples: Vec<(u128, u128)>,
}

impl RateTracker {
    /// Each sample holds its own index, and the next index is the number of
    /// samples.
    pub closed spec fn wf(&self) -> bool {
        &&& self.period == self.samples@.len()
        &&& forall|i: int| 0 <= i < self.samples@.len() ==> self.samples@[i].0 == i
    }

    /// The samples taken so far.
    pub closed spec fn spec_samples(&self) -> Seq<(u128, u128)> {
        self.samples@
    }

    /// A tracker that has taken no sample.
    pub fn new() -> (t: Self)
        ensures
            t.wf(),
            t.spec_samples() == Seq::<(u128, u128)>::empty(),
    {
        RateTracker { period: 0, samples: Vec::new() }
    }

    /// Records one period, in which the counter went from `before` to
    /// `after`: the next index and the difference.
    pub fn record(&mut self, before: u128, after: u128)
        requires
            old(self).wf(),
            before <= after,
            old(self).spec_samples().len() < u128::MAX,
        ensures
            final(self).wf(),
            final(self).spec_samples() == old(self).spec_samples().push(
                (old(self).spec_samples().len() as u128, (after - before) as u128),
            ),
    {
        self.samples.push((self.period, after - before));
        self.period = self.period + 1;
    }

    /// The samples taken so far.
    pub fn samples(&self) -> (r: &Vec<(u128, u128)>)
        ensures
            r@ == self.spec_samples(),
    {
        &self.samples
    }
}

/// Whatever was recorded, sample `i` carries the index `i`.
pub proof fn lemma_sample_indices(t: &RateTracker, i: int)
    requires
        t.wf(),
        0 <= i < t.spec_samples().len(),
    ensures
        t.spec_samples()[i].0 == i,
{
}

} // verus!
