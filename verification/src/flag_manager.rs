use vstd::prelude::*;

verus! {

/// The kind of condition an analyzer reports.
#[derive(Clone, Copy, Debug, PartialEq, Eq, Structural)]
pub enum FlagKind {
    /// An observed value lies outside what the analyzer expects.
    Anomaly,
    /// A measurement itself reported an error.
    Error,
}

/// An alert raised by an analyzer: who raised it, for which host,
/// measurement and observation time, and a free-form message.
#[derive(Debug, Clone, PartialEq, Eq)]
pub struct Flag {
    pub analyzer_name: String,
    pub hostname: String,
    pub measurement: String,
    pub timestamp: i64,
    pub kind: FlagKind,
    pub message: String,
}

/// The queue between the analyzers and the flag consumer. Every flag an
/// analyzer raises enters here in send order and leaves, first in first
/// out, towards the single consumer. Beside the pending queue the channel
/// carries the ghost history of everything ever sent and ever delivered,
/// over which the ordering guarantees are stated.
pub struct FlagChannel {
    queue: Vec<Flag>,
    sent: Ghost<Seq<Flag>>,
    delivered: Ghost<Seq<Flag>>,
}

/// Picks the flags of one producer out of a fan-in stream.
pub open spec fn from_analyzer(name: Seq<char>) -> spec_fn(Flag) -> bool {
    |f: Flag| f.analyzer_name@ == name
}

/// One producer's stream within a sequence of flags, in its relative order.
pub open spec fn stream_of(flags: Seq<Flag>, name: Seq<char>) -> Seq<Flag> {
    flags.filter(from_analyzer(name))
}

impl FlagChannel {
    /// The flags pending in the channel, oldest first.
    pub closed spec fn queued(self) -> Seq<Flag> {
        self.queue@
    }

    /// Every flag ever sent into the channel, in send order.
    pub closed spec fn sent(self) -> Seq<Flag> {
        self.sent@
    }

    /// Every flag ever handed to the consumer, in delivery order.
    pub closed spec fn delivered(self) -> Seq<Flag> {
        self.delivered@
    }

    /// The channel neither loses, invents nor reorders flags: what was sent
    /// is what was delivered followed by what is still pending.
    pub open spec fn wf(self) -> bool {
        self.delivered() + self.queued() == self.sent()
    }

    /// Creates an empty channel.
    pub fn new() -> (c: FlagChannel)
        ensures
            c.wf(),
            c.queued() == Seq::<Flag>::empty(),
            c.sent() == Seq::<Flag>::empty(),
            c.delivered() == Seq::<Flag>::empty(),
    {
        let c = FlagChannel {
            queue: Vec::new(),
            sent: Ghost(Seq::empty()),
            delivered: Ghost(Seq::empty()),
        };
        proof {
            assert(c.delivered() + c.queued() =~= c.sent());
        }
        c
    }

    /// The number of pending flags.
    pub fn len(&self) -> (n: usize)
        ensures
            n == self.queued().len(),
    {
        self.queue.len()
    }

    /// Sends one flag: it joins the end of the pending queue.
    pub fn send(&mut self, flag: Flag)
        requires
            old(self).wf(),
        ensures
            final(self).wf(),
            final(self).queued() == old(self).queued().push(flag),
            final(self).sent() == old(self).sent().push(flag),
            final(self).delivered() == old(self).delivered(),
    {
        self.sent = Ghost(self.sent@.push(flag));
        self.queue.push(flag);
        proof {
            assert(self.delivered() + self.queued() =~= self.sent());
        }
    }

    /// Receives the oldest pending flag, if any.
    pub fn recv(&mut self) -> (r: Option<Flag>)
        requires
            old(self).wf(),
        ensures
            final(self).wf(),
            final(self).sent() == old(self).sent(),
            match r {
                Some(f) => old(self).queued().len() > 0
                    && f == old(self).queued()[0]
                    && final(self).queued() == old(self).queued().drop_first()
                    && final(self).delivered() == old(self).delivered().push(f),
                None => old(self).queued().len() == 0 && *final(self) == *old(self),
            },
    {
        if self.queue.len() == 0 {
            None
        } else {
            let f = self.queue.remove(0);
            self.delivered = Ghost(self.delivered@.push(f));
            proof {
                assert(old(self).queued().remove(0) =~= old(self).queued().drop_first());
                assert(self.delivered() + self.queued() =~= self.sent());
            }
            Some(f)
        }
    }
}

/// The single consumer of all flags. It serializes flag handling into one
/// logical stream; persisting each flag is delegated to the flag-store
/// collaborator, so handling itself never fails here.
pub struct FlagManager {
    processed: Vec<Flag>,
}

impl FlagManager {
    /// Every flag this manager has handled, in handling order.
    pub closed spec fn stream(self) -> Seq<Flag> {
        self.processed@
    }

    /// Creates a manager that has handled nothing yet.
    pub fn new() -> (m: FlagManager)
        ensures
            m.stream() == Seq::<Flag>::empty(),
    {
        FlagManager { processed: Vec::new() }
    }

    /// Handles one flag: it is appended to the manager's stream. No two
    /// flags are ever handled concurrently, since handling needs the
    /// manager exclusively.
    pub fn process_flag(&mut self, flag: Flag)
        ensures
            final(self).stream() == old(self).stream().push(flag),
    {
        self.processed.push(flag);
    }

    /// The flags handled so far, in handling order.
    pub fn processed_flags(&self) -> (r: &Vec<Flag>)
        ensures
            r@ == self.stream(),
    {
        &self.processed
    }

    /// Drains the channel: every pending flag is handled, oldest first,
    /// until none is left. Returns how many flags were handled.
    pub fn drain(&mut self, chan: &mut FlagChannel) -> (n: usize)
        requires
            old(chan).wf(),
        ensures
            final(chan).wf(),
            n == old(chan).queued().len(),
            final(chan).queued() == Seq::<Flag>::empty(),
            final(chan).sent() == old(chan).sent(),
            final(chan).delivered() == old(chan).delivered() + old(chan).queued(),
            final(self).stream() == old(self).stream() + old(chan).queued(),
    {
        let ghost q0 = chan.queued();
        let ghost d0 = chan.delivered();
        let ghost s0 = self.stream();
        let total = chan.len();
        let mut n: usize = 0;
        proof {
            assert(q0.take(0) =~= Seq::<Flag>::empty());
            assert(q0.skip(0) =~= q0);
            assert(d0 + q0.take(0) =~= d0);
            assert(s0 + q0.take(0) =~= s0);
        }
        while chan.len() > 0
            invariant
                chan.wf(),
                n <= total,
                total == q0.len(),
                chan.sent() == old(chan).sent(),
                chan.queued() == q0.skip(n as int),
                chan.delivered() == d0 + q0.take(n as int),
                self.stream() == s0 + q0.take(n as int),
            decreases chan.queued().len(),
        {
            let f = chan.recv();
            match f {
                Some(f) => {
                    self.process_flag(f);
                    proof {
                        assert(q0.skip(n as int)[0] == q0[n as int]);
                        assert(q0.skip(n as int).drop_first() =~= q0.skip(n + 1 as int));
                        assert((d0 + q0.take(n as int)).push(q0[n as int]) =~= d0 + q0.take(
                            n + 1 as int,
                        ));
                        assert((s0 + q0.take(n as int)).push(q0[n as int]) =~= s0 + q0.take(
                            n + 1 as int,
                        ));
                    }
                    n = n + 1;
                },
                None => {
                    proof {
                        assert(false);
                    }
                },
            }
        }
        proof {
            assert(q0.take(n as int) =~= q0);
        }
        n
    }
}

/// Law: the consumer sees flags in the order they entered the channel —
/// what has been delivered is at every moment a prefix of what was sent.
pub proof fn lemma_delivery_is_send_prefix(c: FlagChannel)
    requires
        c.wf(),
    ensures
        c.delivered() == c.sent().take(c.delivered().len() as int),
{
    assert(c.sent().take(c.delivered().len() as int) =~= c.delivered());
}

/// Law: fan-in keeps each producer's order — for every analyzer name, the
/// delivered flags of that analyzer form a prefix of the flags it sent.
/// Different analyzers' flags may interleave, but no single stream is ever
/// reordered.
pub proof fn lemma_fan_in_stream_order(c: FlagChannel, name: Seq<char>)
    requires
        c.wf(),
    ensures
        ({
            let sent_stream = stream_of(c.sent(), name);
            let delivered_stream = stream_of(c.delivered(), name);
            delivered_stream == sent_stream.take(delivered_stream.len() as int)
        }),
{
    Seq::<Flag>::filter_distributes_over_add(c.delivered(), c.queued(), from_analyzer(name));
    assert(stream_of(c.sent(), name).take(stream_of(c.delivered(), name).len() as int)
        =~= stream_of(c.delivered(), name));
}

} // verus!
