use vstd::prelude::*;

verus! {

// The broadcast hub fans every published record out to every subscriber.
// It keeps a bounded window of the most recent records; a subscriber
// that falls behind the window loses the evicted records and is told so
// once, rather than stalling the publishers.

/// Mathematical image of a hub: the full history of published records,
/// the window bound, and whether the hub has been torn down.
pub struct HubView {
    pub log: Seq<Seq<char>>,
    pub capacity: nat,
    pub closed: bool,
}

/// The log position of the oldest record still retained in the window.
pub open spec fn first_retained(h: HubView) -> nat {
    if h.log.len() <= h.capacity {
        0
    } else {
        (h.log.len() - h.capacity) as nat
    }
}

/// A receive at cursor `c` reports loss exactly when the cursor points
/// at an evicted record.
pub open spec fn recv_lagged(h: HubView, c: nat) -> bool {
    c < first_retained(h)
}

/// Where the cursor stands after one receive: advanced to the oldest
/// retained record after a loss, one past the record just read after a
/// success, unchanged when nothing is pending.
pub open spec fn recv_cursor_after(h: HubView, c: nat) -> nat {
    if recv_lagged(h, c) {
        first_retained(h)
    } else if c < h.log.len() {
        (c + 1) as nat
    } else {
        c
    }
}

/// What one receive yields.
#[derive(Debug, PartialEq)]
pub enum RecvOutcome {
    /// The record at the receiver's cursor.
    Message(String),
    /// Nothing pending yet; the caller should wait and retry.
    Empty,
    /// Records were evicted before this receiver read them; recoverable,
    /// the caller simply receives again.
    Lagged,
    /// The hub is torn down and fully drained; terminal.
    Closed,
}

/// The shared fan-out channel: a bounded window over the history of
/// published records.
pub struct Hub {
    buf: Vec<String>,
    base: u64,
    capacity: usize,
    closed: bool,
    hist: Ghost<Seq<Seq<char>>>,
}

/// One subscription: an independent cursor into the hub's history.
pub struct HubReceiver {
    cursor: u64,
}

impl HubReceiver {
    /// The log position this subscription reads next.
    pub fn position(&self) -> (r: u64)
        ensures
            r as nat == self@,
    {
        self.cursor
    }
}

impl View for HubReceiver {
    type V = nat;

    closed spec fn view(&self) -> nat {
        self.cursor as nat
    }
}

impl View for Hub {
    type V = HubView;

    closed spec fn view(&self) -> HubView {
        HubView { log: self.hist@, capacity: self.capacity as nat, closed: self.closed }
    }
}

impl Hub {
    /// The window holds exactly the retained suffix of the history.
    pub closed spec fn inv(&self) -> bool {
        &&& self.capacity >= 1
        &&& self.hist@.len() <= 0xffff_ffff_ffff_ffff
        &&& self.base as nat == first_retained(self@)
        &&& self.buf@.len() == self.hist@.len() - self.base as nat
        &&& forall|i: int|
            0 <= i < self.buf@.len() ==> self.buf@[i]@ == self.hist@[self.base + i]
    }

    /// A fresh hub: nothing published, nobody behind, open for business.
    pub fn new(capacity: usize) -> (r: Hub)
        requires
            capacity >= 1,
        ensures
            r.inv(),
            r@.log.len() == 0,
            r@.capacity == capacity as nat,
            !r@.closed,
    {
        Hub { buf: Vec::new(), base: 0, capacity, closed: false, hist: Ghost(Seq::empty()) }
    }

    /// Appends one record to the history; never blocks and never fails,
    /// whether or not anyone is subscribed. The oldest retained record
    /// is evicted once the window is full.
    pub fn publish(&mut self, msg: String)
        requires
            old(self).inv(),
            !old(self)@.closed,
            old(self)@.log.len() < 0xffff_ffff_ffff_ffff,
        ensures
            final(self).inv(),
            final(self)@.log == old(self)@.log.push(msg@),
            final(self)@.capacity == old(self)@.capacity,
            !final(self)@.closed,
    {
        proof {
            assert(self.buf@.len() <= self.capacity as nat);
        }
        self.hist = Ghost(self.hist@.push(msg@));
        self.buf.push(msg);
        if self.buf.len() > self.capacity {
            let _ = self.buf.remove(0);
            self.base = self.base + 1;
        }
    }

    /// A fresh subscription: its cursor stands at the end of the history,
    /// so it observes only what is published after this call — no replay.
    pub fn subscribe(&self) -> (r: HubReceiver)
        requires
            self.inv(),
        ensures
            r@ == self@.log.len(),
    {
        HubReceiver { cursor: self.base + self.buf.len() as u64 }
    }

    /// How many records have ever been published.
    pub fn published_count(&self) -> (r: u64)
        requires
            self.inv(),
        ensures
            r as nat == self@.log.len(),
    {
        self.base + self.buf.len() as u64
    }

    /// Whether the hub has been torn down.
    pub fn is_closed(&self) -> (r: bool)
        ensures
            r == self@.closed,
    {
        self.closed
    }

    /// Tears the hub down; the history stays readable so subscribers can
    /// drain what is already retained.
    pub fn close(&mut self)
        requires
            old(self).inv(),
        ensures
            final(self).inv(),
            final(self)@.log == old(self)@.log,
            final(self)@.capacity == old(self)@.capacity,
            final(self)@.closed,
    {
        self.closed = true;
    }

    /// One receive step: the record under the cursor, or `Lagged` (once)
    /// when the cursor fell out of the window, or `Empty`/`Closed` when
    /// the receiver has caught up.
    pub fn try_receive(&self, rcv: &mut HubReceiver) -> (out: RecvOutcome)
        requires
            self.inv(),
            old(rcv)@ <= self@.log.len(),
        ensures
            final(rcv)@ == recv_cursor_after(self@, old(rcv)@),
            recv_lagged(self@, old(rcv)@) ==> out is Lagged,
            !recv_lagged(self@, old(rcv)@) && old(rcv)@ < self@.log.len() ==> (out matches
                RecvOutcome::Message(m) && m@ == self@.log[old(rcv)@ as int]),
            old(rcv)@ == self@.log.len() && self@.closed ==> out is Closed,
            old(rcv)@ == self@.log.len() && !self@.closed ==> out is Empty,
    {
        let c = rcv.cursor;
        if c < self.base {
            rcv.cursor = self.base;
            RecvOutcome::Lagged
        } else if c - self.base < self.buf.len() as u64 {
            let idx = (c - self.base) as usize;
            let m = self.buf[idx].clone();
            rcv.cursor = c + 1;
            RecvOutcome::Message(m)
        } else {
            if self.closed {
                RecvOutcome::Closed
            } else {
                RecvOutcome::Empty
            }
        }
    }
}

impl Hub {
    /// Catches a subscriber up: receives until nothing is pending and
    /// returns what was read. A receiver that has not fallen out of the
    /// window gets exactly the records published at or after its cursor,
    /// in publish order — nothing replayed, nothing reordered.
    pub fn drain(&self, rcv: &mut HubReceiver) -> (msgs: Vec<String>)
        requires
            self.inv(),
            old(rcv)@ <= self@.log.len(),
            !recv_lagged(self@, old(rcv)@),
        ensures
            final(rcv)@ == self@.log.len(),
            msgs@.map_values(|s: String| s@) == self@.log.skip(old(rcv)@ as int),
    {
        let mut msgs: Vec<String> = Vec::new();
        proof {
            assert(msgs@.map_values(|s: String| s@) =~= self@.log.subrange(
                old(rcv)@ as int,
                old(rcv)@ as int,
            ));
        }
        loop
            invariant_except_break
                self.inv(),
                old(rcv)@ <= rcv@ <= self@.log.len(),
                !recv_lagged(self@, rcv@),
                msgs@.map_values(|s: String| s@) == self@.log.subrange(
                    old(rcv)@ as int,
                    rcv@ as int,
                ),
            ensures
                rcv@ == self@.log.len(),
                msgs@.map_values(|s: String| s@) == self@.log.subrange(
                    old(rcv)@ as int,
                    self@.log.len() as int,
                ),
            decreases self@.log.len() - rcv@,
        {
            let ghost c = rcv@;
            match self.try_receive(rcv) {
                RecvOutcome::Message(m) => {
                    proof {
                        assert(self@.log.subrange(old(rcv)@ as int, c as int).push(
                            self@.log[c as int],
                        ) =~= self@.log.subrange(old(rcv)@ as int, c as int + 1));
                    }
                    let ghost pre = msgs@;
                    msgs.push(m);
                    proof {
                        assert(msgs@.map_values(|s: String| s@) =~= pre.map_values(
                            |s: String| s@,
                        ).push(msgs@[msgs@.len() - 1]@));
                    }
                },
                _ => {
                    proof {
                        if c < self@.log.len() {
                            assert(false);
                        }
                    }
                    break;
                },
            }
        }
        proof {
            assert(self@.log.subrange(old(rcv)@ as int, self@.log.len() as int) =~= self@.log.skip(
                old(rcv)@ as int,
            ));
        }
        msgs
    }
}

/// A subscriber reading from cursor `c` on a quiet hub, one receive after
/// another, sees exactly the records published at or after `c`.
pub open spec fn drained(h: HubView, c: nat) -> Seq<Seq<char>>
    decreases h.log.len() - c
        when c <= h.log.len()
{
    if c >= h.log.len() {
        Seq::empty()
    } else {
        seq![h.log[c as int]] + drained(h, (c + 1) as nat)
    }
}

/// Order and no-replay law: what a subscriber drains from cursor `c` is
/// exactly the history's suffix from `c` — every record published after
/// the subscription, in publish order, and nothing published before it.
pub proof fn lemma_drained_is_log_suffix(h: HubView, c: nat)
    requires
        c <= h.log.len(),
    ensures
        drained(h, c) == h.log.skip(c as int),
    decreases h.log.len() - c,
{
    if c >= h.log.len() {
        assert(drained(h, c) =~= h.log.skip(c as int));
    } else {
        lemma_drained_is_log_suffix(h, (c + 1) as nat);
        assert(seq![h.log[c as int]] + h.log.skip(c as int + 1) =~= h.log.skip(c as int));
    }
}

/// The hub's image after one more record is published.
pub open spec fn published(h: HubView, m: Seq<char>) -> HubView {
    HubView { log: h.log.push(m), ..h }
}

/// Publish–subscribe handoff law: a record published after a subscription
/// was created is the very next record that subscriber receives, not a
/// loss and not a replay.
pub proof fn lemma_publish_then_receive(h: HubView, m: Seq<char>, c: nat)
    requires
        h.capacity >= 1,
        c == h.log.len(),
    ensures
        !recv_lagged(published(h, m), c),
        published(h, m).log[c as int] == m,
        recv_cursor_after(published(h, m), c) == c + 1,
{
}

/// Loss-recovery law: a receive on a cursor that fell out of the window
/// reports the loss, moves the cursor to the oldest retained record, and
/// the following receive yields a record rather than another loss.
pub proof fn lemma_lagged_then_message(h: HubView, c: nat)
    requires
        h.capacity >= 1,
        recv_lagged(h, c),
    ensures
        recv_cursor_after(h, c) == first_retained(h),
        !recv_lagged(h, recv_cursor_after(h, c)),
        recv_cursor_after(h, c) < h.log.len(),
{
}

} // verus!
