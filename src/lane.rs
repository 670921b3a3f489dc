//! A lane: one logical channel of a tunnel, with its own sequence numbers,
//! credit window and queue of frames that wait for credit.
use vstd::prelude::*;
use std::collections::VecDeque;

verus! {

/// Credit that a lane starts with.
pub const INITIAL_CREDITS: u32 = 16;

/// What a lane's behaviour depends on.
pub struct LaneState {
    pub next_seq_out: u64,
    pub expected_seq_in: u64,
    pub credits: u32,
    pub pending_out: Seq<String>,
    pub acks: u64,
}

/// The state of a lane that was just made.
pub open spec fn fresh_lane() -> LaneState {
    LaneState {
        next_seq_out: 1,
        expected_seq_in: 1,
        credits: INITIAL_CREDITS,
        pending_out: Seq::empty(),
        acks: 0,
    }
}

/// How an incoming sequence number relates to the one a lane expects.
#[derive(Debug, Clone, Copy, PartialEq, Eq, Structural)]
pub enum Arrival {
    /// The expected number: the lane moves on and the frame is acknowledged.
    InOrder,
    /// Below the expected number: a duplicate, dropped.
    Duplicate,
    /// Above the expected number: delivered, and the lane stays where it was.
    Ahead,
}

/// A logical channel within a tunnel. Lane 0 carries control frames.
pub struct Lane {
    pub id: u16,
    /// The sequence number that the next outgoing frame gets; starts at 1.
    pub next_seq_out: u64,
    /// The sequence number expected on the next incoming frame; starts at 1.
    pub expected_seq_in: u64,
    /// Frames that may still be sent before the peer grants more credit.
    pub credits: u32,
    /// Frames waiting for credit, oldest first.
    pub pending_out: VecDeque<String>,
    /// The highest sequence number that the peer has acknowledged.
    pub acks: u64,
    /// The sequence numbers handed out so far, in order.
    pub issued: Ghost<Seq<u64>>,
    /// All credit granted since the lane was made.
    pub granted: Ghost<nat>,
    /// Frames that used a credit since the lane was made, sent at once or released
    /// from the queue.
    pub released: Ghost<nat>,
}

impl View for Lane {
    type V = LaneState;

    open spec fn view(&self) -> LaneState {
        LaneState {
            next_seq_out: self.next_seq_out,
            expected_seq_in: self.expected_seq_in,
            credits: self.credits,
            pending_out: self.pending_out@,
            acks: self.acks,
        }
    }
}

impl Lane {
    /// The lane's invariant: sequence numbers handed out are exactly `1..next_seq_out`,
    /// no acknowledgement runs ahead of them, and credit is conserved.
    pub open spec fn wf(&self) -> bool {
        &&& self.next_seq_out >= 1
        &&& self.issued@.len() + 1 == self.next_seq_out
        &&& forall|i: int| 0 <= i < self.issued@.len() ==> #[trigger] self.issued@[i] == i + 1
        &&& self.acks < self.next_seq_out
        &&& self.credits + self.released@ == INITIAL_CREDITS + self.granted@
    }

    /// A fresh lane with the default credit window.
    pub fn new(id: u16) -> (r: Lane)
        ensures
            r.wf(),
            r@ == fresh_lane(),
            r.id == id,
            r.next_seq_out == 1,
            r.expected_seq_in == 1,
            r.credits == INITIAL_CREDITS,
            r.pending_out@.len() == 0,
            r.acks == 0,
            r.issued@.len() == 0,
            r.granted@ == 0,
            r.released@ == 0,
    {
        Lane {
            id,
            next_seq_out: 1,
            expected_seq_in: 1,
            credits: INITIAL_CREDITS,
            pending_out: VecDeque::new(),
            acks: 0,
            issued: Ghost(Seq::empty()),
            granted: Ghost(0),
            released: Ghost(0),
        }
    }

    /// Classify the sequence number of an incoming frame, moving the expected number on
    /// when it is the one expected.
    pub fn receive(&mut self, seq: u64) -> (r: Arrival)
        requires
            old(self).wf(),
        ensures
            final(self).wf(),
            r == if seq == old(self).expected_seq_in {
                Arrival::InOrder
            } else if seq < old(self).expected_seq_in {
                Arrival::Duplicate
            } else {
                Arrival::Ahead
            },
            final(self).expected_seq_in == if seq == old(self).expected_seq_in
                && old(self).expected_seq_in < u64::MAX {
                (old(self).expected_seq_in + 1) as u64
            } else {
                old(self).expected_seq_in
            },
            final(self).id == old(self).id,
            final(self).next_seq_out == old(self).next_seq_out,
            final(self).credits == old(self).credits,
            final(self).pending_out == old(self).pending_out,
            final(self).acks == old(self).acks,
            final(self).issued == old(self).issued,
            final(self).granted == old(self).granted,
            final(self).released == old(self).released,
    {
        if seq == self.expected_seq_in {
            if self.expected_seq_in < u64::MAX {
                self.expected_seq_in = self.expected_seq_in + 1;
            }
            Arrival::InOrder
        } else if seq < self.expected_seq_in {
            Arrival::Duplicate
        } else {
            Arrival::Ahead
        }
    }

    /// Reserve the sequence number for the next outgoing frame.
    pub fn next_seq(&mut self) -> (r: u64)
        requires
            old(self).wf(),
            old(self).next_seq_out < u64::MAX,
        ensures
            final(self).wf(),
            r == old(self).next_seq_out,
            final(self).next_seq_out == old(self).next_seq_out + 1,
            final(self).issued@ == old(self).issued@.push(r),
            final(self).id == old(self).id,
            final(self).expected_seq_in == old(self).expected_seq_in,
            final(self).credits == old(self).credits,
            final(self).pending_out == old(self).pending_out,
            final(self).acks == old(self).acks,
            final(self).granted == old(self).granted,
            final(self).released == old(self).released,
    {
        let seq = self.next_seq_out;
        self.next_seq_out = self.next_seq_out + 1;
        self.issued = Ghost(self.issued@.push(seq));
        seq
    }

    /// Record an acknowledgement. Only one for a sequence number that was handed out and
    /// lies above the highest so far moves it; others are ignored.
    pub fn ack(&mut self, seq: u64)
        requires
            old(self).wf(),
        ensures
            final(self).wf(),
            final(self).acks == if old(self).acks < seq && seq < old(self).next_seq_out {
                seq
            } else {
                old(self).acks
            },
            final(self).id == old(self).id,
            final(self).next_seq_out == old(self).next_seq_out,
            final(self).expected_seq_in == old(self).expected_seq_in,
            final(self).credits == old(self).credits,
            final(self).pending_out == old(self).pending_out,
            final(self).issued == old(self).issued,
            final(self).granted == old(self).granted,
            final(self).released == old(self).released,
    {
        if seq > self.acks && seq < self.next_seq_out {
            self.acks = seq;
        }
    }

    /// Grant `n` more credits.
    pub fn add_credit(&mut self, n: u32)
        requires
            old(self).wf(),
            old(self).credits + n <= u32::MAX,
        ensures
            final(self).wf(),
            final(self).credits == old(self).credits + n,
            final(self).granted@ == old(self).granted@ + n,
            final(self).id == old(self).id,
            final(self).next_seq_out == old(self).next_seq_out,
            final(self).expected_seq_in == old(self).expected_seq_in,
            final(self).pending_out == old(self).pending_out,
            final(self).acks == old(self).acks,
            final(self).issued == old(self).issued,
            final(self).released == old(self).released,
    {
        self.credits = self.credits + n;
        self.granted = Ghost((self.granted@ + n) as nat);
    }

    /// Send `msg` now when credit remains, using one; otherwise queue it at the tail.
    pub fn try_send(&mut self, msg: String) -> (r: Option<String>)
        requires
            old(self).wf(),
        ensures
            final(self).wf(),
            old(self).credits > 0 ==> {
                &&& r == Some(msg)
                &&& final(self).credits == old(self).credits - 1
                &&& final(self).released@ == old(self).released@ + 1
                &&& final(self).pending_out@ == old(self).pending_out@
            },
            old(self).credits == 0 ==> {
                &&& r.is_none()
                &&& final(self).credits == 0
                &&& final(self).released == old(self).released
                &&& final(self).pending_out@ == old(self).pending_out@.push(msg)
            },
            final(self).id == old(self).id,
            final(self).next_seq_out == old(self).next_seq_out,
            final(self).expected_seq_in == old(self).expected_seq_in,
            final(self).acks == old(self).acks,
            final(self).issued == old(self).issued,
            final(self).granted == old(self).granted,
    {
        if self.credits > 0 {
            self.credits = self.credits - 1;
            self.released = Ghost((self.released@ + 1) as nat);
            Some(msg)
        } else {
            self.pending_out.push_back(msg);
            None
        }
    }

    /// Release queued frames, oldest first, one credit each, while both last.
    pub fn flush_pending(&mut self) -> (r: Vec<String>)
        requires
            old(self).wf(),
        ensures
            final(self).wf(),
            ({
                let m = if old(self).credits as nat <= old(self).pending_out@.len() {
                    old(self).credits as nat
                } else {
                    old(self).pending_out@.len()
                };
                &&& r@ == old(self).pending_out@.take(m as int)
                &&& final(self).pending_out@ == old(self).pending_out@.skip(m as int)
                &&& final(self).credits == old(self).credits - m
                &&& final(self).released@ == old(self).released@ + m
            }),
            final(self).id == old(self).id,
            final(self).next_seq_out == old(self).next_seq_out,
            final(self).expected_seq_in == old(self).expected_seq_in,
            final(self).acks == old(self).acks,
            final(self).issued == old(self).issued,
            final(self).granted == old(self).granted,
    {
        let ghost q0 = self.pending_out@;
        let mut released: Vec<String> = Vec::new();
        while self.credits > 0 && self.pending_out.len() > 0
            invariant
                self.wf(),
                released@.len() <= q0.len(),
                released@ == q0.take(released@.len() as int),
                self.pending_out@ == q0.skip(released@.len() as int),
                self.credits + released@.len() == old(self).credits,
                self.released@ == old(self).released@ + released@.len(),
                self.id == old(self).id,
                self.next_seq_out == old(self).next_seq_out,
                self.expected_seq_in == old(self).expected_seq_in,
                self.acks == old(self).acks,
                self.issued == old(self).issued,
                self.granted == old(self).granted,
            decreases self.pending_out@.len(),
        {
            let msg = self.pending_out.pop_front();
            match msg {
                Some(m) => {
                    proof {
                        assert(q0.take(released@.len() + 1int) =~= released@.push(m));
                        assert(q0.skip(released@.len() + 1int) =~= self.pending_out@);
                    }
                    released.push(m);
                    self.credits = self.credits - 1;
                    self.released = Ghost((self.released@ + 1) as nat);
                },
                None => {},
            }
        }
        released
    }
}

/// Every sequence number that a lane has handed out is one of `1..=k`, each exactly once
/// and in increasing order, where `k` is the number of `next_seq` calls.
pub proof fn lemma_lane_sequencing(l: Lane)
    requires
        l.wf(),
    ensures
        l.issued@.len() == l.next_seq_out - 1,
        l.issued@ == Seq::new(l.issued@.len(), |i: int| (i + 1) as u64),
        forall|i: int, j: int| 0 <= i < j < l.issued@.len() ==> l.issued@[i] < l.issued@[j],
{
    assert(l.issued@ =~= Seq::new(l.issued@.len(), |i: int| (i + 1) as u64));
}

/// Credit is conserved on a lane: what remains plus what was used equals the initial
/// window plus every grant.
pub proof fn lemma_credit_conservation(l: Lane)
    requires
        l.wf(),
    ensures
        l.credits + l.released@ == INITIAL_CREDITS + l.granted@,
{
}

} // verus!
