//! The lanes of one tunnel, keyed by lane id and made on first use.
use vstd::prelude::*;
use std::collections::HashMap;
use crate::lane::{fresh_lane, Arrival, Lane, LaneState};

verus! {

broadcast use vstd::std_specs::hash::group_hash_axioms;

/// The state of lane `id` in `m`, or that of a fresh lane when there is none yet.
pub open spec fn lane_state(m: Map<u16, LaneState>, id: u16) -> LaneState {
    if m.contains_key(id) {
        m[id]
    } else {
        fresh_lane()
    }
}

/// The smaller of two credit amounts.
pub open spec fn min_nat(a: nat, b: nat) -> nat {
    if a <= b {
        a
    } else {
        b
    }
}

/// A lane after an acknowledgement of `seq`: it moves only for a number that was handed
/// out and lies above the highest so far.
pub open spec fn acked(l: LaneState, seq: u64) -> LaneState {
    LaneState {
        acks: if l.acks < seq && seq < l.next_seq_out {
            seq
        } else {
            l.acks
        },
        ..l
    }
}

/// The lanes after an acknowledgement of `seq` on lane `id`; a missing lane stays missing.
pub open spec fn ack_lanes(m: Map<u16, LaneState>, id: u16, seq: u64) -> Map<u16, LaneState> {
    if m.contains_key(id) {
        m.insert(id, acked(m[id], seq))
    } else {
        m
    }
}

/// The credit of lane `id` after a grant of `n`, before queued frames are released.
pub open spec fn credit_after_grant(m: Map<u16, LaneState>, id: u16, n: u32) -> nat {
    let l = lane_state(m, id);
    (l.credits + min_nat(n as nat, (u32::MAX - l.credits) as nat)) as nat
}

/// How many queued frames a grant of `n` on lane `id` releases.
pub open spec fn released_count(m: Map<u16, LaneState>, id: u16, n: u32) -> nat {
    min_nat(credit_after_grant(m, id, n), lane_state(m, id).pending_out.len())
}

/// The frames that a grant of `n` on lane `id` releases, oldest first.
pub open spec fn credit_released(m: Map<u16, LaneState>, id: u16, n: u32) -> Seq<String> {
    lane_state(m, id).pending_out.take(released_count(m, id, n) as int)
}

/// The lanes after a grant of `n` on lane `id` and the release it allows.
pub open spec fn credit_lanes(m: Map<u16, LaneState>, id: u16, n: u32) -> Map<u16, LaneState> {
    let l = lane_state(m, id);
    let k = released_count(m, id, n);
    m.insert(
        id,
        LaneState {
            credits: (credit_after_grant(m, id, n) - k) as u32,
            pending_out: l.pending_out.skip(k as int),
            ..l
        },
    )
}

/// The registry of a tunnel's lanes.
pub struct LaneManager {
    lanes: HashMap<u16, Lane>,
}

impl View for LaneManager {
    type V = Map<u16, LaneState>;

    closed spec fn view(&self) -> Map<u16, LaneState> {
        self.lanes@.map_values(|l: Lane| l@)
    }
}

impl LaneManager {
    /// Every lane is well formed and filed under its own id.
    pub closed spec fn wf(&self) -> bool {
        forall|id: u16| #[trigger]
            self.lanes@.contains_key(id) ==> self.lanes@[id].wf() && self.lanes@[id].id == id
    }

    /// A registry with no lanes.
    pub fn new() -> (r: LaneManager)
        ensures
            r.wf(),
            r@ == Map::<u16, LaneState>::empty(),
    {
        let r = LaneManager { lanes: HashMap::new() };
        assert(r@ =~= Map::<u16, LaneState>::empty());
        r
    }

    /// Take lane `id` out of the registry, or make it.
    fn take_lane(&mut self, id: u16) -> (l: Lane)
        requires
            old(self).wf(),
        ensures
            final(self).wf(),
            l.wf(),
            l.id == id,
            l@ == lane_state(old(self)@, id),
            final(self)@ == old(self)@.remove(id),
    {
        let r = self.lanes.remove(&id);
        proof {
            assert(self@ =~= old(self)@.remove(id));
        }
        match r {
            Some(l) => l,
            None => Lane::new(id),
        }
    }

    /// File `l` under its id.
    fn put_lane(&mut self, l: Lane)
        requires
            old(self).wf(),
            l.wf(),
        ensures
            final(self).wf(),
            final(self)@ == old(self)@.insert(l.id, l@),
    {
        let id = l.id;
        let ghost lv = l@;
        self.lanes.insert(id, l);
        proof {
            assert(self@ =~= old(self)@.insert(id, lv));
        }
    }

    /// Lane `id`, made when it does not exist yet.
    pub fn lane(&mut self, id: u16) -> (r: &Lane)
        requires
            old(self).wf(),
        ensures
            final(self).wf(),
            final(self)@ == old(self)@.insert(id, lane_state(old(self)@, id)),
            r@ == lane_state(old(self)@, id),
            r.id == id,
    {
        let l = self.take_lane(id);
        self.put_lane(l);
        proof {
            assert(self@.contains_key(id));
            assert(self.lanes@.contains_key(id));
            assert(self@[id] == self.lanes@[id]@);
        }
        self.lanes.get(&id).unwrap()
    }

    /// Reserve the next outgoing sequence number of lane `id`; `None` once the
    /// numbers are used up.
    pub fn next_seq(&mut self, id: u16) -> (r: Option<u64>)
        requires
            old(self).wf(),
        ensures
            final(self).wf(),
            ({
                let l = lane_state(old(self)@, id);
                if l.next_seq_out < u64::MAX {
                    &&& r == Some(l.next_seq_out)
                    &&& final(self)@ == old(self)@.insert(
                        id,
                        LaneState { next_seq_out: (l.next_seq_out + 1) as u64, ..l },
                    )
                } else {
                    &&& r.is_none()
                    &&& final(self)@ == old(self)@.insert(id, l)
                }
            }),
    {
        let mut l = self.take_lane(id);
        let r = if l.next_seq_out < u64::MAX {
            Some(l.next_seq())
        } else {
            None
        };
        self.put_lane(l);
        r
    }

    /// Record an acknowledgement on lane `id`; nothing happens for a lane that does not exist.
    pub fn ack(&mut self, id: u16, seq: u64)
        requires
            old(self).wf(),
        ensures
            final(self).wf(),
            final(self)@ == ack_lanes(old(self)@, id, seq),
    {
        if self.lanes.contains_key(&id) {
            let mut l = self.take_lane(id);
            l.ack(seq);
            self.put_lane(l);
        }
    }

    /// Grant credit to lane `id` (made if new) and release what its queue may now send.
    /// Credit beyond the largest window is not granted.
    pub fn add_credit(&mut self, id: u16, n: u32) -> (r: Vec<String>)
        requires
            old(self).wf(),
        ensures
            final(self).wf(),
            r@ == credit_released(old(self)@, id, n),
            final(self)@ == credit_lanes(old(self)@, id, n),
    {
        let mut l = self.take_lane(id);
        let room = u32::MAX - l.credits;
        let g = if n <= room {
            n
        } else {
            room
        };
        l.add_credit(g);
        let r = l.flush_pending();
        self.put_lane(l);
        r
    }

    /// Send `msg` on lane `id` (made if new) when it has credit, or queue it.
    pub fn send_or_queue(&mut self, id: u16, msg: String) -> (r: Option<String>)
        requires
            old(self).wf(),
        ensures
            final(self).wf(),
            ({
                let l = lane_state(old(self)@, id);
                if l.credits > 0 {
                    &&& r == Some(msg)
                    &&& final(self)@ == old(self)@.insert(
                        id,
                        LaneState { credits: (l.credits - 1) as u32, ..l },
                    )
                } else {
                    &&& r.is_none()
                    &&& final(self)@ == old(self)@.insert(
                        id,
                        LaneState { pending_out: l.pending_out.push(msg), ..l },
                    )
                }
            }),
    {
        let mut l = self.take_lane(id);
        let r = l.try_send(msg);
        self.put_lane(l);
        r
    }

    /// Classify an incoming sequence number on lane `id` (made if new).
    pub fn receive(&mut self, id: u16, seq: u64) -> (r: Arrival)
        requires
            old(self).wf(),
        ensures
            final(self).wf(),
            ({
                let l = lane_state(old(self)@, id);
                &&& r == if seq == l.expected_seq_in {
                    Arrival::InOrder
                } else if seq < l.expected_seq_in {
                    Arrival::Duplicate
                } else {
                    Arrival::Ahead
                }
                &&& final(self)@ == old(self)@.insert(
                    id,
                    LaneState {
                        expected_seq_in: if seq == l.expected_seq_in && l.expected_seq_in
                            < u64::MAX {
                            (l.expected_seq_in + 1) as u64
                        } else {
                            l.expected_seq_in
                        },
                        ..l
                    },
                )
            }),
    {
        let mut l = self.take_lane(id);
        let r = l.receive(seq);
        self.put_lane(l);
        r
    }
}

} // verus!
