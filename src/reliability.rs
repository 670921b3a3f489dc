//! Retransmission of frames that the peer has not acknowledged yet.
use vstd::prelude::*;

verus! {

/// A frame awaiting acknowledgement, keyed by lane and sequence number.
#[derive(Debug)]
pub struct PendingFrame {
    pub lane: u16,
    pub seq: u64,
    /// The frame's wire text.
    pub data: String,
    /// When it was last sent, in milliseconds.
    pub last_sent: u64,
    /// How many times it has been sent.
    pub attempts: u8,
}

/// The key of a pending frame.
pub open spec fn key_of(e: PendingFrame) -> (u16, u64) {
    (e.lane, e.seq)
}

/// Whether a pending frame is due to be sent again at `now`.
pub open spec fn is_due(e: PendingFrame, now: u64, interval: u64, max_retries: u8) -> bool {
    now >= e.last_sent && now - e.last_sent >= interval && e.attempts < max_retries
}

/// The pending frames other than the one with key `k`, in order.
pub open spec fn drop_key(s: Seq<PendingFrame>, k: (u16, u64)) -> Seq<PendingFrame>
    decreases s.len(),
{
    if s.len() == 0 {
        s
    } else if key_of(s.last()) == k {
        drop_key(s.drop_last(), k)
    } else {
        drop_key(s.drop_last(), k).push(s.last())
    }
}

/// The pending frames after a scan at `now`: each due one marked as sent again.
pub open spec fn after_scan(
    s: Seq<PendingFrame>,
    now: u64,
    interval: u64,
    max_retries: u8,
) -> Seq<PendingFrame> {
    s.map_values(
        |e: PendingFrame|
            if is_due(e, now, interval, max_retries) {
                PendingFrame { last_sent: now, attempts: (e.attempts + 1) as u8, ..e }
            } else {
                e
            },
    )
}

/// The texts of the frames that a scan at `now` sends again, in order.
pub open spec fn due_data(s: Seq<PendingFrame>, now: u64, interval: u64, max_retries: u8) -> Seq<
    String,
>
    decreases s.len(),
{
    if s.len() == 0 {
        Seq::empty()
    } else if is_due(s.last(), now, interval, max_retries) {
        due_data(s.drop_last(), now, interval, max_retries).push(s.last().data)
    } else {
        due_data(s.drop_last(), now, interval, max_retries)
    }
}

/// Keys of the frames in `s` that were sent at least `max_retries` times, in order.
pub open spec fn exhausted_keys(s: Seq<PendingFrame>, max_retries: u8) -> Seq<(u16, u64)>
    decreases s.len(),
{
    if s.len() == 0 {
        Seq::empty()
    } else if s.last().attempts >= max_retries {
        exhausted_keys(s.drop_last(), max_retries).push(key_of(s.last()))
    } else {
        exhausted_keys(s.drop_last(), max_retries)
    }
}

/// A copy of a pending frame.
pub fn copy_pending(e: &PendingFrame) -> (r: PendingFrame)
    ensures
        r == *e,
{
    PendingFrame {
        lane: e.lane,
        seq: e.seq,
        data: e.data.clone(),
        last_sent: e.last_sent,
        attempts: e.attempts,
    }
}

/// No two pending frames share a key.
pub open spec fn keys_unique(s: Seq<PendingFrame>) -> bool {
    forall|i: int, j: int|
        0 <= i < j < s.len() ==> key_of(#[trigger] s[i]) != key_of(#[trigger] s[j])
}

/// Whether some pending frame has key `k`.
pub open spec fn has_key(s: Seq<PendingFrame>, k: (u16, u64)) -> bool {
    exists|i: int| 0 <= i < s.len() && key_of(#[trigger] s[i]) == k
}

pub proof fn lemma_drop_key_absent(s: Seq<PendingFrame>, k: (u16, u64))
    ensures
        !has_key(drop_key(s, k), k),
        forall|j: int|
            0 <= j < drop_key(s, k).len() ==> #[trigger] drop_key(s, k)[j] == drop_key(s, k)[j]
                && s.contains(drop_key(s, k)[j]),
    decreases s.len(),
{
    if s.len() > 0 {
        let d = s.drop_last();
        lemma_drop_key_absent(d, k);
        let r = drop_key(s, k);
        assert forall|j: int| 0 <= j < r.len() implies s.contains(#[trigger] r[j]) by {
            if key_of(s.last()) == k || j < r.len() - 1 {
                assert(d.contains(r[j]));
                let t = choose|t: int| 0 <= t < d.len() && d[t] == r[j];
                assert(s[t] == r[j]);
            } else {
                assert(s[s.len() - 1] == r[j]);
            }
        }
        if has_key(r, k) {
            let i = choose|i: int| 0 <= i < r.len() && key_of(#[trigger] r[i]) == k;
            if key_of(s.last()) != k && i == r.len() - 1 {
            } else {
                assert(key_of(drop_key(d, k)[i]) == k);
            }
        }
    }
}

pub proof fn lemma_drop_key_keeps_unique(s: Seq<PendingFrame>, k: (u16, u64))
    requires
        keys_unique(s),
    ensures
        keys_unique(drop_key(s, k)),
    decreases s.len(),
{
    if s.len() > 0 {
        let d = s.drop_last();
        lemma_drop_key_keeps_unique(d, k);
        lemma_drop_key_absent(d, k);
        let r = drop_key(s, k);
        if key_of(s.last()) != k {
            assert forall|i: int, j: int|
                0 <= i < j < r.len() implies key_of(#[trigger] r[i]) != key_of(#[trigger] r[j]) by {
                if j == r.len() - 1 {
                    assert(d.contains(r[i]));
                    let t = choose|t: int| 0 <= t < d.len() && d[t] == r[i];
                    assert(s[t] == r[i]);
                    assert(s[s.len() - 1] == r[j]);
                }
            }
        }
    }
}

pub proof fn lemma_drop_key_missing(s: Seq<PendingFrame>, k: (u16, u64))
    requires
        !has_key(s, k),
    ensures
        drop_key(s, k) == s,
    decreases s.len(),
{
    if s.len() > 0 {
        let d = s.drop_last();
        assert(!has_key(d, k)) by {
            if has_key(d, k) {
                let i = choose|i: int| 0 <= i < d.len() && key_of(#[trigger] d[i]) == k;
                assert(s[i] == d[i]);
            }
        }
        lemma_drop_key_missing(d, k);
        assert(key_of(s[s.len() - 1]) != k);
        assert(d.push(s.last()) =~= s);
    }
}

/// Tracks outbound frames until they are acknowledged and decides when to resend them.
pub struct ReliabilityManager {
    /// Frames awaiting acknowledgement, oldest first.
    pub pending: Vec<PendingFrame>,
    /// Time between resends, in milliseconds.
    pub resend_interval: u64,
    /// The most times a frame is sent.
    pub max_retries: u8,
}

impl ReliabilityManager {
    /// The frames awaiting acknowledgement, oldest first.
    pub open spec fn pending(&self) -> Seq<PendingFrame> {
        self.pending@
    }

    /// Keys are unique, and no frame was sent more often than allowed.
    pub open spec fn wf(&self) -> bool {
        &&& keys_unique(self.pending())
        &&& forall|i: int|
            0 <= i < self.pending().len() ==> {
                let a = (#[trigger] self.pending()[i]).attempts;
                a >= 1 && (a <= self.max_retries || a == 1)
            }
    }

    /// A manager with nothing pending.
    pub fn new(resend_interval: u64, max_retries: u8) -> (r: ReliabilityManager)
        ensures
            r.wf(),
            r.pending() == Seq::<PendingFrame>::empty(),
            r.resend_interval == resend_interval,
            r.max_retries == max_retries,
    {
        ReliabilityManager { pending: Vec::new(), resend_interval, max_retries }
    }

    /// The frames awaiting acknowledgement.
    pub fn pending_frames(&self) -> (r: &Vec<PendingFrame>)
        ensures
            r@ == self.pending(),
    {
        &self.pending
    }

    /// Start tracking a frame that was just sent at `now`, replacing any earlier entry
    /// under the same key.
    pub fn track_frame(&mut self, lane: u16, seq: u64, data: String, now: u64)
        requires
            old(self).wf(),
        ensures
            final(self).wf(),
            final(self).pending() == drop_key(old(self).pending(), (lane, seq)).push(
                PendingFrame { lane, seq, data, last_sent: now, attempts: 1 },
            ),
            final(self).resend_interval == old(self).resend_interval,
            final(self).max_retries == old(self).max_retries,
    {
        self.confirm_ack(lane, seq);
        let ghost before = self.pending();
        let e = PendingFrame { lane, seq, data, last_sent: now, attempts: 1 };
        self.pending.push(e);
        proof {
            assert(!has_key(before, (lane, seq)));
            assert forall|i: int, j: int|
                0 <= i < j < self.pending@.len() implies key_of(#[trigger] self.pending@[i])
                != key_of(#[trigger] self.pending@[j]) by {
                if j == self.pending@.len() - 1 {
                    assert(before[i] == self.pending@[i]);
                }
            }
        }
    }

    /// Stop tracking the frame with this key: its acknowledgement has arrived.
    pub fn confirm_ack(&mut self, lane: u16, seq: u64)
        requires
            old(self).wf(),
        ensures
            final(self).wf(),
            final(self).pending() == drop_key(old(self).pending(), (lane, seq)),
            !has_key(final(self).pending(), (lane, seq)),
            final(self).resend_interval == old(self).resend_interval,
            final(self).max_retries == old(self).max_retries,
    {
        let ghost s = self.pending@;
        let ghost k = (lane, seq);
        let mut kept: Vec<PendingFrame> = Vec::new();
        let mut i: usize = 0;
        while i < self.pending.len()
            invariant
                i <= s.len(),
                self.pending@ == s,
                k == (lane, seq),
                kept@ == drop_key(s.take(i as int), k),
            decreases s.len() - i,
        {
            let e = copy_pending(&self.pending[i]);
            proof {
                assert(s.take(i + 1).drop_last() =~= s.take(i as int));
                assert(s.take(i + 1).last() == e);
            }
            let ghost t = s.take(i + 1);
            proof {
                assert(drop_key(t, k) == if key_of(t.last()) == k {
                    drop_key(t.drop_last(), k)
                } else {
                    drop_key(t.drop_last(), k).push(t.last())
                });
            }
            if !(e.lane == lane && e.seq == seq) {
                kept.push(e);
            }
            i = i + 1;
        }
        proof {
            assert(s.take(i as int) =~= s);
            lemma_drop_key_absent(s, k);
            lemma_drop_key_keeps_unique(s, k);
            assert forall|j: int| 0 <= j < kept@.len() implies {
                let a = (#[trigger] kept@[j]).attempts;
                a >= 1 && (a <= self.max_retries || a == 1)
            } by {
                assert(s.contains(kept@[j]));
            }
        }
        self.pending = kept;
    }

    /// Scan at `now`: every frame whose interval has passed and that may still be retried
    /// is marked as sent again; their texts are returned, in order, for sending.
    pub fn resend_due(&mut self, now: u64) -> (r: Vec<String>)
        requires
            old(self).wf(),
        ensures
            final(self).wf(),
            final(self).pending() == after_scan(
                old(self).pending(),
                now,
                old(self).resend_interval,
                old(self).max_retries,
            ),
            r@ == due_data(old(self).pending(), now, old(self).resend_interval, old(self).max_retries),
            final(self).resend_interval == old(self).resend_interval,
            final(self).max_retries == old(self).max_retries,
    {
        let ghost s = self.pending@;
        let interval = self.resend_interval;
        let max = self.max_retries;
        let mut next: Vec<PendingFrame> = Vec::new();
        let mut out: Vec<String> = Vec::new();
        let mut i: usize = 0;
        while i < self.pending.len()
            invariant
                i <= s.len(),
                self.pending@ == s,
                interval == self.resend_interval,
                max == self.max_retries,
                next@ == after_scan(s.take(i as int), now, interval, max),
                out@ == due_data(s.take(i as int), now, interval, max),
            decreases s.len() - i,
        {
            let e = copy_pending(&self.pending[i]);
            proof {
                assert(s.take(i + 1).drop_last() =~= s.take(i as int));
            }
            if now >= e.last_sent && now - e.last_sent >= interval && e.attempts < max {
                out.push(e.data.clone());
                next.push(PendingFrame { last_sent: now, attempts: e.attempts + 1, ..e });
            } else {
                next.push(e);
            }
            proof {
                assert(next@ =~= after_scan(s.take(i + 1), now, interval, max));
            }
            i = i + 1;
        }
        proof {
            assert(s.take(i as int) =~= s);
            assert forall|a: int, b: int|
                0 <= a < b < next@.len() implies key_of(#[trigger] next@[a]) != key_of(
                #[trigger] next@[b],
            ) by {
                assert(key_of(next@[a]) == key_of(s[a]));
                assert(key_of(next@[b]) == key_of(s[b]));
            }
        }
        self.pending = next;
        out
    }

    /// Keys of the frames that were sent the greatest number of times and are still
    /// unacknowledged, in order.
    pub fn exhausted(&self) -> (r: Vec<(u16, u64)>)
        ensures
            r@ == exhausted_keys(self.pending(), self.max_retries),
    {
        let mut out: Vec<(u16, u64)> = Vec::new();
        let mut i: usize = 0;
        while i < self.pending.len()
            invariant
                i <= self.pending@.len(),
                out@ == exhausted_keys(self.pending@.take(i as int), self.max_retries),
            decreases self.pending@.len() - i,
        {
            proof {
                assert(self.pending@.take(i + 1).drop_last() =~= self.pending@.take(i as int));
            }
            let e = &self.pending[i];
            if e.attempts >= self.max_retries {
                out.push((e.lane, e.seq));
            }
            i = i + 1;
        }
        proof {
            assert(self.pending@.take(i as int) =~= self.pending@);
        }
        out
    }
}

/// Dropping one key keeps every entry with another key.
pub proof fn lemma_drop_key_keeps(s: Seq<PendingFrame>, k: (u16, u64), k2: (u16, u64))
    requires
        has_key(s, k2),
        k2 != k,
    ensures
        has_key(drop_key(s, k), k2),
    decreases s.len(),
{
    let d = s.drop_last();
    if key_of(s.last()) == k2 {
        let r = drop_key(s, k);
        assert(r.last() == s.last());
    } else {
        let i = choose|i: int| 0 <= i < s.len() && key_of(#[trigger] s[i]) == k2;
        assert(i < s.len() - 1);
        assert(d[i] == s[i]);
        lemma_drop_key_keeps(d, k, k2);
        let r = drop_key(s, k);
        let dd = drop_key(d, k);
        let j = choose|j: int| 0 <= j < dd.len() && key_of(#[trigger] dd[j]) == k2;
        if key_of(s.last()) != k {
            assert(r[j] == dd[j]);
        }
    }
}

/// After tracking a frame under key `k`, key `k` and every key tracked before are present.
pub proof fn lemma_track_has(s: Seq<PendingFrame>, k: (u16, u64), e: PendingFrame, k2: (u16, u64))
    requires
        key_of(e) == k,
        has_key(s, k2) || k2 == k,
    ensures
        has_key(drop_key(s, k).push(e), k2),
{
    let r = drop_key(s, k).push(e);
    if k2 == k {
        assert(r[r.len() - 1] == e);
    } else {
        lemma_drop_key_keeps(s, k, k2);
        let d = drop_key(s, k);
        let j = choose|j: int| 0 <= j < d.len() && key_of(#[trigger] d[j]) == k2;
        assert(r[j] == d[j]);
    }
}

/// Dropping a key twice is dropping it once.
pub proof fn lemma_drop_key_idempotent(s: Seq<PendingFrame>, k: (u16, u64))
    ensures
        drop_key(drop_key(s, k), k) == drop_key(s, k),
{
    lemma_drop_key_absent(s, k);
    lemma_drop_key_missing(drop_key(s, k), k);
}

} // verus!
