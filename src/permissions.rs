//! Capability grants with a time to live, and the checks made against them.
use vstd::prelude::*;
use crate::assoc::{assoc, lemma_assoc_absent, lemma_assoc_last, lemma_assoc_push,
    lemma_assoc_update, lemma_assoc_without, without};
use crate::clock::now_secs;

verus! {

/// A named right that a subject may be granted.
#[derive(Debug, Clone, Copy, PartialEq, Eq, Structural, Hash)]
pub enum Capability {
    Fetch,
    List,
    Publish,
    Subscribe,
    ManageWarren,
    ManageBurrows,
    Federation,
    UIControl,
}

/// What a grant says: the capabilities, and when it was issued and expires (seconds).
pub struct GrantModel {
    pub caps: Set<Capability>,
    pub issued_at: i64,
    pub expires_at: i64,
}

/// Capabilities held by a subject (a burrow id or a session token) until `expires_at`.
#[derive(Debug)]
pub struct Grant {
    pub subject: String,
    pub caps: Vec<Capability>,
    pub issued_at: i64,
    pub expires_at: i64,
}

impl View for Grant {
    type V = GrantModel;

    open spec fn view(&self) -> GrantModel {
        GrantModel { caps: self.caps@.to_set(), issued_at: self.issued_at, expires_at: self.expires_at }
    }
}

/// `now + ttl`, held within the range of `i64`.
pub open spec fn expiry(now: i64, ttl: i64) -> i64 {
    if now + ttl > i64::MAX {
        i64::MAX
    } else if now + ttl < i64::MIN {
        i64::MIN
    } else {
        (now + ttl) as i64
    }
}

pub fn expiry_of(now: i64, ttl: i64) -> (r: i64)
    ensures
        r == expiry(now, ttl),
{
    let s = now as i128 + ttl as i128;
    if s > i64::MAX as i128 {
        i64::MAX
    } else if s < i64::MIN as i128 {
        i64::MIN
    } else {
        s as i64
    }
}

/// Whether the grants `m` let `subject` use `cap` at time `now`.
pub open spec fn allowed_in(
    m: Map<Seq<char>, GrantModel>,
    subject: Seq<char>,
    cap: Capability,
    now: i64,
) -> bool {
    m.contains_key(subject) && now < m[subject].expires_at && m[subject].caps.contains(cap)
}

/// The entries of a list of grants, keyed by subject.
pub open spec fn grant_entries(s: Seq<Grant>) -> Seq<(Seq<char>, GrantModel)> {
    s.map_values(|g: Grant| (g.subject@, g@))
}

/// A copy of a list of capabilities.
pub fn copy_caps(v: &Vec<Capability>) -> (r: Vec<Capability>)
    ensures
        r@ == v@,
{
    let mut out: Vec<Capability> = Vec::new();
    let mut i: usize = 0;
    while i < v.len()
        invariant
            i <= v@.len(),
            out@ == v@.take(i as int),
        decreases v@.len() - i,
    {
        out.push(v[i]);
        proof {
            assert(out@ =~= v@.take(i + 1));
        }
        i = i + 1;
    }
    proof {
        assert(v@.take(i as int) =~= v@);
    }
    out
}

/// Whether `cap` is among `v`.
pub fn caps_contain(v: &Vec<Capability>, cap: Capability) -> (r: bool)
    ensures
        r == v@.contains(cap),
{
    let mut j: usize = 0;
    while j < v.len()
        invariant
            j <= v@.len(),
            forall|t: int| 0 <= t < j ==> v@[t] != cap,
        decreases v@.len() - j,
    {
        if v[j] == cap {
            return true;
        }
        j = j + 1;
    }
    false
}

/// The grants in force, keyed by subject; a new grant replaces the old one.
pub struct CapabilityManager {
    pub grants: Vec<Grant>,
}

impl View for CapabilityManager {
    type V = Map<Seq<char>, GrantModel>;

    open spec fn view(&self) -> Map<Seq<char>, GrantModel> {
        assoc(grant_entries(self.grants@))
    }
}

impl CapabilityManager {
    /// A manager with no grants.
    pub fn new() -> (r: CapabilityManager)
        ensures
            r@ == Map::<Seq<char>, GrantModel>::empty(),
    {
        CapabilityManager { grants: Vec::new() }
    }

    /// Position just after the last grant for `subject`, or 0 when there is none.
    fn find(&self, subject: &str) -> (i: usize)
        ensures
            i <= self.grants@.len(),
            forall|j: int| i <= j < self.grants@.len() ==> (#[trigger] self.grants@[j]).subject@ != subject@,
            i > 0 ==> self.grants@[i - 1].subject@ == subject@,
    {
        let k = subject.to_owned();
        let mut i = self.grants.len();
        while i > 0 && !(self.grants[i - 1].subject == k)
            invariant
                i <= self.grants@.len(),
                k@ == subject@,
                forall|j: int| i <= j < self.grants@.len() ==> (#[trigger] self.grants@[j]).subject@ != subject@,
            decreases i,
        {
            i = i - 1;
        }
        i
    }

    /// Grant `caps` to `subject` from `now` for `ttl_secs` seconds, replacing any grant
    /// it had.
    pub fn grant_at(&mut self, subject: &str, caps: Vec<Capability>, ttl_secs: i64, now: i64)
        ensures
            final(self)@ == old(self)@.insert(
                subject@,
                GrantModel { caps: caps@.to_set(), issued_at: now, expires_at: expiry(now, ttl_secs) },
            ),
    {
        let g = Grant {
            subject: subject.to_owned(),
            caps,
            issued_at: now,
            expires_at: expiry_of(now, ttl_secs),
        };
        let ghost e = (g.subject@, g@);
        let i = self.find(subject);
        let ghost es = grant_entries(self.grants@);
        proof {
            assert forall|j: int| i <= j < es.len() implies (#[trigger] es[j]).0 != subject@ by {
                assert(es[j].0 == self.grants@[j].subject@);
            }
        }
        if i > 0 {
            proof {
                lemma_assoc_update(es, i - 1, e);
            }
            self.grants.set(i - 1, g);
            proof {
                assert(grant_entries(self.grants@) =~= es.update(i - 1, e));
            }
        } else {
            proof {
                lemma_assoc_push(es, e);
            }
            self.grants.push(g);
            proof {
                assert(grant_entries(self.grants@) =~= es.push(e));
            }
        }
    }

    /// Grant `caps` to `subject` for `ttl_secs` seconds from now.
    pub fn grant(&mut self, subject: &str, caps: Vec<Capability>, ttl_secs: i64)
        ensures
            final(self)@.contains_key(subject@),
            ({
                let t = final(self)@[subject@].issued_at;
                final(self)@ == old(self)@.insert(
                    subject@,
                    GrantModel { caps: caps@.to_set(), issued_at: t, expires_at: expiry(t, ttl_secs) },
                )
            }),
    {
        let now = now_secs();
        self.grant_at(subject, caps, ttl_secs, now);
    }

    /// Whether `subject` holds `cap` under a grant that has not expired at `now`.
    pub fn allowed_at(&self, subject: &str, cap: Capability, now: i64) -> (r: bool)
        ensures
            r == allowed_in(self@, subject@, cap, now),
    {
        let i = self.find(subject);
        let ghost es = grant_entries(self.grants@);
        proof {
            assert forall|j: int| i <= j < es.len() implies (#[trigger] es[j]).0 != subject@ by {
                assert(es[j].0 == self.grants@[j].subject@);
            }
        }
        if i == 0 {
            proof {
                lemma_assoc_absent(es, subject@);
            }
            return false;
        }
        proof {
            lemma_assoc_last(es, subject@, i - 1);
        }
        let g = &self.grants[i - 1];
        now < g.expires_at && caps_contain(&g.caps, cap)
    }

    /// Whether `subject` holds `cap` under a grant that has not expired now.
    pub fn allowed(&self, subject: &str, cap: Capability) -> (r: bool)
        ensures
            r ==> self@.contains_key(subject@) && self@[subject@].caps.contains(cap),
    {
        let now = now_secs();
        self.allowed_at(subject, cap, now)
    }

    /// Withdraw whatever `subject` was granted.
    pub fn revoke(&mut self, subject: &str)
        ensures
            final(self)@ == old(self)@.remove(subject@),
    {
        let k = subject.to_owned();
        let ghost es = grant_entries(self.grants@);
        let mut kept: Vec<Grant> = Vec::new();
        let mut i: usize = 0;
        while i < self.grants.len()
            invariant
                i <= self.grants@.len(),
                k@ == subject@,
                es == grant_entries(self.grants@),
                grant_entries(kept@) == without(es.take(i as int), subject@),
            decreases self.grants@.len() - i,
        {
            proof {
                assert(es.take(i + 1).drop_last() =~= es.take(i as int));
                assert(es.take(i + 1).last() == es[i as int]);
            }
            if !(self.grants[i].subject == k) {
                let g = copy_grant(&self.grants[i]);
                let ghost before = kept@;
                kept.push(g);
                proof {
                    assert(grant_entries(kept@) =~= grant_entries(before).push(es[i as int]));
                }
            }
            i = i + 1;
        }
        proof {
            assert(es.take(i as int) =~= es);
            lemma_assoc_without(es, subject@);
        }
        self.grants = kept;
    }

    /// Copies of the grants, oldest first.
    pub fn list_grants(&self) -> (r: Vec<Grant>)
        ensures
            grant_entries(r@) == grant_entries(self.grants@),
    {
        let mut out: Vec<Grant> = Vec::new();
        let mut i: usize = 0;
        while i < self.grants.len()
            invariant
                i <= self.grants@.len(),
                grant_entries(out@) == grant_entries(self.grants@).take(i as int),
            decreases self.grants@.len() - i,
        {
            let g = copy_grant(&self.grants[i]);
            let ghost before = out@;
            out.push(g);
            proof {
                assert(grant_entries(out@) =~= grant_entries(before).push(
                    grant_entries(self.grants@)[i as int],
                ));
                assert(grant_entries(out@) =~= grant_entries(self.grants@).take(i + 1));
            }
            i = i + 1;
        }
        proof {
            assert(grant_entries(self.grants@).take(i as int) =~= grant_entries(self.grants@));
        }
        out
    }
}

/// A copy of a grant.
pub fn copy_grant(g: &Grant) -> (r: Grant)
    ensures
        r.subject@ == g.subject@,
        r@ == g@,
{
    Grant {
        subject: g.subject.clone(),
        caps: copy_caps(&g.caps),
        issued_at: g.issued_at,
        expires_at: g.expires_at,
    }
}

/// Right after a grant of `cap` for a positive time to live the subject may use it; from
/// the moment the time to live has run out it may not.
pub proof fn lemma_capability_expiry(
    grants: Map<Seq<char>, GrantModel>,
    subject: Seq<char>,
    caps: Seq<Capability>,
    cap: Capability,
    ttl: i64,
    now: i64,
    later: i64,
)
    requires
        caps.contains(cap),
        ttl > 0,
        now + ttl <= i64::MAX,
        later >= now + ttl,
    ensures
        ({
            let g = grants.insert(
                subject,
                GrantModel { caps: caps.to_set(), issued_at: now, expires_at: expiry(now, ttl) },
            );
            allowed_in(g, subject, cap, now) && !allowed_in(g, subject, cap, later)
        }),
{
}

} // verus!
