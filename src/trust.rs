//! Trust on first use: the certificate fingerprint first seen for a burrow becomes its pin.
use vstd::prelude::*;
use vstd::string::StringSliceAdditionalSpecFns;
use crate::assoc::{assoc, lemma_assoc_absent, lemma_assoc_last, lemma_assoc_push,
    lemma_assoc_update};
use crate::clock::now_secs;
use crate::crypto::{hex_of, hex_text, sha256, sha256_of};
use crate::error::RabbitError;

verus! {

broadcast use vstd::string::group_string_axioms;

/// The fingerprint of a PEM certificate: the hexadecimal SHA-256 of its UTF-8 bytes.
pub open spec fn fingerprint_of(pem: &str) -> Seq<char> {
    hex_of(sha256_of(pem.spec_bytes()))
}

/// A peer that was seen before, with the fingerprint of its certificate.
#[derive(Debug)]
pub struct TrustedPeer {
    pub burrow_id: String,
    pub fingerprint: String,
    pub first_seen: i64,
    pub last_seen: i64,
    pub anchor_id: Option<String>,
}

/// What a trust entry records.
pub struct PeerModel {
    pub fingerprint: Seq<char>,
    pub first_seen: i64,
    pub last_seen: i64,
    pub anchor_id: Option<Seq<char>>,
}

impl View for TrustedPeer {
    type V = PeerModel;

    open spec fn view(&self) -> PeerModel {
        PeerModel {
            fingerprint: self.fingerprint@,
            first_seen: self.first_seen,
            last_seen: self.last_seen,
            anchor_id: match self.anchor_id {
                Some(a) => Some(a@),
                None => None,
            },
        }
    }
}

pub open spec fn peer_entries(s: Seq<TrustedPeer>) -> Seq<(Seq<char>, PeerModel)> {
    s.map_values(|p: TrustedPeer| (p.burrow_id@, p@))
}

/// A copy of a trust entry.
pub fn copy_peer(p: &TrustedPeer) -> (r: TrustedPeer)
    ensures
        r.burrow_id@ == p.burrow_id@,
        r@ == p@,
{
    TrustedPeer {
        burrow_id: p.burrow_id.clone(),
        fingerprint: p.fingerprint.clone(),
        first_seen: p.first_seen,
        last_seen: p.last_seen,
        anchor_id: match &p.anchor_id {
            Some(a) => Some(a.clone()),
            None => None,
        },
    }
}

/// One trust-on-first-use check of fingerprint `fp` for `id` at `now`: whether it passes,
/// and the entries after it.
pub open spec fn tofu_step(
    cache: Map<Seq<char>, PeerModel>,
    id: Seq<char>,
    fp: Seq<char>,
    anchor: Option<Seq<char>>,
    now: i64,
) -> (bool, Map<Seq<char>, PeerModel>) {
    if !cache.contains_key(id) {
        (
            true,
            cache.insert(
                id,
                PeerModel { fingerprint: fp, first_seen: now, last_seen: now, anchor_id: anchor },
            ),
        )
    } else if cache[id].fingerprint == fp {
        (true, cache.insert(id, PeerModel { last_seen: now, ..cache[id] }))
    } else {
        (false, cache)
    }
}

/// The trusted peers, keyed by burrow id.
pub struct TrustCache {
    pub peers: Vec<TrustedPeer>,
}

impl View for TrustCache {
    type V = Map<Seq<char>, PeerModel>;

    open spec fn view(&self) -> Map<Seq<char>, PeerModel> {
        assoc(peer_entries(self.peers@))
    }
}

impl TrustCache {
    /// A cache that trusts nobody yet.
    pub fn new() -> (r: TrustCache)
        ensures
            r@ == Map::<Seq<char>, PeerModel>::empty(),
    {
        TrustCache { peers: Vec::new() }
    }

    /// A cache holding the given entries, as loaded from storage.
    pub fn from_peers(peers: Vec<TrustedPeer>) -> (r: TrustCache)
        ensures
            r.peers@ == peers@,
    {
        TrustCache { peers }
    }

    /// The fingerprint of a PEM certificate.
    pub fn fingerprint(cert_pem: &str) -> (r: String)
        ensures
            r@ == fingerprint_of(cert_pem),
    {
        let digest = sha256(cert_pem.as_bytes());
        hex_text(digest.as_slice())
    }

    fn find(&self, id: &str) -> (i: usize)
        ensures
            i <= self.peers@.len(),
            forall|j: int| i <= j < self.peers@.len() ==> (#[trigger] self.peers@[j]).burrow_id@ != id@,
            i > 0 ==> self.peers@[i - 1].burrow_id@ == id@,
    {
        let k = id.to_owned();
        let mut i = self.peers.len();
        while i > 0 && !(self.peers[i - 1].burrow_id == k)
            invariant
                i <= self.peers@.len(),
                k@ == id@,
                forall|j: int| i <= j < self.peers@.len() ==> (#[trigger] self.peers@[j]).burrow_id@ != id@,
            decreases i,
        {
            i = i - 1;
        }
        i
    }

    /// Check the certificate of `burrow_id` at time `now`. An unknown peer is pinned to
    /// the certificate's fingerprint; a known one with the same fingerprint has its last
    /// sighting moved to `now`; a known one with another fingerprint is refused with
    /// `FingerprintMismatch` and its entry is left as it was.
    pub fn verify_or_remember_at(
        &mut self,
        burrow_id: &str,
        cert_pem: &str,
        anchor: Option<&str>,
        now: i64,
    ) -> (r: Result<(), RabbitError>)
        ensures
            ({
                let step = tofu_step(
                    old(self)@,
                    burrow_id@,
                    fingerprint_of(cert_pem),
                    match anchor {
                        Some(a) => Some(a@),
                        None => None,
                    },
                    now,
                );
                &&& r.is_ok() == step.0
                &&& final(self)@ == step.1
                &&& r.is_err() ==> r == Err::<(), RabbitError>(RabbitError::FingerprintMismatch)
            }),
    {
        let fp = Self::fingerprint(cert_pem);
        let i = self.find(burrow_id);
        let ghost es = peer_entries(self.peers@);
        proof {
            assert forall|j: int| i <= j < es.len() implies (#[trigger] es[j]).0 != burrow_id@ by {
                assert(es[j].0 == self.peers@[j].burrow_id@);
            }
        }
        if i > 0 {
            proof {
                lemma_assoc_last(es, burrow_id@, i - 1);
            }
            let existing = &self.peers[i - 1];
            if !(existing.fingerprint == fp) {
                return Err(RabbitError::FingerprintMismatch);
            }
            let mut updated = copy_peer(existing);
            updated.last_seen = now;
            let ghost e = (updated.burrow_id@, updated@);
            proof {
                lemma_assoc_update(es, i - 1, e);
                assert(updated@ == PeerModel { last_seen: now, ..old(self)@[burrow_id@] });
            }
            self.peers.set(i - 1, updated);
            proof {
                assert(peer_entries(self.peers@) =~= es.update(i - 1, e));
            }
            Ok(())
        } else {
            proof {
                lemma_assoc_absent(es, burrow_id@);
            }
            let p = TrustedPeer {
                burrow_id: burrow_id.to_owned(),
                fingerprint: fp,
                first_seen: now,
                last_seen: now,
                anchor_id: match anchor {
                    Some(a) => Some(a.to_owned()),
                    None => None,
                },
            };
            let ghost e = (p.burrow_id@, p@);
            proof {
                lemma_assoc_push(es, e);
            }
            self.peers.push(p);
            proof {
                assert(peer_entries(self.peers@) =~= es.push(e));
            }
            Ok(())
        }
    }

    /// Check the certificate of `burrow_id` now; see `verify_or_remember_at`. The caller
    /// persists the cache after a success.
    pub fn verify_or_remember(&mut self, burrow_id: &str, cert_pem: &str, anchor: Option<&str>) -> (r:
        Result<(), RabbitError>)
        ensures
            ({
                let a = match anchor {
                    Some(x) => Some(x@),
                    None => None,
                };
                let fp = fingerprint_of(cert_pem);
                let t = if final(self)@.contains_key(burrow_id@) {
                    final(self)@[burrow_id@].last_seen
                } else {
                    0
                };
                let step = tofu_step(old(self)@, burrow_id@, fp, a, t);
                &&& r.is_ok() == step.0
                &&& final(self)@ == step.1
                &&& r.is_err() ==> r == Err::<(), RabbitError>(RabbitError::FingerprintMismatch)
            }),
    {
        let now = now_secs();
        let r = self.verify_or_remember_at(burrow_id, cert_pem, anchor, now);
        proof {
            if r.is_ok() {
                assert(self@.contains_key(burrow_id@));
                assert(self@[burrow_id@].last_seen == now);
            }
        }
        r
    }

    /// Whether `burrow_id` has an entry.
    pub fn is_trusted(&self, burrow_id: &str) -> (r: bool)
        ensures
            r == self@.contains_key(burrow_id@),
    {
        let i = self.find(burrow_id);
        let ghost es = peer_entries(self.peers@);
        proof {
            assert forall|j: int| i <= j < es.len() implies (#[trigger] es[j]).0 != burrow_id@ by {
                assert(es[j].0 == self.peers@[j].burrow_id@);
            }
            if i > 0 {
                lemma_assoc_last(es, burrow_id@, i - 1);
            } else {
                lemma_assoc_absent(es, burrow_id@);
            }
        }
        i > 0
    }

    /// Copies of the entries, oldest first.
    pub fn list_trusted(&self) -> (r: Vec<TrustedPeer>)
        ensures
            peer_entries(r@) == peer_entries(self.peers@),
    {
        let mut out: Vec<TrustedPeer> = Vec::new();
        let mut i: usize = 0;
        while i < self.peers.len()
            invariant
                i <= self.peers@.len(),
                peer_entries(out@) == peer_entries(self.peers@).take(i as int),
            decreases self.peers@.len() - i,
        {
            let p = copy_peer(&self.peers[i]);
            let ghost before = out@;
            out.push(p);
            proof {
                assert(peer_entries(out@) =~= peer_entries(before).push(
                    peer_entries(self.peers@)[i as int],
                ));
                assert(peer_entries(out@) =~= peer_entries(self.peers@).take(i + 1));
            }
            i = i + 1;
        }
        proof {
            assert(peer_entries(self.peers@).take(i as int) =~= peer_entries(self.peers@));
        }
        out
    }
}

/// Trust on first use: after the first check of an unknown burrow with fingerprint `p`,
/// a later check with `p` succeeds and keeps the pin, and a check with any other
/// fingerprint fails and leaves the entries as they were.
pub proof fn lemma_tofu(
    cache: Map<Seq<char>, PeerModel>,
    id: Seq<char>,
    p: Seq<char>,
    other: Seq<char>,
    anchor: Option<Seq<char>>,
    anchor2: Option<Seq<char>>,
    t1: i64,
    t2: i64,
)
    requires
        !cache.contains_key(id),
        other != p,
    ensures
        ({
            let first = tofu_step(cache, id, p, anchor, t1);
            let again = tofu_step(first.1, id, p, anchor2, t2);
            let wrong = tofu_step(first.1, id, other, anchor2, t2);
            &&& first.0
            &&& again.0
            &&& again.1[id].fingerprint == p
            &&& !wrong.0
            &&& wrong.1 == first.1
        }),
{
}

} // verus!
