//! Federation: anchors of other warrens, links to them, and the frames that advertise
//! and gossip anchors.
use vstd::prelude::*;
use crate::assoc::{assoc, lemma_assoc_push, lemma_assoc_update};
use crate::clock::{now_secs, now_text};
use crate::error::RabbitError;
use crate::frame::{header_value, Frame};
use crate::routing::copy_strings;
use crate::text::{chars_of, split_in, split_on, views, words, words_in};

verus! {

broadcast use vstd::string::group_string_axioms;

/// The root identity of a warren, which vouches for its burrows.
#[derive(Debug)]
pub struct FederationAnchor {
    pub warren_id: String,
    /// Key that verifies the anchor's manifests.
    pub public_key: String,
    pub domain: String,
    /// When the anchor was last seen, in seconds since the Unix epoch.
    pub last_seen: i64,
}

/// A link to another warren.
#[derive(Debug)]
pub struct FederationLink {
    pub remote_id: String,
    pub established_at: i64,
    /// Services the remote warren advertises.
    pub services: Vec<String>,
    pub shared_secret: Option<String>,
}

/// What an anchor record says.
pub struct AnchorModel {
    pub public_key: Seq<char>,
    pub domain: Seq<char>,
    pub last_seen: i64,
}

pub open spec fn anchor_entries(s: Seq<FederationAnchor>) -> Seq<(Seq<char>, AnchorModel)> {
    s.map_values(
        |a: FederationAnchor|
            (
                a.warren_id@,
                AnchorModel { public_key: a.public_key@, domain: a.domain@, last_seen: a.last_seen },
            ),
    )
}

pub open spec fn link_ids(s: Seq<FederationLink>) -> Seq<Seq<char>> {
    s.map_values(|l: FederationLink| l.remote_id@)
}

/// The gossip line of an anchor: its id and domain.
pub open spec fn gossip_line(a: FederationAnchor) -> Seq<char> {
    a.warren_id@ + seq![' '] + a.domain@ + seq!['\r', '\n']
}

/// The gossip body listing anchors, one line each.
pub open spec fn gossip_body(s: Seq<FederationAnchor>) -> Seq<char>
    decreases s.len(),
{
    if s.len() == 0 {
        Seq::empty()
    } else {
        gossip_body(s.drop_last()) + gossip_line(s.last())
    }
}

/// The anchors after gossip lines `ls` arrive at `now`: each line whose first two words
/// are an id and a domain records that anchor with an empty key.
pub open spec fn gossip_apply(m: Map<Seq<char>, AnchorModel>, ls: Seq<Seq<char>>, now: i64) -> Map<
    Seq<char>,
    AnchorModel,
>
    decreases ls.len(),
{
    if ls.len() == 0 {
        m
    } else {
        let before = gossip_apply(m, ls.drop_last(), now);
        let w = words(ls.last());
        if w.len() >= 2 {
            before.insert(w[0], AnchorModel { public_key: Seq::empty(), domain: w[1], last_seen: now })
        } else {
            before
        }
    }
}

/// A copy of an anchor record.
pub fn copy_anchor(a: &FederationAnchor) -> (r: FederationAnchor)
    ensures
        anchor_entries(seq![r]) == anchor_entries(seq![*a]),
        r.warren_id@ == a.warren_id@,
        r.domain@ == a.domain@,
{
    FederationAnchor {
        warren_id: a.warren_id.clone(),
        public_key: a.public_key.clone(),
        domain: a.domain.clone(),
        last_seen: a.last_seen,
    }
}

/// Known anchors, keyed by warren id, and links to other warrens.
#[derive(Debug)]
pub struct FederationManager {
    pub anchors: Vec<FederationAnchor>,
    pub links: Vec<FederationLink>,
}

impl FederationManager {
    /// Known anchors, keyed by warren id.
    pub open spec fn anchor_map(&self) -> Map<Seq<char>, AnchorModel> {
        assoc(anchor_entries(self.anchors@))
    }

    pub fn new() -> (r: FederationManager)
        ensures
            r.anchor_map() == Map::<Seq<char>, AnchorModel>::empty(),
            r.links@.len() == 0,
    {
        FederationManager { anchors: Vec::new(), links: Vec::new() }
    }

    /// Record or refresh an anchor, seen at `now`.
    pub fn register_anchor_at(&mut self, id: &str, key: &str, domain: &str, now: i64)
        ensures
            final(self).anchor_map() == old(self).anchor_map().insert(
                id@,
                AnchorModel { public_key: key@, domain: domain@, last_seen: now },
            ),
            final(self).links == old(self).links,
    {
        let k = id.to_owned();
        let mut i = self.anchors.len();
        while i > 0 && !(self.anchors[i - 1].warren_id == k)
            invariant
                i <= self.anchors@.len(),
                k@ == id@,
                forall|j: int| i <= j < self.anchors@.len() ==> (#[trigger] self.anchors@[j]).warren_id@ != id@,
            decreases i,
        {
            i = i - 1;
        }
        let a = FederationAnchor {
            warren_id: id.to_owned(),
            public_key: key.to_owned(),
            domain: domain.to_owned(),
            last_seen: now,
        };
        let ghost en = anchor_entries(seq![a])[0];
        let ghost es = anchor_entries(self.anchors@);
        proof {
            assert forall|j: int| i <= j < es.len() implies (#[trigger] es[j]).0 != id@ by {
                assert(es[j].0 == self.anchors@[j].warren_id@);
            }
        }
        if i > 0 {
            proof {
                lemma_assoc_update(es, i - 1, en);
            }
            self.anchors.set(i - 1, a);
            proof {
                assert(anchor_entries(self.anchors@) =~= es.update(i - 1, en));
            }
        } else {
            proof {
                lemma_assoc_push(es, en);
            }
            self.anchors.push(a);
            proof {
                assert(anchor_entries(self.anchors@) =~= es.push(en));
            }
        }
    }

    /// Record or refresh an anchor now.
    pub fn register_anchor(&mut self, id: &str, key: &str, domain: &str)
        ensures
            final(self).anchor_map().contains_key(id@),
            final(self).anchor_map()[id@].public_key == key@,
            final(self).anchor_map()[id@].domain == domain@,
    {
        let now = now_secs();
        self.register_anchor_at(id, key, domain, now);
    }

    /// Record a link to warren `remote_id` established at `now`, replacing any earlier one.
    pub fn establish_link_at(
        &mut self,
        remote_id: &str,
        shared_secret: Option<&str>,
        services: Vec<String>,
        now: i64,
    )
        ensures
            link_ids(final(self).links@).to_set() == link_ids(old(self).links@).to_set().insert(
                remote_id@,
            ),
            final(self).anchors == old(self).anchors,
    {
        let k = remote_id.to_owned();
        let mut i = self.links.len();
        while i > 0 && !(self.links[i - 1].remote_id == k)
            invariant
                i <= self.links@.len(),
                k@ == remote_id@,
            decreases i,
        {
            i = i - 1;
        }
        let l = FederationLink {
            remote_id: remote_id.to_owned(),
            established_at: now,
            services,
            shared_secret: match shared_secret {
                Some(s) => Some(s.to_owned()),
                None => None,
            },
        };
        let ghost before = link_ids(self.links@);
        if i > 0 {
            self.links.set(i - 1, l);
            proof {
                assert(link_ids(self.links@) =~= before.update(i - 1, remote_id@));
                assert(link_ids(self.links@).to_set() =~= before.to_set().insert(remote_id@)) by {
                    assert forall|x: Seq<char>| #[trigger] link_ids(self.links@).to_set().contains(x)
                        <==> before.to_set().insert(remote_id@).contains(x) by {
                        if link_ids(self.links@).to_set().contains(x) {
                            let t = choose|t: int|
                                0 <= t < link_ids(self.links@).len() && link_ids(self.links@)[t] == x;
                            if t != i - 1 {
                                assert(before[t] == x);
                            }
                        }
                        if before.to_set().insert(remote_id@).contains(x) && x != remote_id@ {
                            let t = choose|t: int| 0 <= t < before.len() && before[t] == x;
                            assert(t != i - 1);
                            assert(link_ids(self.links@)[t] == x);
                        }
                        if x == remote_id@ {
                            assert(link_ids(self.links@)[i - 1] == x);
                        }
                    }
                }
            }
        } else {
            self.links.push(l);
            proof {
                assert(link_ids(self.links@) =~= before.push(remote_id@));
                assert(link_ids(self.links@).to_set() =~= before.to_set().insert(remote_id@)) by {
                    assert forall|x: Seq<char>| #[trigger] link_ids(self.links@).to_set().contains(x)
                        <==> before.to_set().insert(remote_id@).contains(x) by {
                        if link_ids(self.links@).to_set().contains(x) {
                            let t = choose|t: int|
                                0 <= t < link_ids(self.links@).len() && link_ids(self.links@)[t] == x;
                            if t < before.len() {
                                assert(before[t] == x);
                            }
                        }
                        if before.to_set().contains(x) {
                            let t = choose|t: int| 0 <= t < before.len() && before[t] == x;
                            assert(link_ids(self.links@)[t] == x);
                        }
                        if x == remote_id@ {
                            assert(link_ids(self.links@)[before.len() as int] == x);
                        }
                    }
                }
            }
        }
    }

    /// Record a link established now.
    pub fn establish_link(&mut self, remote_id: &str, shared_secret: Option<&str>, services: Vec<
        String,
    >)
        ensures
            link_ids(final(self).links@).to_set() == link_ids(old(self).links@).to_set().insert(
                remote_id@,
            ),
    {
        let now = now_secs();
        self.establish_link_at(remote_id, shared_secret, services, now);
    }

    /// Copies of the known anchors, oldest first.
    pub fn list_anchors(&self) -> (r: Vec<FederationAnchor>)
        ensures
            anchor_entries(r@) == anchor_entries(self.anchors@),
    {
        let mut out: Vec<FederationAnchor> = Vec::new();
        let mut i: usize = 0;
        while i < self.anchors.len()
            invariant
                i <= self.anchors@.len(),
                anchor_entries(out@) == anchor_entries(self.anchors@).take(i as int),
            decreases self.anchors@.len() - i,
        {
            let a = copy_anchor(&self.anchors[i]);
            let ghost before = out@;
            let ghost ae = anchor_entries(seq![a])[0];
            proof {
                assert(ae == anchor_entries(seq![self.anchors@[i as int]])[0]);
            }
            out.push(a);
            proof {
                assert(anchor_entries(out@) =~= anchor_entries(before).push(ae));
                assert(anchor_entries(out@) =~= anchor_entries(self.anchors@).take(i + 1));
            }
            i = i + 1;
        }
        proof {
            assert(anchor_entries(self.anchors@).take(i as int) =~= anchor_entries(self.anchors@));
        }
        out
    }

    /// Copies of the links, oldest first.
    pub fn list_links(&self) -> (r: Vec<FederationLink>)
        ensures
            link_ids(r@) == link_ids(self.links@),
    {
        let mut out: Vec<FederationLink> = Vec::new();
        let mut i: usize = 0;
        while i < self.links.len()
            invariant
                i <= self.links@.len(),
                link_ids(out@) == link_ids(self.links@).take(i as int),
            decreases self.links@.len() - i,
        {
            let l = &self.links[i];
            let c = FederationLink {
                remote_id: l.remote_id.clone(),
                established_at: l.established_at,
                services: copy_strings(&l.services),
                shared_secret: match &l.shared_secret {
                    Some(s) => Some(s.clone()),
                    None => None,
                },
            };
            let ghost before = out@;
            out.push(c);
            proof {
                assert(link_ids(out@) =~= link_ids(before).push(self.links@[i as int].remote_id@));
                assert(link_ids(out@) =~= link_ids(self.links@).take(i + 1));
            }
            i = i + 1;
        }
        proof {
            assert(link_ids(self.links@).take(i as int) =~= link_ids(self.links@));
        }
        out
    }

    /// Register the anchor that a `FED-ADVERTISE` frame describes, at `now`: `Warren-ID`
    /// is required (else `MissingField`), `Key` and `Domain` default to empty.
    pub fn handle_advertisement_at(&mut self, frame: &Frame, now: i64) -> (r: Result<(), RabbitError>)
        ensures
            match header_value(frame@, "Warren-ID"@) {
                Some(id) => r.is_ok() && final(self).anchor_map() == old(self).anchor_map().insert(
                    id,
                    AnchorModel {
                        public_key: match header_value(frame@, "Key"@) {
                            Some(k) => k,
                            None => Seq::empty(),
                        },
                        domain: match header_value(frame@, "Domain"@) {
                            Some(d) => d,
                            None => Seq::empty(),
                        },
                        last_seen: now,
                    },
                ),
                None => r == Err::<(), RabbitError>(RabbitError::MissingField) && final(self).anchor_map()
                    == old(self).anchor_map(),
            },
    {
        let id = match frame.header("Warren-ID") {
            Some(v) => v.clone(),
            None => {
                return Err(RabbitError::MissingField);
            },
        };
        let key = match frame.header("Key") {
            Some(v) => v.clone(),
            None => String::new(),
        };
        let domain = match frame.header("Domain") {
            Some(v) => v.clone(),
            None => String::new(),
        };
        self.register_anchor_at(id.as_str(), key.as_str(), domain.as_str(), now);
        Ok(())
    }

    /// Register the anchors a gossip body lists at `now`: each line whose first two words
    /// are an id and a domain adds that anchor with an empty key.
    pub fn handle_gossip_at(&mut self, body: &str, now: i64)
        ensures
            final(self).anchor_map() == gossip_apply(
                old(self).anchor_map(),
                split_on(body@, '\n'),
                now,
            ),
            final(self).links == old(self).links,
    {
        let v = chars_of(body);
        let pieces = split_in(body, &v, 0, v.len(), '\n');
        proof {
            assert(v@.subrange(0, v@.len() as int) =~= body@);
        }
        let ghost pv = views(pieces@);
        let mut i: usize = 0;
        while i < pieces.len()
            invariant
                i <= pieces@.len(),
                pv == views(pieces@),
                self.anchor_map() == gossip_apply(old(self).anchor_map(), pv.take(i as int), now),
                self.links == old(self).links,
            decreases pieces@.len() - i,
        {
            let piece = &pieces[i];
            let pc = chars_of(piece.as_str());
            let ws = words_in(piece.as_str(), &pc, 0, pc.len());
            proof {
                assert(pc@.subrange(0, pc@.len() as int) =~= piece@);
                assert(pv.take(i + 1).drop_last() =~= pv.take(i as int));
                assert(pv.take(i + 1).last() == piece@);
                assert(views(ws@).len() == ws@.len());
                if ws@.len() >= 2 {
                    assert(views(ws@)[0] == ws@[0]@);
                    assert(views(ws@)[1] == ws@[1]@);
                }
            }
            if ws.len() >= 2 {
                self.register_anchor_at(ws[0].as_str(), "", ws[1].as_str(), now);
                proof {
                    reveal_strlit("");
                    assert(""@ =~= Seq::<char>::empty());
                }
            }
            i = i + 1;
        }
        proof {
            assert(pv.take(i as int) =~= pv);
        }
    }

    /// Register the anchor that a `FED-ADVERTISE` frame describes, seen now; see
    /// `handle_advertisement_at`.
    pub fn handle_advertisement(&mut self, frame: &Frame) -> (r: Result<(), RabbitError>)
        ensures
            match header_value(frame@, "Warren-ID"@) {
                Some(id) => r.is_ok() && final(self).anchor_map().contains_key(id)
                    && final(self).anchor_map() == old(self).anchor_map().insert(
                    id,
                    AnchorModel {
                        public_key: match header_value(frame@, "Key"@) {
                            Some(k) => k,
                            None => Seq::empty(),
                        },
                        domain: match header_value(frame@, "Domain"@) {
                            Some(d) => d,
                            None => Seq::empty(),
                        },
                        last_seen: final(self).anchor_map()[id].last_seen,
                    },
                ),
                None => r == Err::<(), RabbitError>(RabbitError::MissingField) && final(self).anchor_map()
                    == old(self).anchor_map(),
            },
    {
        let now = now_secs();
        self.handle_advertisement_at(frame, now)
    }

    /// Register the anchors a gossip body lists, seen now; see `handle_gossip_at`.
    pub fn handle_gossip(&mut self, body: &str)
        ensures
            exists|t: i64| #[trigger]
                gossip_apply(old(self).anchor_map(), split_on(body@, '\n'), t)
                    == final(self).anchor_map(),
            final(self).links == old(self).links,
    {
        let now = now_secs();
        self.handle_gossip_at(body, now);
    }

    /// One `FED-ADVERTISE` frame per link, describing `local` and stamped with `stamp`.
    pub fn advertise_at(&self, local: &FederationAnchor, stamp: &str) -> (r: Vec<Frame>)
        ensures
            r@.len() == self.links@.len(),
            forall|i: int|
                0 <= i < r@.len() ==> {
                    &&& (#[trigger] r@[i])@.verb == "FED-ADVERTISE"@
                    &&& r@[i]@.headers == Map::<Seq<char>, Seq<char>>::empty().insert(
                        "Warren-ID"@,
                        local.warren_id@,
                    ).insert("Domain"@, local.domain@).insert("Key"@, local.public_key@)
                    &&& r@[i]@.body == Some("Timestamp: "@ + stamp@ + "\r\n"@)
                },
    {
        let mut out: Vec<Frame> = Vec::new();
        let mut i: usize = 0;
        while i < self.links.len()
            invariant
                i <= self.links@.len(),
                out@.len() == i,
                forall|j: int|
                    0 <= j < i ==> {
                        &&& (#[trigger] out@[j])@.verb == "FED-ADVERTISE"@
                        &&& out@[j]@.headers == Map::<Seq<char>, Seq<char>>::empty().insert(
                            "Warren-ID"@,
                            local.warren_id@,
                        ).insert("Domain"@, local.domain@).insert("Key"@, local.public_key@)
                        &&& out@[j]@.body == Some("Timestamp: "@ + stamp@ + "\r\n"@)
                    },
            decreases self.links@.len() - i,
        {
            let mut frame = Frame::new("FED-ADVERTISE");
            frame.set_header("Warren-ID", local.warren_id.as_str());
            frame.set_header("Domain", local.domain.as_str());
            frame.set_header("Key", local.public_key.as_str());
            let mut b = "Timestamp: ".to_owned();
            b.append(stamp);
            b.append("\r\n");
            frame.body = Some(b);
            out.push(frame);
            i = i + 1;
        }
        out
    }

    /// One `FED-ADVERTISE` frame per link, stamped with the current time.
    pub fn advertise(&self, local: &FederationAnchor) -> (r: Vec<Frame>)
        ensures
            r@.len() == self.links@.len(),
    {
        let stamp = now_text();
        self.advertise_at(local, stamp.as_str())
    }

    /// One `FED-GOSSIP` frame per link, whose body lists every known anchor as `id domain`.
    pub fn gossip_anchors(&self) -> (r: Vec<Frame>)
        ensures
            r@.len() == self.links@.len(),
            forall|i: int|
                0 <= i < r@.len() ==> (#[trigger] r@[i])@.verb == "FED-GOSSIP"@ && r@[i]@.body == Some(
                    gossip_body(self.anchors@),
                ),
    {
        let mut body = String::new();
        let mut k: usize = 0;
        proof {
            reveal_strlit(" ");
            reveal_strlit("\r\n");
        }
        while k < self.anchors.len()
            invariant
                k <= self.anchors@.len(),
                body@ == gossip_body(self.anchors@.take(k as int)),
                " "@ == seq![' '],
                "\r\n"@ == seq!['\r', '\n'],
            decreases self.anchors@.len() - k,
        {
            proof {
                assert(self.anchors@.take(k + 1).drop_last() =~= self.anchors@.take(k as int));
            }
            body.append(self.anchors[k].warren_id.as_str());
            body.append(" ");
            body.append(self.anchors[k].domain.as_str());
            body.append("\r\n");
            proof {
                assert(body@ =~= gossip_body(self.anchors@.take(k + 1)));
            }
            k = k + 1;
        }
        proof {
            assert(self.anchors@.take(k as int) =~= self.anchors@);
        }
        let mut out: Vec<Frame> = Vec::new();
        let mut i: usize = 0;
        while i < self.links.len()
            invariant
                i <= self.links@.len(),
                out@.len() == i,
                body@ == gossip_body(self.anchors@),
                forall|j: int|
                    0 <= j < i ==> (#[trigger] out@[j])@.verb == "FED-GOSSIP"@ && out@[j]@.body == Some(
                        gossip_body(self.anchors@),
                    ),
            decreases self.links@.len() - i,
        {
            let mut frame = Frame::new("FED-GOSSIP");
            frame.body = Some(body.clone());
            out.push(frame);
            i = i + 1;
        }
        out
    }
}

} // verus!
