//! Routes to burrows that are not directly connected, and the table of direct peers.
use vstd::prelude::*;
use crate::assoc::{assoc, lemma_assoc_absent, lemma_assoc_last, lemma_assoc_push,
    lemma_assoc_update};
use crate::clock::now_secs;

verus! {

broadcast use vstd::string::group_string_axioms;

/// A route: the next hop toward a target burrow.
#[derive(Debug)]
pub struct RouteEntry {
    pub target: String,
    pub next_hop: String,
    /// When the route was last confirmed, in seconds since the Unix epoch.
    pub last_seen: i64,
}

pub open spec fn route_entries(s: Seq<RouteEntry>) -> Seq<(Seq<char>, (Seq<char>, i64))> {
    s.map_values(|e: RouteEntry| (e.target@, (e.next_hop@, e.last_seen)))
}

/// A copy of a route.
pub fn copy_route(e: &RouteEntry) -> (r: RouteEntry)
    ensures
        r.target@ == e.target@,
        r.next_hop@ == e.next_hop@,
        r.last_seen == e.last_seen,
{
    RouteEntry { target: e.target.clone(), next_hop: e.next_hop.clone(), last_seen: e.last_seen }
}

/// The routing table, keyed by target; a new route replaces the old one.
#[derive(Debug)]
pub struct Router {
    pub routes: Vec<RouteEntry>,
}

impl View for Router {
    type V = Map<Seq<char>, (Seq<char>, i64)>;

    open spec fn view(&self) -> Map<Seq<char>, (Seq<char>, i64)> {
        assoc(route_entries(self.routes@))
    }
}

impl Router {
    pub fn new() -> (r: Router)
        ensures
            r@ == Map::<Seq<char>, (Seq<char>, i64)>::empty(),
    {
        Router { routes: Vec::new() }
    }

    fn find(&self, target: &str) -> (i: usize)
        ensures
            i <= self.routes@.len(),
            i == 0 ==> !self@.contains_key(target@),
            i > 0 ==> self@.contains_key(target@) && self@[target@] == (
                self.routes@[i - 1].next_hop@,
                self.routes@[i - 1].last_seen,
            ),
            forall|j: int| i <= j < self.routes@.len() ==> (#[trigger] self.routes@[j]).target@ != target@,
            i > 0 ==> self.routes@[i - 1].target@ == target@,
    {
        let k = target.to_owned();
        let mut i = self.routes.len();
        while i > 0 && !(self.routes[i - 1].target == k)
            invariant
                i <= self.routes@.len(),
                k@ == target@,
                forall|j: int| i <= j < self.routes@.len() ==> (#[trigger] self.routes@[j]).target@ != target@,
            decreases i,
        {
            i = i - 1;
        }
        let ghost es = route_entries(self.routes@);
        proof {
            assert forall|j: int| i <= j < es.len() implies (#[trigger] es[j]).0 != target@ by {
                assert(es[j].0 == self.routes@[j].target@);
            }
            if i > 0 {
                lemma_assoc_last(es, target@, i - 1);
            } else {
                lemma_assoc_absent(es, target@);
            }
        }
        i
    }

    /// Route `target` through `next_hop`, confirmed at `now`.
    pub fn add_route_at(&mut self, target: &str, next_hop: &str, now: i64)
        ensures
            final(self)@ == old(self)@.insert(target@, (next_hop@, now)),
    {
        let i = self.find(target);
        let e = RouteEntry { target: target.to_owned(), next_hop: next_hop.to_owned(), last_seen: now };
        let ghost en = (e.target@, (e.next_hop@, e.last_seen));
        let ghost es = route_entries(self.routes@);
        proof {
            assert forall|j: int| i <= j < es.len() implies (#[trigger] es[j]).0 != target@ by {
                assert(es[j].0 == self.routes@[j].target@);
            }
        }
        if i > 0 {
            proof {
                lemma_assoc_update(es, i - 1, en);
            }
            self.routes.set(i - 1, e);
            proof {
                assert(route_entries(self.routes@) =~= es.update(i - 1, en));
            }
        } else {
            proof {
                lemma_assoc_push(es, en);
            }
            self.routes.push(e);
            proof {
                assert(route_entries(self.routes@) =~= es.push(en));
            }
        }
    }

    /// Route `target` through `next_hop`, confirmed now.
    pub fn add_route(&mut self, target: &str, next_hop: &str)
        ensures
            final(self)@.contains_key(target@),
            final(self)@[target@].0 == next_hop@,
            final(self)@ == old(self)@.insert(target@, final(self)@[target@]),
    {
        let now = now_secs();
        self.add_route_at(target, next_hop, now);
    }

    /// The next hop toward `target`, if a route is known.
    pub fn resolve(&self, target: &str) -> (r: Option<String>)
        ensures
            match r {
                Some(h) => self@.contains_key(target@) && h@ == self@[target@].0,
                None => !self@.contains_key(target@),
            },
    {
        let i = self.find(target);
        if i > 0 {
            Some(self.routes[i - 1].next_hop.clone())
        } else {
            None
        }
    }

    /// Copies of all routes, oldest first.
    pub fn all(&self) -> (r: Vec<RouteEntry>)
        ensures
            route_entries(r@) == route_entries(self.routes@),
    {
        let mut out: Vec<RouteEntry> = Vec::new();
        let mut i: usize = 0;
        while i < self.routes.len()
            invariant
                i <= self.routes@.len(),
                route_entries(out@) == route_entries(self.routes@).take(i as int),
            decreases self.routes@.len() - i,
        {
            let e = copy_route(&self.routes[i]);
            let ghost before = out@;
            out.push(e);
            proof {
                assert(route_entries(out@) =~= route_entries(before).push(
                    route_entries(self.routes@)[i as int],
                ));
                assert(route_entries(out@) =~= route_entries(self.routes@).take(i + 1));
            }
            i = i + 1;
        }
        proof {
            assert(route_entries(self.routes@).take(i as int) =~= route_entries(self.routes@));
        }
        out
    }
}

/// A burrow of the local warren that can be reached directly.
#[derive(Debug)]
pub struct PeerInfo {
    pub burrow_id: String,
    /// Host name or address used to open tunnels.
    pub address: String,
    /// When the peer was last seen, in seconds since the Unix epoch.
    pub last_seen: i64,
    /// Capabilities the peer advertises.
    pub capabilities: Vec<String>,
}

/// What a peer record says.
pub struct PeerRecord {
    pub address: Seq<char>,
    pub last_seen: i64,
    pub capabilities: Seq<Seq<char>>,
}

pub open spec fn peer_record(p: PeerInfo) -> PeerRecord {
    PeerRecord {
        address: p.address@,
        last_seen: p.last_seen,
        capabilities: crate::text::views(p.capabilities@),
    }
}

pub open spec fn peer_info_entries(s: Seq<PeerInfo>) -> Seq<(Seq<char>, PeerRecord)> {
    s.map_values(|p: PeerInfo| (p.burrow_id@, peer_record(p)))
}

/// A copy of a list of strings.
pub fn copy_strings(v: &Vec<String>) -> (r: Vec<String>)
    ensures
        crate::text::views(r@) == crate::text::views(v@),
{
    let mut out: Vec<String> = Vec::new();
    let mut i: usize = 0;
    while i < v.len()
        invariant
            i <= v@.len(),
            crate::text::views(out@) == crate::text::views(v@).take(i as int),
        decreases v@.len() - i,
    {
        let s = v[i].clone();
        let ghost before = out@;
        out.push(s);
        proof {
            assert(crate::text::views(out@) =~= crate::text::views(before).push(v@[i as int]@));
            assert(crate::text::views(out@) =~= crate::text::views(v@).take(i + 1));
        }
        i = i + 1;
    }
    proof {
        assert(crate::text::views(v@).take(i as int) =~= crate::text::views(v@));
    }
    out
}

/// A copy of a peer record.
pub fn copy_peer_info(p: &PeerInfo) -> (r: PeerInfo)
    ensures
        r.burrow_id@ == p.burrow_id@,
        peer_record(r) == peer_record(*p),
{
    PeerInfo {
        burrow_id: p.burrow_id.clone(),
        address: p.address.clone(),
        last_seen: p.last_seen,
        capabilities: copy_strings(&p.capabilities),
    }
}

/// The direct peers of a warren, keyed by burrow id, and routes to the others.
#[derive(Debug)]
pub struct WarrenRouter {
    pub peers: Vec<PeerInfo>,
    pub routes: Router,
}

impl WarrenRouter {
    /// The direct peers, keyed by burrow id.
    pub open spec fn peer_map(&self) -> Map<Seq<char>, PeerRecord> {
        assoc(peer_info_entries(self.peers@))
    }

    pub fn new() -> (r: WarrenRouter)
        ensures
            r.peer_map() == Map::<Seq<char>, PeerRecord>::empty(),
            r.routes@ == Map::<Seq<char>, (Seq<char>, i64)>::empty(),
    {
        WarrenRouter { peers: Vec::new(), routes: Router::new() }
    }

    fn find(&self, id: &str) -> (i: usize)
        ensures
            i <= self.peers@.len(),
            i == 0 ==> !self.peer_map().contains_key(id@),
            i > 0 ==> self.peer_map().contains_key(id@),
            forall|j: int| i <= j < self.peers@.len() ==> (#[trigger] self.peers@[j]).burrow_id@ != id@,
            i > 0 ==> self.peers@[i - 1].burrow_id@ == id@,
    {
        let k = id.to_owned();
        let mut i = self.peers.len();
        while i > 0 && !(self.peers[i - 1].burrow_id == k)
            invariant
                i <= self.peers@.len(),
                k@ == id@,
                forall|j: int| i <= j < self.peers@.len() ==> (#[trigger] self.peers@[j]).burrow_id@ != id@,
            decreases i,
        {
            i = i - 1;
        }
        let ghost es = peer_info_entries(self.peers@);
        proof {
            assert forall|j: int| i <= j < es.len() implies (#[trigger] es[j]).0 != id@ by {
                assert(es[j].0 == self.peers@[j].burrow_id@);
            }
            if i > 0 {
                lemma_assoc_last(es, id@, i - 1);
            } else {
                lemma_assoc_absent(es, id@);
            }
        }
        i
    }

    /// Record or update a peer; `true` when it was not known before.
    pub fn register_peer(&mut self, info: PeerInfo) -> (r: bool)
        ensures
            r == !old(self).peer_map().contains_key(info.burrow_id@),
            final(self).peer_map() == old(self).peer_map().insert(info.burrow_id@, peer_record(info)),
            final(self).routes@ == old(self).routes@,
    {
        let i = self.find(info.burrow_id.as_str());
        let ghost en = (info.burrow_id@, peer_record(info));
        let ghost es = peer_info_entries(self.peers@);
        proof {
            assert forall|j: int| i <= j < es.len() implies (#[trigger] es[j]).0 != info.burrow_id@ by {
                assert(es[j].0 == self.peers@[j].burrow_id@);
            }
        }
        if i > 0 {
            proof {
                lemma_assoc_update(es, i - 1, en);
            }
            self.peers.set(i - 1, info);
            proof {
                assert(peer_info_entries(self.peers@) =~= es.update(i - 1, en));
            }
            false
        } else {
            proof {
                lemma_assoc_push(es, en);
            }
            self.peers.push(info);
            proof {
                assert(peer_info_entries(self.peers@) =~= es.push(en));
            }
            true
        }
    }

    /// Copies of the direct peers, oldest first.
    pub fn list_peers(&self) -> (r: Vec<PeerInfo>)
        ensures
            peer_info_entries(r@) == peer_info_entries(self.peers@),
    {
        let mut out: Vec<PeerInfo> = Vec::new();
        let mut i: usize = 0;
        while i < self.peers.len()
            invariant
                i <= self.peers@.len(),
                peer_info_entries(out@) == peer_info_entries(self.peers@).take(i as int),
            decreases self.peers@.len() - i,
        {
            let p = copy_peer_info(&self.peers[i]);
            let ghost before = out@;
            out.push(p);
            proof {
                assert(peer_info_entries(out@) =~= peer_info_entries(before).push(
                    peer_info_entries(self.peers@)[i as int],
                ));
                assert(peer_info_entries(out@) =~= peer_info_entries(self.peers@).take(i + 1));
            }
            i = i + 1;
        }
        proof {
            assert(peer_info_entries(self.peers@).take(i as int) =~= peer_info_entries(self.peers@));
        }
        out
    }

    /// Route `target` through `next_hop`.
    pub fn add_route(&mut self, target: &str, next_hop: &str)
        ensures
            final(self).routes@.contains_key(target@),
            final(self).routes@[target@].0 == next_hop@,
            final(self).peer_map() == old(self).peer_map(),
    {
        self.routes.add_route(target, next_hop);
    }

    /// The next hop toward `target`: the target itself when it is a direct peer, else the
    /// routed next hop, if any.
    pub fn resolve(&self, target: &str) -> (r: Option<String>)
        ensures
            self.peer_map().contains_key(target@) ==> r.is_some() && r.unwrap()@ == target@,
            !self.peer_map().contains_key(target@) ==> match r {
                Some(h) => self.routes@.contains_key(target@) && h@ == self.routes@[target@].0,
                None => !self.routes@.contains_key(target@),
            },
    {
        if self.find(target) > 0 {
            Some(target.to_owned())
        } else {
            self.routes.resolve(target)
        }
    }
}

} // verus!
