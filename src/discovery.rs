//! Announcements that let burrows on one local network find each other.
use vstd::prelude::*;
use crate::text::{chars_of, slice_string, trim, trim_range};

verus! {

broadcast use vstd::string::group_string_axioms;

/// What every announcement starts with.
pub open spec fn announce_prefix() -> Seq<char> {
    "DISCOVER:RABBIT:"@
}

/// Where announcements are sent: a multicast group and a UDP port.
#[derive(Debug)]
pub struct DiscoveryService {
    pub multicast_addr: String,
    pub port: u16,
}

impl DiscoveryService {
    /// The default group `239.255.255.250`, port 8888.
    pub fn new() -> (r: DiscoveryService)
        ensures
            r.multicast_addr@ == "239.255.255.250"@,
            r.port == 8888,
    {
        DiscoveryService { multicast_addr: "239.255.255.250".to_owned(), port: 8888 }
    }

    /// The announcement of `burrow_id`.
    pub fn announcement(&self, burrow_id: &str) -> (r: String)
        ensures
            r@ == announce_prefix() + burrow_id@,
    {
        let mut out = "DISCOVER:RABBIT:".to_owned();
        out.append(burrow_id);
        out
    }

    /// The burrow id an announcement carries, trimmed; `None` for any other message.
    pub fn announced_id(&self, msg: &str) -> (r: Option<String>)
        ensures
            match r {
                Some(id) => msg@.len() >= announce_prefix().len() && msg@.take(
                    announce_prefix().len() as int,
                ) == announce_prefix() && id@ == trim(msg@.skip(announce_prefix().len() as int)),
                None => !(msg@.len() >= announce_prefix().len() && msg@.take(
                    announce_prefix().len() as int,
                ) == announce_prefix()),
            },
    {
        let v = chars_of(msg);
        let p = chars_of("DISCOVER:RABBIT:");
        if v.len() < p.len() {
            return None;
        }
        let mut i: usize = 0;
        while i < p.len()
            invariant
                i <= p@.len(),
                p@.len() <= v@.len(),
                v@ == msg@,
                p@ == announce_prefix(),
                forall|j: int| 0 <= j < i ==> v@[j] == p@[j],
            decreases p@.len() - i,
        {
            if v[i] != p[i] {
                proof {
                    assert(msg@.take(p@.len() as int)[i as int] != p@[i as int]);
                }
                return None;
            }
            i = i + 1;
        }
        proof {
            assert(msg@.take(p@.len() as int) =~= p@);
        }
        let (a, b) = trim_range(&v, p.len(), v.len());
        proof {
            assert(v@.subrange(p@.len() as int, v@.len() as int) =~= msg@.skip(p@.len() as int));
        }
        Some(slice_string(msg, a, b))
    }
}

} // verus!
