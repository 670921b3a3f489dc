//! Menu frames that list the warren's peers, the federation's anchors and the trusted
//! burrows, one `<type><label>\t<selector>\t<burrow>\t<hint>` line each.
use vstd::prelude::*;
use crate::federation::{FederationAnchor, FederationManager};
use crate::frame::Frame;
use crate::num::{i64_text, signed_decimal};
use crate::routing::{PeerInfo, WarrenRouter};
use crate::trust::{TrustCache, TrustedPeer};

verus! {

broadcast use vstd::string::group_string_axioms;

pub open spec fn peer_line(p: PeerInfo) -> Seq<char> {
    "1"@ + p.burrow_id@ + "\t/1/peer/"@ + p.burrow_id@ + "\t"@ + p.burrow_id@ + "\tlast_seen:"@
        + signed_decimal(p.last_seen as int) + "\r\n"@
}

pub open spec fn anchor_line(a: FederationAnchor) -> Seq<char> {
    "t"@ + a.warren_id@ + "\t/t/anchor/"@ + a.warren_id@ + "\t"@ + a.warren_id@ + "\t"@ + a.domain@
        + "\r\n"@
}

pub open spec fn trusted_line(p: TrustedPeer) -> Seq<char> {
    "t"@ + p.burrow_id@ + "\t/t/trust/"@ + p.burrow_id@ + "\t"@ + p.burrow_id@ + "\tanchor:"@
        + match p.anchor_id {
        Some(a) => a@,
        None => "-"@,
    } + "\r\n"@
}

pub open spec fn peer_menu(s: Seq<PeerInfo>) -> Seq<char>
    decreases s.len(),
{
    if s.len() == 0 {
        Seq::empty()
    } else {
        peer_menu(s.drop_last()) + peer_line(s.last())
    }
}

pub open spec fn anchor_menu(s: Seq<FederationAnchor>) -> Seq<char>
    decreases s.len(),
{
    if s.len() == 0 {
        Seq::empty()
    } else {
        anchor_menu(s.drop_last()) + anchor_line(s.last())
    }
}

pub open spec fn trusted_menu(s: Seq<TrustedPeer>) -> Seq<char>
    decreases s.len(),
{
    if s.len() == 0 {
        Seq::empty()
    } else {
        trusted_menu(s.drop_last()) + trusted_line(s.last())
    }
}

/// A `200 MENU` frame listing the direct peers of the warren.
pub fn list_peers_menu(router: &WarrenRouter) -> (r: Frame)
    ensures
        r@.verb == "200 MENU"@,
        r@.body == Some(peer_menu(router.peers@)),
{
    let mut body = String::new();
    let mut i: usize = 0;
    while i < router.peers.len()
        invariant
            i <= router.peers@.len(),
            body@ == peer_menu(router.peers@.take(i as int)),
        decreases router.peers@.len() - i,
    {
        let p = &router.peers[i];
        proof {
            assert(router.peers@.take(i + 1).drop_last() =~= router.peers@.take(i as int));
        }
        body.append("1");
        body.append(p.burrow_id.as_str());
        body.append("\t/1/peer/");
        body.append(p.burrow_id.as_str());
        body.append("\t");
        body.append(p.burrow_id.as_str());
        body.append("\tlast_seen:");
        let t = i64_text(p.last_seen);
        body.append(t.as_str());
        body.append("\r\n");
        proof {
            assert(body@ =~= peer_menu(router.peers@.take(i + 1)));
        }
        i = i + 1;
    }
    proof {
        assert(router.peers@.take(i as int) =~= router.peers@);
    }
    let mut frame = Frame::new("200 MENU");
    frame.body = Some(body);
    frame
}

/// A `200 MENU` frame listing the known federation anchors.
pub fn list_anchors_menu(federation: &FederationManager) -> (r: Frame)
    ensures
        r@.verb == "200 MENU"@,
        r@.body == Some(anchor_menu(federation.anchors@)),
{
    let mut body = String::new();
    let mut i: usize = 0;
    while i < federation.anchors.len()
        invariant
            i <= federation.anchors@.len(),
            body@ == anchor_menu(federation.anchors@.take(i as int)),
        decreases federation.anchors@.len() - i,
    {
        let a = &federation.anchors[i];
        proof {
            assert(federation.anchors@.take(i + 1).drop_last() =~= federation.anchors@.take(i as int));
        }
        body.append("t");
        body.append(a.warren_id.as_str());
        body.append("\t/t/anchor/");
        body.append(a.warren_id.as_str());
        body.append("\t");
        body.append(a.warren_id.as_str());
        body.append("\t");
        body.append(a.domain.as_str());
        body.append("\r\n");
        proof {
            assert(body@ =~= anchor_menu(federation.anchors@.take(i + 1)));
        }
        i = i + 1;
    }
    proof {
        assert(federation.anchors@.take(i as int) =~= federation.anchors@);
    }
    let mut frame = Frame::new("200 MENU");
    frame.body = Some(body);
    frame
}

/// A `200 MENU` frame listing the burrows trusted on first use.
pub fn list_trusted_menu(trust: &TrustCache) -> (r: Frame)
    ensures
        r@.verb == "200 MENU"@,
        r@.body == Some(trusted_menu(trust.peers@)),
{
    let mut body = String::new();
    let mut i: usize = 0;
    while i < trust.peers.len()
        invariant
            i <= trust.peers@.len(),
            body@ == trusted_menu(trust.peers@.take(i as int)),
        decreases trust.peers@.len() - i,
    {
        let p = &trust.peers[i];
        proof {
            assert(trust.peers@.take(i + 1).drop_last() =~= trust.peers@.take(i as int));
        }
        body.append("t");
        body.append(p.burrow_id.as_str());
        body.append("\t/t/trust/");
        body.append(p.burrow_id.as_str());
        body.append("\t");
        body.append(p.burrow_id.as_str());
        body.append("\tanchor:");
        match &p.anchor_id {
            Some(a) => body.append(a.as_str()),
            None => body.append("-"),
        }
        body.append("\r\n");
        proof {
            assert(body@ =~= trusted_menu(trust.peers@.take(i + 1)));
        }
        i = i + 1;
    }
    proof {
        assert(trust.peers@.take(i as int) =~= trust.peers@);
    }
    let mut frame = Frame::new("200 MENU");
    frame.body = Some(body);
    frame
}

} // verus!
