use rabbit_warren::burrow::Burrow;
use rabbit_warren::config::{Config, IdentitySection, NetworkSection};
use rabbit_warren::continuity::ContinuityEngine;
use rabbit_warren::delegation::DelegationManager;
use rabbit_warren::error::RabbitError;
use rabbit_warren::federation::{FederationAnchor, FederationManager};
use rabbit_warren::frame::Frame;
use rabbit_warren::identity::IdentityManager;
use rabbit_warren::menus::{list_anchors_menu, list_peers_menu, list_trusted_menu};
use rabbit_warren::permissions::{Capability, CapabilityManager};
use rabbit_warren::routing::{PeerInfo, Router, WarrenRouter};
use rabbit_warren::trust::TrustCache;
use rabbit_warren::tunnel::{status_frame, Tunnel};

fn config() -> Config {
    Config {
        identity: IdentitySection { name: "oak".to_string(), storage: "data".to_string(), certs: "certs".to_string() },
        network: NetworkSection { port: 7443, peers: vec![] },
        federation: None,
    }
}

struct Side {
    tunnel: Tunnel,
    idm: IdentityManager,
    caps: CapabilityManager,
    events: ContinuityEngine,
    delegation: DelegationManager,
}

fn side() -> Side {
    Side {
        tunnel: Tunnel::new(100, 3),
        idm: IdentityManager::new(),
        caps: CapabilityManager::new(),
        events: ContinuityEngine::new(),
        delegation: DelegationManager::new(),
    }
}

impl Side {
    fn feed(&mut self, raw: &str, now: i64) -> rabbit_warren::tunnel::Outcome {
        self.tunnel.dispatch(raw, &mut self.idm, &mut self.caps, Some(&self.delegation), &self.events, "tok-1".to_string(), now, 0)
    }
}

#[test]
fn dispatch_handshake_then_authenticated_event() {
    let mut s = side();
    let hello = "HELLO\r\nScheme: RABBIT-SECURE-1\r\nBurrow-ID: ed25519:AAA\r\nEnd:\r\nCaps: lanes\r\n";
    let out = s.feed(hello, 1000);
    assert!(!out.close);
    assert_eq!(out.outbound.len(), 1);
    let reply = Frame::parse(&out.outbound[0]).unwrap();
    assert_eq!(reply.verb, "200 HELLO");
    assert!(reply.args.is_empty());
    assert_eq!(reply.header("Session-Token"), Some(&"tok-1".to_string()));
    let event = "EVENT\r\nSession-Token: tok-1\r\nLane: 2\r\nSeq: 1\r\nSelector: q/news\r\nEnd:\r\nhello";
    let out = s.feed(event, 1001);
    assert_eq!(out.outbound, vec!["ACK\r\nLane: 2\r\nACK: 1\r\nEnd:\r\n".to_string()]);
    let (path, line) = out.log.unwrap();
    assert_eq!(path, "q_news.log");
    assert_eq!(line, "1\t1001\t2\thello\n");
    assert_eq!(out.deliver.unwrap().verb, "EVENT");
    assert!(s.events.replay("q/news", None).is_empty());
    s.events.commit(out.event.unwrap());
    let dup = s.feed(event, 1002);
    assert!(dup.outbound.is_empty());
    assert!(dup.deliver.is_none());
    assert_eq!(s.events.replay("q/news", None).len(), 1);
}

#[test]
fn dispatch_rejects_without_session() {
    let mut s = side();
    let out = s.feed("FETCH\r\nBurrow-ID: ed25519:BBB\r\nEnd:\r\n", 10);
    assert_eq!(out.outbound, vec![status_frame(RabbitError::Unauthorised)]);
    assert_eq!(out.outbound[0], "401 Unauthorised\r\nEnd:\r\n");
    assert!(out.deliver.is_none());
    assert!(!out.close);
}

#[test]
fn dispatch_closes_on_bad_frames() {
    let mut s = side();
    assert!(s.feed("", 0).close);
    assert!(s.feed("HELLO\r\nScheme: OTHER\r\nEnd:\r\n", 0).close);
}

#[test]
fn forbidden_status_frame() {
    let mut s = side();
    s.idm.create_session_with(Some("ed25519:BBB"), false, "valid".to_string(), 0);
    let out = s.feed("FETCH\r\nBurrow-ID: ed25519:BBB\r\nSession-Token: valid\r\nEnd:\r\n", 5);
    let frame = out.deliver.unwrap();
    let result = s.delegation.require_at(&s.caps, &frame, Capability::Fetch, 5);
    assert_eq!(result.unwrap_err(), RabbitError::Forbidden);
    assert_eq!(status_frame(RabbitError::Forbidden), "403 Forbidden\r\nEnd:\r\n");
}

#[test]
fn dispatch_delegate_and_credit() {
    let mut s = side();
    s.idm.create_session_with(Some("p"), false, "valid".to_string(), 0);
    let out = s.feed("DELEGATE\r\nSession-Token: valid\r\nBurrow-ID: ed25519:Q\r\nCaps: fetch\r\nEnd:\r\n", 5);
    let reply = Frame::parse(&out.outbound[0]).unwrap();
    assert_eq!(reply.verb, "200 DELEGATED");
    assert!(s.caps.allowed_at("ed25519:Q", Capability::Fetch, 6));
    let out = s.feed("DELEGATE\r\nSession-Token: valid\r\nCaps: fetch\r\nEnd:\r\n", 5);
    assert_eq!(out.outbound, vec!["400 MissingField\r\nEnd:\r\n".to_string()]);
    for i in 0..17 {
        let mut f = Frame::new("DATA");
        f.body = Some(format!("{}", i));
        let sent = s.tunnel.send(f, 6, 0);
        assert_eq!(sent.is_some(), i < 16);
    }
    let out = s.feed("CREDIT\r\nLane: 6\r\nCredit: +1\r\nEnd:\r\n", 5);
    assert_eq!(out.outbound.len(), 1);
    let released = Frame::parse(&out.outbound[0]).unwrap();
    assert_eq!(released.header("Seq"), Some(&"17".to_string()));
    assert_eq!(s.tunnel.reliability.pending_frames().len(), 17);
    let out = s.feed("ACK\r\nLane: 6\r\nACK: 17\r\nEnd:\r\n", 5);
    assert!(out.outbound.is_empty());
    assert_eq!(s.tunnel.reliability.pending_frames().len(), 16);
}

#[test]
fn initiator_records_session_token() {
    let mut s = side();
    let out = s.feed("200 HELLO\r\nSession-Token: abc\r\nBurrow-ID: ed25519:S\r\nEnd:\r\n", 0);
    assert!(out.outbound.is_empty());
    assert_eq!(s.tunnel.session_token, Some("abc".to_string()));
}

#[test]
fn routing_tables() {
    let mut r = Router::new();
    r.add_route_at("far", "near", 5);
    assert_eq!(r.resolve("far"), Some("near".to_string()));
    r.add_route("far", "other");
    assert_eq!(r.resolve("far"), Some("other".to_string()));
    assert_eq!(r.resolve("x"), None);
    assert_eq!(r.all().len(), 1);
    let mut w = WarrenRouter::new();
    let info = PeerInfo { burrow_id: "peer-a".to_string(), address: "10.0.0.1".to_string(), last_seen: 3, capabilities: vec![] };
    assert!(w.register_peer(info));
    let again = PeerInfo { burrow_id: "peer-a".to_string(), address: "10.0.0.2".to_string(), last_seen: 4, capabilities: vec!["ui".to_string()] };
    assert!(!w.register_peer(again));
    assert_eq!(w.list_peers()[0].address, "10.0.0.2");
    assert_eq!(w.resolve("peer-a"), Some("peer-a".to_string()));
    w.add_route("peer-far", "peer-a");
    assert_eq!(w.resolve("peer-far"), Some("peer-a".to_string()));
    assert_eq!(w.resolve("peer-none"), None);
    let menu = list_peers_menu(&w);
    assert_eq!(menu.verb, "200 MENU");
    assert_eq!(menu.body, Some("1peer-a\t/1/peer/peer-a\tpeer-a\tlast_seen:4\r\n".to_string()));
}

#[test]
fn federation_state_and_frames() {
    let mut fed = FederationManager::new();
    fed.register_anchor_at("w1", "k1", "w1.example", 1);
    fed.handle_gossip_at("w2 w2.example\r\nlonely\r\n\r\nw3 w3.example extra", 2);
    let ids: Vec<String> = fed.list_anchors().iter().map(|a| a.warren_id.clone()).collect();
    assert_eq!(ids, vec!["w1".to_string(), "w2".to_string(), "w3".to_string()]);
    let mut adv = Frame::new("FED-ADVERTISE");
    assert_eq!(fed.handle_advertisement_at(&adv, 3).unwrap_err(), RabbitError::MissingField);
    adv.set_header("Warren-ID", "w2");
    adv.set_header("Key", "k2");
    fed.handle_advertisement_at(&adv, 3).unwrap();
    assert_eq!(fed.list_anchors()[1].public_key, "k2");
    assert_eq!(fed.list_anchors()[1].domain, "");
    assert!(fed.advertise(&fed.list_anchors()[0]).is_empty());
    fed.establish_link_at("w2", Some("s"), vec!["events".to_string()], 4);
    fed.establish_link("w3", None, vec![]);
    fed.establish_link_at("w2", None, vec![], 5);
    assert_eq!(fed.list_links().len(), 2);
    let local = FederationAnchor { warren_id: "me".to_string(), public_key: "pk".to_string(), domain: "me.example".to_string(), last_seen: 0 };
    let frames = fed.advertise_at(&local, "now");
    assert_eq!(frames.len(), 2);
    assert_eq!(frames[0].header("Warren-ID"), Some(&"me".to_string()));
    assert_eq!(frames[0].body, Some("Timestamp: now\r\n".to_string()));
    let gossip = fed.gossip_anchors();
    assert_eq!(gossip.len(), 2);
    assert_eq!(gossip[0].body, Some("w1 w1.example\r\nw2 \r\nw3 w3.example\r\n".to_string()));
    let menu = list_anchors_menu(&fed);
    assert!(menu.body.unwrap().starts_with("tw1\t/t/anchor/w1\tw1\tw1.example\r\n"));
}

#[test]
fn burrow_wires_services() {
    let mut b = Burrow::new(config(), true);
    assert_eq!(b.id, b.identity.local_id());
    assert_eq!(b.ui_decl.routes.len(), 3);
    assert!(Burrow::new(config(), false).ui_decl.routes.is_empty());
    assert!(b.register_peer("p", "1.2.3.4"));
    assert!(!b.register_peer("p", "1.2.3.5"));
    b.grant("p", vec![Capability::List], 60);
    assert!(b.perms.allowed("p", Capability::List));
    let t = b.identity.create_session(None, true);
    assert!(b.validate_session(&t));
    assert!(!b.validate_session("nope"));
    b.trust_cache.verify_or_remember_at("ed25519:T", "pem", None, 1).unwrap();
    assert_eq!(b.menu_trusted().body, Some("ted25519:T\t/t/trust/ed25519:T\ted25519:T\tanchor:-\r\n".to_string()));
    assert_eq!(b.menu_anchors().body, Some(String::new()));
    assert_eq!(b.menu_peers().verb, "200 MENU");
    let t2 = TrustCache::new();
    assert_eq!(list_trusted_menu(&t2).body, Some(String::new()));
}
