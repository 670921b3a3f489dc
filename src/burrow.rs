//! A burrow: one participant of the warren, holding its identity, trust, capabilities,
//! routing, federation, event logs and interface declaration.
use vstd::prelude::*;
use crate::auth::Authenticator;
use crate::clock::now_secs;
use crate::config::Config;
use crate::continuity::ContinuityEngine;
use crate::delegation::DelegationManager;
use crate::federation::FederationManager;
use crate::frame::Frame;
use crate::identity::{id_of, IdentityManager};
use crate::menus::{list_anchors_menu, list_peers_menu, list_trusted_menu};
use crate::permissions::{expiry, Capability, CapabilityManager, GrantModel};
use crate::routing::{PeerInfo, PeerRecord, WarrenRouter};
use crate::trust::TrustCache;
use crate::ui::UiDeclaration;

verus! {

broadcast use vstd::string::group_string_axioms;

/// A participant of the warren and the services it runs.
pub struct Burrow {
    /// This burrow's id, derived from its public key.
    pub id: String,
    pub config: Config,
    pub identity: IdentityManager,
    pub auth: Authenticator,
    pub trust_cache: TrustCache,
    pub perms: CapabilityManager,
    pub delegate: DelegationManager,
    pub router: WarrenRouter,
    pub federation: FederationManager,
    pub continuity: ContinuityEngine,
    pub ui_decl: UiDeclaration,
}

impl Burrow {
    /// A burrow with a fresh identity and empty state; `headed` selects the interface.
    pub fn new(config: Config, headed: bool) -> (r: Burrow)
        ensures
            r.identity.wf(),
            r.id@ == id_of(r.identity.local.public_key()),
            r.trust_cache@.len() == 0,
            r.perms@.len() == 0,
            r.continuity@.len() == 0,
            headed ==> r.ui_decl.routes@.len() == 3,
            !headed ==> r.ui_decl.routes@.len() == 0,
    {
        let identity = IdentityManager::new();
        let id = identity.local_id();
        let ui_decl = if headed {
            UiDeclaration::default_headed()
        } else {
            UiDeclaration::default_headless()
        };
        let r = Burrow {
            id,
            config,
            identity,
            auth: Authenticator::new(),
            trust_cache: TrustCache::new(),
            perms: CapabilityManager::new(),
            delegate: DelegationManager::new(),
            router: WarrenRouter::new(),
            federation: FederationManager::new(),
            continuity: ContinuityEngine::new(),
            ui_decl,
        };
        proof {
            assert(r.trust_cache@.dom() =~= Set::<Seq<char>>::empty());
            assert(r.perms@.dom() =~= Set::<Seq<char>>::empty());
            assert(r.continuity@.dom() =~= Set::<Seq<char>>::empty());
            if headed {
                assert(crate::ui::route_paths(r.ui_decl.routes@).len() == 3);
            }
        }
        r
    }

    /// Record a peer at `address`, seen at `now`; `true` when it is new.
    pub fn register_peer_at(&mut self, peer_id: &str, address: &str, now: i64) -> (r: bool)
        ensures
            r == !old(self).router.peer_map().contains_key(peer_id@),
            final(self).router.peer_map() == old(self).router.peer_map().insert(
                peer_id@,
                PeerRecord { address: address@, last_seen: now, capabilities: Seq::empty() },
            ),
    {
        let info = PeerInfo {
            burrow_id: peer_id.to_owned(),
            address: address.to_owned(),
            last_seen: now,
            capabilities: Vec::new(),
        };
        proof {
            assert(crate::text::views(info.capabilities@) =~= Seq::<Seq<char>>::empty());
        }
        self.router.register_peer(info)
    }

    /// Record a peer at `address`, seen now; `true` when it is new.
    pub fn register_peer(&mut self, peer_id: &str, address: &str) -> (r: bool)
        ensures
            r == !old(self).router.peer_map().contains_key(peer_id@),
            final(self).router.peer_map().contains_key(peer_id@),
            final(self).router.peer_map()[peer_id@].address == address@,
    {
        let now = now_secs();
        self.register_peer_at(peer_id, address, now)
    }

    /// Grant capabilities to a subject for `ttl` seconds from now.
    pub fn grant(&mut self, subject: &str, caps: Vec<Capability>, ttl: i64)
        ensures
            final(self).perms@.contains_key(subject@),
            ({
                let t = final(self).perms@[subject@].issued_at;
                final(self).perms@ == old(self).perms@.insert(
                    subject@,
                    GrantModel { caps: caps@.to_set(), issued_at: t, expires_at: expiry(t, ttl) },
                )
            }),
    {
        self.perms.grant(subject, caps, ttl);
    }

    /// Whether `token` names a live session.
    pub fn validate_session(&self, token: &str) -> (r: bool)
        ensures
            r ==> self.identity.session_map().contains_key(token@),
    {
        self.identity.validate_token(token)
    }

    /// A menu of the warren's peers.
    pub fn menu_peers(&self) -> (r: Frame)
        ensures
            r@.body == Some(crate::menus::peer_menu(self.router.peers@)),
    {
        list_peers_menu(&self.router)
    }

    /// A menu of the federation's anchors.
    pub fn menu_anchors(&self) -> (r: Frame)
        ensures
            r@.body == Some(crate::menus::anchor_menu(self.federation.anchors@)),
    {
        list_anchors_menu(&self.federation)
    }

    /// A menu of the trusted burrows.
    pub fn menu_trusted(&self) -> (r: Frame)
        ensures
            r@.body == Some(crate::menus::trusted_menu(self.trust_cache.peers@)),
    {
        list_trusted_menu(&self.trust_cache)
    }
}

} // verus!
