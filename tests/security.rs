use rabbit_warren::auth::Authenticator;
use rabbit_warren::delegation::{parse_caps, DelegationManager};
use rabbit_warren::error::RabbitError;
use rabbit_warren::frame::Frame;
use rabbit_warren::identity::{IdentityManager, Keypair};
use rabbit_warren::manifest::{MemberRecord, TrustManifest};
use rabbit_warren::permissions::{Capability, CapabilityManager};
use rabbit_warren::trust::TrustCache;
use sha2::Digest;

#[test]
fn handshake_issues_session() {
    let mut idm = IdentityManager::new();
    let auth = Authenticator::new();
    let hello = Frame::parse("HELLO\r\nScheme: RABBIT-SECURE-1\r\nBurrow-ID: ed25519:AAA\r\nEnd:\r\nCaps: lanes\r\n").unwrap();
    let reply = auth.process_hello(&mut idm, &hello).unwrap();
    assert_eq!(reply.verb, "200 HELLO");
    let token = reply.header("Session-Token").unwrap().clone();
    assert_eq!(token.len(), 36);
    assert_eq!(token.chars().filter(|c| *c == '-').count(), 4);
    assert_eq!(reply.header("Burrow-ID"), Some(&idm.local_id()));
    let mut next = Frame::new("FETCH");
    next.set_header("Session-Token", &token);
    assert!(auth.require_auth(&idm, &next).is_ok());
    let session = idm.sessions.iter().find(|s| s.token == token).unwrap();
    assert_eq!(session.peer_id, "ed25519:AAA");
    assert!(!session.is_anonymous);
}

#[test]
fn handshake_rejects_other_scheme() {
    let mut idm = IdentityManager::new();
    let auth = Authenticator::new();
    let mut hello = Frame::new("HELLO");
    hello.set_header("Scheme", "PLAIN-0");
    assert_eq!(auth.process_hello(&mut idm, &hello).unwrap_err(), RabbitError::UnsupportedScheme);
    let bare = Frame::new("HELLO");
    assert_eq!(auth.process_hello(&mut idm, &bare).unwrap_err(), RabbitError::UnsupportedScheme);
    assert!(idm.sessions.is_empty());
}

#[test]
fn handshake_without_burrow_id_is_anonymous() {
    let mut idm = IdentityManager::new();
    let auth = Authenticator::new();
    let mut hello = Frame::new("HELLO");
    hello.set_header("Scheme", "RABBIT-SECURE-1");
    let reply = auth.process_hello_with(&mut idm, &hello, "tok-1".to_string(), 1000).unwrap();
    assert_eq!(reply.header("Session-Token"), Some(&"tok-1".to_string()));
    assert_eq!(idm.sessions[0].peer_id, "anonymous");
    assert!(idm.sessions[0].is_anonymous);
    assert_eq!(idm.sessions[0].expires_at, 4600);
}

#[test]
fn begin_handshake_frame() {
    let idm = IdentityManager::new();
    let auth = Authenticator::new();
    let f = auth.begin_handshake(&idm);
    assert_eq!(f.verb, "HELLO");
    assert_eq!(f.header("Scheme"), Some(&"RABBIT-SECURE-1".to_string()));
    assert_eq!(f.header("Burrow-ID"), Some(&idm.local_id()));
    assert_eq!(f.body, Some("Caps: lanes, async, ui, federation\r\n".to_string()));
}

#[test]
fn require_auth_needs_live_token() {
    let mut idm = IdentityManager::new();
    let auth = Authenticator::new();
    idm.create_session_with(Some("p"), false, "tok".to_string(), 100);
    let mut f = Frame::new("LIST");
    assert_eq!(auth.require_auth_at(&idm, &f, 200).unwrap_err(), RabbitError::Unauthorised);
    f.set_header("Session-Token", "tok");
    assert!(auth.require_auth_at(&idm, &f, 3699).is_ok());
    assert_eq!(auth.require_auth_at(&idm, &f, 3700).unwrap_err(), RabbitError::Unauthorised);
    f.set_header("Session-Token", "other");
    assert_eq!(auth.require_auth_at(&idm, &f, 200).unwrap_err(), RabbitError::Unauthorised);
}

#[test]
fn sessions_expire_and_refresh() {
    let mut idm = IdentityManager::new();
    let t = idm.create_session_with(None, true, "abc".to_string(), 100);
    assert_eq!(t, "abc");
    assert!(idm.validate_token_at("abc", 3699));
    assert!(!idm.validate_token_at("abc", 3700));
    assert!(idm.refresh_session_at("abc", 200).is_ok());
    assert!(idm.validate_token_at("abc", 3799));
    assert_eq!(idm.refresh_session_at("zzz", 200).unwrap_err(), RabbitError::SessionUnknown);
    assert!(!idm.validate_token("zzz"));
    let fresh = idm.create_session(Some("peer"), false);
    assert!(idm.validate_token(&fresh));
    assert!(idm.refresh_session(&fresh).is_ok());
}

#[test]
fn identity_ids_and_signatures() {
    let id = IdentityManager::encode_id(&[0u8; 32]);
    assert_eq!(id, format!("ed25519:{}", "A".repeat(52)));
    let idm = IdentityManager::new();
    let local = idm.local_id();
    assert!(local.starts_with("ed25519:"));
    assert_eq!(local.len(), 8 + 52);
    let sig = idm.sign(b"hello");
    assert_eq!(sig.len(), 64);
    let pk = idm.local.public_bytes();
    assert!(idm.verify_signature(&pk, b"hello", &sig).is_ok());
    assert_eq!(idm.verify_signature(&pk, b"hellO", &sig).unwrap_err(), RabbitError::SignatureInvalid);
    assert_eq!(idm.verify_signature(&pk, b"hello", &sig[..10]).unwrap_err(), RabbitError::SignatureInvalid);
    let mut idm2 = IdentityManager::new();
    idm2.register_identity_at("ed25519:X", pk.clone(), 5);
    idm2.register_identity("ed25519:X", vec![1, 2, 3]);
    assert_eq!(idm2.known_identities.len(), 1);
    assert_eq!(idm2.known_identities[0].public_key, vec![1, 2, 3]);
}

#[test]
fn capability_grant_and_expiry() {
    let mut caps = CapabilityManager::new();
    caps.grant_at("ed25519:A", vec![Capability::Fetch, Capability::List], 60, 1000);
    assert!(caps.allowed_at("ed25519:A", Capability::Fetch, 1000));
    assert!(caps.allowed_at("ed25519:A", Capability::List, 1059));
    assert!(!caps.allowed_at("ed25519:A", Capability::Fetch, 1060));
    assert!(!caps.allowed_at("ed25519:A", Capability::Publish, 1000));
    assert!(!caps.allowed_at("ed25519:B", Capability::Fetch, 1000));
    caps.grant_at("ed25519:A", vec![Capability::Publish], 60, 1000);
    assert!(!caps.allowed_at("ed25519:A", Capability::Fetch, 1000));
    assert!(caps.allowed_at("ed25519:A", Capability::Publish, 1000));
    caps.revoke("ed25519:A");
    assert!(!caps.allowed_at("ed25519:A", Capability::Publish, 1000));
    assert!(caps.list_grants().is_empty());
    caps.grant_at("s", vec![Capability::Subscribe], i64::MAX, 10);
    assert_eq!(caps.list_grants()[0].expires_at, i64::MAX);
    caps.grant("now", vec![Capability::Fetch], 3600);
    assert!(caps.allowed("now", Capability::Fetch));
}

#[test]
fn delegate_grants_listed_capabilities() {
    let mut caps = CapabilityManager::new();
    let dm = DelegationManager::new();
    let mut f = Frame::new("DELEGATE");
    f.set_header("Burrow-ID", "ed25519:BBB");
    f.set_header("Caps", "Fetch, PUBLISH ,bogus,ui");
    f.set_header("TTL", "30");
    let reply = dm.handle_delegate_at(&mut caps, &f, 500).unwrap();
    assert_eq!(reply.verb, "200 DELEGATED");
    assert_eq!(reply.header("Burrow-ID"), Some(&"ed25519:BBB".to_string()));
    assert_eq!(reply.body, Some("Delegation successful\r\n".to_string()));
    assert!(caps.allowed_at("ed25519:BBB", Capability::Fetch, 529));
    assert!(caps.allowed_at("ed25519:BBB", Capability::Publish, 529));
    assert!(caps.allowed_at("ed25519:BBB", Capability::UIControl, 529));
    assert!(!caps.allowed_at("ed25519:BBB", Capability::List, 529));
    assert!(!caps.allowed_at("ed25519:BBB", Capability::Fetch, 530));
}

#[test]
fn delegate_default_ttl_and_missing_fields() {
    let mut caps = CapabilityManager::new();
    let dm = DelegationManager::new();
    let mut f = Frame::new("DELEGATE");
    f.set_header("Burrow-ID", "ed25519:C");
    assert_eq!(dm.handle_delegate_at(&mut caps, &f, 0).unwrap_err(), RabbitError::MissingField);
    let mut g = Frame::new("DELEGATE");
    g.set_header("Caps", "fetch");
    assert_eq!(dm.handle_delegate_at(&mut caps, &g, 0).unwrap_err(), RabbitError::MissingField);
    assert!(caps.list_grants().is_empty());
    f.set_header("Caps", "manage_warren,manage_burrows,federation,subscribe,list");
    f.set_header("TTL", "soon");
    dm.handle_delegate_at(&mut caps, &f, 0).unwrap();
    assert!(caps.allowed_at("ed25519:C", Capability::ManageWarren, 599));
    assert!(!caps.allowed_at("ed25519:C", Capability::ManageWarren, 600));
    assert_eq!(parse_caps("fetch,,LIST"), vec![Capability::Fetch, Capability::List]);
}

#[test]
fn forbidden_without_grant() {
    let caps = CapabilityManager::new();
    let dm = DelegationManager::new();
    let mut f = Frame::new("FETCH");
    f.set_header("Burrow-ID", "ed25519:BBB");
    f.set_header("Session-Token", "valid");
    assert_eq!(dm.require_at(&caps, &f, Capability::Fetch, 0).unwrap_err(), RabbitError::Forbidden);
    assert_eq!(dm.require(&caps, &f, Capability::Fetch).unwrap_err(), RabbitError::Forbidden);
    let bare = Frame::new("FETCH");
    assert_eq!(dm.require_at(&caps, &bare, Capability::Fetch, 0).unwrap_err(), RabbitError::Forbidden);
    let mut granted = CapabilityManager::new();
    granted.grant_at("ed25519:BBB", vec![Capability::Fetch], 10, 0);
    assert!(dm.require_at(&granted, &f, Capability::Fetch, 5).is_ok());
}

fn sha_hex(s: &str) -> String {
    hex::encode(sha2::Sha256::digest(s.as_bytes()))
}

#[test]
fn tofu_pins_first_certificate() {
    let mut cache = TrustCache::new();
    let pem_a = "-----BEGIN CERTIFICATE-----\nAAAA\n-----END CERTIFICATE-----\n";
    let pem_b = "-----BEGIN CERTIFICATE-----\nBBBB\n-----END CERTIFICATE-----\n";
    assert!(cache.verify_or_remember_at("ed25519:CCC", pem_a, None, 10).is_ok());
    assert!(cache.is_trusted("ed25519:CCC"));
    assert_eq!(cache.verify_or_remember_at("ed25519:CCC", pem_b, None, 20).unwrap_err(), RabbitError::FingerprintMismatch);
    assert_eq!(cache.peers[0].fingerprint, sha_hex(pem_a));
    assert_eq!(cache.peers[0].last_seen, 10);
    assert!(cache.verify_or_remember_at("ed25519:CCC", pem_a, Some("anchor"), 30).is_ok());
    assert_eq!(cache.peers[0].last_seen, 30);
    assert_eq!(cache.peers[0].first_seen, 10);
    assert_eq!(cache.peers[0].anchor_id, None);
    assert!(!cache.is_trusted("ed25519:DDD"));
    assert!(cache.verify_or_remember("ed25519:DDD", pem_b, Some("anc")).is_ok());
    assert_eq!(cache.list_trusted().len(), 2);
    assert_eq!(cache.list_trusted()[1].anchor_id, Some("anc".to_string()));
}

#[test]
fn fingerprint_is_sha256_hex() {
    assert_eq!(TrustCache::fingerprint(""), "e3b0c44298fc1c149afbf4c8996fb92427ae41e4649b934ca495991b7852b855");
    assert_eq!(TrustCache::fingerprint("abc"), sha_hex("abc"));
}

#[test]
fn manifest_sign_then_verify() {
    let kp = Keypair::generate();
    let other = Keypair::generate();
    let members = vec![MemberRecord { id: "ed25519:M1".to_string(), role: "member".to_string(), expires: 99 }];
    let m = TrustManifest::sign("ed25519:ANCHOR", members, &kp);
    assert!(m.verify(&kp.public_bytes()).is_ok());
    assert_eq!(m.verify(&other.public_bytes()).unwrap_err(), RabbitError::SignatureInvalid);
    let mut bad = TrustManifest::sign_at("ed25519:ANCHOR", Vec::new(), &kp, 5);
    bad.signature = "!!not base64!!".to_string();
    assert_eq!(bad.verify(&kp.public_bytes()).unwrap_err(), RabbitError::ManifestMalformed);
    let mut tampered = TrustManifest::sign_at("ed25519:ANCHOR", Vec::new(), &kp, 5);
    tampered.issued = 6;
    assert_eq!(tampered.verify(&kp.public_bytes()).unwrap_err(), RabbitError::SignatureInvalid);
}

#[test]
fn manifest_canonical_json() {
    let kp = Keypair::generate();
    let members = vec![
        MemberRecord { id: "a".to_string(), role: "r\"1".to_string(), expires: -5 },
        MemberRecord { id: "b".to_string(), role: "r2".to_string(), expires: 7 },
    ];
    let m = TrustManifest::sign_at("anc", members, &kp, 42);
    assert_eq!(
        m.payload(),
        "{\"anchor\":\"anc\",\"members\":[{\"id\":\"a\",\"role\":\"r\\\"1\",\"expires\":-5},{\"id\":\"b\",\"role\":\"r2\",\"expires\":7}],\"issued\":42,\"signature\":\"\"}"
    );
    assert_eq!(m.signature.len(), 88);
    let empty = TrustManifest::sign_at("anc", Vec::new(), &kp, 1);
    assert_eq!(empty.payload(), "{\"anchor\":\"anc\",\"members\":[],\"issued\":1,\"signature\":\"\"}");
}

#[test]
fn keypair_from_secret_bytes() {
    assert!(Keypair::from_secret(vec![7u8; 31]).is_none());
    let kp = Keypair::from_secret(vec![7u8; 32]).unwrap();
    let again = Keypair::from_secret(vec![7u8; 32]).unwrap();
    assert_eq!(kp.public_bytes(), again.public_bytes());
    assert_eq!(kp.sign(b"m"), again.sign(b"m"));
}

#[test]
fn clock_sessions_last_an_hour() {
    let mut idm = IdentityManager::new();
    let auth = Authenticator::new();
    let mut hello = Frame::new("HELLO");
    hello.set_header("Scheme", "RABBIT-SECURE-1");
    hello.set_header("Burrow-ID", "ed25519:Z");
    let reply = auth.process_hello(&mut idm, &hello).unwrap();
    let token = reply.header("Session-Token").unwrap().clone();
    let s = idm.sessions.iter().find(|s| s.token == token).unwrap();
    assert_eq!(s.expires_at - s.issued_at, 3600);
    assert_eq!(reply.to_string(), format!("200 HELLO\r\nSession-Token: {}\r\nBurrow-ID: {}\r\nEnd:\r\nWelcome to Rabbit\r\n", token, idm.local_id()));
    let before = idm.sessions.iter().find(|s| s.token == token).unwrap().expires_at;
    idm.refresh_session(&token).unwrap();
    assert!(idm.sessions.iter().find(|s| s.token == token).unwrap().expires_at >= before);
}
