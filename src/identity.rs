//! The local keypair, known peer identities and authentication sessions.
use vstd::prelude::*;
use crate::assoc::{assoc, lemma_assoc_absent, lemma_assoc_last, lemma_assoc_push,
    lemma_assoc_update};
use crate::clock::now_secs;
use crate::crypto::{
    ed25519_public, ed25519_sig, ed25519_valid, generate_secret, new_token, public_key_of,
    sign_bytes, verify_bytes, KEY_LEN,
};
use crate::encoding::{base32_of, base32_text};
use crate::error::RabbitError;
use crate::permissions::{expiry, expiry_of};

verus! {

broadcast use vstd::string::group_string_axioms;

/// How long a session lasts, in seconds.
pub const SESSION_SECS: i64 = 3600;

/// The burrow id of a public key: `ed25519:` and the unpadded base32 of the key.
pub open spec fn id_of(pk: Seq<u8>) -> Seq<char> {
    "ed25519:"@ + base32_of(pk)
}

/// An Ed25519 keypair.
pub struct Keypair {
    secret: Vec<u8>,
    public: Vec<u8>,
}

impl Keypair {
    /// The secret key's bytes.
    pub closed spec fn secret_key(&self) -> Seq<u8> {
        self.secret@
    }

    /// The public key's bytes.
    pub closed spec fn public_key(&self) -> Seq<u8> {
        self.public@
    }

    /// The public key belongs to the 32-byte secret key.
    pub closed spec fn wf(&self) -> bool {
        self.secret@.len() == KEY_LEN && self.public@ == ed25519_public(self.secret@)
    }

    /// A fresh keypair from the operating system's random source.
    pub fn generate() -> (r: Keypair)
        ensures
            r.wf(),
    {
        let secret = generate_secret();
        let public = public_key_of(secret.as_slice());
        Keypair { secret, public }
    }

    /// The keypair of a 32-byte secret key.
    pub fn from_secret(secret: Vec<u8>) -> (r: Option<Keypair>)
        ensures
            secret@.len() == KEY_LEN <==> r.is_some(),
            r.is_some() ==> r.unwrap().wf() && r.unwrap().secret_key() == secret@,
    {
        if secret.len() != KEY_LEN {
            return None;
        }
        let public = public_key_of(secret.as_slice());
        Some(Keypair { secret, public })
    }

    /// The public key.
    pub fn public_bytes(&self) -> (r: Vec<u8>)
        ensures
            r@ == self.public_key(),
    {
        self.public.clone()
    }

    /// What a well-formed keypair holds: a 32-byte secret key and the public key that
    /// belongs to it.
    pub proof fn lemma_wf(&self)
        requires
            self.wf(),
        ensures
            self.secret_key().len() == KEY_LEN,
            self.public_key() == ed25519_public(self.secret_key()),
    {
    }

    /// The signature of `data` under this keypair.
    pub fn sign(&self, data: &[u8]) -> (r: Vec<u8>)
        requires
            self.wf(),
        ensures
            r@ == ed25519_sig(self.secret_key(), data@),
            r@.len() == 64,
    {
        sign_bytes(self.secret.as_slice(), data)
    }
}

/// A peer whose public key is known.
#[derive(Debug)]
pub struct Identity {
    pub id: String,
    pub public_key: Vec<u8>,
    pub created_at: i64,
}

/// What a known identity records.
pub struct IdentityModel {
    pub public_key: Seq<u8>,
    pub created_at: i64,
}

/// A session between burrows; valid until `expires_at`.
#[derive(Debug)]
pub struct Session {
    pub peer_id: String,
    pub token: String,
    pub issued_at: i64,
    pub expires_at: i64,
    pub is_anonymous: bool,
}

/// What a session records.
pub struct SessionModel {
    pub peer_id: Seq<char>,
    pub issued_at: i64,
    pub expires_at: i64,
    pub is_anonymous: bool,
}

pub open spec fn identity_entries(s: Seq<Identity>) -> Seq<(Seq<char>, IdentityModel)> {
    s.map_values(
        |i: Identity| (i.id@, IdentityModel { public_key: i.public_key@, created_at: i.created_at }),
    )
}

pub open spec fn session_entries(s: Seq<Session>) -> Seq<(Seq<char>, SessionModel)> {
    s.map_values(
        |x: Session|
            (
                x.token@,
                SessionModel {
                    peer_id: x.peer_id@,
                    issued_at: x.issued_at,
                    expires_at: x.expires_at,
                    is_anonymous: x.is_anonymous,
                },
            ),
    )
}

/// Whether `token` names a session in `m` that has not expired at `now`.
pub open spec fn token_valid(m: Map<Seq<char>, SessionModel>, token: Seq<char>, now: i64) -> bool {
    m.contains_key(token) && now < m[token].expires_at
}

/// The session a new token opens at `now`.
pub open spec fn new_session(peer: Seq<char>, anonymous: bool, now: i64) -> SessionModel {
    SessionModel {
        peer_id: peer,
        issued_at: now,
        expires_at: expiry(now, SESSION_SECS),
        is_anonymous: anonymous,
    }
}

/// The local keypair, the peers whose keys are known, and the open sessions.
pub struct IdentityManager {
    pub local: Keypair,
    pub known_identities: Vec<Identity>,
    pub sessions: Vec<Session>,
}

impl IdentityManager {
    /// Known identities, keyed by burrow id.
    pub open spec fn known(&self) -> Map<Seq<char>, IdentityModel> {
        assoc(identity_entries(self.known_identities@))
    }

    /// Sessions, keyed by token.
    pub open spec fn session_map(&self) -> Map<Seq<char>, SessionModel> {
        assoc(session_entries(self.sessions@))
    }

    pub open spec fn wf(&self) -> bool {
        self.local.wf()
    }

    /// A manager with a fresh keypair and no peers or sessions.
    pub fn new() -> (r: IdentityManager)
        ensures
            r.wf(),
            r.known() == Map::<Seq<char>, IdentityModel>::empty(),
            r.session_map() == Map::<Seq<char>, SessionModel>::empty(),
    {
        IdentityManager {
            local: Keypair::generate(),
            known_identities: Vec::new(),
            sessions: Vec::new(),
        }
    }

    /// The burrow id of a public key.
    pub fn encode_id(pk: &[u8]) -> (r: String)
        ensures
            r@ == id_of(pk@),
    {
        let mut out = "ed25519:".to_owned();
        let b = base32_text(pk);
        out.append(b.as_str());
        out
    }

    /// This burrow's id.
    pub fn local_id(&self) -> (r: String)
        ensures
            r@ == id_of(self.local.public_key()),
    {
        let pk = self.local.public_bytes();
        Self::encode_id(pk.as_slice())
    }

    /// Check a detached signature; `SignatureInvalid` when it does not verify.
    pub fn verify_signature(&self, pubkey: &[u8], msg: &[u8], sig: &[u8]) -> (r: Result<
        (),
        RabbitError,
    >)
        ensures
            r.is_ok() <==> ed25519_valid(pubkey@, msg@, sig@),
            r.is_err() ==> r == Err::<(), RabbitError>(RabbitError::SignatureInvalid),
    {
        if verify_bytes(pubkey, msg, sig) {
            Ok(())
        } else {
            Err(RabbitError::SignatureInvalid)
        }
    }

    /// Sign `data` with the local key.
    pub fn sign(&self, data: &[u8]) -> (r: Vec<u8>)
        requires
            self.wf(),
        ensures
            r@ == ed25519_sig(self.local.secret_key(), data@),
    {
        self.local.sign(data)
    }

    fn find_identity(&self, id: &str) -> (i: usize)
        ensures
            i <= self.known_identities@.len(),
            forall|j: int|
                i <= j < self.known_identities@.len() ==> (#[trigger] self.known_identities@[j]).id@
                    != id@,
            i > 0 ==> self.known_identities@[i - 1].id@ == id@,
    {
        let k = id.to_owned();
        let mut i = self.known_identities.len();
        while i > 0 && !(self.known_identities[i - 1].id == k)
            invariant
                i <= self.known_identities@.len(),
                k@ == id@,
                forall|j: int|
                    i <= j < self.known_identities@.len() ==> (
                    #[trigger] self.known_identities@[j]).id@ != id@,
            decreases i,
        {
            i = i - 1;
        }
        i
    }

    /// Record the key of peer `id` at time `now`, replacing any earlier record.
    pub fn register_identity_at(&mut self, id: &str, key: Vec<u8>, now: i64)
        ensures
            final(self).known() == old(self).known().insert(
                id@,
                IdentityModel { public_key: key@, created_at: now },
            ),
            final(self).session_map() == old(self).session_map(),
            final(self).local == old(self).local,
    {
        let rec = Identity { id: id.to_owned(), public_key: key, created_at: now };
        let ghost e = (rec.id@, IdentityModel { public_key: rec.public_key@, created_at: now });
        let i = self.find_identity(id);
        let ghost es = identity_entries(self.known_identities@);
        proof {
            assert forall|j: int| i <= j < es.len() implies (#[trigger] es[j]).0 != id@ by {
                assert(es[j].0 == self.known_identities@[j].id@);
            }
        }
        if i > 0 {
            proof {
                lemma_assoc_update(es, i - 1, e);
            }
            self.known_identities.set(i - 1, rec);
            proof {
                assert(identity_entries(self.known_identities@) =~= es.update(i - 1, e));
            }
        } else {
            proof {
                lemma_assoc_push(es, e);
            }
            self.known_identities.push(rec);
            proof {
                assert(identity_entries(self.known_identities@) =~= es.push(e));
            }
        }
    }

    /// Record the key of peer `id` now.
    pub fn register_identity(&mut self, id: &str, key: Vec<u8>)
        ensures
            final(self).known().contains_key(id@),
            final(self).known() == old(self).known().insert(
                id@,
                IdentityModel { public_key: key@, created_at: final(self).known()[id@].created_at },
            ),
            final(self).session_map() == old(self).session_map(),
            final(self).local == old(self).local,
    {
        let now = now_secs();
        self.register_identity_at(id, key, now);
    }

    fn find_session(&self, token: &str) -> (i: usize)
        ensures
            i <= self.sessions@.len(),
            forall|j: int|
                i <= j < self.sessions@.len() ==> (#[trigger] self.sessions@[j]).token@ != token@,
            i > 0 ==> self.sessions@[i - 1].token@ == token@,
    {
        let k = token.to_owned();
        let mut i = self.sessions.len();
        while i > 0 && !(self.sessions[i - 1].token == k)
            invariant
                i <= self.sessions@.len(),
                k@ == token@,
                forall|j: int|
                    i <= j < self.sessions@.len() ==> (#[trigger] self.sessions@[j]).token@ != token@,
            decreases i,
        {
            i = i - 1;
        }
        i
    }

    /// Open a session under `token` at time `now` for `peer_id` (or `anonymous`), and
    /// return the token.
    pub fn create_session_with(
        &mut self,
        peer_id: Option<&str>,
        is_anonymous: bool,
        token: String,
        now: i64,
    ) -> (r: String)
        ensures
            r@ == token@,
            final(self).session_map() == old(self).session_map().insert(
                token@,
                new_session(
                    match peer_id {
                        Some(p) => p@,
                        None => "anonymous"@,
                    },
                    is_anonymous,
                    now,
                ),
            ),
            final(self).known() == old(self).known(),
            final(self).local == old(self).local,
    {
        let peer = match peer_id {
            Some(p) => p.to_owned(),
            None => "anonymous".to_owned(),
        };
        let s = Session {
            peer_id: peer,
            token: token.clone(),
            issued_at: now,
            expires_at: expiry_of(now, SESSION_SECS),
            is_anonymous,
        };
        let ghost e = session_entries(seq![s])[0];
        let i = self.find_session(token.as_str());
        let ghost es = session_entries(self.sessions@);
        proof {
            assert forall|j: int| i <= j < es.len() implies (#[trigger] es[j]).0 != token@ by {
                assert(es[j].0 == self.sessions@[j].token@);
            }
        }
        if i > 0 {
            proof {
                lemma_assoc_update(es, i - 1, e);
            }
            self.sessions.set(i - 1, s);
            proof {
                assert(session_entries(self.sessions@) =~= es.update(i - 1, e));
            }
        } else {
            proof {
                lemma_assoc_push(es, e);
            }
            self.sessions.push(s);
            proof {
                assert(session_entries(self.sessions@) =~= es.push(e));
            }
        }
        token
    }

    /// Open a session with a fresh random token, valid for an hour from now.
    pub fn create_session(&mut self, peer_id: Option<&str>, is_anonymous: bool) -> (r: String)
        ensures
            r@.len() == 36,
            final(self).session_map().contains_key(r@),
            ({
                let t = final(self).session_map()[r@].issued_at;
                final(self).session_map() == old(self).session_map().insert(
                    r@,
                    new_session(
                        match peer_id {
                            Some(p) => p@,
                            None => "anonymous"@,
                        },
                        is_anonymous,
                        t,
                    ),
                )
            }),
            final(self).known() == old(self).known(),
            final(self).local == old(self).local,
    {
        let token = new_token();
        let now = now_secs();
        self.create_session_with(peer_id, is_anonymous, token, now)
    }

    /// Whether `token` names a session that has not expired at `now`.
    pub fn validate_token_at(&self, token: &str, now: i64) -> (r: bool)
        ensures
            r == token_valid(self.session_map(), token@, now),
    {
        let i = self.find_session(token);
        let ghost es = session_entries(self.sessions@);
        proof {
            assert forall|j: int| i <= j < es.len() implies (#[trigger] es[j]).0 != token@ by {
                assert(es[j].0 == self.sessions@[j].token@);
            }
        }
        if i == 0 {
            proof {
                lemma_assoc_absent(es, token@);
            }
            false
        } else {
            proof {
                lemma_assoc_last(es, token@, i - 1);
            }
            now < self.sessions[i - 1].expires_at
        }
    }

    /// Whether `token` names a session that has not expired now.
    pub fn validate_token(&self, token: &str) -> (r: bool)
        ensures
            r ==> self.session_map().contains_key(token@),
    {
        let now = now_secs();
        self.validate_token_at(token, now)
    }

    /// Extend the session under `token` to an hour after `now`; `SessionUnknown` when there
    /// is no such session.
    pub fn refresh_session_at(&mut self, token: &str, now: i64) -> (r: Result<(), RabbitError>)
        ensures
            old(self).session_map().contains_key(token@) ==> r.is_ok() && final(self).session_map()
                == old(self).session_map().insert(
                token@,
                SessionModel {
                    expires_at: expiry(now, SESSION_SECS),
                    ..old(self).session_map()[token@]
                },
            ),
            !old(self).session_map().contains_key(token@) ==> r == Err::<(), RabbitError>(
                RabbitError::SessionUnknown,
            ) && final(self).session_map() == old(self).session_map(),
            final(self).known() == old(self).known(),
            final(self).local == old(self).local,
    {
        let i = self.find_session(token);
        let ghost es = session_entries(self.sessions@);
        proof {
            assert forall|j: int| i <= j < es.len() implies (#[trigger] es[j]).0 != token@ by {
                assert(es[j].0 == self.sessions@[j].token@);
            }
        }
        if i == 0 {
            proof {
                lemma_assoc_absent(es, token@);
            }
            return Err(RabbitError::SessionUnknown);
        }
        proof {
            lemma_assoc_last(es, token@, i - 1);
        }
        let old_s = &self.sessions[i - 1];
        let s = Session {
            peer_id: old_s.peer_id.clone(),
            token: old_s.token.clone(),
            issued_at: old_s.issued_at,
            expires_at: expiry_of(now, SESSION_SECS),
            is_anonymous: old_s.is_anonymous,
        };
        let ghost e = session_entries(seq![s])[0];
        proof {
            lemma_assoc_update(es, i - 1, e);
        }
        self.sessions.set(i - 1, s);
        proof {
            assert(session_entries(self.sessions@) =~= es.update(i - 1, e));
        }
        Ok(())
    }

    /// Extend the session under `token` to an hour from now.
    pub fn refresh_session(&mut self, token: &str) -> (r: Result<(), RabbitError>)
        ensures
            old(self).session_map().contains_key(token@) <==> r.is_ok(),
            r.is_ok() ==> final(self).session_map() == old(self).session_map().insert(
                token@,
                SessionModel {
                    expires_at: final(self).session_map()[token@].expires_at,
                    ..old(self).session_map()[token@]
                },
            ) && exists|t: i64| #[trigger]
                expiry(t, SESSION_SECS) == final(self).session_map()[token@].expires_at,
            r.is_err() ==> r == Err::<(), RabbitError>(RabbitError::SessionUnknown)
                && final(self).session_map() == old(self).session_map(),
            final(self).known() == old(self).known(),
            final(self).local == old(self).local,
    {
        let now = now_secs();
        let r = self.refresh_session_at(token, now);
        proof {
            if r.is_ok() {
                assert(self.session_map().contains_key(token@));
                assert(expiry(now, SESSION_SECS) == self.session_map()[token@].expires_at);
            }
        }
        r
    }
}

} // verus!
