//! The `HELLO` handshake and the session check on later frames.
use vstd::prelude::*;
use crate::clock::now_secs;
use crate::crypto::new_token;
use crate::error::RabbitError;
use crate::frame::{frame_text, header_value, Frame};
use crate::ack::lemma_two_header_text;
use crate::identity::{id_of, new_session, token_valid, IdentityManager};
use crate::text::same_text;

verus! {

broadcast use vstd::string::group_string_axioms;

/// The one handshake scheme spoken.
pub open spec fn scheme() -> Seq<char> {
    "RABBIT-SECURE-1"@
}

/// The peer a `HELLO` names: its `Burrow-ID`, or `anonymous`.
pub open spec fn hello_peer(f: crate::frame::FrameModel) -> Seq<char> {
    match header_value(f, "Burrow-ID"@) {
        Some(p) => p,
        None => "anonymous"@,
    }
}

/// The wire text of the `200 HELLO` reply carrying `token` and the local id.
pub open spec fn hello_reply_text(token: Seq<char>, local_id: Seq<char>) -> Seq<char> {
    crate::ack::control_text("200 HELLO"@, "Session-Token"@, token, "Burrow-ID"@, local_id)
        + "Welcome to Rabbit\r\n"@
}

/// Runs the handshake and checks session tokens.
pub struct Authenticator {}

impl Authenticator {
    pub fn new() -> (r: Authenticator) {
        Authenticator {  }
    }

    /// The `HELLO` frame that opens a handshake.
    pub fn begin_handshake(&self, idm: &IdentityManager) -> (r: Frame)
        ensures
            r@.verb == "HELLO"@,
            r@.args.len() == 0,
            r@.headers == Map::<Seq<char>, Seq<char>>::empty().insert("Scheme"@, scheme()).insert(
                "Burrow-ID"@,
                id_of(idm.local.public_key()),
            ),
            r@.body == Some("Caps: lanes, async, ui, federation\r\n"@),
    {
        let mut frame = Frame::new("HELLO");
        frame.set_header("Scheme", "RABBIT-SECURE-1");
        let id = idm.local_id();
        frame.set_header("Burrow-ID", id.as_str());
        frame.body = Some("Caps: lanes, async, ui, federation\r\n".to_owned());
        frame
    }

    /// Answer a `HELLO` at time `now`, opening a session under `token`. A frame whose
    /// `Scheme` is missing or other than the supported one is refused with
    /// `UnsupportedScheme` and opens nothing. Otherwise the peer named by `Burrow-ID`
    /// (or `anonymous`) gets the session, and the reply is `200 HELLO` carrying the token
    /// and the local id.
    pub fn process_hello_with(
        &self,
        idm: &mut IdentityManager,
        frame: &Frame,
        token: String,
        now: i64,
    ) -> (r: Result<Frame, RabbitError>)
        ensures
            header_value(frame@, "Scheme"@) != Some(scheme()) ==> {
                &&& r == Err::<Frame, RabbitError>(RabbitError::UnsupportedScheme)
                &&& final(idm).session_map() == old(idm).session_map()
            },
            header_value(frame@, "Scheme"@) == Some(scheme()) ==> {
                let peer = hello_peer(frame@);
                &&& final(idm).session_map() == old(idm).session_map().insert(
                    token@,
                    new_session(peer, peer == "anonymous"@, now),
                )
                &&& r.is_ok()
                &&& r.unwrap()@.verb == "200 HELLO"@
                &&& r.unwrap()@.args.len() == 0
                &&& r.unwrap()@.headers == Map::<Seq<char>, Seq<char>>::empty().insert(
                    "Session-Token"@,
                    token@,
                ).insert("Burrow-ID"@, id_of(old(idm).local.public_key()))
                &&& r.unwrap()@.body == Some("Welcome to Rabbit\r\n"@)
                &&& frame_text(r.unwrap()) == hello_reply_text(
                    token@,
                    id_of(old(idm).local.public_key()),
                )
            },
            final(idm).known() == old(idm).known(),
            final(idm).local == old(idm).local,
    {
        let ok = match frame.header("Scheme") {
            Some(s) => same_text(s.as_str(), "RABBIT-SECURE-1"),
            None => false,
        };
        if !ok {
            return Err(RabbitError::UnsupportedScheme);
        }
        let peer: &str = match frame.header("Burrow-ID") {
            Some(p) => p.as_str(),
            None => "anonymous",
        };
        let anonymous = same_text(peer, "anonymous");
        let t = idm.create_session_with(Some(peer), anonymous, token, now);
        let mut reply = Frame::new("200 HELLO");
        reply.set_header("Session-Token", t.as_str());
        let id = idm.local_id();
        reply.set_header("Burrow-ID", id.as_str());
        reply.body = Some("Welcome to Rabbit\r\n".to_owned());
        proof {
            reveal_strlit("Session-Token");
            reveal_strlit("Burrow-ID");
            assert("Session-Token"@ != "Burrow-ID"@) by {
                assert("Session-Token"@.len() != "Burrow-ID"@.len());
            }
            lemma_two_header_text(reply);
        }
        Ok(reply)
    }

    /// Answer a `HELLO` now, with a fresh random session token.
    pub fn process_hello(&self, idm: &mut IdentityManager, frame: &Frame) -> (r: Result<
        Frame,
        RabbitError,
    >)
        ensures
            header_value(frame@, "Scheme"@) != Some(scheme()) ==> {
                &&& r == Err::<Frame, RabbitError>(RabbitError::UnsupportedScheme)
                &&& final(idm).session_map() == old(idm).session_map()
            },
            header_value(frame@, "Scheme"@) == Some(scheme()) ==> {
                let peer = hello_peer(frame@);
                &&& r.is_ok()
                &&& r.unwrap()@.headers.contains_key("Session-Token"@)
                &&& ({
                    let t = r.unwrap()@.headers["Session-Token"@];
                    &&& t.len() == 36
                    &&& final(idm).session_map().contains_key(t)
                    &&& final(idm).session_map() == old(idm).session_map().insert(
                        t,
                        new_session(
                            peer,
                            peer == "anonymous"@,
                            final(idm).session_map()[t].issued_at,
                        ),
                    )
                    &&& r.unwrap()@.verb == "200 HELLO"@
                    &&& r.unwrap()@.args.len() == 0
                    &&& r.unwrap()@.headers == Map::<Seq<char>, Seq<char>>::empty().insert(
                        "Session-Token"@,
                        t,
                    ).insert("Burrow-ID"@, id_of(old(idm).local.public_key()))
                    &&& r.unwrap()@.body == Some("Welcome to Rabbit\r\n"@)
                })
            },
            final(idm).known() == old(idm).known(),
            final(idm).local == old(idm).local,
    {
        let token = new_token();
        let now = now_secs();
        let ghost t = token@;
        let r = self.process_hello_with(idm, frame, token, now);
        proof {
            reveal_strlit("Session-Token");
            reveal_strlit("Burrow-ID");
            assert("Session-Token"@ != "Burrow-ID"@) by {
                assert("Session-Token"@.len() != "Burrow-ID"@.len());
            }
            if r.is_ok() {
                assert(r.unwrap()@.headers["Session-Token"@] == t);
                assert(idm.session_map()[t].issued_at == now);
            }
        }
        r
    }

    /// Check at time `now` that the frame carries the token of a live session; otherwise
    /// `Unauthorised`.
    pub fn require_auth_at(&self, idm: &IdentityManager, frame: &Frame, now: i64) -> (r: Result<
        (),
        RabbitError,
    >)
        ensures
            r.is_ok() <==> match header_value(frame@, "Session-Token"@) {
                Some(t) => token_valid(idm.session_map(), t, now),
                None => false,
            },
            r.is_err() ==> r == Err::<(), RabbitError>(RabbitError::Unauthorised),
    {
        match frame.header("Session-Token") {
            Some(t) => if idm.validate_token_at(t.as_str(), now) {
                Ok(())
            } else {
                Err(RabbitError::Unauthorised)
            },
            None => Err(RabbitError::Unauthorised),
        }
    }

    /// Check now that the frame carries the token of a live session.
    pub fn require_auth(&self, idm: &IdentityManager, frame: &Frame) -> (r: Result<
        (),
        RabbitError,
    >)
        ensures
            r.is_ok() ==> match header_value(frame@, "Session-Token"@) {
                Some(t) => idm.session_map().contains_key(t),
                None => false,
            },
            r.is_err() ==> r == Err::<(), RabbitError>(RabbitError::Unauthorised),
    {
        let now = now_secs();
        self.require_auth_at(idm, frame, now)
    }
}

} // verus!
