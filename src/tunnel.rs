//! A tunnel's protocol state and the decisions taken for each inbound frame and each
//! outbound data frame. The caller performs the I/O that an `Outcome` asks for.
use vstd::prelude::*;
use crate::ack::AckManager;
use crate::auth::Authenticator;
use crate::continuity::ContinuityEngine;
use crate::delegation::DelegationManager;
use crate::error::{status_of, RabbitError};
use crate::frame::{frame_text, header_value, parse_model, Frame, FrameModel};
use crate::identity::{token_valid, IdentityManager};
use crate::lane::Arrival;
use crate::lane_manager::{lane_state, LaneManager};
use crate::num::{decimal, parse_u16, parse_u64, u64_text, unsigned_within};
use crate::permissions::CapabilityManager;
use crate::reliability::{drop_key, has_key, lemma_track_has, PendingFrame, ReliabilityManager};
use crate::text::same_text;

verus! {

broadcast use vstd::string::group_string_axioms;

/// The wire text of a status frame answering `e`.
pub open spec fn status_text(e: RabbitError) -> Seq<char> {
    status_of(e) + "\r\nEnd:\r\n"@
}

/// Verbs that need no session: the handshake and flow control.
pub open spec fn needs_no_session(f: FrameModel) -> bool {
    f.verb == "HELLO"@ || f.verb == "200 HELLO"@ || f.verb == "ACK"@
        || f.verb == "CREDIT"@
}

/// Header `key` read as a `u16`, when present and readable.
pub open spec fn header_u16(f: FrameModel, key: Seq<char>) -> Option<u16> {
    match header_value(f, key) {
        Some(t) => match unsigned_within(t, u16::MAX as nat) {
            Some(v) => Some(v as u16),
            None => None,
        },
        None => None,
    }
}

/// Header `key` read as a `u64`, when present and readable.
pub open spec fn header_u64(f: FrameModel, key: Seq<char>) -> Option<u64> {
    match header_value(f, key) {
        Some(t) => match unsigned_within(t, u64::MAX as nat) {
            Some(v) => Some(v as u64),
            None => None,
        },
        None => None,
    }
}

/// A data frame with `Lane` and `Seq` headers stamped on it.
pub open spec fn stamped(f: FrameModel, lane: u16, seq: u64) -> FrameModel {
    FrameModel {
        headers: f.headers.insert("Lane"@, decimal(lane as nat)).insert("Seq"@, decimal(seq as nat)),
        ..f
    }
}

/// The lane and sequence number a frame's text carries, when it parses and both read.
pub open spec fn released_key(t: Seq<char>) -> Option<(u16, u64)> {
    match parse_model(t) {
        Some(f) => match (header_u16(f, "Lane"@), header_u64(f, "Seq"@)) {
            (Some(l), Some(q)) => Some((l, q)),
            _ => None,
        },
        None => None,
    }
}

/// What the caller does after one inbound frame.
pub struct Outcome {
    /// Frames to write, in order.
    pub outbound: Vec<String>,
    /// The frame to hand to the application, if any.
    pub deliver: Option<Frame>,
    /// A line to append to a topic's log: the log's file name and the line.
    pub log: Option<(String, String)>,
    /// The event to commit to the continuity engine once its log line is written.
    pub event: Option<crate::continuity::StoredEvent>,
    /// The tunnel must close.
    pub close: bool,
}

/// The protocol state of one tunnel.
pub struct Tunnel {
    pub lanes: LaneManager,
    pub acks: AckManager,
    pub reliability: ReliabilityManager,
    pub auth: Authenticator,
    /// The session token the peer issued to this side, once the handshake is answered.
    pub session_token: Option<String>,
}

/// The status frame answering `e`.
pub fn status_frame(e: RabbitError) -> (r: String)
    ensures
        r@ == status_text(e),
{
    let mut out = e.status_line().to_owned();
    out.append("\r\nEnd:\r\n");
    out
}

impl Tunnel {
    pub open spec fn wf(&self) -> bool {
        self.lanes.wf() && self.reliability.wf()
    }

    /// A tunnel with no lanes yet and nothing awaiting acknowledgement.
    pub fn new(resend_interval: u64, max_retries: u8) -> (r: Tunnel)
        ensures
            r.wf(),
            r.reliability.resend_interval == resend_interval,
            r.reliability.max_retries == max_retries,
            r.session_token.is_none(),
    {
        Tunnel {
            lanes: LaneManager::new(),
            acks: AckManager::new(),
            reliability: ReliabilityManager::new(resend_interval, max_retries),
            auth: Authenticator::new(),
            session_token: None,
        }
    }

    /// Send data frame `frame` on lane `lane` at `now_ms`: it gets the lane's next
    /// sequence number in `Lane` and `Seq` headers. When the lane has credit the text is
    /// returned for writing and tracked for retransmission; otherwise it waits in the
    /// lane's queue and `None` is returned. `None` too when the lane's numbers are used up.
    pub fn send(&mut self, frame: Frame, lane: u16, now_ms: u64) -> (r: Option<String>)
        requires
            old(self).wf(),
        ensures
            final(self).wf(),
            ({
                let l = lane_state(old(self).lanes@, lane);
                let seq = l.next_seq_out;
                &&& r.is_some() <==> (seq < u64::MAX && l.credits > 0)
                &&& seq == u64::MAX ==> final(self).lanes@ == old(self).lanes@.insert(lane, l)
                    && final(self).reliability.pending() == old(self).reliability.pending()
                &&& seq < u64::MAX ==> {
                    &&& final(self).lanes@.contains_key(lane)
                    &&& final(self).lanes@[lane].next_seq_out == seq + 1
                    &&& l.credits > 0 ==> exists|g: Frame|
                        g@ == stamped(frame@, lane, seq) && #[trigger] frame_text(g)
                            == r.unwrap()@
                    &&& l.credits == 0 ==> exists|g: Frame|
                        g@ == stamped(frame@, lane, seq) && #[trigger] frame_text(g)
                            == final(self).lanes@[lane].pending_out.last()@
                    &&& l.credits > 0 ==> final(self).lanes@[lane].credits == l.credits - 1
                        && final(self).lanes@[lane].pending_out == l.pending_out
                        && final(self).reliability.pending() == drop_key(
                        old(self).reliability.pending(),
                        (lane, seq),
                    ).push(
                        PendingFrame {
                            lane,
                            seq,
                            data: r.unwrap(),
                            last_sent: now_ms,
                            attempts: 1,
                        },
                    )
                    &&& l.credits == 0 ==> final(self).lanes@[lane].credits == 0
                        && final(self).lanes@[lane].pending_out.len() > 0
                        && final(self).lanes@[lane].pending_out == l.pending_out.push(
                        final(self).lanes@[lane].pending_out.last(),
                    )
                        && final(self).reliability.pending() == old(self).reliability.pending()
                }
            }),
            final(self).reliability.resend_interval == old(self).reliability.resend_interval,
            final(self).reliability.max_retries == old(self).reliability.max_retries,
    {
        let ghost given = frame@;
        let mut frame = frame;
        let seq = match self.lanes.next_seq(lane) {
            Some(s) => s,
            None => {
                return None;
            },
        };
        let lane_text = u64_text(lane as u64);
        frame.set_header("Lane", lane_text.as_str());
        let seq_text = u64_text(seq);
        frame.set_header("Seq", seq_text.as_str());
        let text = frame.to_string();
        proof {
            assert(frame@.headers == stamped(given, lane, seq).headers);
            assert(frame@ == stamped(given, lane, seq));
            assert(frame_text(frame) == text@);
        }
        match self.lanes.send_or_queue(lane, text) {
            Some(t) => {
                let data = t.clone();
                self.reliability.track_frame(lane, seq, data, now_ms);
                Some(t)
            },
            None => None,
        }
    }

    /// Track frames released from a lane queue, now written, for retransmission.
    fn track_released(&mut self, released: &Vec<String>, now_ms: u64)
        requires
            old(self).wf(),
        ensures
            final(self).wf(),
            final(self).lanes@ == old(self).lanes@,
            final(self).reliability.resend_interval == old(self).reliability.resend_interval,
            final(self).reliability.max_retries == old(self).reliability.max_retries,
            forall|j: int|
                0 <= j < released@.len() && (#[trigger] released_key(released@[j]@)).is_some()
                    ==> has_key(
                    final(self).reliability.pending(),
                    released_key(released@[j]@).unwrap(),
                ),
    {
        let mut i: usize = 0;
        while i < released.len()
            invariant
                i <= released@.len(),
                self.wf(),
                self.lanes@ == old(self).lanes@,
                self.reliability.resend_interval == old(self).reliability.resend_interval,
                self.reliability.max_retries == old(self).reliability.max_retries,
                forall|j: int|
                    0 <= j < i && (#[trigger] released_key(released@[j]@)).is_some() ==> has_key(
                        self.reliability.pending(),
                        released_key(released@[j]@).unwrap(),
                    ),
            decreases released@.len() - i,
        {
            let ghost before = self.reliability.pending();
            match Frame::parse(released[i].as_str()) {
                Ok(f) => {
                    let lane = match f.header("Lane") {
                        Some(t) => parse_u16(t.as_str()),
                        None => None,
                    };
                    let seq = match f.header("Seq") {
                        Some(t) => parse_u64(t.as_str()),
                        None => None,
                    };
                    match (lane, seq) {
                        (Some(l), Some(s)) => {
                            let data = released[i].clone();
                            let ghost e = PendingFrame {
                                lane: l,
                                seq: s,
                                data,
                                last_sent: now_ms,
                                attempts: 1,
                            };
                            self.reliability.track_frame(l, s, data, now_ms);
                            proof {
                                assert(released_key(released@[i as int]@) == Some((l, s)));
                                assert forall|j: int|
                                    0 <= j <= i && (#[trigger] released_key(
                                        released@[j]@,
                                    )).is_some() implies has_key(
                                    self.reliability.pending(),
                                    released_key(released@[j]@).unwrap(),
                                ) by {
                                    lemma_track_has(
                                        before,
                                        (l, s),
                                        e,
                                        released_key(released@[j]@).unwrap(),
                                    );
                                }
                            }
                        },
                        _ => {
                            proof {
                                assert(released_key(released@[i as int]@).is_none());
                            }
                        },
                    }
                },
                Err(_) => {},
            }
            i = i + 1;
        }
    }

    /// Decide what one inbound frame `raw` does, at `now` (seconds) and `now_ms`. A
    /// frame that does not parse closes the tunnel. `HELLO` is answered with a session
    /// opened under `token` (an unsupported scheme closes the tunnel); `200 HELLO` records
    /// the token it carries. `ACK` and `CREDIT` go to flow control. Any other frame needs
    /// a live session (else a `401` status) and then: `DELEGATE` is answered by
    /// `delegation` (a status frame on failure); a frame with `Lane` and `Seq` headers is
    /// sequenced on its lane and acknowledged when in order, dropped when a duplicate;
    /// `EVENT` yields the line for the log of its `Selector` and the event to commit once
    /// that line is written; and the frame is delivered. Frames that credit releases are
    /// written and tracked for retransmission.
    pub fn dispatch(
        &mut self,
        raw: &str,
        idm: &mut IdentityManager,
        caps: &mut CapabilityManager,
        delegation: Option<&DelegationManager>,
        events: &ContinuityEngine,
        token: String,
        now: i64,
        now_ms: u64,
    ) -> (r: Outcome)
        requires
            old(self).wf(),
        ensures
            final(self).wf(),
            parse_model(raw@).is_none() ==> r.close && r.outbound@.len() == 0 && r.deliver.is_none(),
            parse_model(raw@).is_some() ==> ({
                let f = parse_model(raw@).unwrap();
                &&& (f.verb == "HELLO"@ && header_value(f, "Scheme"@) != Some(
                    crate::auth::scheme(),
                )) ==> r.close && r.outbound@.len() == 0
                &&& !needs_no_session(f) && !(match header_value(f, "Session-Token"@) {
                    Some(t) => token_valid(old(idm).session_map(), t, now),
                    None => false,
                }) ==> {
                    &&& r.outbound@.len() == 1
                    &&& r.outbound@[0]@ == status_text(RabbitError::Unauthorised)
                    &&& r.deliver.is_none()
                    &&& r.log.is_none()
                    &&& !r.close
                    &&& final(self).lanes@ == old(self).lanes@
                    &&& r.event.is_none()
                }
                &&& r.deliver.is_some() ==> !needs_no_session(f) && r.deliver.unwrap()@ == f
                &&& (f.verb == "HELLO"@ && header_value(f, "Scheme"@) == Some(
                    crate::auth::scheme(),
                )) ==> {
                    let peer = crate::auth::hello_peer(f);
                    &&& !r.close
                    &&& r.outbound@.len() == 1
                    &&& r.outbound@[0]@ == crate::auth::hello_reply_text(
                        token@,
                        crate::identity::id_of(old(idm).local.public_key()),
                    )
                    &&& r.deliver.is_none()
                    &&& final(idm).session_map() == old(idm).session_map().insert(
                        token@,
                        crate::identity::new_session(peer, peer == "anonymous"@, now),
                    )
                }
                &&& (!needs_no_session(f) && f.verb != "DELEGATE"@ && (match header_value(
                    f,
                    "Session-Token"@,
                ) {
                    Some(t) => token_valid(old(idm).session_map(), t, now),
                    None => false,
                })) ==> match (header_u16(f, "Lane"@), header_u64(f, "Seq"@)) {
                    (Some(l), Some(q)) => {
                        let expected = lane_state(old(self).lanes@, l).expected_seq_in;
                        &&& q < expected ==> r.outbound@.len() == 0 && r.deliver.is_none()
                        &&& q == expected ==> r.outbound@.len() == 1 && r.outbound@[0]@
                            == crate::ack::control_text(
                            "ACK"@,
                            "Lane"@,
                            decimal(l as nat),
                            "ACK"@,
                            decimal(q as nat),
                        ) && r.deliver.is_some()
                        &&& q > expected ==> r.outbound@.len() == 0 && r.deliver.is_some()
                    },
                    _ => r.outbound@.len() == 0 && r.deliver.is_some(),
                }
                &&& (!needs_no_session(f) && f.verb == "EVENT"@ && (match header_value(
                    f,
                    "Session-Token"@,
                ) {
                    Some(t) => token_valid(old(idm).session_map(), t, now),
                    None => false,
                }) && r.deliver.is_some() && header_value(f, "Selector"@).is_some()) ==> {
                    let topic = header_value(f, "Selector"@).unwrap();
                    let e = crate::continuity::EventModel {
                        seq: match header_u64(f, "Seq"@) {
                            Some(q) => q,
                            None => 0,
                        },
                        timestamp: now,
                        lane: match header_u16(f, "Lane"@) {
                            Some(l) => l,
                            None => 0,
                        },
                        topic,
                        data: match f.body {
                            Some(b) => b,
                            None => Seq::empty(),
                        },
                    };
                    &&& r.event.is_some()
                    &&& r.event.unwrap()@ == e
                    &&& r.log.is_some()
                    &&& r.log.unwrap().0@ == crate::continuity::log_name(topic)
                    &&& r.log.unwrap().1@ == crate::continuity::log_line(e)
                }
                &&& (f.verb == "ACK"@ || f.verb == "CREDIT"@) ==> {
                    let id = crate::ack::lane_of(f);
                    &&& !r.close
                    &&& r.deliver.is_none()
                    &&& (f.verb == "ACK"@ && crate::ack::acked_seq(f).is_some()) ==> {
                        &&& final(self).lanes@ == crate::lane_manager::ack_lanes(
                            old(self).lanes@,
                            id,
                            crate::ack::acked_seq(f).unwrap(),
                        )
                        &&& r.outbound@.len() == 0
                    }
                    &&& (f.verb == "CREDIT"@ && header_value(f, "Credit"@).is_some()) ==> {
                        let n = crate::ack::credit_amount(header_value(f, "Credit"@).unwrap());
                        &&& forall|j: int|
                            0 <= j < r.outbound@.len() && (#[trigger] released_key(
                                r.outbound@[j]@,
                            )).is_some() ==> has_key(
                                final(self).reliability.pending(),
                                released_key(r.outbound@[j]@).unwrap(),
                            )
                        &&& final(self).lanes@ == crate::lane_manager::credit_lanes(
                            old(self).lanes@,
                            id,
                            n,
                        )
                        &&& r.outbound@ == crate::lane_manager::credit_released(
                            old(self).lanes@,
                            id,
                            n,
                        )
                    }
                }
            }),
            final(idm).local == old(idm).local,
    {
        let mut out = Outcome { outbound: Vec::new(), deliver: None, log: None, event: None, close: false };
        let frame = match Frame::parse(raw) {
            Ok(f) => f,
            Err(_) => {
                out.close = true;
                return out;
            },
        };
        proof {
            reveal_strlit("HELLO");
            reveal_strlit("200 HELLO");
            reveal_strlit("ACK");
            reveal_strlit("CREDIT");
            assert("HELLO"@ != "ACK"@ && "HELLO"@ != "CREDIT"@ && "HELLO"@ != "200 HELLO"@) by {
                assert("HELLO"@.len() == 5 && "ACK"@.len() == 3 && "CREDIT"@.len() == 6);
                assert("200 HELLO"@.len() == 9);
            }
            assert("200 HELLO"@ != "ACK"@ && "200 HELLO"@ != "CREDIT"@) by {
                assert("200 HELLO"@.len() != "ACK"@.len());
                assert("200 HELLO"@.len() != "CREDIT"@.len());
            }
        }
        if same_text(frame.verb.as_str(), "HELLO") {
            match self.auth.process_hello_with(idm, &frame, token, now) {
                Ok(reply) => {
                    out.outbound.push(reply.to_string());
                },
                Err(_) => {
                    out.close = true;
                },
            }
            return out;
        }
        if same_text(frame.verb.as_str(), "200 HELLO") {
            match frame.header("Session-Token") {
                Some(t) => {
                    self.session_token = Some(t.clone());
                },
                None => {},
            }
            return out;
        }
        if same_text(frame.verb.as_str(), "ACK") || same_text(frame.verb.as_str(), "CREDIT") {
            let released = self.acks.handle_control_frame(
                &mut self.lanes,
                &mut self.reliability,
                &frame,
            );
            self.track_released(&released, now_ms);
            out.outbound = released;
            return out;
        }
        if self.auth.require_auth_at(idm, &frame, now).is_err() {
            out.outbound.push(status_frame(RabbitError::Unauthorised));
            return out;
        }
        if same_text(frame.verb.as_str(), "DELEGATE") {
            match delegation {
                Some(d) => match d.handle_delegate_at(caps, &frame, now) {
                    Ok(reply) => {
                        out.outbound.push(reply.to_string());
                    },
                    Err(e) => {
                        out.outbound.push(status_frame(e));
                    },
                },
                None => {},
            }
            return out;
        }
        let lane = match frame.header("Lane") {
            Some(t) => parse_u16(t.as_str()),
            None => None,
        };
        let seq = match frame.header("Seq") {
            Some(t) => parse_u64(t.as_str()),
            None => None,
        };
        match (lane, seq) {
            (Some(l), Some(s)) => {
                match self.lanes.receive(l, s) {
                    Arrival::InOrder => {
                        out.outbound.push(self.acks.send_ack(l, s));
                    },
                    Arrival::Duplicate => {
                        return out;
                    },
                    Arrival::Ahead => {},
                }
            },
            _ => {},
        }
        if same_text(frame.verb.as_str(), "EVENT") {
            match frame.header("Selector") {
                Some(topic) => {
                    proof {
                        reveal_strlit("");
                        assert(""@ =~= Seq::<char>::empty());
                    }
                    let body: &str = match &frame.body {
                        Some(b) => b.as_str(),
                        None => "",
                    };
                    let e = crate::continuity::StoredEvent {
                        seq: match seq {
                            Some(s) => s,
                            None => 0,
                        },
                        timestamp: now,
                        lane: match lane {
                            Some(l) => l,
                            None => 0,
                        },
                        topic: topic.clone(),
                        data: body.to_owned(),
                    };
                    let line = ContinuityEngine::event_line(&e);
                    let path = events.log_path(topic.as_str());
                    out.log = Some((path, line));
                    out.event = Some(e);
                },
                None => {},
            }
        }
        out.deliver = Some(frame);
        out
    }
}

} // verus!
