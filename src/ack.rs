//! Acknowledgement and credit control frames, and their effect on lanes and on
//! retransmission.
use vstd::prelude::*;
use crate::frame::{frame_text, header_value, Frame, FrameModel};
use crate::lane::LaneState;
use crate::lane_manager::{ack_lanes, credit_lanes, credit_released, LaneManager};
use crate::num::{decimal, parse_u16, parse_u32, parse_u64, u64_text, unsigned_within};
use crate::reliability::{drop_key, lemma_drop_key_idempotent, PendingFrame, ReliabilityManager};
use crate::text::{chars_of, crlf, same_text, slice_string};

verus! {

broadcast use vstd::string::group_string_axioms;

/// `s` without its leading `+` signs.
pub open spec fn strip_plus(s: Seq<char>) -> Seq<char>
    decreases s.len(),
{
    if s.len() > 0 && s[0] == '+' {
        strip_plus(s.drop_first())
    } else {
        s
    }
}

/// The lane a control frame names: its `Lane` header as a `u16`, or 0.
pub open spec fn lane_of(f: FrameModel) -> u16 {
    match header_value(f, "Lane"@) {
        Some(t) => match unsigned_within(t, u16::MAX as nat) {
            Some(v) => v as u16,
            None => 0,
        },
        None => 0,
    }
}

/// The sequence number an `ACK` frame acknowledges, when its `ACK` header reads as a `u64`.
pub open spec fn acked_seq(f: FrameModel) -> Option<u64> {
    match header_value(f, "ACK"@) {
        Some(t) => match unsigned_within(t, u64::MAX as nat) {
            Some(v) => Some(v as u64),
            None => None,
        },
        None => None,
    }
}

/// The credit a `Credit` header value grants: a `u32` after any `+` signs, or 0.
pub open spec fn credit_amount(t: Seq<char>) -> u32 {
    match unsigned_within(strip_plus(t), u32::MAX as nat) {
        Some(v) => v as u32,
        None => 0,
    }
}

/// A control frame with two headers, as written on the wire.
pub open spec fn control_text(
    verb: Seq<char>,
    k1: Seq<char>,
    v1: Seq<char>,
    k2: Seq<char>,
    v2: Seq<char>,
) -> Seq<char> {
    verb + crlf() + k1 + seq![':', ' '] + v1 + crlf() + k2 + seq![':', ' '] + v2 + crlf() + seq![
        'E',
        'n',
        'd',
        ':',
    ] + crlf()
}

/// Turns inbound `ACK` and `CREDIT` frames into lane and retransmission updates, and
/// builds the outbound ones.
pub struct AckManager {}

impl AckManager {
    pub fn new() -> (r: AckManager) {
        AckManager {  }
    }

    /// Handle an inbound control frame. An `ACK` with a readable sequence number
    /// acknowledges it on its lane and stops its retransmission; a `CREDIT` grants credit
    /// on its lane and returns the queued frames that this releases, for sending in order.
    /// Any other frame changes nothing.
    pub fn handle_control_frame(
        &self,
        lanes: &mut LaneManager,
        reliability: &mut ReliabilityManager,
        frame: &Frame,
    ) -> (r: Vec<String>)
        requires
            old(lanes).wf(),
            old(reliability).wf(),
        ensures
            final(lanes).wf(),
            final(reliability).wf(),
            final(reliability).resend_interval == old(reliability).resend_interval,
            final(reliability).max_retries == old(reliability).max_retries,
            ({
                let f = frame@;
                let id = lane_of(f);
                if f.verb == "ACK"@ && acked_seq(f).is_some() {
                    &&& final(lanes)@ == ack_lanes(old(lanes)@, id, acked_seq(f).unwrap())
                    &&& final(reliability).pending() == drop_key(
                        old(reliability).pending(),
                        (id, acked_seq(f).unwrap()),
                    )
                    &&& r@.len() == 0
                } else if f.verb == "CREDIT"@ && header_value(f, "Credit"@).is_some() {
                    let n = credit_amount(header_value(f, "Credit"@).unwrap());
                    &&& final(lanes)@ == credit_lanes(old(lanes)@, id, n)
                    &&& r@ == credit_released(old(lanes)@, id, n)
                    &&& final(reliability).pending() == old(reliability).pending()
                } else {
                    &&& final(lanes)@ == old(lanes)@
                    &&& final(reliability).pending() == old(reliability).pending()
                    &&& r@.len() == 0
                }
            }),
    {
        proof {
            reveal_strlit("ACK");
            reveal_strlit("CREDIT");
            assert("ACK"@ != "CREDIT"@) by {
                assert("ACK"@.len() != "CREDIT"@.len());
            }
        }
        let lane_id: u16 = match frame.header("Lane") {
            Some(t) => match parse_u16(t.as_str()) {
                Some(v) => v,
                None => 0,
            },
            None => 0,
        };
        if same_text(frame.verb.as_str(), "ACK") {
            match frame.header("ACK") {
                Some(t) => match parse_u64(t.as_str()) {
                    Some(seq) => {
                        lanes.ack(lane_id, seq);
                        reliability.confirm_ack(lane_id, seq);
                    },
                    None => {},
                },
                None => {},
            }
            Vec::new()
        } else if same_text(frame.verb.as_str(), "CREDIT") {
            match frame.header("Credit") {
                Some(t) => {
                    let n = credit_value(t.as_str());
                    lanes.add_credit(lane_id, n)
                },
                None => Vec::new(),
            }
        } else {
            Vec::new()
        }
    }

    /// The text of an `ACK` frame for `seq` on lane `lane`, for the outbound channel.
    pub fn send_ack(&self, lane: u16, seq: u64) -> (r: String)
        ensures
            r@ == control_text("ACK"@, "Lane"@, decimal(lane as nat), "ACK"@, decimal(seq as nat)),
    {
        let f = Frame {
            verb: "ACK".to_owned(),
            args: Vec::new(),
            headers: vec![("Lane".to_owned(), u64_text(lane as u64)), ("ACK".to_owned(), u64_text(seq))],
            body: None,
        };
        let r = f.to_string();
        proof {
            lemma_two_header_text(f);
            assert(r@ =~= control_text(
                f.verb@,
                f.headers@[0].0@,
                f.headers@[0].1@,
                f.headers@[1].0@,
                f.headers@[1].1@,
            ));
        }
        r
    }

    /// The text of a `CREDIT` frame granting `n` on lane `lane`, for the outbound channel.
    pub fn send_credit(&self, lane: u16, n: u32) -> (r: String)
        ensures
            r@ == control_text(
                "CREDIT"@,
                "Lane"@,
                decimal(lane as nat),
                "Credit"@,
                seq!['+'] + decimal(n as nat),
            ),
    {
        let mut amount = "+".to_owned();
        let digits = u64_text(n as u64);
        amount.append(digits.as_str());
        proof {
            reveal_strlit("+");
            assert(amount@ =~= seq!['+'] + decimal(n as nat));
        }
        let f = Frame {
            verb: "CREDIT".to_owned(),
            args: Vec::new(),
            headers: vec![("Lane".to_owned(), u64_text(lane as u64)), ("Credit".to_owned(), amount)],
            body: None,
        };
        let r = f.to_string();
        proof {
            lemma_two_header_text(f);
            assert(r@ =~= control_text(
                f.verb@,
                f.headers@[0].0@,
                f.headers@[0].1@,
                f.headers@[1].0@,
                f.headers@[1].1@,
            ));
        }
        r
    }
}

/// The wire text of a frame with no arguments and two headers.
pub proof fn lemma_two_header_text(f: Frame)
    requires
        f.args@.len() == 0,
        f.headers@.len() == 2,
    ensures
        frame_text(f) == control_text(
            f.verb@,
            f.headers@[0].0@,
            f.headers@[0].1@,
            f.headers@[1].0@,
            f.headers@[1].1@,
        ) + match f.body {
            Some(b) => b@,
            None => Seq::<char>::empty(),
        },
{
    let hv = crate::frame::pair_views(f.headers@);
    assert(crate::text::views(f.args@) =~= Seq::<Seq<char>>::empty());
    assert(crate::frame::args_text(crate::text::views(f.args@)) == Seq::<char>::empty());
    let d1 = hv.drop_first();
    let d2 = d1.drop_first();
    assert(d2 =~= Seq::<(Seq<char>, Seq<char>)>::empty());
    assert(d1[0] == hv[1]);
    assert(crate::frame::headers_text(d2) == Seq::<char>::empty());
    assert(crate::frame::headers_text(d1) == crate::frame::header_line(hv[1]) + crlf()
        + Seq::<char>::empty());
    assert(crate::frame::headers_text(hv) == crate::frame::header_line(hv[0]) + crlf()
        + crate::frame::headers_text(d1));
    assert(frame_text(f) =~= control_text(
        f.verb@,
        f.headers@[0].0@,
        f.headers@[0].1@,
        f.headers@[1].0@,
        f.headers@[1].1@,
    ) + match f.body {
        Some(b) => b@,
        None => Seq::<char>::empty(),
    });
}

/// The credit a `Credit` header value grants.
fn credit_value(t: &str) -> (r: u32)
    ensures
        r == credit_amount(t@),
{
    let v = chars_of(t);
    let mut i: usize = 0;
    proof {
        assert(v@.skip(0) =~= v@);
    }
    while i < v.len() && v[i] == '+'
        invariant
            i <= v@.len(),
            v@ == t@,
            strip_plus(v@.skip(i as int)) == strip_plus(t@),
        decreases v@.len() - i,
    {
        proof {
            assert(v@.skip(i as int).drop_first() =~= v@.skip(i + 1));
        }
        i = i + 1;
    }
    proof {
        assert(v@.skip(i as int) =~= v@.subrange(i as int, v@.len() as int));
        assert(strip_plus(v@.skip(i as int)) == v@.skip(i as int));
    }
    let rest = slice_string(t, i, v.len());
    match parse_u32(rest.as_str()) {
        Some(x) => x,
        None => 0,
    }
}

/// Applying the same acknowledgement twice leaves the lanes and the retransmission
/// queue as applying it once does.
pub proof fn lemma_ack_idempotent(
    lanes: Map<u16, LaneState>,
    pending: Seq<PendingFrame>,
    id: u16,
    seq: u64,
)
    ensures
        ack_lanes(ack_lanes(lanes, id, seq), id, seq) == ack_lanes(lanes, id, seq),
        drop_key(drop_key(pending, (id, seq)), (id, seq)) == drop_key(pending, (id, seq)),
{
    lemma_drop_key_idempotent(pending, (id, seq));
    if lanes.contains_key(id) {
        assert(ack_lanes(ack_lanes(lanes, id, seq), id, seq) =~= ack_lanes(lanes, id, seq));
    }
}

} // verus!
