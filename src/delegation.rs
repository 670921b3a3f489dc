//! `DELEGATE` frames, which grant capabilities to a subject, and the capability check
//! made before an action.
use vstd::prelude::*;
use crate::error::RabbitError;
use crate::frame::{header_value, Frame, FrameModel};
use crate::num::{parse_i64, parse_signed};
use crate::permissions::{allowed_in, expiry, Capability, CapabilityManager, GrantModel};
use crate::clock::now_secs;
use crate::text::{chars_of, lower_of, lowercase, same_text, slice_string, split_in, split_on,
    trim, trim_range, views};

verus! {

broadcast use vstd::string::group_string_axioms;

/// Time to live of a delegation that names none, in seconds.
pub const DEFAULT_TTL: i64 = 600;

/// The capability that a lower-case name stands for.
pub open spec fn cap_named(s: Seq<char>) -> Option<Capability> {
    if s == "fetch"@ {
        Some(Capability::Fetch)
    } else if s == "list"@ {
        Some(Capability::List)
    } else if s == "publish"@ {
        Some(Capability::Publish)
    } else if s == "subscribe"@ {
        Some(Capability::Subscribe)
    } else if s == "manage_warren"@ {
        Some(Capability::ManageWarren)
    } else if s == "manage_burrows"@ {
        Some(Capability::ManageBurrows)
    } else if s == "federation"@ {
        Some(Capability::Federation)
    } else if s == "ui"@ {
        Some(Capability::UIControl)
    } else {
        None
    }
}

/// The capabilities that the items of a list name, in order; unknown names are skipped.
pub open spec fn listed_caps(items: Seq<Seq<char>>) -> Seq<Capability>
    decreases items.len(),
{
    if items.len() == 0 {
        Seq::empty()
    } else {
        match cap_named(lower_of(trim(items.last()))) {
            Some(c) => listed_caps(items.drop_last()).push(c),
            None => listed_caps(items.drop_last()),
        }
    }
}

/// The capabilities that a comma-separated `Caps` value names.
pub open spec fn caps_of(s: Seq<char>) -> Seq<Capability> {
    listed_caps(split_on(s, ','))
}

/// The time to live that a `DELEGATE` frame asks for: its `TTL` header read as an `i64`,
/// or the default.
pub open spec fn ttl_of(f: FrameModel) -> i64 {
    match header_value(f, "TTL"@) {
        Some(t) => match parse_signed(t) {
            Some(v) => if i64::MIN <= v <= i64::MAX {
                v as i64
            } else {
                DEFAULT_TTL
            },
            None => DEFAULT_TTL,
        },
        None => DEFAULT_TTL,
    }
}

/// The capability that a lower-case name stands for.
pub fn capability_named(s: &str) -> (r: Option<Capability>)
    ensures
        r == cap_named(s@),
{
    if same_text(s, "fetch") {
        Some(Capability::Fetch)
    } else if same_text(s, "list") {
        Some(Capability::List)
    } else if same_text(s, "publish") {
        Some(Capability::Publish)
    } else if same_text(s, "subscribe") {
        Some(Capability::Subscribe)
    } else if same_text(s, "manage_warren") {
        Some(Capability::ManageWarren)
    } else if same_text(s, "manage_burrows") {
        Some(Capability::ManageBurrows)
    } else if same_text(s, "federation") {
        Some(Capability::Federation)
    } else if same_text(s, "ui") {
        Some(Capability::UIControl)
    } else {
        None
    }
}

/// The capabilities that a comma-separated list names, in order; each item is trimmed
/// and compared in lower case, and unknown names are skipped.
pub fn parse_caps(s: &str) -> (r: Vec<Capability>)
    ensures
        r@ == caps_of(s@),
{
    let v = chars_of(s);
    let items = split_in(s, &v, 0, v.len(), ',');
    proof {
        assert(v@.subrange(0, v@.len() as int) =~= s@);
    }
    let ghost iv = views(items@);
    let mut out: Vec<Capability> = Vec::new();
    let mut i: usize = 0;
    while i < items.len()
        invariant
            i <= items@.len(),
            iv == views(items@),
            out@ == listed_caps(iv.take(i as int)),
        decreases items@.len() - i,
    {
        let item = &items[i];
        let w = chars_of(item.as_str());
        let (a, b) = trim_range(&w, 0, w.len());
        let t = slice_string(item.as_str(), a, b);
        let low = lowercase(t.as_str());
        proof {
            assert(w@.subrange(0, w@.len() as int) =~= item@);
            assert(iv.take(i + 1).drop_last() =~= iv.take(i as int));
            assert(iv.take(i + 1).last() == item@);
        }
        match capability_named(low.as_str()) {
            Some(c) => {
                out.push(c);
            },
            None => {},
        }
        i = i + 1;
    }
    proof {
        assert(iv.take(i as int) =~= iv);
    }
    out
}

/// Grants capabilities on behalf of `DELEGATE` frames and checks them before actions.
pub struct DelegationManager {}

impl DelegationManager {
    pub fn new() -> (r: DelegationManager) {
        DelegationManager {  }
    }

    /// Handle a `DELEGATE` frame at time `now`. It must carry `Burrow-ID` (the subject)
    /// and `Caps`; `TTL` is optional. The subject is granted the listed capabilities and
    /// the reply is `200 DELEGATED` echoing the subject. Without either header nothing is
    /// granted and the result is `MissingField`.
    pub fn handle_delegate_at(
        &self,
        perms: &mut CapabilityManager,
        frame: &Frame,
        now: i64,
    ) -> (r: Result<Frame, RabbitError>)
        ensures
            ({
                let f = frame@;
                match (header_value(f, "Burrow-ID"@), header_value(f, "Caps"@)) {
                    (Some(subject), Some(caps)) => {
                        &&& final(perms)@ == old(perms)@.insert(
                            subject,
                            GrantModel {
                                caps: caps_of(caps).to_set(),
                                issued_at: now,
                                expires_at: expiry(now, ttl_of(f)),
                            },
                        )
                        &&& r.is_ok()
                        &&& r.unwrap()@.verb == "200 DELEGATED"@
                        &&& r.unwrap()@.args.len() == 0
                        &&& r.unwrap()@.headers == Map::<Seq<char>, Seq<char>>::empty().insert(
                            "Burrow-ID"@,
                            subject,
                        )
                        &&& r.unwrap()@.body == Some("Delegation successful\r\n"@)
                    },
                    _ => {
                        &&& final(perms)@ == old(perms)@
                        &&& r == Err::<Frame, RabbitError>(RabbitError::MissingField)
                    },
                }
            }),
    {
        let subject = match frame.header("Burrow-ID") {
            Some(s) => s,
            None => {
                return Err(RabbitError::MissingField);
            },
        };
        let caps_str = match frame.header("Caps") {
            Some(s) => s,
            None => {
                return Err(RabbitError::MissingField);
            },
        };
        let ttl: i64 = match frame.header("TTL") {
            Some(t) => match parse_i64(t.as_str()) {
                Some(v) => v,
                None => DEFAULT_TTL,
            },
            None => DEFAULT_TTL,
        };
        let caps = parse_caps(caps_str.as_str());
        perms.grant_at(subject.as_str(), caps, ttl, now);
        let mut reply = Frame::new("200 DELEGATED");
        reply.set_header("Burrow-ID", subject.as_str());
        reply.body = Some("Delegation successful\r\n".to_owned());
        Ok(reply)
    }

    /// Handle a `DELEGATE` frame now; see `handle_delegate_at`.
    pub fn handle_delegate(&self, perms: &mut CapabilityManager, frame: &Frame) -> (r: Result<
        Frame,
        RabbitError,
    >)
        ensures
            ({
                let f = frame@;
                match (header_value(f, "Burrow-ID"@), header_value(f, "Caps"@)) {
                    (Some(subject), Some(caps)) => {
                        &&& final(perms)@.contains_key(subject)
                        &&& ({
                            let t = final(perms)@[subject].issued_at;
                            final(perms)@ == old(perms)@.insert(
                                subject,
                                GrantModel {
                                    caps: caps_of(caps).to_set(),
                                    issued_at: t,
                                    expires_at: expiry(t, ttl_of(f)),
                                },
                            )
                        })
                        &&& r.is_ok()
                        &&& r.unwrap()@.verb == "200 DELEGATED"@
                        &&& r.unwrap()@.args.len() == 0
                        &&& r.unwrap()@.headers == Map::<Seq<char>, Seq<char>>::empty().insert(
                            "Burrow-ID"@,
                            subject,
                        )
                        &&& r.unwrap()@.body == Some("Delegation successful\r\n"@)
                    },
                    _ => {
                        &&& final(perms)@ == old(perms)@
                        &&& r == Err::<Frame, RabbitError>(RabbitError::MissingField)
                    },
                }
            }),
    {
        let now = now_secs();
        self.handle_delegate_at(perms, frame, now)
    }

    /// Check at time `now` that the frame's sender, named by its `Burrow-ID` header, holds
    /// `cap`; otherwise the result is `Forbidden`.
    pub fn require_at(&self, perms: &CapabilityManager, frame: &Frame, cap: Capability, now: i64) -> (r:
        Result<(), RabbitError>)
        ensures
            r.is_ok() <==> match header_value(frame@, "Burrow-ID"@) {
                Some(subject) => allowed_in(perms@, subject, cap, now),
                None => false,
            },
            r.is_err() ==> r == Err::<(), RabbitError>(RabbitError::Forbidden),
    {
        match frame.header("Burrow-ID") {
            Some(subject) => if perms.allowed_at(subject.as_str(), cap, now) {
                Ok(())
            } else {
                Err(RabbitError::Forbidden)
            },
            None => Err(RabbitError::Forbidden),
        }
    }

    /// Check now that the frame's sender holds `cap`; see `require_at`.
    pub fn require(&self, perms: &CapabilityManager, frame: &Frame, cap: Capability) -> (r: Result<
        (),
        RabbitError,
    >)
        ensures
            r.is_ok() ==> match header_value(frame@, "Burrow-ID"@) {
                Some(subject) => perms@.contains_key(subject) && perms@[subject].caps.contains(cap),
                None => false,
            },
            r.is_err() ==> r == Err::<(), RabbitError>(RabbitError::Forbidden),
    {
        let now = now_secs();
        self.require_at(perms, frame, cap, now)
    }
}

} // verus!
