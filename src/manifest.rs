//! Trust manifests: an anchor's signed list of member burrows.
use vstd::prelude::*;
use vstd::utf8::encode_utf8;
use crate::clock::now_secs;
use crate::crypto::{ed25519_public, ed25519_sig, ed25519_valid, verify_bytes, KEY_LEN, SIG_LEN};
use crate::encoding::{base64_bytes, base64_decoded, base64_of, base64_text, json_quote, json_string};
use crate::error::RabbitError;
use crate::identity::Keypair;
use crate::num::{i64_text, signed_decimal};

verus! {

broadcast use vstd::string::group_string_axioms;

/// A member burrow that a manifest vouches for.
#[derive(Debug)]
pub struct MemberRecord {
    pub id: String,
    pub role: String,
    pub expires: i64,
}

/// A manifest signed by an anchor; the signature is base64 and covers the canonical
/// JSON of the manifest with an empty signature.
#[derive(Debug)]
pub struct TrustManifest {
    pub anchor: String,
    pub members: Vec<MemberRecord>,
    pub issued: i64,
    pub signature: String,
}

/// The canonical JSON of a member: `{"id":…,"role":…,"expires":…}`.
pub open spec fn member_json(m: MemberRecord) -> Seq<char> {
    "{\"id\":"@ + json_quote(m.id@) + ",\"role\":"@ + json_quote(m.role@) + ",\"expires\":"@
        + signed_decimal(m.expires as int) + "}"@
}

/// The canonical JSON of the members, separated by commas.
pub open spec fn members_json(ms: Seq<MemberRecord>) -> Seq<char>
    decreases ms.len(),
{
    if ms.len() == 0 {
        Seq::empty()
    } else if ms.len() == 1 {
        member_json(ms[0])
    } else {
        members_json(ms.drop_last()) + ","@ + member_json(ms.last())
    }
}

/// The canonical JSON of a manifest whose signature is `sig`: fields in the order anchor,
/// members, issued, signature, with no whitespace.
pub open spec fn manifest_json(m: TrustManifest, sig: Seq<char>) -> Seq<char> {
    "{\"anchor\":"@ + json_quote(m.anchor@) + ",\"members\":["@ + members_json(m.members@)
        + "],\"issued\":"@ + signed_decimal(m.issued as int) + ",\"signature\":"@ + json_quote(sig)
        + "}"@
}

/// The bytes a manifest's signature covers.
pub open spec fn signed_payload(m: TrustManifest) -> Seq<u8> {
    encode_utf8(manifest_json(m, Seq::empty()))
}

/// Append the canonical JSON of a member to `out`.
fn write_member(out: &mut String, m: &MemberRecord)
    ensures
        final(out)@ == old(out)@ + member_json(*m),
{
    out.append("{\"id\":");
    let id = json_string(m.id.as_str());
    out.append(id.as_str());
    out.append(",\"role\":");
    let role = json_string(m.role.as_str());
    out.append(role.as_str());
    out.append(",\"expires\":");
    let e = i64_text(m.expires);
    out.append(e.as_str());
    out.append("}");
    proof {
        assert(final(out)@ =~= old(out)@ + member_json(*m));
    }
}

impl TrustManifest {
    /// The canonical JSON of this manifest with its signature left empty.
    pub fn payload(&self) -> (r: String)
        ensures
            r@ == manifest_json(*self, Seq::empty()),
    {
        let mut out = "{\"anchor\":".to_owned();
        let a = json_string(self.anchor.as_str());
        out.append(a.as_str());
        out.append(",\"members\":[");
        let ghost pre = out@;
        let mut i: usize = 0;
        while i < self.members.len()
            invariant
                i <= self.members@.len(),
                out@ == pre + members_json(self.members@.take(i as int)),
            decreases self.members@.len() - i,
        {
            let ghost before = out@;
            proof {
                assert(self.members@.take(i + 1).drop_last() =~= self.members@.take(i as int));
                assert(self.members@.take(i + 1).last() == self.members@[i as int]);
            }
            if i > 0 {
                out.append(",");
            }
            write_member(&mut out, &self.members[i]);
            proof {
                if i == 0 {
                    assert(self.members@.take(1) =~= seq![self.members@[0]]);
                    assert(members_json(self.members@.take(0)) == Seq::<char>::empty());
                    assert(out@ =~= pre + members_json(self.members@.take(i + 1)));
                } else {
                    assert(out@ =~= pre + members_json(self.members@.take(i + 1)));
                }
            }
            i = i + 1;
        }
        proof {
            assert(self.members@.take(i as int) =~= self.members@);
        }
        out.append("],\"issued\":");
        let t = i64_text(self.issued);
        out.append(t.as_str());
        out.append(",\"signature\":");
        let empty = json_string("");
        out.append(empty.as_str());
        out.append("}");
        proof {
            reveal_strlit("");
            assert(""@ =~= Seq::<char>::empty());
            assert(out@ =~= manifest_json(*self, Seq::empty()));
        }
        out
    }

    /// Sign a manifest for `anchor_id` listing `members`, issued at `issued`, with the
    /// anchor's keypair.
    pub fn sign_at(anchor_id: &str, members: Vec<MemberRecord>, keypair: &Keypair, issued: i64) -> (r:
        TrustManifest)
        requires
            keypair.wf(),
        ensures
            r.anchor@ == anchor_id@,
            r.members@ == members@,
            r.issued == issued,
            r.signature@ == base64_of(ed25519_sig(keypair.secret_key(), signed_payload(r))),
            ed25519_sig(keypair.secret_key(), signed_payload(r)).len() == SIG_LEN,
    {
        let mut manifest = TrustManifest {
            anchor: anchor_id.to_owned(),
            members,
            issued,
            signature: String::new(),
        };
        let payload = manifest.payload();
        let sig = keypair.sign(payload.as_str().as_bytes());
        manifest.signature = base64_text(sig.as_slice());
        manifest
    }

    /// Sign a manifest issued now; see `sign_at`.
    pub fn sign(anchor_id: &str, members: Vec<MemberRecord>, keypair: &Keypair) -> (r:
        TrustManifest)
        requires
            keypair.wf(),
        ensures
            r.anchor@ == anchor_id@,
            r.members@ == members@,
            r.signature@ == base64_of(ed25519_sig(keypair.secret_key(), signed_payload(r))),
            ed25519_sig(keypair.secret_key(), signed_payload(r)).len() == SIG_LEN,
    {
        let now = now_secs();
        Self::sign_at(anchor_id, members, keypair, now)
    }

    /// Check the signature against the anchor's public key `pk`. A signature that is not
    /// valid base64 gives `ManifestMalformed`; one that does not verify gives
    /// `SignatureInvalid`. A manifest signed with the secret key of `pk` passes.
    pub fn verify(&self, pk: &[u8]) -> (r: Result<(), RabbitError>)
        ensures
            forall|sig: Seq<u8>|
                self.signature@ == base64_of(sig) ==> (r.is_ok() <==> ed25519_valid(
                    pk@,
                    signed_payload(*self),
                    sig,
                )),
            (exists|secret: Seq<u8>|
                secret.len() == KEY_LEN && pk@ == ed25519_public(secret) && self.signature@
                    == base64_of(ed25519_sig(secret, signed_payload(*self)))) ==> r.is_ok(),
            base64_decoded(self.signature@).is_none() <==> r == Err::<(), RabbitError>(
                RabbitError::ManifestMalformed,
            ),
            r.is_err() ==> r == Err::<(), RabbitError>(RabbitError::ManifestMalformed) || r == Err::<
                (),
                RabbitError,
            >(RabbitError::SignatureInvalid),
    {
        let payload = self.payload();
        let bytes = payload.as_str().as_bytes();
        match base64_bytes(self.signature.as_str()) {
            None => Err(RabbitError::ManifestMalformed),
            Some(sig) => {
                let ok = verify_bytes(pk, bytes, sig.as_slice());
                proof {
                    if exists|secret: Seq<u8>|
                        secret.len() == KEY_LEN && pk@ == ed25519_public(secret) && self.signature@
                            == base64_of(ed25519_sig(secret, signed_payload(*self))) {
                        let secret = choose|secret: Seq<u8>|
                            secret.len() == KEY_LEN && pk@ == ed25519_public(secret)
                                && self.signature@ == base64_of(
                                ed25519_sig(secret, signed_payload(*self)),
                            );
                        assert(sig@ == ed25519_sig(secret, signed_payload(*self)));
                    }
                }
                if ok {
                    Ok(())
                } else {
                    Err(RabbitError::SignatureInvalid)
                }
            },
        }
    }
}

/// A manifest signed with a keypair meets the condition under which `verify` with that
/// keypair's public key succeeds: the signature is the base64 of an Ed25519 signature, over
/// the signed payload, by the secret key that the public key belongs to.
pub proof fn lemma_signed_with(kp: &Keypair, m: TrustManifest)
    requires
        kp.wf(),
        m.signature@ == base64_of(ed25519_sig(kp.secret_key(), signed_payload(m))),
    ensures
        exists|secret: Seq<u8>|
            secret.len() == KEY_LEN && kp.public_key() == ed25519_public(secret) && m.signature@
                == base64_of(ed25519_sig(secret, signed_payload(m))),
{
    kp.lemma_wf();
    assert(kp.secret_key().len() == KEY_LEN && kp.public_key() == ed25519_public(kp.secret_key())
        && m.signature@ == base64_of(ed25519_sig(kp.secret_key(), signed_payload(m))));
}

} // verus!
