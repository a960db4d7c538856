//! One refresh of the trust anchors: from the root's live DNSKEY set to the new state.

use crate::name::Name;
use crate::names::name_ascii;
use crate::recursor::anchor::{
    apply_refresh, keys_v, managed, observed_v, refreshed, KeyStatus, ManagedKey, ManagedKeyV,
    Observed, ObservedV, RefreshDiff, StateFile,
};
use crate::recursor::chain::{any_key_verifies, some_key_verifies};
use crate::recursor::dnssec::{extract_dnskeys, keys_among, FetchedV};
use crate::recursor::trust::{
    anchors_of, dnskeys_v, managed_anchors, parse_presentation_format_str, AnchorError,
    TrustAnchor, TrustAnchorV, TrustAnchors,
};
use crate::text::{chars_of, string_of};
use crate::wire::{Message, MessageV};
use vstd::prelude::*;

verus! {

/// The format version of the state that is kept.
pub const STATE_VERSION: u32 = 1;

/// The root's key-signing keys of 2017 and 2024, in presentation form.
pub const EMBEDDED_ROOT_KSKS: &'static str = ".\tIN\tDNSKEY\t257 3 8 AwEAAaz/tAm8yTn4Mfeh5eyI96WSVexTBAvkMgJzkKTOiW1vkIbzxeF3+/4RgWOq7HrxRixHlFlExOLAJr5emLvN7SWXgnLh4+B5xQlNVz8Og8kvArMtNROxVQuCaSnIDdD5LKyWbRd2n9WGe2R8PzgCmr3EgVLrjyBxWezF0jLHwVN8efS3rCj/EWgvIWgb9tarpVUDK/b58Da+sqqls3eNbuv7pr+eoZG+SrDK6nWeL3c6H5Apxz7LjVc1uTIdsIXxuOLYA4/ilBmSVIzuDWfdRUfhHdY6+cn8HFRm+2hM8AnXGXws9555KrUB5qihylGa8subX2Nn6UwNR1AkUTV74bU=\n.\tIN\tDNSKEY\t257 3 8 AwEAAa96jeuknZlaeSrvyAJj6ZHv28hhOKkx3rLGXVaC6rXTsDc449/cidltpkyGwCJNnOAlFNKF2jBosZBU5eeHspaQWOmOElZsjICMQMC3aeHbGiShvZsx4wMYSjH8e7Vrhbu6irwCzVBApESjbUdpWWmEnhathWu1jo+siFUiRAAxm9qyJNg/wOZqqzL/dL/q8PkcRU5oUKEpUge71M3ej2/7CPqpdVwuMoTvoB+ZOT4YeGyxMvHmbrxlFzGOHOijtzN+u1TQNatX2XBuzZNQ1K+s2CXkPIZo7s6JgZyvaBevYtxPvYLw4z9mR7K2vaF18UYH9Z9GNUUeayffKC73PYc=\n";

/// Why a refresh changed nothing.
#[derive(Debug, Clone, Copy, PartialEq, Eq, Structural)]
pub enum TickError {
    /// The live set has no signature.
    Unsigned,
    /// No trusted key made the signature.
    Untrusted,
}

/// What a refresh comes to.
#[derive(Debug)]
pub struct Refreshed {
    pub keys: Vec<ManagedKey>,
    pub diff: RefreshDiff,
    /// The new anchors; an error where a kept key cannot be read.
    pub anchors: Result<TrustAnchors, AnchorError>,
}

/// Whether kept state is of a version that is understood.
pub fn state_supported(s: &StateFile) -> (r: bool)
    ensures
        r == (s.version == STATE_VERSION),
{
    s.version == STATE_VERSION
}

/// How the zone of an anchor is written: with a final dot if it is absolute.
pub open spec fn zone_text(a: TrustAnchorV) -> Seq<char> {
    match name_ascii(a.zone) {
        None => Seq::empty(),
        Some(s) => if a.absolute || s.len() == 0 {
            s
        } else {
            s.drop_last()
        },
    }
}

/// The managed keys that a set of anchors stands for: all active.
pub open spec fn all_active(s: Seq<TrustAnchorV>) -> Seq<ManagedKeyV> {
    Seq::new(s.len(), |i: int| managed(zone_text(s[i]), s[i].key, KeyStatus::Active))
}

/// The keys of a set of anchors.
pub open spec fn anchor_keys(s: Seq<TrustAnchorV>) -> Seq<crate::recursor::anchor::DnskeyV> {
    Seq::new(s.len(), |i: int| s[i].key)
}

/// The live keys, as observed at the root.
pub open spec fn observed_at_root(f: FetchedV) -> Seq<ObservedV> {
    Seq::new(f.keys.len(), |i: int| ObservedV { zone: "."@, key: f.keys[i] })
}

/// Why a refresh changes nothing, if it does.
pub open spec fn tick_error(resp: MessageV, active: Seq<TrustAnchorV>) -> Option<TickError> {
    let f = keys_among(resp.answers, Seq::empty());
    match f.sig {
        None => Some(TickError::Unsigned),
        Some(sig) => if some_key_verifies(f.records, sig, anchor_keys(active)) {
            None
        } else {
            Some(TickError::Untrusted)
        },
    }
}

/// How the zone of an anchor is written.
fn zone_string(a: &TrustAnchor) -> (r: String)
    ensures
        r@ == zone_text(a@),
{
    match a.zone.to_ascii() {
        None => {
            let s = String::new();
            assert(s@ =~= Seq::empty()) by {
                reveal_strlit("");
            }
            s
        },
        Some(s) => {
            if a.absolute {
                return s;
            }
            let mut c = chars_of(s.as_str());
            if c.len() == 0 {
                return s;
            }
            let ghost was = c@;
            c.pop();
            assert(c@ =~= was.drop_last());
            string_of(c.as_slice())
        },
    }
}

/// The managed keys that a set of anchors stands for: all active.
pub fn managed_from_anchors(anchors: &TrustAnchors) -> (r: Vec<ManagedKey>)
    ensures
        keys_v(r@) == all_active(anchors@),
{
    let mut out: Vec<ManagedKey> = Vec::new();
    let mut i: usize = 0;
    while i < anchors.keys.len()
        invariant
            i <= anchors.keys@.len(),
            out@.len() == i,
            forall|j: int| 0 <= j < i ==> (#[trigger] out@[j])@ == all_active(anchors@)[j],
        decreases anchors.keys@.len() - i,
    {
        let a: &TrustAnchor = &anchors.keys[i];
        assert(anchors@[i as int] == a@);
        out.push(
            ManagedKey::from_observed(zone_string(a).as_str(), &a.key, KeyStatus::Active),
        );
        i += 1;
    }
    assert(keys_v(out@) =~= all_active(anchors@));
    out
}

/// The anchors and managed keys to start with, from a text in presentation form.
pub fn bootstrap(raw: &str) -> (r: Result<(TrustAnchors, Vec<ManagedKey>), AnchorError>)
    ensures
        match (r, anchors_of(raw@)) {
            (Ok((a, m)), Ok(v)) => a@ == v && keys_v(m@) == all_active(v),
            (Err(e), Err(x)) => e == x,
            _ => false,
        },
{
    match parse_presentation_format_str(raw) {
        Err(e) => Err(e),
        Ok(a) => {
            let m = managed_from_anchors(&a);
            Ok((a, m))
        },
    }
}

/// Refresh the anchors from the root's live DNSKEY set. The set counts only if a key that
/// is trusted already has signed it. `prior` is the state kept so far; without one, the
/// active anchors stand in.
pub fn tick(
    resp: &Message,
    active: &TrustAnchors,
    prior: Option<Vec<ManagedKey>>,
    now: u64,
    hold_down: u64,
) -> (r: Result<Refreshed, TickError>)
    ensures
        match r {
            Err(e) => tick_error(resp@, active@) == Some(e),
            Ok(n) => {
                let state = match prior {
                    Some(k) => keys_v(k@),
                    None => all_active(active@),
                };
                let obs = observed_at_root(keys_among(resp@.answers, Seq::empty()));
                &&& tick_error(resp@, active@) is None
                &&& keys_v(n.keys@) == refreshed(state, obs, now, hold_down)
                &&& managed_anchors(keys_v(n.keys@)) == (match n.anchors {
                    Ok(t) => Ok(t@),
                    Err(e) => Err(e),
                })
            },
        },
{
    let f = extract_dnskeys(&resp.answers, &Name::root());
    let mut trusted: Vec<crate::recursor::anchor::Dnskey> = Vec::new();
    let mut i: usize = 0;
    while i < active.keys.len()
        invariant
            i <= active.keys@.len(),
            trusted@.len() == i,
            forall|j: int| 0 <= j < i ==> (#[trigger] trusted@[j])@ == anchor_keys(active@)[j],
        decreases active.keys@.len() - i,
    {
        assert(active@[i as int] == active.keys@[i as int]@);
        trusted.push(active.keys[i].key.clone());
        i += 1;
    }
    assert(dnskeys_v(trusted@) =~= anchor_keys(active@));
    match &f.sig {
        None => {
            return Err(TickError::Unsigned);
        },
        Some(sig) => {
            if !any_key_verifies(&f.records, sig, &trusted) {
                return Err(TickError::Untrusted);
            }
        },
    }
    let state: Vec<ManagedKey> = match prior {
        Some(k) => k,
        None => managed_from_anchors(active),
    };
    let mut observed: Vec<Observed> = Vec::new();
    let mut k: usize = 0;
    while k < f.keys.len()
        invariant
            k <= f.keys@.len(),
            observed@.len() == k,
            forall|j: int|
                0 <= j < k ==> (#[trigger] observed@[j])@ == (ObservedV {
                    zone: "."@,
                    key: f.keys@[j]@,
                }),
        decreases f.keys@.len() - k,
    {
        observed.push(Observed { zone: ".".to_owned(), key: f.keys[k].clone() });
        k += 1;
    }
    assert(observed_v(observed@) =~= observed_at_root(f@));
    let (keys, diff) = apply_refresh(&state, &observed, now, hold_down);
    let anchors = TrustAnchors::from_managed_keys(&keys);
    Ok(Refreshed { keys, diff, anchors })
}

/// An unsigned or falsely signed key set changes nothing: without a signature by a key
/// that is trusted already there is no refresh.
pub proof fn law_refresh_needs_trusted_signature(resp: MessageV, active: Seq<TrustAnchorV>)
    requires
        tick_error(resp, active) is None,
    ensures
        exists|i: int|
            0 <= i < active.len() && crate::recursor::crypto::rrset_verifies(
                keys_among(resp.answers, Seq::empty()).records,
                keys_among(resp.answers, Seq::empty()).sig->0,
                (#[trigger] active[i]).key,
            ),
{
    let f = keys_among(resp.answers, Seq::empty());
    let keys = anchor_keys(active);
    let i = choose|i: int|
        0 <= i < keys.len() && crate::recursor::crypto::rrset_verifies(
            f.records,
            f.sig->0,
            #[trigger] keys[i],
        );
    assert(active[i].key == keys[i]);
}

/// A reply with a signature that any one of the trusted keys made is accepted; one without a
/// signature, or with one that none of them made, is not, and why is told apart.
pub proof fn law_any_trusted_key_may_sign(resp: MessageV, active: Seq<TrustAnchorV>)
    ensures
        ({
            let f = keys_among(resp.answers, Seq::empty());
            let signed = exists|i: int|
                0 <= i < active.len() && crate::recursor::crypto::rrset_verifies(
                    f.records,
                    f.sig->0,
                    (#[trigger] active[i]).key,
                );
            &&& f.sig is None <==> tick_error(resp, active) == Some(TickError::Unsigned)
            &&& f.sig is Some && signed <==> tick_error(resp, active) is None
            &&& f.sig is Some && !signed <==> tick_error(resp, active) == Some(
                TickError::Untrusted,
            )
        }),
{
    let f = keys_among(resp.answers, Seq::empty());
    if f.sig is Some {
        let keys = anchor_keys(active);
        crate::recursor::chain::law_any_one_key_suffices(f.records, f.sig->0, keys);
        if some_key_verifies(f.records, f.sig->0, keys) {
            law_refresh_needs_trusted_signature(resp, active);
        } else {
            assert forall|i: int| 0 <= i < active.len() implies !crate::recursor::crypto::rrset_verifies(
                f.records,
                f.sig->0,
                (#[trigger] active[i]).key,
            ) by {
                assert(keys[i] == active[i].key);
            }
        }
    }
}

/// The first state of the anchors has every anchor in it, active, with its zone, algorithm
/// and flags; and what is observed at the root is every key of the reply's set, in order.
pub proof fn law_every_anchor_becomes_managed(anchors: Seq<TrustAnchorV>, f: FetchedV)
    ensures
        all_active(anchors).len() == anchors.len(),
        forall|i: int|
            0 <= i < anchors.len() ==> (#[trigger] all_active(anchors)[i]).status
                == KeyStatus::Active && all_active(anchors)[i].algorithm
                == anchors[i].key.algorithm && all_active(anchors)[i].flags == anchors[i].key.flags
                & 0x0181 && all_active(anchors)[i].zone == zone_text(anchors[i]),
        observed_at_root(f).len() == f.keys.len(),
        forall|i: int|
            0 <= i < f.keys.len() ==> (#[trigger] observed_at_root(f)[i]).key == f.keys[i]
                && observed_at_root(f)[i].zone == "."@,
{
}

} // verus!
