//! DNSSEC validation of responses.

use crate::name::{lower, same_name, Labels, Name};
use crate::names::{display_type, name_text, type_text};
use crate::net::IpAddr;
use crate::rdata::{dnskey_in, rrsig_in};
use crate::recursor::anchor::{key_tag, Dnskey, DnskeyV};
use crate::recursor::chain::{
    any_key_verifies, chain_v, check_rrsig_validity, clone_keys, closest_trusted_keys, covering,
    entry_for, find_covering, find_entry, group_records, grouped, law_any_one_key_suffices,
    law_every_anchor_is_seeded, law_signature_window, no_empty_set, replace_keys, replaced,
    seed_chain, seeded, sets_v, some_key_verifies, trusted_keys, window_error, ZoneKeys, ZoneKeysV,
};
use crate::recursor::crypto::{covers, ds_covers, rrset_verifies};
use crate::recursor::denial::{denial_status, validate_denial};
use crate::recursor::trust::{dnskeys_v, keys_for, TrustAnchorV, TrustAnchors};
use crate::text::{dec, join2, join3, join4, push_dec, push_text};
use crate::wire::{
    records_v, Header, Message, MessageV, Query, Record, RecordV, TYPE_A, TYPE_DNSKEY, TYPE_DS,
};
use vstd::prelude::*;

verus! {

/// Extended DNS Error codes (RFC 8914).
pub const EDE_DNSSEC_BOGUS: u16 = 6;

pub const EDE_NO_REACHABLE_AUTHORITY: u16 = 22;

/// Shortest time that validated keys are kept, in seconds.
pub const MIN_POSITIVE_TTL: u64 = 60;

/// Outcome of validating a response.
#[derive(Debug)]
pub enum ValidationStatus {
    Secure,
    Insecure,
    Bogus(String),
}

/// The value of a [`ValidationStatus`].
pub enum StatusV {
    Secure,
    Insecure,
    Bogus(Seq<char>),
}

impl View for ValidationStatus {
    type V = StatusV;

    open spec fn view(&self) -> StatusV {
        match self {
            ValidationStatus::Secure => StatusV::Secure,
            ValidationStatus::Insecure => StatusV::Insecure,
            ValidationStatus::Bogus(m) => StatusV::Bogus(m@),
        }
    }
}

/// What a response's AD bit is allowed to say.
#[derive(Debug, Clone, Copy, PartialEq, Eq, Structural)]
pub enum DnssecPolicy {
    PassThrough,
    Strip,
    Validate,
}

/// A response with its AD bit set to `ad`.
pub open spec fn with_ad(m: MessageV, ad: bool) -> MessageV {
    MessageV { header: Header { authentic_data: ad, ..m.header }, ..m }
}

impl DnssecPolicy {
    /// Apply the policy to a response: only pass-through leaves the AD bit alone.
    pub fn apply_to_response(&self, resp: &mut Message)
        ensures
            final(resp)@ == (match *self {
                DnssecPolicy::PassThrough => old(resp)@,
                _ => with_ad(old(resp)@, false),
            }),
    {
        match self {
            DnssecPolicy::PassThrough => {},
            DnssecPolicy::Strip => {
                resp.header.authentic_data = false;
            },
            DnssecPolicy::Validate => {
                resp.header.authentic_data = false;
            },
        }
    }
}

/// Set the AD bit of a response to what validation found.
pub fn apply_validation(resp: &mut Message, status: &ValidationStatus)
    ensures
        final(resp)@ == with_ad(old(resp)@, status@ == StatusV::Secure),
{
    let secure = match status {
        ValidationStatus::Secure => true,
        _ => false,
    };
    resp.header.authentic_data = secure;
}

/// A set whose signature the anchors can check: the record that covers its type, and the
/// keys trusted for the signer; none where there is no such record or no such key.
pub open spec fn anchored_signature(
    set: Seq<RecordV>,
    answers: Seq<RecordV>,
    anchors: Seq<TrustAnchorV>,
) -> Option<(RecordV, Seq<DnskeyV>)> {
    match covering(answers, set[0].rtype, None, 0) {
        None => None,
        Some(sig) => {
            let keys = keys_for(anchors, rrsig_in(sig)->0.signer);
            if keys.len() == 0 {
                None
            } else {
                Some((sig, keys))
            }
        },
    }
}

/// What the anchors alone say of the sets from `i` on: the worst that is found. `verified`
/// is whether each set before was verified.
pub open spec fn anchored_status(
    sets: Seq<Seq<RecordV>>,
    answers: Seq<RecordV>,
    anchors: Seq<TrustAnchorV>,
    verified: bool,
    i: int,
) -> StatusV
    decreases sets.len() - i,
{
    if i < 0 || i >= sets.len() {
        if verified && sets.len() > 0 {
            StatusV::Secure
        } else {
            StatusV::Insecure
        }
    } else {
        match anchored_signature(sets[i], answers, anchors) {
            None => anchored_status(sets, answers, anchors, false, i + 1),
            Some((sig, keys)) => if some_key_verifies(sets[i], sig, keys) {
                anchored_status(sets, answers, anchors, verified, i + 1)
            } else {
                StatusV::Bogus(
                    "signature on "@ + name_text(sets[i][0].name) + "/"@ + type_text(
                        sets[i][0].rtype,
                    ) + " did not verify under signer "@ + name_text(rrsig_in(sig)->0.signer),
                )
            },
        }
    }
}

/// What the anchors alone say of a response.
pub open spec fn response_status(resp: MessageV, anchors: Seq<TrustAnchorV>) -> StatusV {
    anchored_status(grouped(resp.answers, None), resp.answers, anchors, true, 0)
}

/// Validate a response with the trust anchors alone: each set of answer records by the
/// signature that covers its type. The worst outcome over all sets is returned.
pub fn validate_response(resp: &Message, anchors: &TrustAnchors) -> (r: ValidationStatus)
    ensures
        r@ == response_status(resp@, anchors@),
{
    let sets = group_records(&resp.answers, None);
    let ghost v = sets_v(sets@);
    let ghost a = records_v(resp.answers@);
    let mut verified: bool = true;
    let mut i: usize = 0;
    while i < sets.len()
        invariant
            i <= sets@.len(),
            v == sets_v(sets@),
            a == records_v(resp.answers@),
            no_empty_set(v),
            anchored_status(v, a, anchors@, true, 0) == anchored_status(
                v,
                a,
                anchors@,
                verified,
                i as int,
            ),
            v == grouped(a, None),
        decreases sets@.len() - i,
    {
        assert(v[i as int].len() > 0);
        let r: &Record = &sets[i][0];
        assert(v[i as int][0] == r@);
        match find_covering(&resp.answers, r.rtype, None) {
            None => {
                verified = false;
            },
            Some((rec, sig)) => {
                let keys = anchors.dnskeys_for(&sig.signer);
                assert(dnskeys_v(keys@).len() == keys@.len());
                if keys.len() == 0 {
                    verified = false;
                } else if !any_key_verifies(&sets[i], &rec, &keys) {
                    let mut msg = join4(
                        "signature on ",
                        r.name.text().as_str(),
                        "/",
                        display_type(r.rtype).as_str(),
                    );
                    push_text(&mut msg, " did not verify under signer ");
                    push_text(&mut msg, sig.signer.text().as_str());
                    return ValidationStatus::Bogus(msg);
                }
            },
        }
        i += 1;
    }
    assert(v.len() == sets@.len());
    if verified && sets.len() > 0 {
        ValidationStatus::Secure
    } else {
        ValidationStatus::Insecure
    }
}

proof fn lemma_secure_response(
    sets: Seq<Seq<RecordV>>,
    answers: Seq<RecordV>,
    anchors: Seq<TrustAnchorV>,
    verified: bool,
    i: int,
    j: int,
)
    requires
        0 <= i <= sets.len(),
        anchored_status(sets, answers, anchors, verified, i) == StatusV::Secure,
    ensures
        verified,
        sets.len() > 0,
        i <= j < sets.len() ==> {
            let found = anchored_signature(sets[j], answers, anchors);
            found is Some && some_key_verifies(sets[j], (found->0).0, (found->0).1)
        },
    decreases sets.len() - i,
{
    if i < sets.len() {
        match anchored_signature(sets[i], answers, anchors) {
            None => {
                lemma_secure_response(sets, answers, anchors, false, i + 1, j);
            },
            Some(_) => {
                lemma_secure_response(sets, answers, anchors, verified, i + 1, j);
            },
        }
    }
}

/// By the anchors alone a response is secure only if it has answers and every set of them
/// verifies under a trusted key.
pub proof fn law_secure_response_verifies_throughout(
    resp: MessageV,
    anchors: Seq<TrustAnchorV>,
    j: int,
)
    requires
        response_status(resp, anchors) == StatusV::Secure,
    ensures
        grouped(resp.answers, None).len() > 0,
        0 <= j < grouped(resp.answers, None).len() ==> {
            let set = grouped(resp.answers, None)[j];
            let found = anchored_signature(set, resp.answers, anchors);
            found is Some && some_key_verifies(set, (found->0).0, (found->0).1)
        },
{
    lemma_secure_response(grouped(resp.answers, None), resp.answers, anchors, true, 0, j);
}

/// What a chain of trust says of the sets from `i` on.
pub open spec fn sets_status(
    sets: Seq<Seq<RecordV>>,
    answers: Seq<RecordV>,
    chain: Seq<ZoneKeysV>,
    now: u32,
    i: int,
) -> StatusV
    decreases sets.len() - i,
{
    if i < 0 || i >= sets.len() {
        StatusV::Secure
    } else {
        let first = sets[i][0];
        match covering(answers, first.rtype, None, 0) {
            None => StatusV::Insecure,
            Some(sig) => {
                let s = rrsig_in(sig)->0;
                match window_error(s, now) {
                    Some(e) => StatusV::Bogus(
                        "answer RRSIG for "@ + name_text(first.name) + "/"@ + type_text(
                            first.rtype,
                        ) + " invalid: "@ + e,
                    ),
                    None => if trusted_keys(chain, s.signer).len() == 0 {
                        StatusV::Insecure
                    } else if !some_key_verifies(sets[i], sig, trusted_keys(chain, s.signer)) {
                        StatusV::Bogus(
                            "answer RRSIG for "@ + name_text(first.name) + "/"@ + type_text(
                                first.rtype,
                            ) + " did not verify under "@ + name_text(s.signer),
                        )
                    } else {
                        sets_status(sets, answers, chain, now, i + 1)
                    },
                }
            },
        }
    }
}

/// What a chain of trust says of a response: of its answers, or, where there are none,
/// of its proof that there is nothing to answer.
pub open spec fn chain_status(
    resp: MessageV,
    chain: Seq<ZoneKeysV>,
    qname: Labels,
    qtype: u16,
    now: u32,
) -> StatusV {
    let sets = grouped(resp.answers, None);
    if sets.len() == 0 {
        denial_status(resp, chain, qname, qtype, now)
    } else {
        sets_status(sets, resp.answers, chain, now, 0)
    }
}

/// Validate a response with a chain of trust.
pub fn validate_answer_against_chain(
    resp: &Message,
    chain: &Vec<ZoneKeys>,
    qname: &Name,
    qtype: u16,
    now: u32,
) -> (r: ValidationStatus)
    ensures
        r@ == chain_status(resp@, chain_v(chain@), qname@, qtype, now),
{
    let sets = group_records(&resp.answers, None);
    let ghost v = sets_v(sets@);
    let ghost a = records_v(resp.answers@);
    let ghost c = chain_v(chain@);
    if sets.len() == 0 {
        return validate_denial(resp, chain, qname, qtype, now);
    }
    let mut i: usize = 0;
    while i < sets.len()
        invariant
            i <= sets@.len(),
            v == sets_v(sets@),
            a == records_v(resp.answers@),
            c == chain_v(chain@),
            no_empty_set(v),
            v == grouped(a, None),
            v.len() > 0,
            sets_status(v, a, c, now, 0) == sets_status(v, a, c, now, i as int),
        decreases sets@.len() - i,
    {
        assert(v[i as int].len() > 0);
        let r: &Record = &sets[i][0];
        assert(v[i as int][0] == r@);
        let (rec, sig) = match find_covering(&resp.answers, r.rtype, None) {
            Some(p) => p,
            None => return ValidationStatus::Insecure,
        };
        if let Err(e) = check_rrsig_validity(&sig, now) {
            let mut msg = join4(
                "answer RRSIG for ",
                r.name.text().as_str(),
                "/",
                display_type(r.rtype).as_str(),
            );
            push_text(&mut msg, " invalid: ");
            push_text(&mut msg, e.as_str());
            return ValidationStatus::Bogus(msg);
        }
        let keys = closest_trusted_keys(chain, &sig.signer);
        assert(dnskeys_v(keys@).len() == keys@.len());
        if keys.len() == 0 {
            return ValidationStatus::Insecure;
        }
        if !any_key_verifies(&sets[i], &rec, &keys) {
            let mut msg = join4(
                "answer RRSIG for ",
                r.name.text().as_str(),
                "/",
                display_type(r.rtype).as_str(),
            );
            push_text(&mut msg, " did not verify under ");
            push_text(&mut msg, sig.signer.text().as_str());
            return ValidationStatus::Bogus(msg);
        }
        i += 1;
    }
    ValidationStatus::Secure
}

/// The DNSKEY set of a zone as a server gave it.
#[derive(Debug)]
pub struct FetchedKeys {
    pub records: Vec<Record>,
    pub keys: Vec<Dnskey>,
    pub sig: Option<Record>,
}

/// The value of [`FetchedKeys`].
#[verifier::ext_equal]
pub ghost struct FetchedV {
    pub records: Seq<RecordV>,
    pub keys: Seq<DnskeyV>,
    pub sig: Option<RecordV>,
}

impl View for FetchedKeys {
    type V = FetchedV;

    open spec fn view(&self) -> FetchedV {
        FetchedV {
            records: records_v(self.records@),
            keys: dnskeys_v(self.keys@),
            sig: match self.sig {
                Some(s) => Some(s@),
                None => None,
            },
        }
    }
}

/// Whose DNSKEY set the record belongs to.
pub open spec fn is_key_of(r: RecordV, zone: Labels) -> bool {
    same_name(r.name, zone) && dnskey_in(r) is Some
}

/// The record is a signature over the DNSKEY set of `zone`.
pub open spec fn is_key_sig_of(r: RecordV, zone: Labels) -> bool {
    same_name(r.name, zone) && rrsig_in(r) is Some && rrsig_in(r)->0.type_covered == TYPE_DNSKEY
}

/// The DNSKEY set of `zone` among the records: the keys in order, and the last signature
/// over them.
pub open spec fn keys_among(rs: Seq<RecordV>, zone: Labels) -> FetchedV
    decreases rs.len(),
{
    if rs.len() == 0 {
        FetchedV { records: Seq::empty(), keys: Seq::empty(), sig: None }
    } else {
        let rest = keys_among(rs.drop_last(), zone);
        let r = rs.last();
        if is_key_of(r, zone) {
            FetchedV {
                records: rest.records.push(r),
                keys: rest.keys.push(dnskey_in(r)->0),
                ..rest
            }
        } else if is_key_sig_of(r, zone) {
            FetchedV { sig: Some(r), ..rest }
        } else {
            rest
        }
    }
}

/// The keys are those of the records, one for one, and the records are the zone's own.
pub open spec fn own_set(f: FetchedV, zone: Labels) -> bool {
    &&& f.keys.len() == f.records.len()
    &&& forall|i: int|
        0 <= i < f.records.len() ==> is_key_of(#[trigger] f.records[i], zone) && f.keys[i]
            == dnskey_in(f.records[i])->0
    &&& f.sig is Some ==> is_key_sig_of(f.sig->0, zone)
}

/// The keys taken from a reply are exactly those of the records whose signature is checked,
/// and all of them, with the signature, stand in the reply under the zone's name.
pub proof fn law_fetched_keys_are_those_of_the_set(rs: Seq<RecordV>, zone: Labels)
    ensures
        own_set(keys_among(rs, zone), zone),
        forall|i: int|
            0 <= i < keys_among(rs, zone).records.len() ==> rs.contains(
                #[trigger] keys_among(rs, zone).records[i],
            ),
        keys_among(rs, zone).sig is Some ==> rs.contains(keys_among(rs, zone).sig->0),
    decreases rs.len(),
{
    if rs.len() > 0 {
        let before = rs.drop_last();
        law_fetched_keys_are_those_of_the_set(before, zone);
        let rest = keys_among(before, zone);
        let f = keys_among(rs, zone);
        assert forall|x: RecordV| before.contains(x) implies rs.contains(x) by {
            let i = choose|i: int| 0 <= i < before.len() && before[i] == x;
            assert(rs[i] == x);
        }
        assert(rs[rs.len() - 1] == rs.last());
        assert forall|i: int| 0 <= i < f.records.len() implies is_key_of(
            #[trigger] f.records[i],
            zone,
        ) && f.keys[i] == dnskey_in(f.records[i])->0 && rs.contains(f.records[i]) by {
            if i < rest.records.len() {
                assert(f.records[i] == rest.records[i]);
            }
        }
    }
}

/// Take the DNSKEY set of `zone` out of the answers of a response.
pub fn extract_dnskeys(answers: &Vec<Record>, zone: &Name) -> (r: FetchedKeys)
    ensures
        r@ == keys_among(records_v(answers@), zone@),
{
    let ghost v = records_v(answers@);
    let mut records: Vec<Record> = Vec::new();
    let mut keys: Vec<Dnskey> = Vec::new();
    let mut sig: Option<Record> = None;
    let mut i: usize = 0;
    assert(records_v(records@) =~= Seq::empty());
    assert(dnskeys_v(keys@) =~= Seq::empty());
    while i < answers.len()
        invariant
            i <= answers@.len(),
            v == records_v(answers@),
            keys_among(v.subrange(0, i as int), zone@) == (FetchedV {
                records: records_v(records@),
                keys: dnskeys_v(keys@),
                sig: match sig {
                    Some(s) => Some(s@),
                    None => None,
                },
            }),
        decreases answers@.len() - i,
    {
        let r: &Record = &answers[i];
        let ghost had = records_v(records@);
        let ghost had_keys = dnskeys_v(keys@);
        proof {
            assert(v.subrange(0, i + 1).drop_last() =~= v.subrange(0, i as int));
            assert(v.subrange(0, i + 1).last() == r@);
        }
        if r.name.same(zone) {
            if let Some(k) = r.dnskey() {
                let c = r.clone();
                records.push(c);
                keys.push(k);
                assert(records_v(records@) =~= had.push(r@));
                assert(dnskeys_v(keys@) =~= had_keys.push(k@));
            } else if let Some(s) = r.rrsig() {
                if s.type_covered == TYPE_DNSKEY {
                    sig = Some(r.clone());
                }
            }
        }
        i += 1;
    }
    assert(v.subrange(0, v.len() as int) =~= v);
    FetchedKeys { records, keys, sig }
}

/// One delegation on the way from the root to an answer.
#[derive(Debug)]
pub struct ChainStep {
    /// The zone delegated to.
    pub zone: Name,
    /// DS records that the parent gave for the zone; empty for an unsigned delegation.
    pub ds: Vec<Record>,
    /// Signatures over the DS records.
    pub ds_rrsig: Vec<Record>,
    /// Addresses of the zone's servers.
    pub ns_ips: Vec<IpAddr>,
}

/// The value of a [`ChainStep`].
#[verifier::ext_equal]
pub ghost struct ChainStepV {
    pub zone: Labels,
    pub ds: Seq<RecordV>,
    pub ds_rrsig: Seq<RecordV>,
    pub ns_ips: Seq<IpAddr>,
}

impl View for ChainStep {
    type V = ChainStepV;

    open spec fn view(&self) -> ChainStepV {
        ChainStepV {
            zone: self.zone@,
            ds: records_v(self.ds@),
            ds_rrsig: records_v(self.ds_rrsig@),
            ns_ips: self.ns_ips@,
        }
    }
}

/// The delegations that a resolution went through, from the root down.
#[derive(Debug)]
pub struct WalkChain {
    pub steps: Vec<ChainStep>,
}

/// The values of a list of steps.
pub open spec fn steps_v(s: Seq<ChainStep>) -> Seq<ChainStepV> {
    Seq::new(s.len(), |i: int| s[i]@)
}

impl Default for WalkChain {
    fn default() -> (r: WalkChain)
        ensures
            r.steps@.len() == 0,
    {
        WalkChain { steps: Vec::new() }
    }
}

impl WalkChain {
    /// The zone that gave the answer; none where the root did.
    pub fn answer_zone(&self) -> (r: Option<&Name>)
        ensures
            match r {
                Some(n) => self.steps@.len() > 0 && n@ == self.steps@.last().zone@,
                None => self.steps@.len() == 0,
            },
    {
        if self.steps.len() == 0 {
            None
        } else {
            Some(&self.steps[self.steps.len() - 1].zone)
        }
    }
}

/// What is known of a zone's DNSKEY set before it is checked.
#[derive(Debug)]
pub enum ZoneDnskeys {
    /// Validated before; below the root they count where the parent's DS records still
    /// match them.
    Cached(Vec<Dnskey>),
    /// Known to be out of reach.
    Unreachable,
    /// Just fetched: the answers of the reply.
    Fetched(Vec<Record>),
    /// The fetch failed.
    Failed,
}

/// The value of [`ZoneDnskeys`].
pub enum ZoneDnskeysV {
    Cached(Seq<DnskeyV>),
    Unreachable,
    Fetched(Seq<RecordV>),
    Failed,
}

impl View for ZoneDnskeys {
    type V = ZoneDnskeysV;

    open spec fn view(&self) -> ZoneDnskeysV {
        match self {
            ZoneDnskeys::Cached(k) => ZoneDnskeysV::Cached(dnskeys_v(k@)),
            ZoneDnskeys::Unreachable => ZoneDnskeysV::Unreachable,
            ZoneDnskeys::Fetched(a) => ZoneDnskeysV::Fetched(records_v(a@)),
            ZoneDnskeys::Failed => ZoneDnskeysV::Failed,
        }
    }
}

/// The values of what is known of each step's keys.
pub open spec fn known_v(s: Seq<ZoneDnskeys>) -> Seq<ZoneDnskeysV> {
    Seq::new(s.len(), |i: int| s[i]@)
}

/// Some DS record of the list is the digest of some key.
pub open spec fn ds_match(ds: Seq<RecordV>, zone: Labels, keys: Seq<DnskeyV>) -> bool {
    exists|i: int, j: int|
        0 <= i < keys.len() && 0 <= j < ds.len() && ds_covers(
            #[trigger] ds[j],
            zone,
            #[trigger] keys[i],
        )
}

/// Whether some DS record of the list is the digest of some key.
pub fn any_ds_matches(ds: &Vec<Record>, zone: &Name, keys: &Vec<Dnskey>) -> (r: bool)
    ensures
        r == ds_match(records_v(ds@), zone@, dnskeys_v(keys@)),
{
    let ghost d = records_v(ds@);
    let ghost k = dnskeys_v(keys@);
    let mut i: usize = 0;
    while i < keys.len()
        invariant
            i <= keys@.len(),
            d == records_v(ds@),
            k == dnskeys_v(keys@),
            forall|a: int, b: int|
                0 <= a < i && 0 <= b < d.len() ==> !ds_covers(
                    #[trigger] d[b],
                    zone@,
                    #[trigger] k[a],
                ),
        decreases keys@.len() - i,
    {
        assert(k[i as int] == keys@[i as int]@);
        let mut j: usize = 0;
        while j < ds.len()
            invariant
                i < keys@.len(),
                j <= ds@.len(),
                d == records_v(ds@),
                k == dnskeys_v(keys@),
                k[i as int] == keys@[i as int]@,
                forall|b: int| 0 <= b < j ==> !ds_covers(#[trigger] d[b], zone@, k[i as int]),
            decreases ds@.len() - j,
        {
            assert(d[j as int] == ds@[j as int]@);
            if covers(&ds[j], zone, &keys[i]) {
                return true;
            }
            j += 1;
        }
        i += 1;
    }
    false
}

/// What to do about the DNSKEY set of a step's zone.
#[derive(Debug)]
pub enum KeyPlan {
    /// The kept keys still fit the parent's DS records.
    UseCached,
    /// The zone was out of reach a moment ago.
    Unreachable,
    /// Ask the zone's servers; `forget` says that kept keys no longer fit.
    Fetch { forget: bool },
}

/// Decide about the DNSKEY set of a step's zone: `kept` are the keys validated before,
/// `unreachable` whether a fetch failed a moment ago.
pub fn plan_step_keys(step: &ChainStep, kept: Option<&Vec<Dnskey>>, unreachable: bool) -> (r:
    KeyPlan)
    ensures
        ({
            let fits = kept is Some && ds_match(
                step@.ds,
                step@.zone,
                dnskeys_v(kept->0@),
            );
            match r {
                KeyPlan::UseCached => fits,
                KeyPlan::Unreachable => !fits && unreachable,
                KeyPlan::Fetch { forget } => !fits && !unreachable && forget == (kept is Some),
            }
        }),
{
    let mut forget = false;
    if let Some(keys) = kept {
        if any_ds_matches(&step.ds, &step.zone, keys) {
            return KeyPlan::UseCached;
        }
        forget = true;
    }
    if unreachable {
        KeyPlan::Unreachable
    } else {
        KeyPlan::Fetch { forget }
    }
}

/// The smallest TTL of the records; the given one where there are none.
pub open spec fn least_ttl(rs: Seq<RecordV>) -> u64
    decreases rs.len(),
{
    if rs.len() == 0 {
        MIN_POSITIVE_TTL
    } else if rs.len() == 1 {
        rs[0].ttl as u64
    } else {
        let rest = least_ttl(rs.drop_last());
        if rest <= rs.last().ttl {
            rest
        } else {
            rs.last().ttl as u64
        }
    }
}

fn min_record_ttl(rs: &Vec<Record>) -> (r: u64)
    ensures
        r == least_ttl(records_v(rs@)),
{
    if rs.len() == 0 {
        return MIN_POSITIVE_TTL;
    }
    let ghost v = records_v(rs@);
    let mut m: u64 = rs[0].ttl as u64;
    let mut i: usize = 1;
    while i < rs.len()
        invariant
            1 <= i <= rs@.len(),
            v == records_v(rs@),
            m == least_ttl(v.subrange(0, i as int)),
        decreases rs@.len() - i,
    {
        proof {
            assert(v.subrange(0, i + 1).drop_last() =~= v.subrange(0, i as int));
        }
        let t: u64 = rs[i].ttl as u64;
        if t < m {
            m = t;
        }
        i += 1;
    }
    assert(v.subrange(0, v.len() as int) =~= v);
    m
}

/// Key tags, as a list in brackets.
pub open spec fn tags_text(keys: Seq<DnskeyV>) -> Seq<char>
    decreases keys.len(),
{
    if keys.len() == 0 {
        Seq::empty()
    } else {
        let rest = tags_text(keys.drop_last());
        match key_tag(keys.last()) {
            None => rest,
            Some(t) => if rest.len() == 0 {
                dec(t as nat)
            } else {
                rest + ", "@ + dec(t as nat)
            },
        }
    }
}

fn push_tags(s: &mut String, keys: &Vec<Dnskey>)
    ensures
        final(s)@ == old(s)@ + tags_text(dnskeys_v(keys@)),
{
    let ghost v = dnskeys_v(keys@);
    let ghost start = s@;
    let mut list = String::new();
    let mut empty: bool = true;
    let mut i: usize = 0;
    while i < keys.len()
        invariant
            i <= keys@.len(),
            v == dnskeys_v(keys@),
            list@ == tags_text(v.subrange(0, i as int)),
            empty == (list@.len() == 0),
        decreases keys@.len() - i,
    {
        proof {
            assert(v.subrange(0, i + 1).drop_last() =~= v.subrange(0, i as int));
            assert(v.subrange(0, i + 1).last() == keys@[i as int]@);
        }
        if let Some(t) = keys[i].calculate_key_tag() {
            let ghost had = list@;
            if !empty {
                push_text(&mut list, ", ");
            }
            push_dec(&mut list, t as u64);
            proof {
                assert(dec(t as nat).len() > 0);
                if had.len() == 0 {
                    assert(list@ =~= dec(t as nat));
                }
            }
            empty = false;
        }
        i += 1;
    }
    assert(v.subrange(0, v.len() as int) =~= v);
    push_text(s, list.as_str());
}

/// Keys that a validation has established, and how long the servers let them be kept.
#[derive(Debug)]
pub struct Learned {
    pub zone: Name,
    pub keys: Vec<Dnskey>,
    pub ttl: u64,
}

/// The value of [`Learned`].
#[verifier::ext_equal]
pub ghost struct LearnedV {
    pub zone: Labels,
    pub keys: Seq<DnskeyV>,
    pub ttl: u64,
}

impl View for Learned {
    type V = LearnedV;

    open spec fn view(&self) -> LearnedV {
        LearnedV { zone: self.zone@, keys: dnskeys_v(self.keys@), ttl: self.ttl }
    }
}

/// The values of a list of established keys.
pub open spec fn learned_v(s: Seq<Learned>) -> Seq<LearnedV> {
    Seq::new(s.len(), |i: int| s[i]@)
}

/// What one step of a chain comes to.
pub enum StepV {
    /// The walk ends here.
    Stop(StatusV),
    /// The zone's keys are trusted; the TTL is given where they were just fetched.
    Trust(Seq<DnskeyV>, Option<u64>),
}

/// What is wrong with the DS records of a step, given the parent's keys.
pub open spec fn ds_error(step: ChainStepV, parent: Seq<DnskeyV>, now: u32) -> Option<Seq<char>> {
    match covering(step.ds_rrsig, TYPE_DS, None, 0) {
        None => Some("DS for "@ + name_text(step.zone) + " came without an RRSIG"@),
        Some(sig) => {
            let s = rrsig_in(sig)->0;
            match window_error(s, now) {
                Some(e) => Some("DS RRSIG for "@ + name_text(step.zone) + " invalid: "@ + e),
                None => if some_key_verifies(step.ds, sig, parent) {
                    None
                } else {
                    Some(
                        "DS RRSIG for "@ + name_text(step.zone)
                            + " did not verify under parent keys (rrsig key_tag="@ + dec(
                            s.key_tag as nat,
                        ) + ", parent key_tags=["@ + tags_text(parent) + "])"@,
                    )
                },
            }
        },
    }
}

/// What is wrong with a fetched DNSKEY set, given the parent's DS records.
pub open spec fn keyset_error(step: ChainStepV, f: FetchedV, now: u32) -> Option<Seq<char>> {
    if f.keys.len() == 0 {
        Some("no DNSKEY records returned for "@ + name_text(step.zone))
    } else {
        match f.sig {
            None => Some("DNSKEY RRset for "@ + name_text(step.zone) + " unsigned"@),
            Some(sig) => match rrsig_in(sig) {
                None => Some("DNSKEY RRset for "@ + name_text(step.zone) + " unsigned"@),
                Some(s) => match window_error(s, now) {
                    Some(e) => Some(
                        "DNSKEY RRSIG for "@ + name_text(step.zone) + " invalid: "@ + e,
                    ),
                    None => if !some_key_verifies(f.records, sig, f.keys) {
                        Some(
                            "DNSKEY RRset for "@ + name_text(step.zone) + " is not self-signed"@,
                        )
                    } else if !ds_match(step.ds, step.zone, f.keys) {
                        Some(
                            "no DNSKEY for "@ + name_text(step.zone)
                                + " matches any DS from parent"@,
                        )
                    } else {
                        None
                    },
                },
            },
        }
    }
}

/// What one step comes to, given the chain so far and what is known of the zone's keys.
pub open spec fn step_result(
    chain: Seq<ZoneKeysV>,
    step: ChainStepV,
    known: Option<ZoneDnskeysV>,
    now: u32,
) -> StepV {
    let parent = trusted_keys(chain, step.zone);
    if parent.len() == 0 || step.ds.len() == 0 {
        StepV::Stop(StatusV::Insecure)
    } else {
        match ds_error(step, parent, now) {
            Some(e) => StepV::Stop(StatusV::Bogus(e)),
            None => match known {
                Some(ZoneDnskeysV::Cached(keys)) => if ds_match(step.ds, step.zone, keys) {
                    StepV::Trust(keys, None)
                } else {
                    StepV::Stop(StatusV::Insecure)
                },
                Some(ZoneDnskeysV::Fetched(answers)) => {
                    let f = keys_among(answers, step.zone);
                    match keyset_error(step, f, now) {
                        Some(e) => StepV::Stop(StatusV::Bogus(e)),
                        None => StepV::Trust(f.keys, Some(least_ttl(f.records))),
                    }
                },
                _ => StepV::Stop(StatusV::Insecure),
            },
        }
    }
}

/// What a validation comes to.
#[verifier::ext_equal]
pub ghost struct VerdictV {
    pub status: StatusV,
    pub learned: Seq<LearnedV>,
}

/// The question that a message answers; the root's address where it has none.
pub open spec fn question_of(m: MessageV) -> (Labels, u16) {
    if m.queries.len() > 0 {
        (m.queries[0].name, m.queries[0].qtype)
    } else {
        (Seq::empty(), TYPE_A)
    }
}

/// What the steps from `i` on, and then the answer, come to.
pub open spec fn walk_result(
    chain: Seq<ZoneKeysV>,
    steps: Seq<ChainStepV>,
    known: Seq<ZoneDnskeysV>,
    answer: MessageV,
    now: u32,
    learned: Seq<LearnedV>,
    i: int,
) -> VerdictV
    decreases steps.len() - i,
{
    if i < 0 || i >= steps.len() {
        let (qname, qtype) = question_of(answer);
        VerdictV { status: chain_status(answer, chain, qname, qtype, now), learned }
    } else {
        let k = if i < known.len() {
            Some(known[i])
        } else {
            None
        };
        match step_result(chain, steps[i], k, now) {
            StepV::Stop(status) => VerdictV { status, learned },
            StepV::Trust(keys, ttl) => walk_result(
                chain.push(ZoneKeysV { zone: steps[i].zone, absolute: true, keys }),
                steps,
                known,
                answer,
                now,
                match ttl {
                    Some(ttl) => learned.push(
                        LearnedV { zone: lower(steps[i].zone), keys, ttl },
                    ),
                    None => learned,
                },
                i + 1,
            ),
        }
    }
}

/// The keys under the zone's own entry of the chain.
pub open spec fn entry_keys(chain: Seq<ZoneKeysV>, zone: Labels) -> Seq<DnskeyV> {
    match entry_for(chain, zone, true, 0) {
        Some(i) => chain[i].keys,
        None => Seq::empty(),
    }
}

/// What is wrong with the freshly fetched keys of a zone that is trusted already.
pub open spec fn splice_error(
    chain: Seq<ZoneKeysV>,
    zone: Labels,
    known: ZoneDnskeysV,
    now: u32,
) -> Option<Seq<char>> {
    match known {
        ZoneDnskeysV::Cached(_) => None,
        ZoneDnskeysV::Fetched(answers) => {
            let f = keys_among(answers, zone);
            match f.sig {
                None => Some(name_text(zone) + " DNSKEY RRset came without an RRSIG"@),
                Some(sig) => match rrsig_in(sig) {
                    None => Some(name_text(zone) + " DNSKEY RRset came without an RRSIG"@),
                    Some(s) => if window_error(s, now) is Some {
                        Some(name_text(zone) + " DNSKEY RRSIG"@)
                    } else if some_key_verifies(f.records, sig, entry_keys(chain, zone)) {
                        None
                    } else {
                        Some(
                            name_text(zone)
                                + " DNSKEY RRSIG did not verify under any existing trusted key"@,
                        )
                    },
                },
            }
        },
        _ => Some("fetching "@ + name_text(zone) + " DNSKEY"@),
    }
}

/// The keys that replace those of a zone once they have passed.
pub open spec fn keys_of(known: ZoneDnskeysV, zone: Labels) -> Seq<DnskeyV> {
    match known {
        ZoneDnskeysV::Cached(k) => k,
        ZoneDnskeysV::Fetched(answers) => keys_among(answers, zone).keys,
        _ => Seq::empty(),
    }
}

/// What there is to keep of a zone's keys once they have passed.
pub open spec fn spliced_learned(zone: Labels, known: ZoneDnskeysV) -> Seq<LearnedV> {
    match known {
        ZoneDnskeysV::Fetched(answers) => {
            let f = keys_among(answers, zone);
            seq![LearnedV { zone: lower(zone), keys: f.keys, ttl: least_ttl(f.records) }]
        },
        _ => Seq::empty(),
    }
}

/// What the validation of an answer comes to. The trust anchors hold only key-signing
/// keys, so the root's other keys are learnt first; then each delegation is followed;
/// then the answer is checked.
pub open spec fn verdict(
    anchors: Seq<TrustAnchorV>,
    root: ZoneDnskeysV,
    steps: Seq<ChainStepV>,
    known: Seq<ZoneDnskeysV>,
    answer: MessageV,
    now: u32,
) -> VerdictV {
    let chain = seeded(anchors);
    let at: Labels = Seq::empty();
    if chain.len() == 0 {
        VerdictV { status: StatusV::Insecure, learned: Seq::empty() }
    } else {
        match splice_error(chain, at, root, now) {
            Some(e) => VerdictV {
                status: StatusV::Bogus("root DNSKEY bootstrap: "@ + e),
                learned: Seq::empty(),
            },
            None => walk_result(
                replaced(chain, at, keys_of(root, Seq::empty())),
                steps,
                known,
                answer,
                now,
                spliced_learned(at, root),
                0,
            ),
        }
    }
}

/// The outcome of a validation, with the keys it has established.
#[derive(Debug)]
pub struct Verdict {
    pub status: ValidationStatus,
    pub learned: Vec<Learned>,
}

impl View for Verdict {
    type V = VerdictV;

    open spec fn view(&self) -> VerdictV {
        VerdictV { status: self.status@, learned: learned_v(self.learned@) }
    }
}

fn check_ds(step: &ChainStep, parent: &Vec<Dnskey>, now: u32) -> (r: Result<(), String>)
    ensures
        ds_error(step@, dnskeys_v(parent@), now) == (match r {
            Ok(()) => None,
            Err(e) => Some(e@),
        }),
{
    let (rec, sig) = match find_covering(&step.ds_rrsig, TYPE_DS, None) {
        Some(p) => p,
        None => {
            return Err(join3("DS for ", step.zone.text().as_str(), " came without an RRSIG"));
        },
    };
    if let Err(e) = check_rrsig_validity(&sig, now) {
        return Err(join4("DS RRSIG for ", step.zone.text().as_str(), " invalid: ", e.as_str()));
    }
    if any_key_verifies(&step.ds, &rec, parent) {
        return Ok(());
    }
    let mut msg = join3(
        "DS RRSIG for ",
        step.zone.text().as_str(),
        " did not verify under parent keys (rrsig key_tag=",
    );
    push_dec(&mut msg, sig.key_tag as u64);
    push_text(&mut msg, ", parent key_tags=[");
    push_tags(&mut msg, parent);
    push_text(&mut msg, "])");
    Err(msg)
}

fn check_keyset(step: &ChainStep, f: &FetchedKeys, now: u32) -> (r: Result<(), String>)
    ensures
        keyset_error(step@, f@, now) == (match r {
            Ok(()) => None,
            Err(e) => Some(e@),
        }),
{
    assert(dnskeys_v(f.keys@).len() == f.keys@.len());
    if f.keys.len() == 0 {
        return Err(join2("no DNSKEY records returned for ", step.zone.text().as_str()));
    }
    let rec: &Record = match &f.sig {
        Some(s) => s,
        None => {
            return Err(join3("DNSKEY RRset for ", step.zone.text().as_str(), " unsigned"));
        },
    };
    let sig = match rec.rrsig() {
        Some(s) => s,
        None => {
            return Err(join3("DNSKEY RRset for ", step.zone.text().as_str(), " unsigned"));
        },
    };
    if let Err(e) = check_rrsig_validity(&sig, now) {
        return Err(
            join4("DNSKEY RRSIG for ", step.zone.text().as_str(), " invalid: ", e.as_str()),
        );
    }
    if !any_key_verifies(&f.records, rec, &f.keys) {
        return Err(
            join3("DNSKEY RRset for ", step.zone.text().as_str(), " is not self-signed"),
        );
    }
    if !any_ds_matches(&step.ds, &step.zone, &f.keys) {
        return Err(
            join3("no DNSKEY for ", step.zone.text().as_str(), " matches any DS from parent"),
        );
    }
    Ok(())
}

fn check_splice(chain: &Vec<ZoneKeys>, zone: &Name, known: &ZoneDnskeys, now: u32) -> (r: Result<
    (),
    String,
>)
    ensures
        splice_error(chain_v(chain@), zone@, known@, now) == (match r {
            Ok(()) => None,
            Err(e) => Some(e@),
        }),
{
    let f: FetchedKeys = match known {
        ZoneDnskeys::Cached(_) => {
            return Ok(());
        },
        ZoneDnskeys::Fetched(a) => extract_dnskeys(a, zone),
        _ => {
            return Err(join3("fetching ", zone.text().as_str(), " DNSKEY"));
        },
    };
    let rec: &Record = match &f.sig {
        Some(s) => s,
        None => {
            return Err(join2(zone.text().as_str(), " DNSKEY RRset came without an RRSIG"));
        },
    };
    let sig = match rec.rrsig() {
        Some(s) => s,
        None => {
            return Err(join2(zone.text().as_str(), " DNSKEY RRset came without an RRSIG"));
        },
    };
    if check_rrsig_validity(&sig, now).is_err() {
        return Err(join2(zone.text().as_str(), " DNSKEY RRSIG"));
    }
    let existing: Vec<Dnskey> = match find_entry(chain, zone, true) {
        Some(i) => {
            assert(chain_v(chain@)[i as int] == chain@[i as int]@);
            clone_keys(&chain[i].keys)
        },
        None => Vec::new(),
    };
    proof {
        if entry_for(chain_v(chain@), zone@, true, 0) is None {
            assert(dnskeys_v(existing@) =~= Seq::empty());
        }
    }
    if any_key_verifies(&f.records, rec, &existing) {
        Ok(())
    } else {
        Err(
            join2(
                zone.text().as_str(),
                " DNSKEY RRSIG did not verify under any existing trusted key",
            ),
        )
    }
}

/// What one step of a chain comes to.
enum StepResult {
    Stop(ValidationStatus),
    Trust(Vec<Dnskey>, Option<u64>),
}

impl View for StepResult {
    type V = StepV;

    closed spec fn view(&self) -> StepV {
        match self {
            StepResult::Stop(s) => StepV::Stop(s@),
            StepResult::Trust(k, t) => StepV::Trust(dnskeys_v(k@), *t),
        }
    }
}

fn take_step(
    chain: &Vec<ZoneKeys>,
    step: &ChainStep,
    known: Option<&ZoneDnskeys>,
    now: u32,
) -> (r: StepResult)
    ensures
        r@ == step_result(
            chain_v(chain@),
            step@,
            match known {
                Some(k) => Some(k@),
                None => None,
            },
            now,
        ),
{
    let parent = closest_trusted_keys(chain, &step.zone);
    assert(dnskeys_v(parent@).len() == parent@.len());
    assert(step@.ds.len() == step.ds@.len());
    if parent.len() == 0 || step.ds.len() == 0 {
        return StepResult::Stop(ValidationStatus::Insecure);
    }
    if let Err(e) = check_ds(step, &parent, now) {
        return StepResult::Stop(ValidationStatus::Bogus(e));
    }
    match known {
        Some(ZoneDnskeys::Cached(keys)) => {
            if any_ds_matches(&step.ds, &step.zone, keys) {
                StepResult::Trust(clone_keys(keys), None)
            } else {
                StepResult::Stop(ValidationStatus::Insecure)
            }
        },
        Some(ZoneDnskeys::Fetched(answers)) => {
            let f = extract_dnskeys(answers, &step.zone);
            match check_keyset(step, &f, now) {
                Err(e) => StepResult::Stop(ValidationStatus::Bogus(e)),
                Ok(()) => {
                    let ttl: u64 = min_record_ttl(&f.records);
                    StepResult::Trust(f.keys, Some(ttl))
                },
            }
        },
        _ => StepResult::Stop(ValidationStatus::Insecure),
    }
}

fn walk_steps(
    chain: Vec<ZoneKeys>,
    learned: Vec<Learned>,
    steps: &Vec<ChainStep>,
    known: &Vec<ZoneDnskeys>,
    answer: &Message,
    now: u32,
    i: usize,
) -> (r: Verdict)
    requires
        i <= steps@.len(),
    ensures
        r@ == walk_result(
            chain_v(chain@),
            steps_v(steps@),
            known_v(known@),
            answer@,
            now,
            learned_v(learned@),
            i as int,
        ),
    decreases steps@.len() - i,
{
    if i == steps.len() {
        let status = if answer.queries.len() > 0 {
            let q: &Query = &answer.queries[0];
            assert(answer@.queries[0] == q@);
            validate_answer_against_chain(answer, &chain, &q.name, q.qtype, now)
        } else {
            validate_answer_against_chain(answer, &chain, &Name::root(), TYPE_A, now)
        };
        return Verdict { status, learned };
    }
    let step: &ChainStep = &steps[i];
    assert(steps_v(steps@)[i as int] == step@);
    let k: Option<&ZoneDnskeys> = if i < known.len() {
        assert(known_v(known@)[i as int] == known@[i as int]@);
        Some(&known[i])
    } else {
        None
    };
    match take_step(&chain, step, k, now) {
        StepResult::Stop(status) => Verdict { status, learned },
        StepResult::Trust(keys, ttl) => {
            let ghost had = chain_v(chain@);
            let ghost had_learned = learned_v(learned@);
            let mut learned = learned;
            if let Some(ttl) = ttl {
                let l = Learned { zone: step.zone.to_lowercase(), keys: clone_keys(&keys), ttl };
                learned.push(l);
                assert(learned_v(learned@) =~= had_learned.push(l@));
            }
            let mut chain = chain;
            let e = ZoneKeys { zone: step.zone.clone(), absolute: true, keys };
            chain.push(e);
            assert(chain_v(chain@) =~= had.push(e@));
            walk_steps(chain, learned, steps, known, answer, now, i + 1)
        },
    }
}

/// Validate an answer along the delegations that led to it. `root` and `known` are what
/// is known of the DNSKEY sets of the root and of each step's zone; `now` is the time in
/// seconds since 1970. Kept keys that no DS record of their step matches are not trusted.
pub fn validate_walk(
    anchors: &TrustAnchors,
    root: &ZoneDnskeys,
    walk: &WalkChain,
    known: &Vec<ZoneDnskeys>,
    answer: &Message,
    now: u32,
) -> (r: Verdict)
    ensures
        r@ == verdict(
            anchors@,
            root@,
            steps_v(walk.steps@),
            known_v(known@),
            answer@,
            now,
        ),
{
    let chain = seed_chain(&anchors.keys);
    assert(chain_v(chain@).len() == chain@.len());
    let mut learned: Vec<Learned> = Vec::new();
    assert(learned_v(learned@) =~= Seq::empty());
    if chain.len() == 0 {
        return Verdict { status: ValidationStatus::Insecure, learned };
    }
    let at = Name::root();
    if let Err(e) = check_splice(&chain, &at, root, now) {
        return Verdict {
            status: ValidationStatus::Bogus(join2("root DNSKEY bootstrap: ", e.as_str())),
            learned,
        };
    }
    let keys: Vec<Dnskey> = match root {
        ZoneDnskeys::Cached(k) => clone_keys(k),
        ZoneDnskeys::Fetched(answers) => {
            let f = extract_dnskeys(answers, &at);
            let l = Learned {
                zone: at.to_lowercase(),
                keys: clone_keys(&f.keys),
                ttl: min_record_ttl(&f.records),
            };
            learned.push(l);
            assert(learned_v(learned@) =~= seq![l@]);
            f.keys
        },
        _ => Vec::new(),
    };
    let chain = replace_keys(chain, &at, keys);
    walk_steps(chain, learned, &walk.steps, known, answer, now, 0)
}

/// Whether the signature that covers the type of a set is in its window and was made with
/// a trusted key.
pub open spec fn signed_under(
    set: Seq<RecordV>,
    answers: Seq<RecordV>,
    chain: Seq<ZoneKeysV>,
    now: u32,
) -> bool {
    match covering(answers, set[0].rtype, None, 0) {
        None => false,
        Some(sig) => {
            let s = rrsig_in(sig)->0;
            &&& window_error(s, now) is None
            &&& some_key_verifies(set, sig, trusted_keys(chain, s.signer))
        },
    }
}

proof fn lemma_secure_sets(
    sets: Seq<Seq<RecordV>>,
    answers: Seq<RecordV>,
    chain: Seq<ZoneKeysV>,
    now: u32,
    i: int,
    j: int,
)
    requires
        0 <= i <= j < sets.len(),
        sets_status(sets, answers, chain, now, i) == StatusV::Secure,
    ensures
        signed_under(sets[j], answers, chain, now),
    decreases j - i,
{
    if i < j {
        lemma_secure_sets(sets, answers, chain, now, i + 1, j);
    }
}

/// A response with answers is secure only if each of its sets is signed, inside the
/// signature's window, with a key of the closest trusted zone.
pub proof fn law_secure_answers_are_signed(
    resp: MessageV,
    chain: Seq<ZoneKeysV>,
    qname: Labels,
    qtype: u16,
    now: u32,
    j: int,
)
    requires
        chain_status(resp, chain, qname, qtype, now) == StatusV::Secure,
        0 <= j < grouped(resp.answers, None).len(),
    ensures
        signed_under(grouped(resp.answers, None)[j], resp.answers, chain, now),
{
    lemma_secure_sets(grouped(resp.answers, None), resp.answers, chain, now, 0, j);
}

/// Without a trust anchor nothing is secure, and nothing is bogus.
pub proof fn law_no_anchor_no_verdict(
    root: ZoneDnskeysV,
    steps: Seq<ChainStepV>,
    known: Seq<ZoneDnskeysV>,
    answer: MessageV,
    now: u32,
)
    ensures
        verdict(Seq::empty(), root, steps, known, answer, now).status == StatusV::Insecure,
{
}

/// The chain of trust when step `j` is reached: each step before has added its zone's keys.
pub open spec fn chain_before(
    start: Seq<ZoneKeysV>,
    steps: Seq<ChainStepV>,
    known: Seq<ZoneDnskeysV>,
    j: int,
) -> Seq<ZoneKeysV>
    decreases j,
{
    if j <= 0 {
        start
    } else {
        chain_before(start, steps, known, j - 1).push(
            ZoneKeysV { zone: steps[j - 1].zone, absolute: true, keys: keys_of(known[j - 1], steps[j - 1].zone) },
        )
    }
}

/// The chain of trust when step `j` of a walk is reached: the anchors, with the root's keys
/// in place, and the keys of each zone above.
pub open spec fn trust_before(
    anchors: Seq<TrustAnchorV>,
    root: ZoneDnskeysV,
    steps: Seq<ChainStepV>,
    known: Seq<ZoneDnskeysV>,
    j: int,
) -> Seq<ZoneKeysV> {
    chain_before(replaced(seeded(anchors), Seq::empty(), keys_of(root, Seq::empty())), steps, known, j)
}

/// What the root must bring for what lies below to be secure: keys that were validated
/// before, or a fetched set with a signature inside its window that one of the root's trust
/// anchors made.
pub open spec fn root_signed(anchors: Seq<TrustAnchorV>, root: ZoneDnskeysV, now: u32) -> bool {
    let at: Labels = Seq::empty();
    match root {
        ZoneDnskeysV::Cached(_) => true,
        ZoneDnskeysV::Fetched(answers) => {
            let f = keys_among(answers, at);
            &&& f.sig is Some
            &&& window_error(rrsig_in(f.sig->0)->0, now) is None
            &&& some_key_verifies(f.records, f.sig->0, entry_keys(seeded(anchors), at))
        },
        _ => false,
    }
}

/// What a delegation must bring for what lies below to be secure: DS records, with a
/// signature inside its window that one of the parent's keys made, and keys of which one is
/// the key of such a DS record: kept ones, or a fetched set that is validly signed by one of
/// its own keys.
pub open spec fn delegation_signed(
    step: ChainStepV,
    parent: Seq<DnskeyV>,
    known: ZoneDnskeysV,
    now: u32,
) -> bool {
    &&& step.ds.len() > 0
    &&& covering(step.ds_rrsig, TYPE_DS, None, 0) is Some
    &&& window_error(rrsig_in(covering(step.ds_rrsig, TYPE_DS, None, 0)->0)->0, now) is None
    &&& some_key_verifies(step.ds, covering(step.ds_rrsig, TYPE_DS, None, 0)->0, parent)
    &&& match known {
        ZoneDnskeysV::Cached(keys) => ds_match(step.ds, step.zone, keys),
        ZoneDnskeysV::Fetched(answers) => keyset_error(
            step,
            keys_among(answers, step.zone),
            now,
        ) is None,
        _ => false,
    }
}

proof fn lemma_secure_walk(
    start: Seq<ZoneKeysV>,
    steps: Seq<ChainStepV>,
    known: Seq<ZoneDnskeysV>,
    answer: MessageV,
    now: u32,
    learned: Seq<LearnedV>,
    i: int,
    j: int,
)
    requires
        0 <= i <= steps.len(),
        walk_result(
            chain_before(start, steps, known, i),
            steps,
            known,
            answer,
            now,
            learned,
            i,
        ).status == StatusV::Secure,
    ensures
        i <= j < steps.len() ==> j < known.len() && delegation_signed(
            steps[j],
            trusted_keys(chain_before(start, steps, known, j), steps[j].zone),
            known[j],
            now,
        ),
        chain_status(
            answer,
            chain_before(start, steps, known, steps.len() as int),
            question_of(answer).0,
            question_of(answer).1,
            now,
        ) == StatusV::Secure,
    decreases steps.len() - i,
{
    if i < steps.len() {
        let chain = chain_before(start, steps, known, i);
        let k = if i < known.len() {
            Some(known[i])
        } else {
            None
        };
        match step_result(chain, steps[i], k, now) {
            StepV::Stop(_) => {},
            StepV::Trust(keys, ttl) => {
                let next = match ttl {
                    Some(ttl) => learned.push(LearnedV { zone: lower(steps[i].zone), keys, ttl }),
                    None => learned,
                };
                assert(keys == keys_of(known[i], steps[i].zone));
                assert(chain_before(start, steps, known, i + 1) == chain.push(
                    ZoneKeysV { zone: steps[i].zone, absolute: true, keys },
                ));
                lemma_secure_walk(start, steps, known, answer, now, next, i + 1, j);
            },
        }
    }
}

/// A walk is secure only if the root's keys are anchored and every delegation on it is
/// signed: one without DS records, without a valid signature over them by a key of the
/// closest trusted zone above, or with keys, kept or fetched, of which they match none ends
/// the trust. And the answer is then secure under the chain of trust that the delegations
/// make.
pub proof fn law_secure_walks_are_signed_throughout(
    anchors: Seq<TrustAnchorV>,
    root: ZoneDnskeysV,
    steps: Seq<ChainStepV>,
    known: Seq<ZoneDnskeysV>,
    answer: MessageV,
    now: u32,
    j: int,
)
    requires
        verdict(anchors, root, steps, known, answer, now).status == StatusV::Secure,
    ensures
        anchors.len() > 0,
        root_signed(anchors, root, now),
        0 <= j < steps.len() ==> j < known.len() && delegation_signed(
            steps[j],
            trusted_keys(trust_before(anchors, root, steps, known, j), steps[j].zone),
            known[j],
            now,
        ),
        chain_status(
            answer,
            trust_before(anchors, root, steps, known, steps.len() as int),
            question_of(answer).0,
            question_of(answer).1,
            now,
        ) == StatusV::Secure,
{
    let at: Labels = Seq::empty();
    lemma_secure_walk(
        replaced(seeded(anchors), at, keys_of(root, Seq::empty())),
        steps,
        known,
        answer,
        now,
        spliced_learned(at, root),
        0,
        j,
    );
}

/// The keys were fetched for step `j` of a walk, and found to be the zone's: the delegation
/// is signed, and the set passes every test.
pub open spec fn learned_at(
    start: Seq<ZoneKeysV>,
    steps: Seq<ChainStepV>,
    known: Seq<ZoneDnskeysV>,
    now: u32,
    l: LearnedV,
    j: int,
) -> bool {
    &&& 0 <= j < steps.len()
    &&& j < known.len()
    &&& delegation_signed(
        steps[j],
        trusted_keys(chain_before(start, steps, known, j), steps[j].zone),
        known[j],
        now,
    )
    &&& known[j] is Fetched
    &&& {
        let f = keys_among(known[j]->Fetched_0, steps[j].zone);
        l == LearnedV { zone: lower(steps[j].zone), keys: f.keys, ttl: least_ttl(f.records) }
    }
}

proof fn lemma_learned(
    start: Seq<ZoneKeysV>,
    steps: Seq<ChainStepV>,
    known: Seq<ZoneDnskeysV>,
    answer: MessageV,
    now: u32,
    learned: Seq<LearnedV>,
    i: int,
    q: int,
)
    requires
        0 <= i <= steps.len(),
    ensures
        ({
            let all = walk_result(
                chain_before(start, steps, known, i),
                steps,
                known,
                answer,
                now,
                learned,
                i,
            ).learned;
            0 <= q < all.len() ==> (q < learned.len() && all[q] == learned[q]) || exists|j: int| #[trigger]
                learned_at(start, steps, known, now, all[q], j)
        }),
    decreases steps.len() - i,
{
    if i < steps.len() {
        let chain = chain_before(start, steps, known, i);
        let k = if i < known.len() {
            Some(known[i])
        } else {
            None
        };
        match step_result(chain, steps[i], k, now) {
            StepV::Stop(_) => {},
            StepV::Trust(keys, ttl) => {
                let next = match ttl {
                    Some(ttl) => learned.push(LearnedV { zone: lower(steps[i].zone), keys, ttl }),
                    None => learned,
                };
                assert(keys == keys_of(known[i], steps[i].zone));
                assert(chain_before(start, steps, known, i + 1) == chain.push(
                    ZoneKeysV { zone: steps[i].zone, absolute: true, keys },
                ));
                lemma_learned(start, steps, known, answer, now, next, i + 1, q);
                if ttl is Some && q == learned.len() {
                    assert(learned_at(start, steps, known, now, next[q], i));
                }
            },
        }
    }
}

/// What a validation hands back to be kept has been validated: keys of the root, whose set a
/// trust anchor signed, or keys of a step's zone, with a signed delegation, one of them the
/// key of a DS record.
pub proof fn law_only_validated_keys_are_kept(
    anchors: Seq<TrustAnchorV>,
    root: ZoneDnskeysV,
    steps: Seq<ChainStepV>,
    known: Seq<ZoneDnskeysV>,
    answer: MessageV,
    now: u32,
    q: int,
)
    requires
        0 <= q < verdict(anchors, root, steps, known, answer, now).learned.len(),
    ensures
        ({
            let at: Labels = Seq::empty();
            let l = verdict(anchors, root, steps, known, answer, now).learned[q];
            ||| root is Fetched && root_signed(anchors, root, now) && spliced_learned(at, root)
                == seq![l]
            ||| exists|j: int| #[trigger]
                learned_at(
                    replaced(seeded(anchors), at, keys_of(root, at)),
                    steps,
                    known,
                    now,
                    l,
                    j,
                )
        }),
{
    let at: Labels = Seq::empty();
    lemma_learned(
        replaced(seeded(anchors), at, keys_of(root, at)),
        steps,
        known,
        answer,
        now,
        spliced_learned(at, root),
        0,
        q,
    );
}

/// The DNSKEY set taken from a reply is whole: every DNSKEY record of the zone, in order,
/// with the key that it holds, and the last signature over DNSKEY records of the zone.
pub proof fn law_fetched_set_is_whole(rs: Seq<RecordV>, zone: Labels)
    ensures
        ({
            let f = keys_among(rs, zone);
            let mine = |r: RecordV| same_name(r.name, zone) && dnskey_in(r) is Some;
            &&& f.records == rs.filter(mine)
            &&& f.keys == rs.filter(mine).map_values(|r: RecordV| dnskey_in(r)->0)
            &&& match f.sig {
                Some(sig) => exists|i: int|
                    {
                        &&& 0 <= i < rs.len()
                        &&& sig == #[trigger] rs[i]
                        &&& is_key_sig_of(rs[i], zone)
                        &&& forall|j: int| i < j < rs.len() ==> !is_key_sig_of(#[trigger] rs[j], zone)
                    },
                None => forall|j: int| 0 <= j < rs.len() ==> !is_key_sig_of(#[trigger] rs[j], zone),
            }
        }),
    decreases rs.len(),
{
    let mine = |r: RecordV| same_name(r.name, zone) && dnskey_in(r) is Some;
    let f = |r: RecordV| dnskey_in(r)->0;
    crate::lists::lemma_filter_last(rs, mine);
    if rs.len() == 0 {
        crate::lists::lemma_pick_none(rs, mine, f);
    } else {
        let before = rs.drop_last();
        let r = rs.last();
        law_fetched_set_is_whole(before, zone);
        crate::lists::lemma_pick_last(rs, mine, f);
        assert(rs[rs.len() - 1] == r);
        assert(forall|j: int| 0 <= j < before.len() ==> #[trigger] before[j] == rs[j]);
        assert(is_key_of(r, zone) ==> !is_key_sig_of(r, zone));
        if is_key_sig_of(r, zone) {
            assert(keys_among(rs, zone).sig == Some(rs[rs.len() - 1]));
        } else {
            match keys_among(before, zone).sig {
                Some(sig) => {
                    let i = choose|i: int|
                        {
                            &&& 0 <= i < before.len()
                            &&& sig == #[trigger] before[i]
                            &&& is_key_sig_of(before[i], zone)
                            &&& forall|j: int|
                                i < j < before.len() ==> !is_key_sig_of(#[trigger] before[j], zone)
                        };
                    assert(sig == rs[i]);
                    assert forall|j: int| i < j < rs.len() implies !is_key_sig_of(
                        #[trigger] rs[j],
                        zone,
                    ) by {
                        if j < before.len() {
                            assert(before[j] == rs[j]);
                        }
                    }
                },
                None => {
                    assert forall|j: int| 0 <= j < rs.len() implies !is_key_sig_of(
                        #[trigger] rs[j],
                        zone,
                    ) by {
                        if j < before.len() {
                            assert(before[j] == rs[j]);
                        }
                    }
                },
            }
        }
    }
}

/// A signature that any one of the keys made over the set, and that is in its window, give
/// or take five minutes.
pub open spec fn good_signature(
    set: Seq<RecordV>,
    sig: RecordV,
    keys: Seq<DnskeyV>,
    now: u32,
) -> bool {
    let s = rrsig_in(sig)->0;
    &&& s.inception <= s.expiration
    &&& s.inception <= now + 300
    &&& now <= s.expiration + 300
    &&& exists|i: int| 0 <= i < keys.len() && rrset_verifies(set, sig, #[trigger] keys[i])
}

/// Any one of the keys is one that any one of the DS records is the digest of.
pub open spec fn has_named_key(ds: Seq<RecordV>, zone: Labels, keys: Seq<DnskeyV>) -> bool {
    exists|i: int, j: int|
        0 <= i < keys.len() && 0 <= j < ds.len() && ds_covers(
            #[trigger] ds[j],
            zone,
            #[trigger] keys[i],
        )
}

/// A delegation in order: its DS set bears a good signature of one of the parent's keys, and
/// the zone's keys, which a DS record names one of, were kept, or were fetched as a set that
/// bears a good signature of one of them.
pub open spec fn good_delegation(
    step: ChainStepV,
    parent: Seq<DnskeyV>,
    known: ZoneDnskeysV,
    now: u32,
) -> bool {
    let sig = covering(step.ds_rrsig, TYPE_DS, None, 0);
    &&& step.ds.len() > 0
    &&& sig is Some
    &&& good_signature(step.ds, sig->0, parent, now)
    &&& match known {
        ZoneDnskeysV::Cached(keys) => has_named_key(step.ds, step.zone, keys),
        ZoneDnskeysV::Fetched(answers) => {
            let f = keys_among(answers, step.zone);
            &&& f.sig is Some
            &&& good_signature(f.records, f.sig->0, f.keys, now)
            &&& has_named_key(step.ds, step.zone, f.keys)
        },
        _ => false,
    }
}

/// The root's keys are in order: they were kept, or were fetched as a set that bears a good
/// signature of one of the root's trust anchors.
pub open spec fn good_root(anchors: Seq<TrustAnchorV>, root: ZoneDnskeysV, now: u32) -> bool {
    let at: Labels = Seq::empty();
    match root {
        ZoneDnskeysV::Cached(_) => true,
        ZoneDnskeysV::Fetched(answers) => {
            let f = keys_among(answers, at);
            &&& f.sig is Some
            &&& good_signature(
                f.records,
                f.sig->0,
                anchors.filter(
                    |a: TrustAnchorV| a.absolute && same_name(a.zone, at),
                ).map_values(|a: TrustAnchorV| a.key),
                now,
            )
        },
        _ => false,
    }
}

/// The first `j` delegations of a walk are in order, each under the trust that those before
/// it have made.
pub open spec fn good_until(
    anchors: Seq<TrustAnchorV>,
    root: ZoneDnskeysV,
    steps: Seq<ChainStepV>,
    known: Seq<ZoneDnskeysV>,
    now: u32,
    j: int,
) -> bool {
    &&& anchors.len() > 0
    &&& good_root(anchors, root, now)
    &&& 0 <= j <= steps.len()
    &&& j <= known.len()
    &&& forall|i: int|
        0 <= i < j ==> good_delegation(
            #[trigger] steps[i],
            trusted_keys(trust_before(anchors, root, steps, known, i), steps[i].zone),
            known[i],
            now,
        )
}

/// A set of answers that bears a good signature of one of the keys trusted for its signer.
pub open spec fn good_set(
    set: Seq<RecordV>,
    answers: Seq<RecordV>,
    chain: Seq<ZoneKeysV>,
    now: u32,
) -> bool {
    let sig = covering(answers, set[0].rtype, None, 0);
    &&& sig is Some
    &&& good_signature(set, sig->0, trusted_keys(chain, rrsig_in(sig->0)->0.signer), now)
}

proof fn lemma_good_step(
    chain: Seq<ZoneKeysV>,
    step: ChainStepV,
    known: ZoneDnskeysV,
    now: u32,
)
    requires
        good_delegation(step, trusted_keys(chain, step.zone), known, now),
    ensures
        match step_result(chain, step, Some(known), now) {
            StepV::Trust(keys, _) => keys == keys_of(known, step.zone),
            StepV::Stop(_) => false,
        },
{
    let parent = trusted_keys(chain, step.zone);
    let sig = covering(step.ds_rrsig, TYPE_DS, None, 0)->0;
    law_any_one_key_suffices(step.ds, sig, parent);
    law_signature_window(rrsig_in(sig)->0, now);
    if let ZoneDnskeysV::Fetched(answers) = known {
        let f = keys_among(answers, step.zone);
        law_any_one_key_suffices(f.records, f.sig->0, f.keys);
        law_signature_window(rrsig_in(f.sig->0)->0, now);
        law_fetched_keys_are_those_of_the_set(answers, step.zone);
    }
}

proof fn lemma_reaches(
    start: Seq<ZoneKeysV>,
    steps: Seq<ChainStepV>,
    known: Seq<ZoneDnskeysV>,
    answer: MessageV,
    now: u32,
    learned: Seq<LearnedV>,
    i: int,
    j: int,
) -> (more: Seq<LearnedV>)
    requires
        0 <= i <= j <= steps.len(),
        j <= known.len(),
        forall|k: int|
            i <= k < j ==> good_delegation(
                #[trigger] steps[k],
                trusted_keys(chain_before(start, steps, known, k), steps[k].zone),
                known[k],
                now,
            ),
    ensures
        walk_result(chain_before(start, steps, known, i), steps, known, answer, now, learned, i)
            == walk_result(
            chain_before(start, steps, known, j),
            steps,
            known,
            answer,
            now,
            more,
            j,
        ),
    decreases j - i,
{
    let chain = chain_before(start, steps, known, i);
    if i < j {
        lemma_good_step(chain, steps[i], known[i], now);
        match step_result(chain, steps[i], Some(known[i]), now) {
            StepV::Trust(keys, ttl) => {
                let next = match ttl {
                    Some(ttl) => learned.push(LearnedV { zone: lower(steps[i].zone), keys, ttl }),
                    None => learned,
                };
                assert(chain_before(start, steps, known, i + 1) == chain.push(
                    ZoneKeysV { zone: steps[i].zone, absolute: true, keys },
                ));
                lemma_reaches(start, steps, known, answer, now, next, i + 1, j)
            },
            StepV::Stop(_) => learned,
        }
    } else {
        learned
    }
}

proof fn lemma_good_root(anchors: Seq<TrustAnchorV>, root: ZoneDnskeysV, now: u32)
    requires
        anchors.len() > 0,
        good_root(anchors, root, now),
    ensures
        seeded(anchors).len() > 0,
        splice_error(seeded(anchors), Seq::empty(), root, now) is None,
{
    let at: Labels = Seq::empty();
    law_every_anchor_is_seeded(anchors, at);
    if let ZoneDnskeysV::Fetched(answers) = root {
        let f = keys_among(answers, at);
        law_any_one_key_suffices(f.records, f.sig->0, entry_keys(seeded(anchors), at));
        law_signature_window(rrsig_in(f.sig->0)->0, now);
        law_fetched_keys_are_those_of_the_set(answers, at);
    }
}

proof fn lemma_good_until(
    anchors: Seq<TrustAnchorV>,
    root: ZoneDnskeysV,
    steps: Seq<ChainStepV>,
    known: Seq<ZoneDnskeysV>,
    answer: MessageV,
    now: u32,
    j: int,
) -> (more: Seq<LearnedV>)
    requires
        good_until(anchors, root, steps, known, now, j),
    ensures
        verdict(anchors, root, steps, known, answer, now) == walk_result(
            trust_before(anchors, root, steps, known, j),
            steps,
            known,
            answer,
            now,
            more,
            j,
        ),
{
    let at: Labels = Seq::empty();
    lemma_good_root(anchors, root, now);
    let start = replaced(seeded(anchors), at, keys_of(root, at));
    let learned = spliced_learned(at, root);
    assert(chain_before(start, steps, known, 0) == start);
    assert(verdict(anchors, root, steps, known, answer, now) == walk_result(
        start,
        steps,
        known,
        answer,
        now,
        learned,
        0,
    ));
    assert forall|k: int| 0 <= k < j implies good_delegation(
        #[trigger] steps[k],
        trusted_keys(chain_before(start, steps, known, k), steps[k].zone),
        known[k],
        now,
    ) by {}
    lemma_reaches(start, steps, known, answer, now, learned, 0, j)
}

proof fn lemma_good_sets(
    sets: Seq<Seq<RecordV>>,
    answers: Seq<RecordV>,
    chain: Seq<ZoneKeysV>,
    now: u32,
    i: int,
    j: int,
)
    requires
        0 <= i <= j <= sets.len(),
        forall|k: int| i <= k < j ==> good_set(#[trigger] sets[k], answers, chain, now),
    ensures
        sets_status(sets, answers, chain, now, i) == sets_status(sets, answers, chain, now, j),
    decreases j - i,
{
    if i < j {
        let sig = covering(answers, sets[i][0].rtype, None, 0)->0;
        law_any_one_key_suffices(
            sets[i],
            sig,
            trusted_keys(chain, rrsig_in(sig)->0.signer),
        );
        law_signature_window(rrsig_in(sig)->0, now);
        lemma_good_sets(sets, answers, chain, now, i + 1, j);
    }
}

/// A walk in order is secure: where the root's keys are anchored, every delegation is in
/// order and every set of answers bears a good signature of some trusted key, nothing else is
/// asked for.
#[verifier::spinoff_prover]
#[verifier::rlimit(40)]
pub proof fn law_walks_in_order_are_secure(
    anchors: Seq<TrustAnchorV>,
    root: ZoneDnskeysV,
    steps: Seq<ChainStepV>,
    known: Seq<ZoneDnskeysV>,
    answer: MessageV,
    now: u32,
)
    requires
        good_until(anchors, root, steps, known, now, steps.len() as int),
        grouped(answer.answers, None).len() > 0,
        forall|k: int|
            0 <= k < grouped(answer.answers, None).len() ==> good_set(
                #[trigger] grouped(answer.answers, None)[k],
                answer.answers,
                trust_before(anchors, root, steps, known, steps.len() as int),
                now,
            ),
    ensures
        verdict(anchors, root, steps, known, answer, now).status == StatusV::Secure,
{
    let _more = lemma_good_until(anchors, root, steps, known, answer, now, steps.len() as int);
    let sets = grouped(answer.answers, None);
    let chain = trust_before(anchors, root, steps, known, steps.len() as int);
    lemma_good_sets(sets, answer.answers, chain, now, 0, sets.len() as int);
}

/// Where the delegations are in order up to one without DS records, the walk is insecure,
/// whatever the answer.
#[verifier::spinoff_prover]
#[verifier::rlimit(40)]
pub proof fn law_unsigned_delegations_are_insecure(
    anchors: Seq<TrustAnchorV>,
    root: ZoneDnskeysV,
    steps: Seq<ChainStepV>,
    known: Seq<ZoneDnskeysV>,
    answer: MessageV,
    now: u32,
    j: int,
)
    requires
        good_until(anchors, root, steps, known, now, j),
        j < steps.len(),
        steps[j].ds.len() == 0,
    ensures
        verdict(anchors, root, steps, known, answer, now).status == StatusV::Insecure,
{
    let _more = lemma_good_until(anchors, root, steps, known, answer, now, j);
}

/// Where the delegations are in order up to one whose DS set bears no good signature of the
/// parent's keys, the walk is bogus, whatever the answer.
#[verifier::spinoff_prover]
#[verifier::rlimit(40)]
pub proof fn law_badly_signed_delegations_are_bogus(
    anchors: Seq<TrustAnchorV>,
    root: ZoneDnskeysV,
    steps: Seq<ChainStepV>,
    known: Seq<ZoneDnskeysV>,
    answer: MessageV,
    now: u32,
    j: int,
)
    requires
        good_until(anchors, root, steps, known, now, j),
        j < steps.len(),
        steps[j].ds.len() > 0,
        trusted_keys(trust_before(anchors, root, steps, known, j), steps[j].zone).len() > 0,
        covering(steps[j].ds_rrsig, TYPE_DS, None, 0) is Some ==> !good_signature(
            steps[j].ds,
            covering(steps[j].ds_rrsig, TYPE_DS, None, 0)->0,
            trusted_keys(trust_before(anchors, root, steps, known, j), steps[j].zone),
            now,
        ),
    ensures
        verdict(anchors, root, steps, known, answer, now).status is Bogus,
{
    let _more = lemma_good_until(anchors, root, steps, known, answer, now, j);
    if let Some(sig) = covering(steps[j].ds_rrsig, TYPE_DS, None, 0) {
        law_signature_window(rrsig_in(sig)->0, now);
        law_any_one_key_suffices(
            steps[j].ds,
            sig,
            trusted_keys(trust_before(anchors, root, steps, known, j), steps[j].zone),
        );
    }
}

/// Where all delegations are in order, the first set of answers that is not signed makes the
/// answer insecure, and the first that is signed, for a signer that is trusted, without a
/// good signature makes it bogus.
#[verifier::spinoff_prover]
#[verifier::rlimit(40)]
pub proof fn law_first_bad_set_decides(
    anchors: Seq<TrustAnchorV>,
    root: ZoneDnskeysV,
    steps: Seq<ChainStepV>,
    known: Seq<ZoneDnskeysV>,
    answer: MessageV,
    now: u32,
    k: int,
)
    requires
        good_until(anchors, root, steps, known, now, steps.len() as int),
        0 <= k < grouped(answer.answers, None).len(),
        forall|i: int|
            0 <= i < k ==> good_set(
                #[trigger] grouped(answer.answers, None)[i],
                answer.answers,
                trust_before(anchors, root, steps, known, steps.len() as int),
                now,
            ),
    ensures
        ({
            let chain = trust_before(anchors, root, steps, known, steps.len() as int);
            let set = grouped(answer.answers, None)[k];
            let status = verdict(anchors, root, steps, known, answer, now).status;
            match covering(answer.answers, set[0].rtype, None, 0) {
                None => status == StatusV::Insecure,
                Some(sig) => trusted_keys(chain, rrsig_in(sig)->0.signer).len() > 0
                    && !good_set(set, answer.answers, chain, now) ==> status is Bogus,
            }
        }),
{
    let _more = lemma_good_until(anchors, root, steps, known, answer, now, steps.len() as int);
    let sets = grouped(answer.answers, None);
    let chain = trust_before(anchors, root, steps, known, steps.len() as int);
    lemma_good_sets(sets, answer.answers, chain, now, 0, k);
    if let Some(sig) = covering(answer.answers, sets[k][0].rtype, None, 0) {
        law_signature_window(rrsig_in(sig)->0, now);
        law_any_one_key_suffices(sets[k], sig, trusted_keys(chain, rrsig_in(sig)->0.signer));
    }
}

/// Without a chain, an answer is secure where every one of its sets is verified by some
/// anchor of the signer, and bogus where one that has anchors is verified by none of them.
pub proof fn law_anchored_answers(resp: MessageV, anchors: Seq<TrustAnchorV>)
    ensures
        ({
            let sets = grouped(resp.answers, None);
            let anchored = |k: int|
                {
                    let sig = covering(resp.answers, sets[k][0].rtype, None, 0);
                    sig is Some && keys_for(anchors, rrsig_in(sig->0)->0.signer).len() > 0
                };
            let verified = |k: int|
                {
                    let sig = covering(resp.answers, sets[k][0].rtype, None, 0)->0;
                    let keys = keys_for(anchors, rrsig_in(sig)->0.signer);
                    exists|i: int|
                        0 <= i < keys.len() && rrset_verifies(sets[k], sig, #[trigger] keys[i])
                };
            let status = response_status(resp, anchors);
            &&& status == StatusV::Secure <==> sets.len() > 0 && forall|k: int|
                0 <= k < sets.len() ==> #[trigger] anchored(k) && verified(k)
            &&& status is Bogus <==> exists|k: int|
                0 <= k < sets.len() && #[trigger] anchored(k) && !verified(k)
        }),
{
    lemma_anchored(grouped(resp.answers, None), resp.answers, anchors, true, 0);
}

proof fn lemma_anchored(
    sets: Seq<Seq<RecordV>>,
    answers: Seq<RecordV>,
    anchors: Seq<TrustAnchorV>,
    so_far: bool,
    from: int,
)
    requires
        0 <= from <= sets.len(),
    ensures
        ({
            let anchored = |k: int|
                {
                    let sig = covering(answers, sets[k][0].rtype, None, 0);
                    sig is Some && keys_for(anchors, rrsig_in(sig->0)->0.signer).len() > 0
                };
            let verified = |k: int|
                {
                    let sig = covering(answers, sets[k][0].rtype, None, 0)->0;
                    let keys = keys_for(anchors, rrsig_in(sig)->0.signer);
                    exists|i: int|
                        0 <= i < keys.len() && rrset_verifies(sets[k], sig, #[trigger] keys[i])
                };
            let status = anchored_status(sets, answers, anchors, so_far, from);
            &&& status == StatusV::Secure <==> so_far && sets.len() > 0 && forall|k: int|
                from <= k < sets.len() ==> #[trigger] anchored(k) && verified(k)
            &&& status is Bogus <==> exists|k: int|
                from <= k < sets.len() && #[trigger] anchored(k) && !verified(k)
        }),
    decreases sets.len() - from,
{
    let anchored = |k: int|
        {
            let sig = covering(answers, sets[k][0].rtype, None, 0);
            sig is Some && keys_for(anchors, rrsig_in(sig->0)->0.signer).len() > 0
        };
    let verified = |k: int|
        {
            let sig = covering(answers, sets[k][0].rtype, None, 0)->0;
            let keys = keys_for(anchors, rrsig_in(sig)->0.signer);
            exists|i: int| 0 <= i < keys.len() && rrset_verifies(sets[k], sig, #[trigger] keys[i])
        };
    if from < sets.len() {
        assert(anchored(from) == (anchored_signature(sets[from], answers, anchors) is Some));
        if anchored(from) {
            let sig = covering(answers, sets[from][0].rtype, None, 0)->0;
            law_any_one_key_suffices(
                sets[from],
                sig,
                keys_for(anchors, rrsig_in(sig)->0.signer),
            );
            lemma_anchored(sets, answers, anchors, so_far, from + 1);
            assert(verified(from) == some_key_verifies(
                sets[from],
                sig,
                keys_for(anchors, rrsig_in(sig)->0.signer),
            ));
        } else {
            lemma_anchored(sets, answers, anchors, false, from + 1);
        }
    }
}

/// The time that keys may be kept is the shortest that any of their records allows, and is
/// one that some record gives.
pub proof fn law_keys_are_kept_for_the_shortest_ttl(rs: Seq<RecordV>)
    requires
        rs.len() > 0,
    ensures
        forall|i: int| 0 <= i < rs.len() ==> least_ttl(rs) <= (#[trigger] rs[i]).ttl,
        exists|i: int| 0 <= i < rs.len() && least_ttl(rs) == (#[trigger] rs[i]).ttl,
    decreases rs.len(),
{
    if rs.len() == 1 {
        assert(least_ttl(rs) == rs[0].ttl);
    } else {
        let rest = rs.drop_last();
        law_keys_are_kept_for_the_shortest_ttl(rest);
        assert(forall|i: int| 0 <= i < rest.len() ==> #[trigger] rest[i] == rs[i]);
        assert(rs[rs.len() - 1] == rs.last());
        let i = choose|i: int| 0 <= i < rest.len() && least_ttl(rest) == (#[trigger] rest[i]).ttl;
        assert(rs[i].ttl == least_ttl(rest));
        assert forall|k: int| 0 <= k < rs.len() implies least_ttl(rs) <= (#[trigger] rs[k]).ttl by {
            if k < rest.len() {
                assert(rest[k] == rs[k]);
            }
        }
        if least_ttl(rest) <= rs.last().ttl {
            assert(least_ttl(rs) == rs[i].ttl);
        } else {
            assert(least_ttl(rs) == rs[rs.len() - 1].ttl);
        }
    }
}

/// Where the delegations are in order up to one whose DS set is well signed: if the zone's
/// keys are out of reach, or kept ones match no DS record, the walk is insecure; if they were
/// fetched, and bear no good signature of their own or match no DS record, it is bogus.
#[verifier::spinoff_prover]
#[verifier::rlimit(40)]
pub proof fn law_keys_of_a_zone_decide(
    anchors: Seq<TrustAnchorV>,
    root: ZoneDnskeysV,
    steps: Seq<ChainStepV>,
    known: Seq<ZoneDnskeysV>,
    answer: MessageV,
    now: u32,
    j: int,
)
    requires
        good_until(anchors, root, steps, known, now, j),
        j < steps.len(),
        j < known.len(),
        steps[j].ds.len() > 0,
        covering(steps[j].ds_rrsig, TYPE_DS, None, 0) is Some,
        good_signature(
            steps[j].ds,
            covering(steps[j].ds_rrsig, TYPE_DS, None, 0)->0,
            trusted_keys(trust_before(anchors, root, steps, known, j), steps[j].zone),
            now,
        ),
    ensures
        ({
            let status = verdict(anchors, root, steps, known, answer, now).status;
            match known[j] {
                ZoneDnskeysV::Unreachable | ZoneDnskeysV::Failed => status == StatusV::Insecure,
                ZoneDnskeysV::Cached(keys) => !has_named_key(steps[j].ds, steps[j].zone, keys)
                    ==> status == StatusV::Insecure,
                ZoneDnskeysV::Fetched(answers) => {
                    let f = keys_among(answers, steps[j].zone);
                    f.sig is None || !good_signature(f.records, f.sig->0, f.keys, now)
                        || !has_named_key(steps[j].ds, steps[j].zone, f.keys) ==> status is Bogus
                },
            }
        }),
{
    let _more = lemma_good_until(anchors, root, steps, known, answer, now, j);
    let parent = trusted_keys(trust_before(anchors, root, steps, known, j), steps[j].zone);
    let sig = covering(steps[j].ds_rrsig, TYPE_DS, None, 0)->0;
    law_any_one_key_suffices(steps[j].ds, sig, parent);
    law_signature_window(rrsig_in(sig)->0, now);
    if let ZoneDnskeysV::Fetched(answers) = known[j] {
        let f = keys_among(answers, steps[j].zone);
        law_fetched_keys_are_those_of_the_set(answers, steps[j].zone);
        if f.sig is Some {
            law_any_one_key_suffices(f.records, f.sig->0, f.keys);
            law_signature_window(rrsig_in(f.sig->0)->0, now);
        }
    }
}

/// Where there are anchors, but the root's keys were not to be had, or bear no good signature
/// of one of them, every walk is bogus.
pub proof fn law_unanchored_roots_are_bogus(
    anchors: Seq<TrustAnchorV>,
    root: ZoneDnskeysV,
    steps: Seq<ChainStepV>,
    known: Seq<ZoneDnskeysV>,
    answer: MessageV,
    now: u32,
)
    requires
        anchors.len() > 0,
        !good_root(anchors, root, now),
    ensures
        verdict(anchors, root, steps, known, answer, now).status is Bogus,
{
    let at: Labels = Seq::empty();
    law_every_anchor_is_seeded(anchors, at);
    assert(splice_error(seeded(anchors), at, root, now) is Some) by {
        if let ZoneDnskeysV::Fetched(answers) = root {
            let f = keys_among(answers, at);
            if f.sig is Some {
                law_any_one_key_suffices(f.records, f.sig->0, entry_keys(seeded(anchors), at));
                law_signature_window(rrsig_in(f.sig->0)->0, now);
            }
        }
    }
}

proof fn lemma_hands_back(
    start: Seq<ZoneKeysV>,
    steps: Seq<ChainStepV>,
    known: Seq<ZoneDnskeysV>,
    answer: MessageV,
    now: u32,
    learned: Seq<LearnedV>,
    i: int,
    l: LearnedV,
)
    requires
        0 <= i <= steps.len(),
        steps.len() <= known.len(),
        forall|k: int|
            i <= k < steps.len() ==> good_delegation(
                #[trigger] steps[k],
                trusted_keys(chain_before(start, steps, known, k), steps[k].zone),
                known[k],
                now,
            ),
        learned.contains(l) || exists|k: int|
            i <= k < steps.len() && #[trigger] handed_back(steps[k], known[k], l),
    ensures
        walk_result(
            chain_before(start, steps, known, i),
            steps,
            known,
            answer,
            now,
            learned,
            i,
        ).learned.contains(l),
    decreases steps.len() - i,
{
    let chain = chain_before(start, steps, known, i);
    if i < steps.len() {
        lemma_good_step(chain, steps[i], known[i], now);
        match step_result(chain, steps[i], Some(known[i]), now) {
            StepV::Trust(keys, ttl) => {
                let next = match ttl {
                    Some(ttl) => learned.push(LearnedV { zone: lower(steps[i].zone), keys, ttl }),
                    None => learned,
                };
                assert(chain_before(start, steps, known, i + 1) == chain.push(
                    ZoneKeysV { zone: steps[i].zone, absolute: true, keys },
                ));
                if learned.contains(l) {
                    let q = choose|q: int| 0 <= q < learned.len() && learned[q] == l;
                    assert(next[q] == l);
                } else {
                    let k = choose|k: int|
                        i <= k < steps.len() && #[trigger] handed_back(steps[k], known[k], l);
                    if k == i {
                        assert(next[learned.len() as int] == l);
                    } else {
                        assert(handed_back(steps[k], known[k], l));
                    }
                }
                lemma_hands_back(start, steps, known, answer, now, next, i + 1, l);
            },
            StepV::Stop(_) => {},
        }
    }
}

/// What is to be kept of the keys fetched for a step: all of them, under the zone's name in
/// lower case, for as long as their records allow.
pub open spec fn handed_back(step: ChainStepV, known: ZoneDnskeysV, l: LearnedV) -> bool {
    &&& known is Fetched
    &&& {
        let f = keys_among(known->Fetched_0, step.zone);
        &&& l.zone == lower(step.zone)
        &&& l.keys == f.keys
        &&& l.ttl == least_ttl(f.records)
    }
}

/// A walk in order hands back every set of keys that was fetched for it, to be kept.
pub proof fn law_validated_keys_are_handed_back(
    anchors: Seq<TrustAnchorV>,
    root: ZoneDnskeysV,
    steps: Seq<ChainStepV>,
    known: Seq<ZoneDnskeysV>,
    answer: MessageV,
    now: u32,
    k: int,
    l: LearnedV,
)
    requires
        good_until(anchors, root, steps, known, now, steps.len() as int),
        0 <= k < steps.len(),
        handed_back(steps[k], known[k], l),
    ensures
        verdict(anchors, root, steps, known, answer, now).learned.contains(l),
{
    let at: Labels = Seq::empty();
    lemma_good_root(anchors, root, now);
    let start = replaced(seeded(anchors), at, keys_of(root, at));
    assert(chain_before(start, steps, known, 0) == start);
    assert forall|i: int| 0 <= i < steps.len() implies good_delegation(
        #[trigger] steps[i],
        trusted_keys(chain_before(start, steps, known, i), steps[i].zone),
        known[i],
        now,
    ) by {}
    lemma_hands_back(start, steps, known, answer, now, spliced_learned(at, root), 0, l);
}

/// A response without answers is judged by its denial.
pub proof fn law_empty_answers_are_denials(
    resp: MessageV,
    chain: Seq<ZoneKeysV>,
    qname: Labels,
    qtype: u16,
    now: u32,
)
    requires
        grouped(resp.answers, None).len() == 0,
    ensures
        chain_status(resp, chain, qname, qtype, now) == denial_status(
            resp,
            chain,
            qname,
            qtype,
            now,
        ),
{
}

} // verus!
