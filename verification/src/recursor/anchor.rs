//! DNSSEC trust-anchor lifecycle (RFC 5011): which key-signing keys are trusted, which
//! wait out their hold-down, and which are revoked.

use crate::bytes::{be16_bytes, bytes_eq, copy_bytes, push_all, push_be16};
use crate::names::{
    base64_decode, base64_decoded, base64_encode, base64_encoded, standard_base64,
};
use crate::text::{dec, push_dec, push_text};
use vstd::prelude::*;
use vstd::utf8::encode_utf8;

verus! {

/// Hold-down before a newly seen key is trusted: 30 days, in seconds.
pub const DEFAULT_HOLD_DOWN: u64 = 2_592_000;

/// How often the anchors are refreshed, in seconds.
pub const DEFAULT_REFRESH_INTERVAL: u64 = 3_600;

/// TTL written into the anchor file, in seconds.
pub const DEFAULT_ANCHOR_TTL: u32 = 172_800;

/// DNSKEY flag bits.
pub const FLAG_ZONE: u16 = 0x0100;

pub const FLAG_REVOKE: u16 = 0x0080;

pub const FLAG_SEP: u16 = 0x0001;

/// A DNSKEY: its flags, algorithm number and public key.
#[derive(Debug)]
pub struct Dnskey {
    pub flags: u16,
    pub algorithm: u8,
    pub public_key: Vec<u8>,
}

/// The value of a [`Dnskey`].
#[verifier::ext_equal]
pub ghost struct DnskeyV {
    pub flags: u16,
    pub algorithm: u8,
    pub public_key: Seq<u8>,
}

impl View for Dnskey {
    type V = DnskeyV;

    open spec fn view(&self) -> DnskeyV {
        DnskeyV {
            flags: self.flags,
            algorithm: self.algorithm,
            public_key: self.public_key@,
        }
    }
}

impl Clone for Dnskey {
    fn clone(&self) -> (r: Dnskey)
        ensures
            r@ == self@,
    {
        Dnskey {
            flags: self.flags,
            algorithm: self.algorithm,
            public_key: copy_bytes(self.public_key.as_slice()),
        }
    }
}

/// Wire form of a DNSKEY's RDATA; the protocol field is always 3.
pub open spec fn dnskey_rdata(k: DnskeyV) -> Seq<u8> {
    be16_bytes(k.flags) + seq![3u8, k.algorithm] + k.public_key
}

/// The sum over which a key tag is taken (RFC 4034, appendix B): even bytes weigh 256.
pub open spec fn tag_sum(b: Seq<u8>) -> nat
    decreases b.len(),
{
    if b.len() == 0 {
        0
    } else {
        tag_sum(b.drop_last()) + (if b.len() % 2 == 1 {
            b.last() as nat * 256
        } else {
            b.last() as nat
        })
    }
}

/// The key tag of a DNSKEY whose RDATA is `b`.
pub open spec fn tag_of(b: Seq<u8>) -> u16 {
    ((tag_sum(b) + tag_sum(b) / 0x1_0000) % 0x1_0000) as u16
}

/// The key tag of a DNSKEY; a key too long for a record has none.
pub open spec fn key_tag(k: DnskeyV) -> Option<u16> {
    if k.public_key.len() + 4 <= 0xffff {
        Some(tag_of(dnskey_rdata(k)))
    } else {
        None
    }
}

impl Dnskey {
    /// Whether the zone-key bit is set.
    pub fn zone_key(&self) -> (r: bool)
        ensures
            r == (self.flags & FLAG_ZONE != 0),
    {
        self.flags & FLAG_ZONE != 0
    }

    /// Whether the secure-entry-point bit is set.
    pub fn secure_entry_point(&self) -> (r: bool)
        ensures
            r == (self.flags & FLAG_SEP != 0),
    {
        self.flags & FLAG_SEP != 0
    }

    /// Whether the key is revoked.
    pub fn revoke(&self) -> (r: bool)
        ensures
            r == (self.flags & FLAG_REVOKE != 0),
    {
        self.flags & FLAG_REVOKE != 0
    }

    /// The RDATA of the key.
    pub fn rdata(&self) -> (r: Vec<u8>)
        ensures
            r@ == dnskey_rdata(self@),
    {
        let mut out: Vec<u8> = Vec::new();
        push_be16(&mut out, self.flags);
        out.push(3);
        out.push(self.algorithm);
        push_all(&mut out, self.public_key.as_slice());
        assert(out@ =~= dnskey_rdata(self@));
        out
    }

    /// The key tag.
    pub fn calculate_key_tag(&self) -> (r: Option<u16>)
        ensures
            r == key_tag(self@),
    {
        if self.public_key.len() > 0xffff - 4 {
            return None;
        }
        let b = self.rdata();
        let mut ac: u32 = 0;
        let mut i: usize = 0;
        assert(b@.subrange(0, 0) =~= Seq::<u8>::empty());
        while i < b.len()
            invariant
                i <= b@.len() <= 0xffff,
                ac == tag_sum(b@.subrange(0, i as int)),
                ac <= i * 0xff00,
            decreases b@.len() - i,
        {
            proof {
                let next = b@.subrange(0, i + 1);
                assert(next.drop_last() =~= b@.subrange(0, i as int));
                assert(i * 0xff00 <= 0xffff * 0xff00) by (nonlinear_arith)
                    requires
                        i <= 0xffff,
                ;
            }
            if i % 2 == 0 {
                ac = ac + b[i] as u32 * 256;
            } else {
                ac = ac + b[i] as u32;
            }
            i += 1;
        }
        assert(b@.subrange(0, b@.len() as int) =~= b@);
        assert(ac <= 0xffff * 0xff00) by (nonlinear_arith)
            requires
                ac <= i * 0xff00,
                i <= 0xffff,
        ;
        Some(((ac + ac / 0x1_0000) % 0x1_0000) as u16)
    }
}

/// Where a managed key stands in its life.
#[derive(Debug, Clone, Copy, PartialEq, Eq, Structural)]
pub enum KeyStatus {
    Active,
    PendingAdd { added_at: u64 },
    Revoked { revoked_at: u64 },
}

/// One trust anchor under management; the key is kept in base 64.
#[derive(Debug)]
pub struct ManagedKey {
    pub zone: String,
    pub key_tag: u16,
    pub algorithm: u8,
    pub flags: u16,
    pub public_key: String,
    pub status: KeyStatus,
}

/// The state kept across restarts.
#[derive(Debug)]
pub struct StateFile {
    pub version: u32,
    pub last_refresh: u64,
    pub keys: Vec<ManagedKey>,
}

/// The value of a [`ManagedKey`].
#[verifier::ext_equal]
pub ghost struct ManagedKeyV {
    pub zone: Seq<char>,
    pub key_tag: u16,
    pub algorithm: u8,
    pub flags: u16,
    pub public_key: Seq<char>,
    pub status: KeyStatus,
}

impl View for ManagedKey {
    type V = ManagedKeyV;

    open spec fn view(&self) -> ManagedKeyV {
        ManagedKeyV {
            zone: self.zone@,
            key_tag: self.key_tag,
            algorithm: self.algorithm,
            flags: self.flags,
            public_key: self.public_key@,
            status: self.status,
        }
    }
}

impl Clone for ManagedKey {
    fn clone(&self) -> (r: ManagedKey)
        ensures
            r@ == self@,
    {
        self.with_status(self.flags, self.status)
    }
}

/// The values of a list of managed keys.
pub open spec fn keys_v(s: Seq<ManagedKey>) -> Seq<ManagedKeyV> {
    Seq::new(s.len(), |i: int| s[i]@)
}

/// The managed key that a key seen in `zone` becomes.
pub open spec fn managed(zone: Seq<char>, k: DnskeyV, status: KeyStatus) -> ManagedKeyV {
    ManagedKeyV {
        zone,
        key_tag: match key_tag(k) {
            Some(t) => t,
            None => 0,
        },
        algorithm: k.algorithm,
        flags: k.flags & 0x0181,
        public_key: base64_encoded(k.public_key),
        status,
    }
}

/// The DNSKEY that a managed key stands for.
pub open spec fn unmanaged(k: ManagedKeyV) -> Option<DnskeyV> {
    match base64_decoded(encode_utf8(k.public_key)) {
        Some(public_key) => Some(
            DnskeyV { flags: k.flags & 0x0181, algorithm: k.algorithm, public_key },
        ),
        None => None,
    }
}

impl ManagedKey {
    /// The DNSKEY; `None` where the stored key is no base 64.
    pub fn to_dnskey(&self) -> (r: Option<Dnskey>)
        ensures
            unmanaged(self@) == (match r {
                Some(k) => Some(k@),
                None => None,
            }),
    {
        match base64_decode(self.public_key.as_str().as_bytes()) {
            Some(public_key) => Some(
                Dnskey { flags: self.flags & 0x0181, algorithm: self.algorithm, public_key },
            ),
            None => None,
        }
    }

    /// A managed key for a DNSKEY seen in `zone`.
    pub fn from_observed(zone: &str, key: &Dnskey, status: KeyStatus) -> (r: ManagedKey)
        ensures
            r@ == managed(zone@, key@, status),
            base64_decoded(encode_utf8(r@.public_key)) == Some(key@.public_key),
            standard_base64(r@.public_key),
            r@.public_key.len() == 0 <==> key@.public_key.len() == 0,
    {
        let tag: u16 = match key.calculate_key_tag() {
            Some(t) => t,
            None => 0,
        };
        ManagedKey {
            zone: zone.to_owned(),
            key_tag: tag,
            algorithm: key.algorithm,
            flags: key.flags & 0x0181,
            public_key: base64_encode(key.public_key.as_slice()),
            status,
        }
    }

    /// Whether the key is trusted.
    pub fn is_active(&self) -> (r: bool)
        ensures
            r == (self.status == KeyStatus::Active),
    {
        match self.status {
            KeyStatus::Active => true,
            _ => false,
        }
    }

    /// The same key with other flags and another status.
    fn with_status(&self, flags: u16, status: KeyStatus) -> (r: ManagedKey)
        ensures
            r@ == (ManagedKeyV { flags, status, ..self@ }),
    {
        ManagedKey {
            zone: self.zone.clone(),
            key_tag: self.key_tag,
            algorithm: self.algorithm,
            flags,
            public_key: self.public_key.clone(),
            status,
        }
    }
}

/// What one refresh changed, by key tag.
#[derive(Debug, PartialEq, Eq)]
pub struct RefreshDiff {
    pub added_pending: Vec<u16>,
    pub promoted: Vec<u16>,
    pub revoked: Vec<u16>,
    pub dropped_pending: Vec<u16>,
    pub pruned_revoked: Vec<u16>,
}

impl Default for RefreshDiff {
    fn default() -> (r: RefreshDiff)
        ensures
            r.added_pending@ == Seq::<u16>::empty(),
            r.promoted@ == Seq::<u16>::empty(),
            r.revoked@ == Seq::<u16>::empty(),
            r.dropped_pending@ == Seq::<u16>::empty(),
            r.pruned_revoked@ == Seq::<u16>::empty(),
    {
        RefreshDiff {
            added_pending: Vec::new(),
            promoted: Vec::new(),
            revoked: Vec::new(),
            dropped_pending: Vec::new(),
            pruned_revoked: Vec::new(),
        }
    }
}

impl RefreshDiff {
    /// Whether nothing changed.
    pub fn is_empty(&self) -> (r: bool)
        ensures
            r == (self.added_pending@.len() == 0 && self.promoted@.len() == 0
                && self.revoked@.len() == 0 && self.dropped_pending@.len() == 0
                && self.pruned_revoked@.len() == 0),
    {
        self.added_pending.len() == 0 && self.promoted.len() == 0 && self.revoked.len() == 0
            && self.dropped_pending.len() == 0 && self.pruned_revoked.len() == 0
    }
}

/// A DNSKEY seen in the live key set of a zone.
#[derive(Debug)]
pub struct Observed {
    pub zone: String,
    pub key: Dnskey,
}

/// The value of an [`Observed`].
#[verifier::ext_equal]
pub ghost struct ObservedV {
    pub zone: Seq<char>,
    pub key: DnskeyV,
}

impl View for Observed {
    type V = ObservedV;

    open spec fn view(&self) -> ObservedV {
        ObservedV { zone: self.zone@, key: self.key@ }
    }
}

/// The values of a list of observed keys.
pub open spec fn observed_v(s: Seq<Observed>) -> Seq<ObservedV> {
    Seq::new(s.len(), |i: int| s[i]@)
}

/// The public key of a managed key; one that is no base 64 counts as empty.
pub open spec fn stored_key(e: ManagedKeyV) -> Seq<u8> {
    match base64_decoded(encode_utf8(e.public_key)) {
        Some(b) => b,
        None => Seq::empty(),
    }
}

/// The observed key is the managed one: same zone, algorithm and public key. The key
/// tag plays no part, since the REVOKE bit changes it.
pub open spec fn same_key(e: ManagedKeyV, o: ObservedV) -> bool {
    o.zone == e.zone && o.key.algorithm == e.algorithm && o.key.public_key == stored_key(e)
}

/// The first observed key, from position `from` on, that is the managed one.
pub open spec fn first_match(e: ManagedKeyV, obs: Seq<ObservedV>, from: int) -> Option<int>
    decreases obs.len() - from,
{
    if from < 0 || from >= obs.len() {
        None
    } else if same_key(e, obs[from]) {
        Some(from)
    } else {
        first_match(e, obs, from + 1)
    }
}

/// What a refresh does with one managed key.
pub enum Fate {
    Keep,
    Promote,
    Revoke,
    DropPending,
    Prune,
}

/// The REVOKE bit of a DNSKEY.
pub open spec fn is_revoked(k: DnskeyV) -> bool {
    k.flags & FLAG_REVOKE != 0
}

/// Seconds since `then`, none where that lies ahead.
pub open spec fn elapsed(now: u64, then: u64) -> int {
    if now >= then {
        now - then
    } else {
        0
    }
}

/// What a refresh at `now` does with a managed key that was, or was not, observed.
pub open spec fn fate(e: ManagedKeyV, seen: Option<DnskeyV>, now: u64, hold_down: u64) -> Fate {
    match (e.status, seen) {
        (KeyStatus::PendingAdd { added_at }, Some(k)) => if is_revoked(k) {
            Fate::DropPending
        } else if elapsed(now, added_at) >= hold_down {
            Fate::Promote
        } else {
            Fate::Keep
        },
        (KeyStatus::PendingAdd { .. }, None) => Fate::DropPending,
        (KeyStatus::Active, Some(k)) => if is_revoked(k) {
            Fate::Revoke
        } else {
            Fate::Keep
        },
        (KeyStatus::Active, None) => Fate::Keep,
        (KeyStatus::Revoked { .. }, Some(_)) => Fate::Keep,
        (KeyStatus::Revoked { .. }, None) => Fate::Prune,
    }
}

/// The observed key that matches a managed one.
pub open spec fn sighting(e: ManagedKeyV, obs: Seq<ObservedV>) -> Option<DnskeyV> {
    match first_match(e, obs, 0) {
        Some(i) => Some(obs[i].key),
        None => None,
    }
}

/// The fate of a managed key, given what was observed.
pub open spec fn fate_in(e: ManagedKeyV, obs: Seq<ObservedV>, now: u64, hold_down: u64) -> Fate {
    fate(e, sighting(e, obs), now, hold_down)
}

/// The managed keys that a key with the given fate leaves behind: one or none.
pub open spec fn survivors(e: ManagedKeyV, f: Fate, now: u64) -> Seq<ManagedKeyV> {
    match f {
        Fate::Keep => seq![e],
        Fate::Promote => seq![ManagedKeyV { status: KeyStatus::Active, ..e }],
        Fate::Revoke => seq![
            ManagedKeyV {
                status: KeyStatus::Revoked { revoked_at: now },
                flags: e.flags | FLAG_REVOKE,
                ..e
            },
        ],
        Fate::DropPending | Fate::Prune => Seq::empty(),
    }
}

/// The managed keys that are left of `state`, in order.
pub open spec fn carried(
    state: Seq<ManagedKeyV>,
    obs: Seq<ObservedV>,
    now: u64,
    hold_down: u64,
) -> Seq<ManagedKeyV>
    decreases state.len(),
{
    if state.len() == 0 {
        Seq::empty()
    } else {
        carried(state.drop_last(), obs, now, hold_down) + survivors(
            state.last(),
            fate_in(state.last(), obs, now, hold_down),
            now,
        )
    }
}

/// The tags of the keys of `state` with the given fate, in order.
pub open spec fn tags_of_fate(
    state: Seq<ManagedKeyV>,
    obs: Seq<ObservedV>,
    now: u64,
    hold_down: u64,
    f: Fate,
) -> Seq<u16>
    decreases state.len(),
{
    if state.len() == 0 {
        Seq::empty()
    } else {
        let rest = tags_of_fate(state.drop_last(), obs, now, hold_down, f);
        if fate_in(state.last(), obs, now, hold_down) == f {
            rest.push(state.last().key_tag)
        } else {
            rest
        }
    }
}

/// Some managed key of `state` was matched with the observed key at `i`.
pub open spec fn is_matched(state: Seq<ManagedKeyV>, obs: Seq<ObservedV>, i: int) -> bool {
    exists|j: int| 0 <= j < state.len() && first_match(#[trigger] state[j], obs, 0) == Some(i)
}

/// The observed key at `i` is new: unmatched, not revoked and a key-signing key.
pub open spec fn is_new(state: Seq<ManagedKeyV>, obs: Seq<ObservedV>, i: int) -> bool {
    !is_matched(state, obs, i) && !is_revoked(obs[i].key) && obs[i].key.flags & FLAG_SEP != 0
}

/// The managed keys that start their hold-down among the first `n` observed ones.
pub open spec fn newcomers(
    state: Seq<ManagedKeyV>,
    obs: Seq<ObservedV>,
    now: u64,
    n: int,
) -> Seq<ManagedKeyV>
    decreases n,
{
    if n <= 0 {
        Seq::empty()
    } else {
        let rest = newcomers(state, obs, now, n - 1);
        if is_new(state, obs, n - 1) {
            rest.push(
                managed(
                    obs[n - 1].zone,
                    obs[n - 1].key,
                    KeyStatus::PendingAdd { added_at: now },
                ),
            )
        } else {
            rest
        }
    }
}

/// The tags of a list of managed keys.
pub open spec fn tags(s: Seq<ManagedKeyV>) -> Seq<u16> {
    Seq::new(s.len(), |i: int| s[i].key_tag)
}

/// The managed keys after a refresh.
pub open spec fn refreshed(
    state: Seq<ManagedKeyV>,
    obs: Seq<ObservedV>,
    now: u64,
    hold_down: u64,
) -> Seq<ManagedKeyV> {
    carried(state, obs, now, hold_down) + newcomers(state, obs, now, obs.len() as int)
}

/// No key was observed twice.
pub open spec fn distinct_keys(obs: Seq<ObservedV>) -> bool {
    forall|i: int, j: int|
        0 <= i < j < obs.len() ==> !((#[trigger] obs[i]).zone == (#[trigger] obs[j]).zone
            && obs[i].key.algorithm == obs[j].key.algorithm && obs[i].key.public_key
            == obs[j].key.public_key)
}

/// The stored form of each newly managed key stands for the key that was observed.
pub open spec fn newcomers_read_back(state: Seq<ManagedKeyV>, obs: Seq<ObservedV>) -> bool {
    forall|i: int|
        0 <= i < obs.len() && #[trigger] is_new(state, obs, i) ==> base64_decoded(
            encode_utf8(base64_encoded(obs[i].key.public_key)),
        ) == Some(obs[i].key.public_key)
}

/// A refresh that sees the keys `obs` leaves the managed keys as they are.
pub open spec fn settled(
    state: Seq<ManagedKeyV>,
    obs: Seq<ObservedV>,
    now: u64,
    hold_down: u64,
) -> bool {
    &&& refreshed(state, obs, now, hold_down) == state
    &&& newcomers(state, obs, now, obs.len() as int).len() == 0
    &&& forall|f: Fate|
        f != Fate::Keep ==> (#[trigger] tags_of_fate(state, obs, now, hold_down, f)).len() == 0
}

/// The first observed key that is the managed one.
fn find_match(entry: &ManagedKey, observed: &Vec<Observed>) -> (r: Option<usize>)
    ensures
        first_match(entry@, observed_v(observed@), 0) == (match r {
            Some(i) => Some(i as int),
            None => None,
        }),
        r is Some ==> r->0 < observed@.len(),
{
    let pk: Vec<u8> = match base64_decode(entry.public_key.as_str().as_bytes()) {
        Some(b) => b,
        None => Vec::new(),
    };
    assert(pk@ =~= stored_key(entry@));
    let mut i: usize = 0;
    while i < observed.len()
        invariant
            i <= observed@.len(),
            pk@ == stored_key(entry@),
            first_match(entry@, observed_v(observed@), 0) == first_match(
                entry@,
                observed_v(observed@),
                i as int,
            ),
        decreases observed@.len() - i,
    {
        let o: &Observed = &observed[i];
        assert(observed_v(observed@)[i as int] == o@);
        if o.zone == entry.zone && o.key.algorithm == entry.algorithm && bytes_eq(
            o.key.public_key.as_slice(),
            pk.as_slice(),
        ) {
            return Some(i);
        }
        i += 1;
    }
    None
}

/// Apply one refresh (RFC 5011): `observed` is the validated live key set, `now` the
/// time and `hold_down` the waiting period, in seconds. A second refresh that sees the same
/// keys at the same time changes nothing.
pub fn apply_refresh(
    state: &Vec<ManagedKey>,
    observed: &Vec<Observed>,
    now: u64,
    hold_down: u64,
) -> (r: (Vec<ManagedKey>, RefreshDiff))
    ensures
        keys_v(r.0@) == refreshed(keys_v(state@), observed_v(observed@), now, hold_down),
        r.1.promoted@ == tags_of_fate(
            keys_v(state@),
            observed_v(observed@),
            now,
            hold_down,
            Fate::Promote,
        ),
        r.1.revoked@ == tags_of_fate(
            keys_v(state@),
            observed_v(observed@),
            now,
            hold_down,
            Fate::Revoke,
        ),
        r.1.dropped_pending@ == tags_of_fate(
            keys_v(state@),
            observed_v(observed@),
            now,
            hold_down,
            Fate::DropPending,
        ),
        r.1.pruned_revoked@ == tags_of_fate(
            keys_v(state@),
            observed_v(observed@),
            now,
            hold_down,
            Fate::Prune,
        ),
        r.1.added_pending@ == tags(
            newcomers(keys_v(state@), observed_v(observed@), now, observed@.len() as int),
        ),
        newcomers_read_back(keys_v(state@), observed_v(observed@)),
        hold_down > 0 && distinct_keys(observed_v(observed@)) ==> settled(
            keys_v(r.0@),
            observed_v(observed@),
            now,
            hold_down,
        ),
{
    let mut diff = RefreshDiff::default();
    let mut next: Vec<ManagedKey> = Vec::new();
    let mut matched: Vec<bool> = Vec::new();
    let ghost sv = keys_v(state@);
    let ghost ov = observed_v(observed@);
    let n: usize = observed.len();
    let mut k: usize = 0;
    while k < n
        invariant
            k <= n,
            matched@.len() == k,
            forall|j: int| 0 <= j < k ==> !(#[trigger] matched@[j]),
        decreases n - k,
    {
        matched.push(false);
        k += 1;
    }
    let mut i: usize = 0;
    assert(keys_v(next@) =~= Seq::empty());
    while i < state.len()
        invariant
            i <= state@.len(),
            n == observed@.len(),
            sv == keys_v(state@),
            ov == observed_v(observed@),
            matched@.len() == n,
            forall|j: int|
                0 <= j < n ==> (#[trigger] matched@[j] <==> is_matched(
                    sv.subrange(0, i as int),
                    ov,
                    j,
                )),
            keys_v(next@) == carried(sv.subrange(0, i as int), ov, now, hold_down),
            diff.promoted@ == tags_of_fate(
                sv.subrange(0, i as int),
                ov,
                now,
                hold_down,
                Fate::Promote,
            ),
            diff.revoked@ == tags_of_fate(
                sv.subrange(0, i as int),
                ov,
                now,
                hold_down,
                Fate::Revoke,
            ),
            diff.dropped_pending@ == tags_of_fate(
                sv.subrange(0, i as int),
                ov,
                now,
                hold_down,
                Fate::DropPending,
            ),
            diff.pruned_revoked@ == tags_of_fate(
                sv.subrange(0, i as int),
                ov,
                now,
                hold_down,
                Fate::Prune,
            ),
        decreases state@.len() - i,
    {
        let entry: &ManagedKey = &state[i];
        let ghost before = sv.subrange(0, i as int);
        let ghost after = sv.subrange(0, i + 1);
        let ghost kept = keys_v(next@);
        let ghost was = matched@;
        assert(after.drop_last() =~= before);
        assert(after.last() == entry@);
        let found = find_match(entry, observed);
        let mut revoked: bool = false;
        if let Some(idx) = found {
            matched.set(idx, true);
            revoked = observed[idx].key.revoke();
            assert(ov[idx as int].key == observed@[idx as int].key@);
        }
        match entry.status {
            KeyStatus::PendingAdd { added_at } => {
                if found.is_none() || revoked {
                    diff.dropped_pending.push(entry.key_tag);
                } else if now.saturating_sub(added_at) >= hold_down {
                    diff.promoted.push(entry.key_tag);
                    next.push(entry.with_status(entry.flags, KeyStatus::Active));
                } else {
                    next.push(entry.clone());
                }
            },
            KeyStatus::Active => {
                if revoked {
                    diff.revoked.push(entry.key_tag);
                    next.push(
                        entry.with_status(
                            entry.flags | FLAG_REVOKE,
                            KeyStatus::Revoked { revoked_at: now },
                        ),
                    );
                } else {
                    next.push(entry.clone());
                }
            },
            KeyStatus::Revoked { .. } => {
                if found.is_none() {
                    diff.pruned_revoked.push(entry.key_tag);
                } else {
                    next.push(entry.clone());
                }
            },
        }
        proof {
            assert(keys_v(next@) =~= kept + survivors(
                entry@,
                fate_in(entry@, ov, now, hold_down),
                now,
            ));
            assert forall|j: int| 0 <= j < n implies (#[trigger] matched@[j] <==> is_matched(
                after,
                ov,
                j,
            )) by {
                if is_matched(before, ov, j) {
                    let w = choose|w: int|
                        0 <= w < before.len() && first_match(#[trigger] before[w], ov, 0) == Some(
                            j,
                        );
                    assert(after[w] == before[w]);
                }
                if first_match(entry@, ov, 0) == Some(j) {
                    assert(after[i as int] == entry@);
                }
                if is_matched(after, ov, j) {
                    let w = choose|w: int|
                        0 <= w < after.len() && first_match(#[trigger] after[w], ov, 0) == Some(j);
                    if w < before.len() {
                        assert(before[w] == after[w]);
                    }
                }
            }
        }
        i += 1;
    }
    assert(sv.subrange(0, sv.len() as int) =~= sv);
    let ghost base = keys_v(next@);
    let mut added: Vec<u16> = Vec::new();
    let mut q: usize = 0;
    assert(tags(newcomers(sv, ov, now, 0)) =~= added@);
    assert(base + newcomers(sv, ov, now, 0) =~= base);
    while q < n
        invariant
            q <= n,
            n == observed@.len(),
            ov == observed_v(observed@),
            matched@.len() == n,
            forall|j: int| 0 <= j < n ==> (#[trigger] matched@[j] <==> is_matched(sv, ov, j)),
            keys_v(next@) == base + newcomers(sv, ov, now, q as int),
            added@ == tags(newcomers(sv, ov, now, q as int)),
            forall|j: int|
                0 <= j < q && #[trigger] is_new(sv, ov, j) ==> base64_decoded(
                    encode_utf8(base64_encoded(ov[j].key.public_key)),
                ) == Some(ov[j].key.public_key),
        decreases n - q,
    {
        let o: &Observed = &observed[q];
        assert(ov[q as int] == o@);
        let ghost had = keys_v(next@);
        if !matched[q] && !o.key.revoke() && o.key.secure_entry_point() {
            let mk = ManagedKey::from_observed(
                o.zone.as_str(),
                &o.key,
                KeyStatus::PendingAdd { added_at: now },
            );
            added.push(mk.key_tag);
            next.push(mk);
            assert(keys_v(next@) =~= had.push(mk@));
            assert(keys_v(next@) =~= base + newcomers(sv, ov, now, q + 1));
            assert(added@ =~= tags(newcomers(sv, ov, now, q + 1)));
        }
        q += 1;
    }
    diff.added_pending = added;
    proof {
        if hold_down > 0 && distinct_keys(ov) {
            lemma_settled(sv, ov, now, hold_down);
        }
    }
    (next, diff)
}

// Keys with the same zone, algorithm and stored form match the same observed key.
proof fn lemma_same_match(e: ManagedKeyV, f: ManagedKeyV, obs: Seq<ObservedV>, from: int)
    requires
        e.zone == f.zone,
        e.algorithm == f.algorithm,
        e.public_key == f.public_key,
    ensures
        first_match(e, obs, from) == first_match(f, obs, from),
    decreases obs.len() - from,
{
    if 0 <= from < obs.len() {
        lemma_same_match(e, f, obs, from + 1);
    }
}

proof fn lemma_match_at(e: ManagedKeyV, obs: Seq<ObservedV>, from: int, i: int)
    requires
        0 <= from <= i < obs.len(),
        same_key(e, obs[i]),
        distinct_keys(obs),
    ensures
        first_match(e, obs, from) == Some(i),
    decreases i - from,
{
    if from < i {
        assert(!same_key(e, obs[from]));
        lemma_match_at(e, obs, from + 1, i);
    }
}

// A key that a refresh leaves behind stays as it is.
proof fn lemma_left_behind_stays(
    state: Seq<ManagedKeyV>,
    obs: Seq<ObservedV>,
    now: u64,
    hold_down: u64,
    j: int,
)
    requires
        hold_down > 0,
        distinct_keys(obs),
        newcomers_read_back(state, obs),
        0 <= j < refreshed(state, obs, now, hold_down).len(),
    ensures
        fate_in(refreshed(state, obs, now, hold_down)[j], obs, now, hold_down) == Fate::Keep,
{
    let c = carried(state, obs, now, hold_down);
    let e = refreshed(state, obs, now, hold_down)[j];
    if j < c.len() {
        lemma_carried_member(state, obs, now, hold_down, j);
        let i = choose|i: int|
            0 <= i < state.len() && survivors(
                #[trigger] state[i],
                fate_in(state[i], obs, now, hold_down),
                now,
            ) == seq![c[j]];
        let left = survivors(state[i], fate_in(state[i], obs, now, hold_down), now);
        assert(left[0] == c[j]);
        assert(e == left[0]);
        lemma_same_match(e, state[i], obs, 0);
    } else {
        let n = obs.len() as int;
        lemma_newcomer(state, obs, now, n, j - c.len());
        let i = choose|i: int|
            0 <= i < n && #[trigger] is_new(state, obs, i) && newcomers(state, obs, now, n)[j
                - c.len()] == managed(
                obs[i].zone,
                obs[i].key,
                KeyStatus::PendingAdd { added_at: now },
            );
        assert(e == managed(obs[i].zone, obs[i].key, KeyStatus::PendingAdd { added_at: now }));
        assert(same_key(e, obs[i]));
        lemma_match_at(e, obs, 0, i);
    }
}

proof fn lemma_new_is_there(state: Seq<ManagedKeyV>, obs: Seq<ObservedV>, now: u64, n: int, i: int)
    requires
        0 <= i < n <= obs.len(),
        is_new(state, obs, i),
    ensures
        newcomers(state, obs, now, n).contains(
            managed(obs[i].zone, obs[i].key, KeyStatus::PendingAdd { added_at: now }),
        ),
    decreases n,
{
    let e = managed(obs[i].zone, obs[i].key, KeyStatus::PendingAdd { added_at: now });
    let rest = newcomers(state, obs, now, n - 1);
    if i == n - 1 {
        assert(newcomers(state, obs, now, n)[rest.len() as int] == e);
    } else {
        lemma_new_is_there(state, obs, now, n - 1, i);
        let j = choose|j: int| 0 <= j < rest.len() && rest[j] == e;
        assert(newcomers(state, obs, now, n)[j] == e);
    }
}

// After a refresh no observed key is new.
proof fn lemma_nothing_new(
    state: Seq<ManagedKeyV>,
    obs: Seq<ObservedV>,
    now: u64,
    hold_down: u64,
    i: int,
)
    requires
        hold_down > 0,
        distinct_keys(obs),
        newcomers_read_back(state, obs),
        0 <= i < obs.len(),
    ensures
        !is_new(refreshed(state, obs, now, hold_down), obs, i),
{
    let next = refreshed(state, obs, now, hold_down);
    let c = carried(state, obs, now, hold_down);
    if !is_revoked(obs[i].key) && obs[i].key.flags & FLAG_SEP != 0 {
        if is_matched(state, obs, i) {
            let w = choose|w: int|
                0 <= w < state.len() && first_match(#[trigger] state[w], obs, 0) == Some(i);
            let left = survivors(state[w], fate_in(state[w], obs, now, hold_down), now);
            assert(left.len() == 1);
            lemma_carried_holds(state, obs, now, hold_down, w);
            let j = choose|j: int| 0 <= j < c.len() && c[j] == left[0];
            assert(next[j] == left[0]);
            lemma_same_match(next[j], state[w], obs, 0);
            assert(is_matched(next, obs, i));
        } else {
            assert(is_new(state, obs, i));
            let e = managed(obs[i].zone, obs[i].key, KeyStatus::PendingAdd { added_at: now });
            let fresh = newcomers(state, obs, now, obs.len() as int);
            lemma_new_is_there(state, obs, now, obs.len() as int, i);
            let j = choose|j: int| 0 <= j < fresh.len() && fresh[j] == e;
            assert(next[c.len() + j] == e);
            assert(same_key(e, obs[i]));
            lemma_match_at(e, obs, 0, i);
            assert(is_matched(next, obs, i));
        }
    }
}

proof fn lemma_all_stay(
    state: Seq<ManagedKeyV>,
    obs: Seq<ObservedV>,
    now: u64,
    hold_down: u64,
    f: Fate,
)
    requires
        forall|j: int|
            0 <= j < state.len() ==> fate_in(#[trigger] state[j], obs, now, hold_down)
                == Fate::Keep,
        f != Fate::Keep,
    ensures
        carried(state, obs, now, hold_down) == state,
        tags_of_fate(state, obs, now, hold_down, f).len() == 0,
    decreases state.len(),
{
    if state.len() > 0 {
        let init = state.drop_last();
        assert forall|j: int| 0 <= j < init.len() implies fate_in(
            #[trigger] init[j],
            obs,
            now,
            hold_down,
        ) == Fate::Keep by {
            assert(init[j] == state[j]);
        }
        lemma_all_stay(init, obs, now, hold_down, f);
        assert(state[state.len() - 1] == state.last());
        assert(init + seq![state.last()] =~= state);
    } else {
        assert(state =~= Seq::empty());
    }
}

proof fn lemma_none_new(state: Seq<ManagedKeyV>, obs: Seq<ObservedV>, now: u64, n: int)
    requires
        forall|i: int| 0 <= i < n ==> !(#[trigger] is_new(state, obs, i)),
    ensures
        newcomers(state, obs, now, n).len() == 0,
    decreases n,
{
    if n > 0 {
        lemma_none_new(state, obs, now, n - 1);
    }
}

proof fn lemma_settled(state: Seq<ManagedKeyV>, obs: Seq<ObservedV>, now: u64, hold_down: u64)
    requires
        hold_down > 0,
        distinct_keys(obs),
        newcomers_read_back(state, obs),
    ensures
        settled(refreshed(state, obs, now, hold_down), obs, now, hold_down),
{
    let next = refreshed(state, obs, now, hold_down);
    assert forall|j: int| 0 <= j < next.len() implies fate_in(
        #[trigger] next[j],
        obs,
        now,
        hold_down,
    ) == Fate::Keep by {
        lemma_left_behind_stays(state, obs, now, hold_down, j);
    }
    assert forall|i: int| 0 <= i < obs.len() implies !(#[trigger] is_new(next, obs, i)) by {
        lemma_nothing_new(state, obs, now, hold_down, i);
    }
    lemma_none_new(next, obs, now, obs.len() as int);
    lemma_all_stay(next, obs, now, hold_down, Fate::Promote);
    assert(refreshed(next, obs, now, hold_down) =~= next);
    assert forall|f: Fate| f != Fate::Keep implies (#[trigger] tags_of_fate(
        next,
        obs,
        now,
        hold_down,
        f,
    )).len() == 0 by {
        lemma_all_stay(next, obs, now, hold_down, f);
    }
}

/// Seeing the same keys again at the same time changes nothing: the second refresh leaves
/// the managed keys as they are, and nothing is promoted, revoked, dropped, pruned or added.
/// It holds of all observed keys whose stored form stands for them, as it does for every
/// key that a refresh has stored.
pub proof fn law_second_refresh_changes_nothing(
    state: Seq<ManagedKeyV>,
    obs: Seq<ObservedV>,
    now: u64,
    hold_down: u64,
)
    requires
        hold_down > 0,
        distinct_keys(obs),
    ensures
        newcomers_read_back(state, obs) ==> settled(
            refreshed(state, obs, now, hold_down),
            obs,
            now,
            hold_down,
        ),
{
    if newcomers_read_back(state, obs) {
        lemma_settled(state, obs, now, hold_down);
    }
}

proof fn lemma_carried_member(
    state: Seq<ManagedKeyV>,
    obs: Seq<ObservedV>,
    now: u64,
    hold_down: u64,
    j: int,
)
    requires
        0 <= j < carried(state, obs, now, hold_down).len(),
    ensures
        exists|i: int|
            0 <= i < state.len() && survivors(
                #[trigger] state[i],
                fate_in(state[i], obs, now, hold_down),
                now,
            ) == seq![carried(state, obs, now, hold_down)[j]],
    decreases state.len(),
{
    let init = state.drop_last();
    let rest = carried(init, obs, now, hold_down);
    let c = carried(state, obs, now, hold_down);
    if j < rest.len() {
        lemma_carried_member(init, obs, now, hold_down, j);
        let i = choose|i: int|
            0 <= i < init.len() && survivors(
                #[trigger] init[i],
                fate_in(init[i], obs, now, hold_down),
                now,
            ) == seq![rest[j]];
        assert(state[i] == init[i]);
        assert(c[j] == rest[j]);
    } else {
        let i = state.len() - 1;
        let s = survivors(state[i], fate_in(state[i], obs, now, hold_down), now);
        assert(s.len() == 1);
        assert(s =~= seq![c[j]]);
    }
}

proof fn lemma_carried_holds(
    state: Seq<ManagedKeyV>,
    obs: Seq<ObservedV>,
    now: u64,
    hold_down: u64,
    i: int,
)
    requires
        0 <= i < state.len(),
        survivors(state[i], fate_in(state[i], obs, now, hold_down), now).len() == 1,
    ensures
        carried(state, obs, now, hold_down).contains(
            survivors(state[i], fate_in(state[i], obs, now, hold_down), now)[0],
        ),
    decreases state.len(),
{
    let init = state.drop_last();
    let rest = carried(init, obs, now, hold_down);
    let c = carried(state, obs, now, hold_down);
    if i < init.len() {
        assert(init[i] == state[i]);
        lemma_carried_holds(init, obs, now, hold_down, i);
        let e = survivors(state[i], fate_in(state[i], obs, now, hold_down), now)[0];
        let j = choose|j: int| 0 <= j < rest.len() && rest[j] == e;
        assert(c[j] == e);
    } else {
        assert(c[rest.len() as int] == survivors(
            state[i],
            fate_in(state[i], obs, now, hold_down),
            now,
        )[0]);
    }
}

proof fn lemma_newcomer(state: Seq<ManagedKeyV>, obs: Seq<ObservedV>, now: u64, n: int, j: int)
    requires
        0 <= n <= obs.len(),
        0 <= j < newcomers(state, obs, now, n).len(),
    ensures
        exists|i: int|
            0 <= i < n && #[trigger] is_new(state, obs, i) && newcomers(state, obs, now, n)[j]
                == managed(obs[i].zone, obs[i].key, KeyStatus::PendingAdd { added_at: now }),
    decreases n,
{
    let rest = newcomers(state, obs, now, n - 1);
    if j < rest.len() {
        lemma_newcomer(state, obs, now, n - 1, j);
    } else {
        assert(is_new(state, obs, n - 1));
    }
}

/// Only REVOKE removes trust: an active key that is not seen with the REVOKE bit is
/// still there, unchanged, after a refresh.
pub proof fn law_active_key_is_kept(
    state: Seq<ManagedKeyV>,
    obs: Seq<ObservedV>,
    now: u64,
    hold_down: u64,
    i: int,
)
    requires
        0 <= i < state.len(),
        state[i].status == KeyStatus::Active,
        sighting(state[i], obs) is Some ==> !is_revoked(sighting(state[i], obs)->0),
    ensures
        refreshed(state, obs, now, hold_down).contains(state[i]),
{
    lemma_carried_holds(state, obs, now, hold_down, i);
    let c = carried(state, obs, now, hold_down);
    let j = choose|j: int| 0 <= j < c.len() && c[j] == state[i];
    assert(refreshed(state, obs, now, hold_down)[j] == state[i]);
}

/// Trust is never taken early: a key that is active after a refresh was active and not
/// seen revoked, or had waited out its hold-down and was seen, not revoked.
pub proof fn law_active_only_after_hold_down(
    state: Seq<ManagedKeyV>,
    obs: Seq<ObservedV>,
    now: u64,
    hold_down: u64,
    j: int,
)
    requires
        0 <= j < refreshed(state, obs, now, hold_down).len(),
        refreshed(state, obs, now, hold_down)[j].status == KeyStatus::Active,
    ensures
        exists|i: int|
            {
                &&& 0 <= i < state.len()
                &&& refreshed(state, obs, now, hold_down)[j] == (ManagedKeyV {
                    status: KeyStatus::Active,
                    ..#[trigger] state[i]
                })
                &&& match (state[i].status, sighting(state[i], obs)) {
                    (KeyStatus::Active, Some(k)) => !is_revoked(k),
                    (KeyStatus::Active, None) => true,
                    (KeyStatus::PendingAdd { added_at }, Some(k)) => !is_revoked(k) && elapsed(
                        now,
                        added_at,
                    ) >= hold_down,
                    _ => false,
                }
            },
{
    let c = carried(state, obs, now, hold_down);
    let r = refreshed(state, obs, now, hold_down);
    if j < c.len() {
        lemma_carried_member(state, obs, now, hold_down, j);
        let i = choose|i: int|
            0 <= i < state.len() && survivors(
                #[trigger] state[i],
                fate_in(state[i], obs, now, hold_down),
                now,
            ) == seq![c[j]];
        assert(r[j] == c[j]);
        assert(survivors(state[i], fate_in(state[i], obs, now, hold_down), now)[0] == r[j]);
    } else {
        lemma_newcomer(state, obs, now, obs.len() as int, j - c.len());
    }
}

/// A key that was not managed before enters only as pending, from now on, and only if
/// it is a key-signing key that is not revoked.
pub proof fn law_new_keys_wait(
    state: Seq<ManagedKeyV>,
    obs: Seq<ObservedV>,
    now: u64,
    hold_down: u64,
    j: int,
)
    requires
        carried(state, obs, now, hold_down).len() <= j < refreshed(
            state,
            obs,
            now,
            hold_down,
        ).len(),
    ensures
        refreshed(state, obs, now, hold_down)[j].status == (KeyStatus::PendingAdd {
            added_at: now,
        }),
        exists|i: int|
            0 <= i < obs.len() && #[trigger] is_new(state, obs, i) && refreshed(
                state,
                obs,
                now,
                hold_down,
            )[j] == managed(obs[i].zone, obs[i].key, KeyStatus::PendingAdd { added_at: now }),
{
    lemma_newcomer(
        state,
        obs,
        now,
        obs.len() as int,
        j - carried(state, obs, now, hold_down).len(),
    );
}

/// A refresh that sees nothing leaves the active keys and nothing else.
pub proof fn law_empty_refresh_keeps_active(
    state: Seq<ManagedKeyV>,
    now: u64,
    hold_down: u64,
    j: int,
)
    requires
        0 <= j < refreshed(state, Seq::empty(), now, hold_down).len(),
    ensures
        refreshed(state, Seq::empty(), now, hold_down)[j].status == KeyStatus::Active,
        state.contains(refreshed(state, Seq::empty(), now, hold_down)[j]),
{
    let obs = Seq::<ObservedV>::empty();
    let c = carried(state, obs, now, hold_down);
    lemma_carried_member(state, obs, now, hold_down, j);
    let i = choose|i: int|
        0 <= i < state.len() && survivors(
            #[trigger] state[i],
            fate_in(state[i], obs, now, hold_down),
            now,
        ) == seq![c[j]];
    assert(survivors(state[i], fate_in(state[i], obs, now, hold_down), now)[0] == c[j]);
}

/// The lines that start an anchor file.
pub open spec fn anchor_header() -> Seq<char> {
    "; automated trust-anchor file managed by dnsd\n"@
        + "; format: presentation; consume with `dig +trust-anchor` or any RFC 1035 parser\n"@
}

/// One line of an anchor file; the REVOKE bit is left out.
pub open spec fn anchor_line(k: ManagedKeyV, ttl: u32) -> Seq<char> {
    k.zone + "\t"@ + dec(ttl as nat) + "\tIN\tDNSKEY\t"@ + dec((k.flags & 0xff7f) as nat) + " 3 "@ + dec(
        k.algorithm as nat,
    ) + " "@ + k.public_key + "\n"@
}

/// The lines of an anchor file: one for each active key, in order.
pub open spec fn anchor_lines(keys: Seq<ManagedKeyV>, ttl: u32) -> Seq<char>
    decreases keys.len(),
{
    if keys.len() == 0 {
        Seq::empty()
    } else {
        let rest = anchor_lines(keys.drop_last(), ttl);
        if keys.last().status == KeyStatus::Active {
            rest + anchor_line(keys.last(), ttl)
        } else {
            rest
        }
    }
}

/// Append the anchor-file line of a key.
fn push_anchor_line(out: &mut String, k: &ManagedKey, ttl: u32)
    ensures
        final(out)@ == old(out)@ + anchor_line(k@, ttl),
{
    push_text(out, k.zone.as_str());
    push_text(out, "\t");
    push_dec(out, ttl as u64);
    push_text(out, "\tIN\tDNSKEY\t");
    push_dec(out, (k.flags & 0xff7f) as u64);
    push_text(out, " 3 ");
    push_dec(out, k.algorithm as u64);
    push_text(out, " ");
    push_text(out, k.public_key.as_str());
    push_text(out, "\n");
    assert(out@ =~= old(out)@ + anchor_line(k@, ttl));
}

/// The anchor file: the active keys in presentation form.
pub fn render_anchor_file(active: &Vec<ManagedKey>, default_ttl: u32) -> (r: String)
    ensures
        r@ == anchor_header() + anchor_lines(keys_v(active@), default_ttl),
{
    let mut out = String::new();
    push_text(&mut out, "; automated trust-anchor file managed by dnsd\n");
    push_text(
        &mut out,
        "; format: presentation; consume with `dig +trust-anchor` or any RFC 1035 parser\n",
    );
    let ghost v = keys_v(active@);
    let mut i: usize = 0;
    assert(out@ =~= anchor_header() + anchor_lines(v.subrange(0, 0), default_ttl));
    while i < active.len()
        invariant
            i <= active@.len(),
            v == keys_v(active@),
            out@ == anchor_header() + anchor_lines(v.subrange(0, i as int), default_ttl),
        decreases active@.len() - i,
    {
        let k: &ManagedKey = &active[i];
        let ghost before = out@;
        if k.is_active() {
            push_anchor_line(&mut out, k, default_ttl);
        }
        proof {
            let next = v.subrange(0, i + 1);
            assert(next.drop_last() =~= v.subrange(0, i as int));
            assert(next.last() == k@);
            assert(out@ =~= anchor_header() + anchor_lines(next, default_ttl));
        }
        i += 1;
    }
    assert(v.subrange(0, v.len() as int) =~= v);
    out
}

/// A managed key is seen in the first observed key of its zone with its algorithm and its
/// octets.
pub proof fn law_first_sighting(e: ManagedKeyV, obs: Seq<ObservedV>, from: int)
    requires
        0 <= from <= obs.len(),
    ensures
        match first_match(e, obs, from) {
            Some(i) => {
                &&& from <= i < obs.len()
                &&& obs[i].zone == e.zone && obs[i].key.algorithm == e.algorithm && obs[i].key.public_key == stored_key(e)
                &&& forall|j: int| from <= j < i ==> !((#[trigger] obs[j]).zone == e.zone && (#[trigger] obs[j]).key.algorithm == e.algorithm && (#[trigger] obs[j]).key.public_key == stored_key(e))
            },
            None => forall|j: int| from <= j < obs.len() ==> !((#[trigger] obs[j]).zone == e.zone && (#[trigger] obs[j]).key.algorithm == e.algorithm && (#[trigger] obs[j]).key.public_key == stored_key(e)),
        },
    decreases obs.len() - from,
{
    if from < obs.len() && !(obs[from].zone == e.zone && obs[from].key.algorithm == e.algorithm && obs[from].key.public_key == stored_key(e)) {
        law_first_sighting(e, obs, from + 1);
    }
}


/// A managed key outlives a refresh, unless it waited and was not seen, or was seen revoked,
/// or was revoked and is no longer seen.
pub open spec fn outlives(e: ManagedKeyV, seen: Option<DnskeyV>) -> bool {
    match e.status {
        KeyStatus::Active => true,
        KeyStatus::PendingAdd { .. } => seen is Some && seen->0.flags & 0x0080 == 0,
        KeyStatus::Revoked { .. } => seen is Some,
    }
}

/// What a managed key that outlives a refresh is afterwards: an active key that was seen
/// revoked is revoked, one that has waited long enough is active, and any other is as it was.
pub open spec fn renewed(
    e: ManagedKeyV,
    seen: Option<DnskeyV>,
    now: u64,
    hold_down: u64,
) -> ManagedKeyV {
    let revoked = seen is Some && seen->0.flags & 0x0080 != 0;
    match e.status {
        KeyStatus::Active => if revoked {
            ManagedKeyV {
                status: KeyStatus::Revoked { revoked_at: now },
                flags: e.flags | 0x0080,
                ..e
            }
        } else {
            e
        },
        KeyStatus::PendingAdd { added_at } => if added_at + hold_down <= now || hold_down == 0 {
            ManagedKeyV { status: KeyStatus::Active, ..e }
        } else {
            e
        },
        KeyStatus::Revoked { .. } => e,
    }
}

/// A refresh keeps every managed key that outlives it, in order, and each becomes what it is
/// due to become.
pub proof fn law_refresh_carries_keys_over(
    state: Seq<ManagedKeyV>,
    obs: Seq<ObservedV>,
    now: u64,
    hold_down: u64,
)
    ensures
        carried(state, obs, now, hold_down) == state.filter(
            |e: ManagedKeyV| outlives(e, sighting(e, obs)),
        ).map_values(|e: ManagedKeyV| renewed(e, sighting(e, obs), now, hold_down)),
        carried(state, obs, now, hold_down).is_prefix_of(refreshed(state, obs, now, hold_down)),
    decreases state.len(),
{
    let p = |e: ManagedKeyV| outlives(e, sighting(e, obs));
    let f = |e: ManagedKeyV| renewed(e, sighting(e, obs), now, hold_down);
    if state.len() == 0 {
        crate::lists::lemma_pick_none(state, p, f);
    } else {
        let rest = carried(state.drop_last(), obs, now, hold_down);
        let e = state.last();
        law_refresh_carries_keys_over(state.drop_last(), obs, now, hold_down);
        crate::lists::lemma_pick_last(state, p, f);
        if p(e) {
            assert(rest + seq![f(e)] =~= rest.push(f(e)));
            assert(survivors(e, fate_in(e, obs, now, hold_down), now) =~= seq![f(e)]);
        } else {
            assert(rest + Seq::<ManagedKeyV>::empty() =~= rest);
        }
    }
}

/// An observed key that no managed key is the same as, that is not revoked and is marked as
/// a secure entry point, is taken up, and waits from now on.
pub proof fn law_new_keys_are_taken_up(
    state: Seq<ManagedKeyV>,
    obs: Seq<ObservedV>,
    now: u64,
    hold_down: u64,
    i: int,
)
    requires
        0 <= i < obs.len(),
        forall|j: int|
            0 <= j < state.len() ==> !((#[trigger] state[j]).zone == obs[i].zone
                && state[j].algorithm == obs[i].key.algorithm && stored_key(state[j])
                == obs[i].key.public_key),
        obs[i].key.flags & 0x0080 == 0,
        obs[i].key.flags & 0x0001 != 0,
    ensures
        refreshed(state, obs, now, hold_down).contains(
            managed(obs[i].zone, obs[i].key, KeyStatus::PendingAdd { added_at: now }),
        ),
{
    assert(!is_matched(state, obs, i)) by {
        if is_matched(state, obs, i) {
            let j = choose|j: int|
                0 <= j < state.len() && first_match(#[trigger] state[j], obs, 0) == Some(i);
            law_first_sighting(state[j], obs, 0);
        }
    }
    lemma_taken_up(state, obs, now, obs.len() as int, i);
    let n = newcomers(state, obs, now, obs.len() as int);
    let c = carried(state, obs, now, hold_down);
    let m = managed(obs[i].zone, obs[i].key, KeyStatus::PendingAdd { added_at: now });
    let k = choose|k: int| 0 <= k < n.len() && n[k] == m;
    assert((c + n)[c.len() + k] == m);
}

proof fn lemma_taken_up(state: Seq<ManagedKeyV>, obs: Seq<ObservedV>, now: u64, n: int, i: int)
    requires
        0 <= i < n <= obs.len(),
        is_new(state, obs, i),
    ensures
        newcomers(state, obs, now, n).contains(
            managed(obs[i].zone, obs[i].key, KeyStatus::PendingAdd { added_at: now }),
        ),
    decreases n,
{
    let m = managed(obs[i].zone, obs[i].key, KeyStatus::PendingAdd { added_at: now });
    let all = newcomers(state, obs, now, n);
    if i == n - 1 {
        assert(all[all.len() - 1] == m);
    } else {
        lemma_taken_up(state, obs, now, n - 1, i);
        let rest = newcomers(state, obs, now, n - 1);
        let k = choose|k: int| 0 <= k < rest.len() && rest[k] == m;
        assert(all[k] == m);
    }
}

/// Keys that are already managed, keys seen revoked and keys that are no secure entry points
/// are not taken up: a refresh adds no more keys than it saw others.
pub proof fn law_other_keys_are_not_taken_up(
    state: Seq<ManagedKeyV>,
    obs: Seq<ObservedV>,
    now: u64,
)
    requires
        forall|i: int|
            0 <= i < obs.len() ==> (#[trigger] obs[i]).key.flags & 0x0080 != 0 || obs[i].key.flags
                & 0x0001 == 0 || (exists|j: int|
                0 <= j < state.len() && first_match(#[trigger] state[j], obs, 0) == Some(i)),
    ensures
        newcomers(state, obs, now, obs.len() as int).len() == 0,
{
    assert forall|i: int| 0 <= i < obs.len() implies !is_new(state, obs, i) by {
        assert(obs[i].key.flags & 0x0080 != 0 || obs[i].key.flags & 0x0001 == 0 || is_matched(
            state,
            obs,
            i,
        ));
    }
    lemma_no_newcomer(state, obs, now, obs.len() as int);
}

proof fn lemma_no_newcomer(state: Seq<ManagedKeyV>, obs: Seq<ObservedV>, now: u64, n: int)
    requires
        0 <= n <= obs.len(),
        forall|i: int| 0 <= i < n ==> !is_new(state, obs, i),
    ensures
        newcomers(state, obs, now, n).len() == 0,
    decreases n,
{
    if n > 0 {
        lemma_no_newcomer(state, obs, now, n - 1);
    }
}

/// What is reported of a refresh: the tags of the keys that became active, of those that
/// were revoked, of those dropped while they waited and of those pruned, each in order.
pub proof fn law_refresh_reports_what_it_did(
    state: Seq<ManagedKeyV>,
    obs: Seq<ObservedV>,
    now: u64,
    hold_down: u64,
)
    ensures
        tags_of_fate(state, obs, now, hold_down, Fate::Promote) == state.filter(
            |e: ManagedKeyV|
                e.status is PendingAdd && outlives(e, sighting(e, obs)) && renewed(
                    e,
                    sighting(e, obs),
                    now,
                    hold_down,
                ).status == KeyStatus::Active,
        ).map_values(|e: ManagedKeyV| e.key_tag),
        tags_of_fate(state, obs, now, hold_down, Fate::Revoke) == state.filter(
            |e: ManagedKeyV|
                e.status == KeyStatus::Active && renewed(
                    e,
                    sighting(e, obs),
                    now,
                    hold_down,
                ).status is Revoked,
        ).map_values(|e: ManagedKeyV| e.key_tag),
        tags_of_fate(state, obs, now, hold_down, Fate::DropPending) == state.filter(
            |e: ManagedKeyV| e.status is PendingAdd && !outlives(e, sighting(e, obs)),
        ).map_values(|e: ManagedKeyV| e.key_tag),
        tags_of_fate(state, obs, now, hold_down, Fate::Prune) == state.filter(
            |e: ManagedKeyV| e.status is Revoked && !outlives(e, sighting(e, obs)),
        ).map_values(|e: ManagedKeyV| e.key_tag),
    decreases state.len(),
{
    let t = |e: ManagedKeyV| e.key_tag;
    let a = |e: ManagedKeyV|
        e.status is PendingAdd && outlives(e, sighting(e, obs)) && renewed(
            e,
            sighting(e, obs),
            now,
            hold_down,
        ).status == KeyStatus::Active;
    let b = |e: ManagedKeyV|
        e.status == KeyStatus::Active && renewed(
            e,
            sighting(e, obs),
            now,
            hold_down,
        ).status is Revoked;
    let c = |e: ManagedKeyV| e.status is PendingAdd && !outlives(e, sighting(e, obs));
    let d = |e: ManagedKeyV| e.status is Revoked && !outlives(e, sighting(e, obs));
    if state.len() == 0 {
        crate::lists::lemma_pick_none(state, a, t);
        crate::lists::lemma_pick_none(state, b, t);
        crate::lists::lemma_pick_none(state, c, t);
        crate::lists::lemma_pick_none(state, d, t);
    } else {
        law_refresh_reports_what_it_did(state.drop_last(), obs, now, hold_down);
        crate::lists::lemma_pick_last(state, a, t);
        crate::lists::lemma_pick_last(state, b, t);
        crate::lists::lemma_pick_last(state, c, t);
        crate::lists::lemma_pick_last(state, d, t);
    }
}

/// A managed key stands for the key that was observed: its zone, algorithm and key, and the
/// flags that mean something; so does the key made of it again, where its text reads back.
pub proof fn law_managed_keys_stand_for_the_key(zone: Seq<char>, k: DnskeyV, status: KeyStatus)
    ensures
        ({
            let m = managed(zone, k, status);
            &&& m.zone == zone
            &&& m.algorithm == k.algorithm
            &&& m.status == status
            &&& m.flags == k.flags & 0x0181
            &&& key_tag(k) is Some ==> m.key_tag == key_tag(k)->0
            &&& base64_decoded(encode_utf8(m.public_key)) == Some(k.public_key) ==> unmanaged(m)
                == Some(
                DnskeyV {
                    flags: k.flags & 0x0181,
                    algorithm: k.algorithm,
                    public_key: k.public_key,
                },
            )
        }),
{
    let flags = k.flags;
    assert((flags & 0x0181) & 0x0181 == flags & 0x0181) by (bit_vector);
}

/// The tag of a key is the sum of the words of its record, the first octet of each the higher
/// one, with the carry added once.
pub proof fn law_key_tag_sums_words(b: Seq<u8>, x: u8, y: u8)
    requires
        b.len() % 2 == 0,
    ensures
        tag_sum(b.push(x)) == tag_sum(b) + 256 * x,
        tag_sum(b.push(x).push(y)) == tag_sum(b) + 256 * x + y,
        tag_of(b) == (tag_sum(b) + tag_sum(b) / 0x1_0000) % 0x1_0000,
{
    assert(b.push(x).drop_last() =~= b);
    assert(b.push(x).push(y).drop_last() =~= b.push(x));
}

} // verus!
