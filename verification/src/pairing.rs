//! One-time device enrollment.
//!
//! Pairing codes and issued device credentials are 256-bit OS-random values,
//! hex-encoded. The hub stores only SHA-256 digests, compares them without
//! data-dependent early exit, bounds pending offers, and consumes a code
//! exactly once.
use vstd::prelude::*;
use vstd::utf8::encode_utf8;
use crate::clock::Clock;
use crate::crypto::{hex, hex_encode, lemma_hex_encode_len, os_random, sha256, sha256_digest};
use crate::text::{
    all_ascii_hexdigits, char_is_control, char_is_hexdigit, chars_of, has_control, is_control,
    lower_chars, lower_seq, string_of, trim, trim_chars, utf8_len,
};

verus! {

/// How long an offered code stays valid, in milliseconds (ten minutes).
pub const PAIRING_TTL_MS: u64 = 600000;
pub const MAX_PENDING_PAIRINGS: usize = 64;
pub const MAX_PAIRING_LABEL_BYTES: usize = 128;

/// A fresh secret: 32 random bytes, hex-encoded.
fn random_secret() -> (r: Result<String, String>)
    ensures
        match r {
            Ok(s) => exists|b: Seq<u8>| b.len() == 32 && s@ == #[trigger] hex_encode(b),
            Err(e) => e@ == "operating system randomness unavailable"@,
        },
{
    match os_random(32) {
        Err(_) => Err(String::from_str("operating system randomness unavailable")),
        Ok(bytes) => Ok(hex(&bytes)),
    }
}

/// Issues a device credential: 32 OS-random bytes, hex-encoded (64 lower-case
/// hex digits).
pub fn issue_device_credential() -> (r: Result<String, String>)
    ensures
        match r {
            Ok(s) => s@.len() == 64 && all_ascii_hexdigits(s@) && exists|b: Seq<u8>| b.len() == 32 && s@ == #[trigger] hex_encode(b),
            Err(e) => e@ == "operating system randomness unavailable"@,
        },
{
    let r = random_secret();
    proof {
        if r is Ok {
            let b = choose|b: Seq<u8>| b.len() == 32 && r.unwrap()@ == #[trigger] hex_encode(b);
            lemma_hex_encode_len(b);
        }
    }
    r
}

/// The stored digest of a secret.
pub fn hash_secret(secret: &str) -> (r: [u8; 32])
    ensures
        r@ == sha256(encode_utf8(secret@)),
{
    sha256_digest(secret.as_bytes())
}

/// Equality of two digests, examining every byte whatever the earlier ones.
fn ct_digest_eq(left: &[u8; 32], right: &[u8; 32]) -> (r: bool)
    ensures
        r == (left@ == right@),
{
    let mut acc: u8 = 0;
    let mut i: usize = 0;
    while i < 32
        invariant
            i <= 32,
            left@.len() == 32,
            right@.len() == 32,
            (acc == 0) == (forall|j: int| 0 <= j < i ==> left@[j] == right@[j]),
        decreases 32 - i,
    {
        let x = left[i];
        let y = right[i];
        let d = x ^ y;
        assert((x ^ y == 0) == (x == y)) by (bit_vector);
        assert(((acc | d) == 0) == (acc == 0 && d == 0)) by (bit_vector);
        acc = acc | d;
        i += 1;
    }
    if acc == 0 {
        assert(left@ =~= right@);
        true
    } else {
        false
    }
}

/// Whether a presented credential hashes to the stored digest.
pub fn credential_matches(stored: &[u8; 32], presented: &str) -> (r: bool)
    ensures
        r == (stored@ == sha256(encode_utf8(presented@))),
{
    let digest = hash_secret(presented);
    ct_digest_eq(stored, &digest)
}

/// What a pairing begins with: the code to transfer to the device out of
/// band, and how long it stays valid.
#[derive(Debug, Clone)]
pub struct PairingOffer {
    pub code: String,
    pub expires_in_seconds: u64,
}

struct PendingPairing {
    digest: [u8; 32],
    label: String,
    expires: u64,
}

/// A pending offer: (code digest, operator label, expiry in clock ms).
pub type Pending = (Seq<u8>, Seq<char>, u64);

spec fn pending_view(v: Seq<PendingPairing>) -> Seq<Pending> {
    v.map_values(|p: PendingPairing| (p.digest@, p.label@, p.expires))
}

/// The offers still live at `now`, in order.
pub open spec fn live_offers(v: Seq<Pending>, now: u64) -> Seq<Pending>
    decreases v.len(),
{
    if v.len() == 0 {
        v
    } else if v.last().2 > now {
        live_offers(v.drop_last(), now).push(v.last())
    } else {
        live_offers(v.drop_last(), now)
    }
}

proof fn lemma_live_offers_len(v: Seq<Pending>, now: u64)
    ensures
        live_offers(v, now).len() <= v.len(),
    decreases v.len(),
{
    if v.len() > 0 {
        lemma_live_offers_len(v.drop_last(), now);
    }
}

/// The last position whose digest is `d`.
pub open spec fn last_match(v: Seq<Pending>, d: Seq<u8>) -> Option<int>
    decreases v.len(),
{
    if v.len() == 0 {
        None
    } else if v.last().0 == d {
        Some(v.len() - 1)
    } else {
        last_match(v.drop_last(), d)
    }
}

/// A label an operator may give a device: 1 to 128 bytes once trimmed, with
/// no control characters.
pub open spec fn label_ok(label: Seq<char>) -> bool {
    let t = trim(label);
    t.len() > 0 && encode_utf8(t).len() <= MAX_PAIRING_LABEL_BYTES && !has_control(t)
}

/// The public error for any code that cannot be consumed: malformed, wrong
/// or expired codes are indistinguishable.
pub open spec fn invalid_code_message() -> Seq<char> {
    "invalid or expired pairing code"@
}

/// The shape of a pairing code: 64 hexadecimal digits.
pub open spec fn code_shape_ok(code: Seq<char>) -> bool {
    code.len() == 64 && all_ascii_hexdigits(code)
}

pub open spec fn sat_add(a: u64, b: u64) -> u64 {
    if a + b > u64::MAX {
        u64::MAX
    } else {
        (a + b) as u64
    }
}

pub open spec fn label_error_message() -> Seq<char> {
    "pairing label must be 1..=128 bytes with no control characters"@
}

pub open spec fn randomness_error_message() -> Seq<char> {
    "operating system randomness unavailable"@
}

pub open spec fn too_many_message() -> Seq<char> {
    "too many pending pairings; wait for one to expire"@
}

/// The digest a presented code is looked up by: its lower-case form, hashed.
pub open spec fn code_digest(code: Seq<char>) -> Seq<u8> {
    sha256(encode_utf8(lower_seq(code)))
}

/// Consuming `code` at `now` against the offers `v`: the label of the live
/// offer it unlocks (the last one, should several share its digest) and the
/// offers afterwards, or the single public error.
pub open spec fn consume_spec(v: Seq<Pending>, code: Seq<char>, now: u64) -> (Result<Seq<char>, Seq<char>>, Seq<Pending>) {
    if !code_shape_ok(code) {
        (Err(invalid_code_message()), v)
    } else {
        let live = live_offers(v, now);
        match last_match(live, code_digest(code)) {
            None => (Err(invalid_code_message()), live),
            Some(i) => (Ok(live[i].1), live.remove(i)),
        }
    }
}

/// The pending pairing offers.
pub struct PairingStore {
    pending: Vec<PendingPairing>,
    clock: Clock,
}

impl PairingStore {
    pub closed spec fn view(&self) -> Seq<Pending> {
        pending_view(self.pending@)
    }

    pub closed spec fn wf(&self) -> bool {
        self.view().len() <= MAX_PENDING_PAIRINGS
    }

    pub fn new() -> (r: PairingStore)
        ensures
            r.wf(),
            r.view().len() == 0,
    {
        let r = PairingStore { pending: Vec::new(), clock: Clock::start() };
        assert(r.view() =~= Seq::<Pending>::empty());
        r
    }

    /// How many offers are pending (expired ones are dropped on the next
    /// offer or redemption).
    pub fn pending_count(&self) -> (r: usize)
        ensures
            r == self.view().len(),
    {
        self.pending.len()
    }

    /// Offers a new one-time code for a device the operator labels.
    pub fn begin_at(&mut self, label: &str, now: u64) -> (r: Result<PairingOffer, String>)
        requires
            old(self).wf(),
        ensures
            final(self).wf(),
            !label_ok(label@) ==> r is Err && r->Err_0@ == label_error_message() && final(self).view() == old(self).view(),
            label_ok(label@) ==> match r {
                Ok(offer) => {
                    &&& offer.expires_in_seconds == 600
                    &&& offer.code@.len() == 64
                    &&& (exists|b: Seq<u8>| b.len() == 32 && offer.code@ == #[trigger] hex_encode(b))
                    &&& live_offers(old(self).view(), now).len() < MAX_PENDING_PAIRINGS
                    &&& final(self).view() == live_offers(old(self).view(), now).push(
                        (sha256(encode_utf8(offer.code@)), trim(label@), sat_add(now, PAIRING_TTL_MS)),
                    )
                },
                Err(e) => (e@ == randomness_error_message() && final(self).view() == old(self).view())
                    || (e@ == too_many_message() && live_offers(old(self).view(), now).len() >= MAX_PENDING_PAIRINGS
                        && final(self).view() == live_offers(old(self).view(), now)),
            },
    {
        let raw = chars_of(label);
        let t = trim_chars(&raw);
        let trimmed = string_of(&t);
        let mut controls = false;
        let mut i: usize = 0;
        while i < t.len()
            invariant
                i <= t@.len(),
                controls == exists|j: int| 0 <= j < i && is_control(#[trigger] t@[j]),
            decreases t.len() - i,
        {
            if char_is_control(t[i]) {
                controls = true;
            }
            i += 1;
        }
        assert(controls == has_control(t@));
        assert(t@ == trim(label@));
        assert(label_ok(label@) == !(t@.len() == 0 || encode_utf8(t@).len() > MAX_PAIRING_LABEL_BYTES || controls));
        if t.len() == 0 || trimmed.as_str().as_bytes().len() > MAX_PAIRING_LABEL_BYTES || controls {
            return Err(String::from_str("pairing label must be 1..=128 bytes with no control characters"));
        }
        let code = match random_secret() {
            Err(e) => return Err(e),
            Ok(code) => code,
        };
        self.prune(now);
        proof {
            lemma_live_offers_len(old(self).view(), now);
        }
        if self.pending.len() >= MAX_PENDING_PAIRINGS {
            return Err(String::from_str("too many pending pairings; wait for one to expire"));
        }
        let digest = hash_secret(code.as_str());
        let ghost before = self.pending@;
        self.pending.push(PendingPairing { digest, label: trimmed, expires: now.saturating_add(PAIRING_TTL_MS) });
        assert(self.view() =~= pending_view(before).push((digest@, t@, sat_add(now, PAIRING_TTL_MS))));
        proof {
            let b = choose|b: Seq<u8>| b.len() == 32 && code@ == #[trigger] hex_encode(b);
            lemma_hex_encode_len(b);
        }
        Ok(PairingOffer { code, expires_in_seconds: 600 })
    }

    /// Offers a new one-time code, timed by the store's clock.
    pub fn begin(&mut self, label: &str) -> (r: Result<PairingOffer, String>)
        requires
            old(self).wf(),
        ensures
            final(self).wf(),
            r is Ok ==> label_ok(label@),
            !label_ok(label@) ==> r is Err && r->Err_0@ == label_error_message() && final(self).view() == old(self).view(),
    {
        let now = self.clock.now_ms();
        self.begin_at(label, now)
    }

    /// Consumes a live code at `now` and returns its operator label; any code
    /// that cannot be consumed gets the same error.
    pub fn consume_at(&mut self, code: &str, now: u64) -> (r: Result<String, String>)
        requires
            old(self).wf(),
        ensures
            final(self).wf(),
            (match r {
                Ok(l) => Ok::<Seq<char>, Seq<char>>(l@),
                Err(e) => Err::<Seq<char>, Seq<char>>(e@),
            }, final(self).view()) == consume_spec(old(self).view(), code@, now),
    {
        let c = chars_of(code);
        let mut shape = c.len() == 64;
        let mut i: usize = 0;
        while i < c.len()
            invariant
                i <= c@.len(),
                shape == (c@.len() == 64 && forall|j: int| 0 <= j < i ==> crate::text::is_ascii_hexdigit(#[trigger] c@[j])),
            decreases c.len() - i,
        {
            if !char_is_hexdigit(c[i]) {
                shape = false;
            }
            i += 1;
        }
        if !shape {
            return Err(String::from_str("invalid or expired pairing code"));
        }
        let lowered = lower_chars(&c);
        let lowered_text = string_of(&lowered);
        let wanted = hash_secret(lowered_text.as_str());
        self.prune(now);
        proof {
            lemma_live_offers_len(old(self).view(), now);
        }
        let ghost live = self.view();
        let mut found: Option<usize> = None;
        let mut j: usize = 0;
        while j < self.pending.len()
            invariant
                j <= self.pending@.len(),
                self.view() == live,
                live.len() == self.pending@.len(),
                match found {
                    Some(f) => f < j && last_match(live.take(j as int), wanted@) == Some(f as int),
                    None => last_match(live.take(j as int), wanted@) is None,
                },
            decreases self.pending.len() - j,
        {
            assert(live.take(j + 1).drop_last() =~= live.take(j as int));
            if ct_digest_eq(&self.pending[j].digest, &wanted) {
                found = Some(j);
            }
            j += 1;
        }
        assert(live.take(live.len() as int) =~= live);
        match found {
            None => Err(String::from_str("invalid or expired pairing code")),
            Some(index) => {
                let taken = self.pending.remove(index);
                assert(self.view() =~= live.remove(index as int));
                Ok(taken.label)
            },
        }
    }

    /// Consumes a live code, timed by the store's clock. Call it only once
    /// the rest of the registration is valid: a bad callback must not burn a
    /// legitimate one-time code.
    pub fn consume(&mut self, code: &str) -> (r: Result<String, String>)
        requires
            old(self).wf(),
        ensures
            final(self).wf(),
            r matches Err(e) ==> e@ == invalid_code_message(),
            !code_shape_ok(code@) ==> r is Err && final(self).view() == old(self).view(),
    {
        let now = self.clock.now_ms();
        self.consume_at(code, now)
    }

    fn prune(&mut self, now: u64)
        ensures
            final(self).view() == live_offers(old(self).view(), now),
    {
        let ghost w = self.view();
        let mut old_pending: Vec<PendingPairing> = Vec::new();
        std::mem::swap(&mut old_pending, &mut self.pending);
        let mut kept: Vec<PendingPairing> = Vec::new();
        assert(pending_view(kept@) =~= live_offers(w.take(0), now));
        let mut i: usize = 0;
        while i < old_pending.len()
            invariant
                i <= old_pending@.len(),
                pending_view(old_pending@) == w,
                pending_view(kept@) == live_offers(w.take(i as int), now),
            decreases old_pending.len() - i,
        {
            assert(w.take(i + 1).drop_last() =~= w.take(i as int));
            if old_pending[i].expires > now {
                let ghost before = kept@;
                kept.push(PendingPairing {
                    digest: old_pending[i].digest,
                    label: old_pending[i].label.clone(),
                    expires: old_pending[i].expires,
                });
                assert(pending_view(kept@) =~= pending_view(before).push(w[i as int]));
            }
            i += 1;
        }
        assert(w.take(w.len() as int) =~= w);
        self.pending = kept;
    }
}

/// Law of pairing: a code unlocks at most one enrollment. Once a consume
/// succeeds, consuming the same code again fails at any later time, provided
/// no other pending offer was made for the same digest.
pub proof fn law_code_is_single_use(v: Seq<Pending>, code: Seq<char>, now: u64, later: u64)
    requires
        forall|i: int, j: int| 0 <= i < j < v.len() ==> (#[trigger] v[i]).0 != (#[trigger] v[j]).0,
    ensures
        consume_spec(v, code, now).0 is Ok ==> consume_spec(consume_spec(v, code, now).1, code, later).0 is Err,
{
    if code_shape_ok(code) {
        let live = live_offers(v, now);
        let d = code_digest(code);
        lemma_live_offers_sub(v, now);
        lemma_last_match(live, d);
        if last_match(live, d) is Some {
            let i = last_match(live, d).unwrap();
            let rest = live.remove(i);
            assert forall|m: int| 0 <= m < rest.len() implies (#[trigger] rest[m]).0 != d by {
                let a = if m < i { m } else { m + 1 };
                assert(rest[m] == live[a]);
                let ia = choose|k: int| 0 <= k < v.len() && v[k] == #[trigger] live[a];
                let ii = choose|k: int| 0 <= k < v.len() && v[k] == #[trigger] live[i];
                lemma_live_offers_order(v, now, a, i);
            }
            lemma_live_offers_sub(rest, later);
            let live2 = live_offers(rest, later);
            assert forall|m: int| 0 <= m < live2.len() implies (#[trigger] live2[m]).0 != d by {
                let k = choose|k: int| 0 <= k < rest.len() && rest[k] == #[trigger] live2[m];
            }
            lemma_last_match(live2, d);
        }
    }
}

proof fn lemma_last_match(v: Seq<Pending>, d: Seq<u8>)
    ensures
        match last_match(v, d) {
            Some(i) => 0 <= i < v.len() && v[i].0 == d,
            None => forall|m: int| 0 <= m < v.len() ==> (#[trigger] v[m]).0 != d,
        },
    decreases v.len(),
{
    if v.len() > 0 && v.last().0 != d {
        lemma_last_match(v.drop_last(), d);
        if last_match(v, d) is None {
            assert forall|m: int| 0 <= m < v.len() implies (#[trigger] v[m]).0 != d by {
                if m < v.len() - 1 {
                    assert(v[m] == v.drop_last()[m]);
                }
            }
        }
    }
}

proof fn lemma_live_offers_sub(v: Seq<Pending>, now: u64)
    ensures
        live_offers(v, now).len() <= v.len(),
        forall|j: int| 0 <= j < live_offers(v, now).len() ==> exists|i: int| 0 <= i < v.len() && v[i] == #[trigger] live_offers(v, now)[j],
    decreases v.len(),
{
    if v.len() > 0 {
        lemma_live_offers_sub(v.drop_last(), now);
        let l = live_offers(v.drop_last(), now);
        assert forall|j: int| 0 <= j < live_offers(v, now).len() implies exists|i: int| 0 <= i < v.len() && v[i] == #[trigger] live_offers(v, now)[j] by {
            if j < l.len() {
                assert(live_offers(v, now)[j] == l[j]);
                let i = choose|i: int| 0 <= i < v.drop_last().len() && v.drop_last()[i] == #[trigger] l[j];
                assert(v[i] == l[j]);
            } else {
                assert(live_offers(v, now)[j] == v[v.len() - 1]);
            }
        }
    }
}

/// Distinct positions of the live offers come from distinct offers.
proof fn lemma_live_offers_order(v: Seq<Pending>, now: u64, a: int, b: int)
    requires
        forall|i: int, j: int| 0 <= i < j < v.len() ==> (#[trigger] v[i]).0 != (#[trigger] v[j]).0,
        0 <= a < live_offers(v, now).len(),
        0 <= b < live_offers(v, now).len(),
        a != b,
    ensures
        live_offers(v, now)[a].0 != live_offers(v, now)[b].0,
    decreases v.len(),
{
    let l = live_offers(v.drop_last(), now);
    lemma_live_offers_sub(v.drop_last(), now);
    if v.last().2 > now {
        if a < l.len() && b < l.len() {
            lemma_live_offers_order(v.drop_last(), now, a, b);
        } else if a < l.len() {
            let i = choose|i: int| 0 <= i < v.drop_last().len() && v.drop_last()[i] == #[trigger] l[a];
            assert(v[i] == l[a]);
        } else {
            let i = choose|i: int| 0 <= i < v.drop_last().len() && v.drop_last()[i] == #[trigger] l[b];
            assert(v[i] == l[b]);
        }
    } else {
        lemma_live_offers_order(v.drop_last(), now, a, b);
    }
}

} // verus!
