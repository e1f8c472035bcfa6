use vstd::prelude::*;
use vstd::utf8::encode_utf8;

verus! {

/// The SHA-256 digest of a byte sequence.
pub uninterp spec fn sha256_of(data: Seq<u8>) -> Seq<u8>;

/// Relies on sha2's `Sha256::digest`: the result is the SHA-256 digest of the
/// bytes, which depends on the bytes alone.
#[verifier::external_body]
fn sha256(data: &[u8]) -> (r: Vec<u8>)
    ensures
        r@ == sha256_of(data@),
{
    <sha2::Sha256 as sha2::Digest>::digest(data).to_vec()
}

/// The one-way verifier kept in place of a secret: the digest of its UTF-8 bytes.
pub open spec fn verifier_of(secret: Seq<char>) -> Seq<u8> {
    sha256_of(encode_utf8(secret))
}

/// Compares two byte sequences in time that depends on their length only.
pub fn digests_equal(a: &[u8], b: &[u8]) -> (r: bool)
    ensures
        r == (a@ == b@),
{
    if a.len() != b.len() {
        return false;
    }
    let mut acc: u8 = 0;
    let mut i: usize = 0;
    while i < a.len()
        invariant
            a@.len() == b@.len(),
            0 <= i <= a@.len(),
            (acc == 0) == (forall|j: int| 0 <= j < i ==> a@[j] == b@[j]),
        decreases a@.len() - i,
    {
        let x = a[i];
        let y = b[i];
        let next = acc | (x ^ y);
        assert((next == 0) == (acc == 0 && x == y)) by (bit_vector)
            requires
                next == acc | (x ^ y),
        ;
        acc = next;
        i = i + 1;
    }
    assert((acc == 0) == (a@ =~= b@));
    acc == 0
}

/// Why a verification was refused.
#[derive(Debug, Clone, Copy, PartialEq, Eq, Structural)]
pub enum SecretError {
    /// No secret is stored.
    NotSet,
    /// Too many mismatches: every candidate is refused until the lock ends.
    Locked,
    /// The candidate does not match; carries the number of failed attempts so far.
    Mismatch(u32),
}

/// Mathematical state of a secret cache.
pub struct SecretView {
    pub verifier: Option<Seq<u8>>,
    pub failed_attempts: u32,
    pub locked_until: Option<u64>,
    pub lockout_threshold: u32,
    pub lockout_duration: u64,
}

impl SecretView {
    pub open spec fn is_locked(self, now: u64) -> bool {
        match self.locked_until {
            Some(until) => now < until,
            None => false,
        }
    }

    /// Storing a secret keeps its verifier, resets the counter and lifts any lock.
    pub open spec fn after_set(self, secret: Seq<char>) -> SecretView {
        SecretView {
            verifier: Some(verifier_of(secret)),
            failed_attempts: 0,
            locked_until: None,
            ..self
        }
    }

    pub open spec fn after_clear(self) -> SecretView {
        SecretView { verifier: None, ..self }
    }

    /// The state after a mismatch at time `now`: one more failed attempt, and a
    /// lock of `lockout_duration` once the count reaches the threshold. The
    /// count stops at `u32::MAX`, and the end of a lock at `u64::MAX`.
    pub open spec fn after_mismatch(self, now: u64) -> SecretView {
        let n = self.failed_attempts.saturating_add(1);
        if n >= self.lockout_threshold {
            SecretView {
                failed_attempts: n,
                locked_until: Some(now.saturating_add(self.lockout_duration)),
                ..self
            }
        } else {
            SecretView { failed_attempts: n, ..self }
        }
    }

    /// State and answer after verifying a candidate whose verifier is `digest`.
    pub open spec fn verify_outcome(self, digest: Seq<u8>, now: u64) -> (SecretView, Result<(), SecretError>) {
        if self.is_locked(now) {
            (self, Err(SecretError::Locked))
        } else {
            match self.verifier {
                None => (self, Err(SecretError::NotSet)),
                Some(stored) => if stored == digest {
                    (SecretView { failed_attempts: 0, locked_until: None, ..self }, Ok(()))
                } else {
                    let next = self.after_mismatch(now);
                    if next.is_locked(now) {
                        (next, Err(SecretError::Locked))
                    } else {
                        (next, Err(SecretError::Mismatch(next.failed_attempts)))
                    }
                },
            }
        }
    }
}

/// The state after `k` verifications of the same candidate at the same time.
pub open spec fn after_attempts(v: SecretView, digest: Seq<u8>, now: u64, k: nat) -> SecretView
    decreases k,
{
    if k == 0 {
        v
    } else {
        after_attempts(v, digest, now, (k - 1) as nat).verify_outcome(digest, now).0
    }
}

/// The failed-attempt counter grows by exactly one on each mismatch (the one
/// that starts a lockout included) and falls to zero on a match and on a set;
/// a refusal because of a running lock changes nothing.
pub proof fn law_attempt_counter(v: SecretView, digest: Seq<u8>, now: u64, secret: Seq<char>)
    requires
        v.failed_attempts < u32::MAX,
    ensures
        ({
            let (w, r) = v.verify_outcome(digest, now);
            &&& (r matches Err(SecretError::Mismatch(n)) ==> n == v.failed_attempts + 1
                && w.failed_attempts == n)
            &&& (r is Ok ==> w.failed_attempts == 0)
            &&& (!v.is_locked(now) && v.verifier is Some && v.verifier != Some(digest)
                ==> w.failed_attempts == v.failed_attempts + 1)
            &&& (v.is_locked(now) ==> w == v && r == Err::<(), SecretError>(SecretError::Locked))
        }),
        v.after_set(secret).failed_attempts == 0,
{
}

proof fn lemma_attempts_count(v: SecretView, digest: Seq<u8>, now: u64, k: nat)
    requires
        v.verifier is Some,
        v.verifier != Some(digest),
        v.failed_attempts == 0,
        v.locked_until is None,
        1 <= k <= v.lockout_threshold,
    ensures
        after_attempts(v, digest, now, k) == (SecretView {
            failed_attempts: k as u32,
            locked_until: if k == v.lockout_threshold {
                Some(now.saturating_add(v.lockout_duration))
            } else {
                None
            },
            ..v
        }),
    decreases k,
{
    let prev = after_attempts(v, digest, now, (k - 1) as nat);
    if k > 1 {
        lemma_attempts_count(v, digest, now, (k - 1) as nat);
    } else {
        assert(prev == v);
    }
    assert(!prev.is_locked(now));
    assert(prev.failed_attempts.saturating_add(1) == k);
}

/// After `lockout_threshold` consecutive mismatches from a fresh start, the
/// cache is locked until `now + lockout_duration`: before that time every
/// candidate, the correct one included, is refused with `Locked` and changes
/// nothing; from that time on candidates are judged as usual again.
pub proof fn law_lockout(v: SecretView, wrong: Seq<u8>, now: u64)
    requires
        v.verifier is Some,
        v.verifier != Some(wrong),
        v.failed_attempts == 0,
        v.locked_until is None,
        v.lockout_threshold >= 1,
    ensures
        ({
            let l = after_attempts(v, wrong, now, v.lockout_threshold as nat);
            let until = now.saturating_add(v.lockout_duration);
            &&& l.locked_until == Some(until)
            &&& forall|d: Seq<u8>, t: u64|
                t < until ==> #[trigger] l.verify_outcome(d, t) == (l, Err::<(), SecretError>(SecretError::Locked))
            &&& forall|d: Seq<u8>, t: u64|
                t >= until ==> (#[trigger] l.verify_outcome(d, t)).1
                    == (SecretView { locked_until: None, ..l }).verify_outcome(d, t).1
            &&& forall|t: u64| t >= until ==> (#[trigger] l.verify_outcome(v.verifier->0, t)).1 is Ok
        }),
{
    lemma_attempts_count(v, wrong, now, v.lockout_threshold as nat);
}

/// An in-memory verifier of a short secret, with a counter of failed attempts
/// and a time-bounded lockout. Times are plain numbers in one unit chosen by
/// the caller (the lockout duration is in the same unit).
pub struct SecretCache {
    verifier: Option<Vec<u8>>,
    failed_attempts: u32,
    locked_until: Option<u64>,
    lockout_threshold: u32,
    lockout_duration: u64,
}

impl View for SecretCache {
    type V = SecretView;

    closed spec fn view(&self) -> SecretView {
        SecretView {
            verifier: match self.verifier {
                Some(v) => Some(v@),
                None => None,
            },
            failed_attempts: self.failed_attempts,
            locked_until: self.locked_until,
            lockout_threshold: self.lockout_threshold,
            lockout_duration: self.lockout_duration,
        }
    }
}

impl SecretCache {
    /// An empty cache: no secret, no failures, no lock.
    pub fn new(lockout_threshold: u32, lockout_duration: u64) -> (r: SecretCache)
        ensures
            r@ == (SecretView {
                verifier: None,
                failed_attempts: 0,
                locked_until: None,
                lockout_threshold,
                lockout_duration,
            }),
    {
        SecretCache {
            verifier: None,
            failed_attempts: 0,
            locked_until: None,
            lockout_threshold,
            lockout_duration,
        }
    }

    /// Stores the verifier of `secret`, resets the counter and lifts any lock.
    pub fn set(&mut self, secret: &str)
        ensures
            final(self)@ == old(self)@.after_set(secret@),
    {
        let digest = sha256(secret.as_bytes());
        self.set_digest(digest);
    }

    /// Stores an already computed verifier, resets the counter and lifts any lock.
    pub fn set_digest(&mut self, digest: Vec<u8>)
        ensures
            final(self)@ == (SecretView {
                verifier: Some(digest@),
                failed_attempts: 0,
                locked_until: None,
                ..old(self)@
            }),
    {
        self.verifier = Some(digest);
        self.failed_attempts = 0;
        self.locked_until = None;
    }

    pub fn clear(&mut self)
        ensures
            final(self)@ == old(self)@.after_clear(),
    {
        self.verifier = None;
    }

    /// Checks `candidate` at time `now` (see `SecretView::verify_outcome`).
    pub fn verify(&mut self, candidate: &str, now: u64) -> (r: Result<(), SecretError>)
        ensures
            (final(self)@, r) == old(self)@.verify_outcome(verifier_of(candidate@), now),
    {
        let digest = sha256(candidate.as_bytes());
        self.verify_digest(&digest, now)
    }

    /// Checks a candidate given by its verifier `digest` at time `now`.
    pub fn verify_digest(&mut self, digest: &[u8], now: u64) -> (r: Result<(), SecretError>)
        ensures
            (final(self)@, r) == old(self)@.verify_outcome(digest@, now),
    {
        let locked = match self.locked_until {
            Some(until) => now < until,
            None => false,
        };
        if locked {
            return Err(SecretError::Locked);
        }
        let matched = match &self.verifier {
            None => {
                return Err(SecretError::NotSet);
            },
            Some(stored) => digests_equal(stored.as_slice(), digest),
        };
        if matched {
            self.failed_attempts = 0;
            self.locked_until = None;
            Ok(())
        } else {
            let n = self.failed_attempts.saturating_add(1);
            self.failed_attempts = n;
            if n >= self.lockout_threshold {
                let until = now.saturating_add(self.lockout_duration);
                self.locked_until = Some(until);
                if now < until {
                    return Err(SecretError::Locked);
                }
            }
            Err(SecretError::Mismatch(n))
        }
    }

    pub fn is_set(&self) -> (r: bool)
        ensures
            r == (self@.verifier is Some),
    {
        self.verifier.is_some()
    }

    /// The stored verifier, if a secret is set.
    pub fn stored_digest(&self) -> (r: Option<Vec<u8>>)
        ensures
            r matches Some(v) ==> self@.verifier == Some(v@),
            r is None <==> self@.verifier is None,
    {
        match &self.verifier {
            Some(v) => Some(v.clone()),
            None => None,
        }
    }

    pub fn failed_attempts(&self) -> (r: u32)
        ensures
            r == self@.failed_attempts,
    {
        self.failed_attempts
    }

    pub fn locked_until(&self) -> (r: Option<u64>)
        ensures
            r == self@.locked_until,
    {
        self.locked_until
    }

    pub fn is_locked(&self, now: u64) -> (r: bool)
        ensures
            r == self@.is_locked(now),
    {
        match self.locked_until {
            Some(until) => now < until,
            None => false,
        }
    }
}

} // verus!
