//! Private-tracker authentication: expiring 32-character alphanumeric
//! keys, checked on every request. Malformed, unknown and expired keys
//! are told apart exactly in the error values — the wire reports one
//! generic reason for all of them. Expiry is inclusive, and a key
//! without a deadline never expires.

use vstd::prelude::*;

verus! {

/// One ASCII letter or digit.
pub open spec fn spec_is_alnum(b: u8) -> bool {
    (48 <= b <= 57) || (65 <= b <= 90) || (97 <= b <= 122)
}

/// A well-formed key value: exactly 32 alphanumeric characters.
pub open spec fn spec_key_format_ok(s: Seq<u8>) -> bool {
    s.len() == 32 && forall|i: int| 0 <= i < s.len() ==> spec_is_alnum(#[trigger] s[i])
}

/// Checks the 32-character alphanumeric format.
pub fn key_format_ok(bytes: &[u8]) -> (r: bool)
    ensures
        r == spec_key_format_ok(bytes@),
{
    if bytes.len() != 32 {
        return false;
    }
    let mut i: usize = 0;
    while i < bytes.len()
        invariant
            i <= bytes@.len(),
            forall|k: int| 0 <= k < i ==> spec_is_alnum(#[trigger] bytes@[k]),
        decreases bytes@.len() - i,
    {
        let b = bytes[i];
        let ok = (48 <= b && b <= 57) || (65 <= b && b <= 90) || (97 <= b && b <= 122);
        if !ok {
            return false;
        }
        i = i + 1;
    }
    true
}

/// An issued authentication key: the secret and its optional deadline
/// (seconds since the epoch, inclusive).
#[derive(Clone, Debug, PartialEq, Eq)]
pub struct Key {
    pub value: Vec<u8>,
    pub valid_until: Option<u64>,
}

/// A key is expired at `now` when it has a deadline and `now` lies
/// strictly past it.
pub open spec fn spec_key_expired(k: Key, now_secs: u64) -> bool {
    match k.valid_until {
        Some(t) => now_secs > t,
        None => false,
    }
}

/// True when the store holds a key under this value.
pub open spec fn spec_contains_key(ks: Seq<Key>, v: Seq<u8>) -> bool {
    exists|i: int| 0 <= i < ks.len() && ks[i].value@ == v
}

/// Index of the key under this value (unique under `wf`).
pub open spec fn spec_index_of_key(ks: Seq<Key>, v: Seq<u8>) -> int {
    choose|i: int| 0 <= i < ks.len() && ks[i].value@ == v
}

/// Why a request failed authentication.
#[derive(Clone, Copy, Debug, PartialEq, Eq, Structural)]
pub enum AuthenticationError {
    /// Not 32 alphanumeric characters.
    Malformed,
    /// Well formed but not in the store.
    UnknownKey,
    /// In the store, past its deadline.
    KeyExpired,
}

impl AuthenticationError {
    /// Names the cause for the operator's log. Clients are never told
    /// these words: the wire carries one generic failure reason for
    /// every store-level cause.
    pub fn message(&self) -> (r: &'static str)
        ensures
            self is Malformed ==> r@ == "invalid key format"@,
            self is UnknownKey ==> r@ == "unknown key"@,
            self is KeyExpired ==> r@ == "key expired"@,
    {
        match self {
            AuthenticationError::Malformed => "invalid key format",
            AuthenticationError::UnknownKey => "unknown key",
            AuthenticationError::KeyExpired => "key expired",
        }
    }
}

/// What authenticating a key against a store yields: format first,
/// then presence, then the deadline.
pub open spec fn spec_authenticate(ks: Seq<Key>, key: Seq<u8>, now_secs: u64) -> Result<
    (),
    AuthenticationError,
> {
    if !spec_key_format_ok(key) {
        Err(AuthenticationError::Malformed)
    } else if !spec_contains_key(ks, key) {
        Err(AuthenticationError::UnknownKey)
    } else if spec_key_expired(ks[spec_index_of_key(ks, key)], now_secs) {
        Err(AuthenticationError::KeyExpired)
    } else {
        Ok(())
    }
}

/// The key store a private tracker consults; keys are durable and a
/// removal revokes at once.
pub struct AuthenticationService {
    pub keys: Vec<Key>,
}

impl AuthenticationService {
    /// Each key value appears at most once.
    pub open spec fn wf(self) -> bool {
        forall|i: int, j: int|
            0 <= i < j < self.keys@.len()
                ==> (#[trigger] self.keys@[i]).value@ != (#[trigger] self.keys@[j]).value@
    }

    pub fn new() -> (r: AuthenticationService)
        ensures
            r.wf(),
            r.keys@.len() == 0,
    {
        AuthenticationService { keys: Vec::new() }
    }

    fn find_key(&self, v: &[u8]) -> (r: Option<usize>)
        ensures
            r matches Some(i) ==> i < self.keys@.len() && self.keys@[i as int].value@ == v@,
            r is None ==> !spec_contains_key(self.keys@, v@),
    {
        let mut i: usize = 0;
        while i < self.keys.len()
            invariant
                i <= self.keys@.len(),
                forall|k: int| 0 <= k < i ==> (#[trigger] self.keys@[k]).value@ != v@,
            decreases self.keys@.len() - i,
        {
            if eq_bytes(self.keys[i].value.as_slice(), v) {
                return Some(i);
            }
            i = i + 1;
        }
        None
    }

    proof fn lemma_at_index(ks: Seq<Key>, i: int)
        requires
            0 <= i < ks.len(),
            forall|a: int, b: int|
                0 <= a < b < ks.len() ==> (#[trigger] ks[a]).value@ != (#[trigger] ks[b]).value@,
        ensures
            spec_contains_key(ks, ks[i].value@),
            spec_index_of_key(ks, ks[i].value@) == i,
    {
        assert(spec_contains_key(ks, ks[i].value@));
        let j = spec_index_of_key(ks, ks[i].value@);
        if j != i {
            if j < i {
                assert(ks[j].value@ != ks[i].value@);
            } else {
                assert(ks[i].value@ != ks[j].value@);
            }
        }
    }

    /// Authenticates one request: `Ok` exactly for a well-formed key
    /// that the store holds and whose deadline has not passed; each
    /// failure names its cause.
    pub fn authenticate(&self, key: &[u8], now_secs: u64) -> (r: Result<(), AuthenticationError>)
        requires
            self.wf(),
        ensures
            r == Result::<(), AuthenticationError>::Err(AuthenticationError::Malformed)
                <==> !spec_key_format_ok(key@),
            r == Result::<(), AuthenticationError>::Err(AuthenticationError::UnknownKey)
                <==> spec_key_format_ok(key@) && !spec_contains_key(self.keys@, key@),
            r == Result::<(), AuthenticationError>::Err(AuthenticationError::KeyExpired)
                <==> spec_key_format_ok(key@) && spec_contains_key(self.keys@, key@)
                    && spec_key_expired(self.keys@[spec_index_of_key(self.keys@, key@)], now_secs),
            r is Ok <==> spec_key_format_ok(key@) && spec_contains_key(self.keys@, key@)
                && !spec_key_expired(self.keys@[spec_index_of_key(self.keys@, key@)], now_secs),
            r == spec_authenticate(self.keys@, key@, now_secs),
    {
        if !key_format_ok(key) {
            return Err(AuthenticationError::Malformed);
        }
        match self.find_key(key) {
            None => Err(AuthenticationError::UnknownKey),
            Some(i) => {
                proof {
                    Self::lemma_at_index(self.keys@, i as int);
                }
                let expired = match self.keys[i].valid_until {
                    Some(t) => now_secs > t,
                    None => false,
                };
                if expired {
                    Err(AuthenticationError::KeyExpired)
                } else {
                    Ok(())
                }
            },
        }
    }

    /// Admits a key into the store; a key already stored under the
    /// same value is replaced. Rejects a malformed value.
    pub fn add_key(&mut self, key: Key) -> (r: Result<(), AuthenticationError>)
        requires
            old(self).wf(),
        ensures
            final(self).wf(),
            r is Ok <==> spec_key_format_ok(key.value@),
            r is Err ==> *final(self) == *old(self),
            r is Ok ==> spec_contains_key(final(self).keys@, key.value@)
                && final(self).keys@[spec_index_of_key(final(self).keys@, key.value@)] == key,
    {
        if !key_format_ok(key.value.as_slice()) {
            return Err(AuthenticationError::Malformed);
        }
        let ghost ks0 = self.keys@;
        match self.find_key(key.value.as_slice()) {
            Some(i) => {
                self.keys.set(i, key);
                proof {
                    let ks1 = self.keys@;
                    assert forall|a: int, b: int| 0 <= a < b < ks1.len()
                        implies (#[trigger] ks1[a]).value@ != (#[trigger] ks1[b]).value@ by {
                        assert(ks0[a].value@ != ks0[b].value@);
                        assert(ks1[a].value@ == ks0[a].value@);
                        assert(ks1[b].value@ == ks0[b].value@);
                    }
                    Self::lemma_at_index(ks1, i as int);
                }
                Ok(())
            },
            None => {
                let ghost v = key.value@;
                self.keys.push(key);
                proof {
                    let ks1 = self.keys@;
                    assert forall|a: int, b: int| 0 <= a < b < ks1.len()
                        implies (#[trigger] ks1[a]).value@ != (#[trigger] ks1[b]).value@ by {
                        if b < ks0.len() {
                            assert(ks0[a].value@ != ks0[b].value@);
                        } else {
                            assert(ks1[b].value@ == v);
                            if ks1[a].value@ == v {
                                assert(spec_contains_key(ks0, v));
                            }
                        }
                    }
                    Self::lemma_at_index(ks1, ks0.len() as int);
                }
                Ok(())
            },
        }
    }

    /// Revokes the key stored under this value, if any; revocation is
    /// immediate.
    pub fn remove_key(&mut self, v: &[u8]) -> (removed: bool)
        requires
            old(self).wf(),
        ensures
            final(self).wf(),
            removed == spec_contains_key(old(self).keys@, v@),
            !spec_contains_key(final(self).keys@, v@),
            forall|w: Seq<u8>| w != v@ ==> (spec_contains_key(final(self).keys@, w)
                <==> spec_contains_key(old(self).keys@, w)),
    {
        let ghost ks0 = self.keys@;
        match self.find_key(v) {
            None => false,
            Some(i) => {
                self.keys.remove(i);
                proof {
                    let ks1 = self.keys@;
                    assert(ks1 =~= ks0.subrange(0, i as int) + ks0.subrange(i + 1,
                        ks0.len() as int));
                    assert forall|j: int| 0 <= j < ks1.len()
                        implies (#[trigger] ks1[j]).value@ != v@ by {
                        if j < i {
                            assert(ks1[j] == ks0[j]);
                            assert(ks0[j].value@ != ks0[i as int].value@);
                        } else {
                            assert(ks1[j] == ks0[j + 1]);
                            assert(ks0[i as int].value@ != ks0[j + 1].value@);
                        }
                    }
                    assert forall|a: int, b: int| 0 <= a < b < ks1.len()
                        implies (#[trigger] ks1[a]).value@ != (#[trigger] ks1[b]).value@ by {
                        let a0 = if a < i { a } else { a + 1 };
                        let b0 = if b < i { b } else { b + 1 };
                        assert(ks1[a] == ks0[a0]);
                        assert(ks1[b] == ks0[b0]);
                    }
                    assert forall|w: Seq<u8>| w != v@
                        implies (spec_contains_key(ks1, w) <==> spec_contains_key(ks0, w)) by {
                        if spec_contains_key(ks1, w) {
                            let j = choose|j: int| 0 <= j < ks1.len() && ks1[j].value@ == w;
                            if j < i {
                                assert(ks0[j].value@ == w);
                            } else {
                                assert(ks0[j + 1].value@ == w);
                            }
                        }
                        if spec_contains_key(ks0, w) {
                            let j = choose|j: int| 0 <= j < ks0.len() && ks0[j].value@ == w;
                            assert(j != i);
                            if j < i {
                                assert(ks1[j].value@ == w);
                            } else {
                                assert(ks1[j - 1].value@ == w);
                            }
                        }
                    }
                }
                true
            },
        }
    }
}

/// Byte-wise equality of two slices.
pub fn eq_bytes(a: &[u8], b: &[u8]) -> (r: bool)
    ensures
        r == (a@ == b@),
{
    if a.len() != b.len() {
        proof {
            assert(a@.len() != b@.len());
        }
        return false;
    }
    let mut i: usize = 0;
    while i < a.len()
        invariant
            i <= a@.len(),
            a@.len() == b@.len(),
            forall|k: int| 0 <= k < i ==> a@[k] == b@[k],
        decreases a@.len() - i,
    {
        if a[i] != b[i] {
            return false;
        }
        i = i + 1;
    }
    proof {
        assert(a@ =~= b@);
    }
    true
}

} // verus!
