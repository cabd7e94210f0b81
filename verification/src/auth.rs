//! Token service: validating the administrator key by a one-way digest,
//! issuing per-connection session tokens from the operating-system random
//! source, and checking tokens on inbound requests. At most one token is on
//! file per address: a re-login overwrites the previous binding.

use vstd::prelude::*;

use sha2::Digest;
use rand::TryRngCore;

use crate::config::{Secure, Token};
use crate::error::{AuthError, OcjError};

verus! {

/// An address a token is bound to, as the plain bits of the connecting
/// peer's IP address.
#[derive(Clone, Copy, Debug, PartialEq, Eq, Structural)]
pub enum Ip {
    V4(u32),
    V6(u128),
}

/// The SHA-256 digest of a string's bytes: a function of the characters
/// alone.
pub uninterp spec fn sha256_of(s: Seq<char>) -> Seq<u8>;

/// Relies on sha2's `Sha256` (through the `Digest` one-shot): the digest is
/// 32 bytes and depends on the input characters alone.
#[verifier::external_body]
fn sha256_digest(s: &str) -> (r: Vec<u8>)
    ensures
        r@ == sha256_of(s@),
        r@.len() == 32,
{
    sha2::Sha256::digest(s.as_bytes()).to_vec()
}

/// Relies on rand's `OsRng::try_next_u64`: draws one word from the
/// operating-system random source, or reports that source's failure.
/// Nothing can be promised of the value.
#[verifier::external_body]
fn os_random_u64() -> Result<u64, rand::rand_core::OsError> {
    rand::rngs::OsRng.try_next_u64()
}

/// `256 ^ n`.
spec fn pow256(n: nat) -> nat
    decreases n,
{
    if n == 0 {
        1
    } else {
        256 * pow256((n - 1) as nat)
    }
}

/// The little-endian value of bytes `s[i..16]`.
pub open spec fn le16_from(s: Seq<u8>, i: int) -> nat
    decreases 16 - i,
{
    if i < 0 || i >= 16 {
        0
    } else {
        (s[i] + 256 * le16_from(s, i + 1)) as nat
    }
}

proof fn lemma_le16_bound(s: Seq<u8>, i: int)
    requires
        0 <= i <= 16,
        s.len() >= 16,
        forall|j: int| 0 <= j < 16 ==> s[j] <= 255,
    ensures
        le16_from(s, i) < pow256((16 - i) as nat),
    decreases 16 - i,
{
    if i < 16 {
        lemma_le16_bound(s, i + 1);
    }
}

proof fn lemma_pow256_mono(a: nat, b: nat)
    requires
        a <= b,
    ensures
        pow256(a) <= pow256(b),
    decreases b,
{
    if a < b {
        lemma_pow256_mono(a, (b - 1) as nat);
        assert(pow256(b) == 256 * pow256((b - 1) as nat));
    }
}

/// The 128-bit key digest: the first 16 bytes of the SHA-256 digest, read
/// little-endian.
pub open spec fn spec_key_digest(s: Seq<char>) -> u128 {
    le16_from(sha256_of(s), 0) as u128
}

/// Digests a key string to the 128-bit value the service compares keys by.
pub fn hash(s: &str) -> (r: u128)
    ensures
        r == spec_key_digest(s@),
{
    let d = sha256_digest(s);
    let ghost dv = d@;
    let mut acc: u128 = 0;
    let mut i: usize = 16;
    proof {
        reveal_with_fuel(pow256, 17);
        lemma_le16_bound(dv, 0);
    }
    while i > 0
        invariant
            d@ == dv,
            dv.len() == 32,
            0 <= i <= 16,
            acc == le16_from(dv, i as int),
        decreases i,
    {
        proof {
            lemma_le16_bound(dv, i as int);
            lemma_pow256_mono((16 - i) as nat, 15);
            reveal_with_fuel(pow256, 17);
        }
        i = i - 1;
        acc = acc * 256 + (d[i] as u128);
    }
    acc
}

/// Draws a fresh 128-bit session token from two operating-system random
/// words. The token is unpredictable, so nothing is stated of its value;
/// an error is the random source's own.
pub fn gen_token() -> (r: Result<Token, OcjError>)
    ensures
        r matches Err(e) ==> e is RngCore,
{
    let a = match os_random_u64() {
        Ok(a) => a,
        Err(e) => {
            return Err(OcjError::RngCore(e));
        },
    };
    let b = match os_random_u64() {
        Ok(b) => b,
        Err(e) => {
            return Err(OcjError::RngCore(e));
        },
    };
    Ok(Token((a as u128) * 0x1_0000_0000_0000_0000u128 + (b as u128)))
}

/// The token bound to `ip` in the list, if any. For a well-formed service
/// the binding is unique, so any witness gives the same token.
spec fn spec_find(s: Seq<(Ip, Token)>, ip: Ip) -> Option<Token> {
    if exists|i: int| 0 <= i < s.len() && s[i].0 == ip {
        let i = choose|i: int| 0 <= i < s.len() && s[i].0 == ip;
        Some(s[i].1)
    } else {
        None
    }
}

/// The token service: the digest of the administrator key, and the token
/// bound to each address.
pub struct Service {
    hash_key: u128,
    tokens: Vec<(Ip, Token)>,
}

impl Service {
    /// Each address holds at most one token.
    pub closed spec fn wf(self) -> bool {
        forall|i: int, j: int|
            0 <= i < j < self.tokens@.len() ==> self.tokens@[i].0 != self.tokens@[j].0
    }

    /// The digest the administrator key is compared against.
    pub closed spec fn key_digest(self) -> u128 {
        self.hash_key
    }

    /// The token on file for `ip`, if any.
    pub closed spec fn token_of(self, ip: Ip) -> Option<Token> {
        spec_find(self.tokens@, ip)
    }

    /// A fresh service for the given administrator key: no tokens on file.
    pub fn init(key: &str) -> (r: Service)
        ensures
            r.wf(),
            r.key_digest() == spec_key_digest(key@),
            forall|ip: Ip| r.token_of(ip) is None,
    {
        Service { hash_key: hash(key), tokens: Vec::new() }
    }

    /// The index of `ip`'s binding, if one is on file.
    fn find_index(&self, ip: Ip) -> (r: Option<usize>)
        ensures
            match r {
                Some(i) => i < self.tokens@.len() && self.tokens@[i as int].0 == ip && (forall|
                    j: int,
                |
                    0 <= j < i ==> self.tokens@[j].0 != ip),
                None => forall|j: int| 0 <= j < self.tokens@.len() ==> self.tokens@[j].0 != ip,
            },
    {
        let n = self.tokens.len();
        let mut i: usize = 0;
        while i < n
            invariant
                n == self.tokens@.len(),
                0 <= i <= n,
                forall|j: int| 0 <= j < i ==> self.tokens@[j].0 != ip,
            decreases n - i,
        {
            let (p, _) = self.tokens[i];
            if p == ip {
                return Some(i);
            }
            i = i + 1;
        }
        None
    }

    /// Checks an administrator key and, when it is right, issues a fresh
    /// session token bound to `ip`, in place of any token that address held
    /// before. A wrong key, or a failing random source, changes nothing.
    pub fn login(&mut self, ip: Ip, key: &str) -> (r: Result<Token, OcjError>)
        requires
            old(self).wf(),
        ensures
            final(self).wf(),
            final(self).key_digest() == old(self).key_digest(),
            spec_key_digest(key@) != old(self).key_digest() ==> r == Err::<Token, OcjError>(
                OcjError::Auth(AuthError::IncorrectKey),
            ) && *final(self) == *old(self),
            spec_key_digest(key@) == old(self).key_digest() ==> match r {
                Ok(t) => final(self).token_of(ip) == Some(t) && (forall|ip2: Ip|
                    ip2 != ip ==> final(self).token_of(ip2) == old(self).token_of(ip2)),
                Err(e) => e is RngCore && *final(self) == *old(self),
            },
    {
        let h = hash(key);
        if h != self.hash_key {
            return Err(OcjError::Auth(AuthError::IncorrectKey));
        }
        let t = match gen_token() {
            Ok(t) => t,
            Err(e) => {
                return Err(e);
            },
        };
        let ghost s0 = self.tokens@;
        match self.find_index(ip) {
            Some(i) => {
                self.tokens.remove(i);
                self.tokens.push((ip, t));
                proof {
                    let rem = s0.remove(i as int);
                    assert forall|a: int, b: int| 0 <= a < b < rem.len() implies rem[a].0
                        != rem[b].0 by {
                        lemma_remove_index(s0, i as int, a);
                        lemma_remove_index(s0, i as int, b);
                    }
                    assert forall|j: int| 0 <= j < rem.len() implies rem[j].0 != ip by {
                        lemma_remove_index(s0, i as int, j);
                    }
                    lemma_rebind(rem, ip, t);
                    assert forall|ip2: Ip| ip2 != ip implies spec_find(rem, ip2) == spec_find(
                        s0,
                        ip2,
                    ) by {
                        lemma_remove_other(s0, i as int, ip2);
                    }
                }
            },
            None => {
                self.tokens.push((ip, t));
                proof {
                    lemma_rebind(s0, ip, t);
                }
            },
        }
        Ok(t)
    }

    /// Checks a session token for `ip`: fails with `IpNotFound` when no
    /// token is on file for the address, with `IncorrectToken` when the one
    /// on file differs, and succeeds exactly when it matches.
    pub fn check_token(&self, ip: Ip, token: Token) -> (r: Result<(), OcjError>)
        requires
            self.wf(),
        ensures
            r == spec_check(*self, ip, token),
    {
        match self.find_index(ip) {
            None => Err(OcjError::Auth(AuthError::IpNotFound)),
            Some(i) => {
                let (_, t) = self.tokens[i];
                proof {
                    lemma_find_unique(self.tokens@, ip, i as int);
                }
                if t == token {
                    Ok(())
                } else {
                    Err(OcjError::Auth(AuthError::IncorrectToken))
                }
            },
        }
    }

    /// Checks the token carried inside a secure envelope and hands back the
    /// payload exactly when the check succeeds.
    pub fn unwrap_secure<T>(&self, ip: Ip, msg: Secure<T>) -> (r: Result<T, OcjError>)
        requires
            self.wf(),
        ensures
            spec_check(*self, ip, msg.token) is Ok ==> r == Ok::<T, OcjError>(msg.msg),
            spec_check(*self, ip, msg.token) matches Err(e) ==> r == Err::<T, OcjError>(e),
    {
        let Secure { token, msg } = msg;
        match self.check_token(ip, token) {
            Ok(()) => Ok(msg),
            Err(e) => Err(e),
        }
    }
}

/// Removing entry `i` shifts the later entries down by one.
proof fn lemma_remove_index(s: Seq<(Ip, Token)>, i: int, j: int)
    requires
        0 <= i < s.len(),
        0 <= j < s.len() - 1,
    ensures
        s.remove(i)[j] == (if j < i {
            s[j]
        } else {
            s[j + 1]
        }),
{
}

/// Removing the entry at `i` leaves the token on file for every address
/// that entry does not bind.
proof fn lemma_remove_other(s: Seq<(Ip, Token)>, i: int, ip2: Ip)
    requires
        0 <= i < s.len(),
        s[i].0 != ip2,
        forall|a: int, b: int| 0 <= a < b < s.len() ==> s[a].0 != s[b].0,
    ensures
        spec_find(s.remove(i), ip2) == spec_find(s, ip2),
{
    let rem = s.remove(i);
    if exists|k: int| 0 <= k < s.len() && s[k].0 == ip2 {
        let k = choose|k: int| 0 <= k < s.len() && s[k].0 == ip2;
        lemma_find_unique(s, ip2, k);
        let kr = if k < i {
            k
        } else {
            k - 1
        };
        lemma_remove_index(s, i, kr);
        assert(rem[kr] == s[k]);
        assert forall|a: int, b: int| 0 <= a < b < rem.len() implies rem[a].0 != rem[b].0 by {
            lemma_remove_index(s, i, a);
            lemma_remove_index(s, i, b);
        }
        lemma_find_unique(rem, ip2, kr);
    } else {
        assert forall|j: int| 0 <= j < rem.len() implies rem[j].0 != ip2 by {
            lemma_remove_index(s, i, j);
        }
    }
}

/// In a list whose entries all avoid `ip` but for a single binding at `i`,
/// that binding is the one found.
proof fn lemma_find_unique(s: Seq<(Ip, Token)>, ip: Ip, i: int)
    requires
        0 <= i < s.len(),
        s[i].0 == ip,
        forall|a: int, b: int| 0 <= a < b < s.len() ==> s[a].0 != s[b].0,
    ensures
        spec_find(s, ip) == Some(s[i].1),
{
    let j = choose|j: int| 0 <= j < s.len() && s[j].0 == ip;
    if j != i {
        if j < i {
            assert(s[j].0 != s[i].0);
        } else {
            assert(s[i].0 != s[j].0);
        }
    }
}

/// Appending a binding for an address no other entry holds makes it the
/// one on file for that address, leaves every other address alone, and
/// keeps the bindings unique.
proof fn lemma_rebind(s: Seq<(Ip, Token)>, ip: Ip, t: Token)
    requires
        forall|j: int| 0 <= j < s.len() ==> s[j].0 != ip,
        forall|a: int, b: int| 0 <= a < b < s.len() ==> s[a].0 != s[b].0,
    ensures
        spec_find(s.push((ip, t)), ip) == Some(t),
        forall|ip2: Ip| ip2 != ip ==> spec_find(s.push((ip, t)), ip2) == spec_find(s, ip2),
        forall|a: int, b: int|
            0 <= a < b < s.push((ip, t)).len() ==> s.push((ip, t))[a].0 != s.push((ip, t))[b].0,
{
    let s1 = s.push((ip, t));
    assert(s1[s.len() as int].0 == ip);
    assert forall|a: int, b: int| 0 <= a < b < s1.len() implies s1[a].0 != s1[b].0 by {
        if b == s.len() {
            assert(s1[a] == s[a]);
        } else {
            assert(s1[a] == s[a] && s1[b] == s[b]);
        }
    }
    lemma_find_unique(s1, ip, s.len() as int);
    assert forall|ip2: Ip| ip2 != ip implies spec_find(s1, ip2) == spec_find(s, ip2) by {
        if exists|k: int| 0 <= k < s.len() && s[k].0 == ip2 {
            let k = choose|k: int| 0 <= k < s.len() && s[k].0 == ip2;
            lemma_find_unique(s, ip2, k);
            assert(s1[k] == s[k]);
            lemma_find_unique(s1, ip2, k);
        } else {
            assert(forall|k: int| 0 <= k < s1.len() ==> #[trigger] s1[k].0 != ip2);
        }
    }
}

/// The outcome of a token check against the service's state: found and
/// matching, found and different, or no token on file for the address.
pub open spec fn spec_check(s: Service, ip: Ip, token: Token) -> Result<(), OcjError> {
    match s.token_of(ip) {
        None => Err(OcjError::Auth(AuthError::IpNotFound)),
        Some(t) => if t == token {
            Ok(())
        } else {
            Err(OcjError::Auth(AuthError::IncorrectToken))
        },
    }
}

/// Law (token overwrite): a successful login stores its fresh token in
/// place of whatever the address held before, so once a later login has
/// bound `t2` to the address, a check with an earlier, different token `t1`
/// fails with `IncorrectToken`.
pub proof fn lemma_token_overwrite(s: Service, ip: Ip, t1: Token, t2: Token)
    requires
        s.token_of(ip) == Some(t2),
        t1 != t2,
    ensures
        spec_check(s, ip, t1) == Err::<(), OcjError>(OcjError::Auth(AuthError::IncorrectToken)),
{
}

} // verus!
