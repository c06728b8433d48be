//! HMAC-gated file keys: `expiry;base64url(HMAC-SHA-512(files_key,
//! base64url(path) + ";" + expiry))`. Minting and checking are exact:
//! `verify_file_key` accepts a presented key if and only if it decomposes
//! into exactly two `;`-free parts, the first is a canonical decimal not
//! earlier than the clock, and the second decodes to the right tag.

use vstd::prelude::*;
use crate::err::Error;
use crate::num::{spec_dec, push_dec_u64, pow10};
use crate::obj::push_slice;
use crate::crypto::{hmac_sha512, hmac_sha512_of, b64url_encode, b64url_of, b64url_decode,
    b64url_decoded};

verus! {

/// How many `;` bytes a string holds.
pub open spec fn semi_count(s: Seq<u8>) -> nat
    decreases s.len(),
{
    if s.len() == 0 {
        0
    } else {
        semi_count(s.drop_last()) + (if s.last() == 59 {
            1nat
        } else {
            0nat
        })
    }
}

/// No `;` anywhere.
pub open spec fn semi_free(s: Seq<u8>) -> bool {
    forall|i: int| 0 <= i < s.len() ==> s[i] != 59
}

/// The value of a digit string, most significant first.
pub open spec fn dec_val(s: Seq<u8>) -> nat
    decreases s.len(),
{
    if s.len() == 0 {
        0
    } else {
        dec_val(s.drop_last()) * 10 + (s.last() - 48) as nat
    }
}

/// A canonical decimal: 1 to 19 digits, no leading zero.
pub open spec fn is_canon_dec(s: Seq<u8>) -> bool {
    &&& 1 <= s.len() <= 19
    &&& forall|i: int| 0 <= i < s.len() ==> 48 <= #[trigger] s[i] <= 57
    &&& (s.len() > 1 ==> s[0] != 48)
}

/// A semi-free string has no `;` to count.
proof fn lemma_semi_free_count(s: Seq<u8>)
    requires
        semi_free(s),
    ensures
        semi_count(s) == 0,
    decreases s.len(),
{
    if s.len() > 0 {
        assert(semi_free(s.drop_last()));
        lemma_semi_free_count(s.drop_last());
    }
}

/// A two-part decomposition around one `;` has semi-count exactly 1.
proof fn lemma_decomp_count(a: Seq<u8>, b: Seq<u8>)
    requires
        semi_free(a),
        semi_free(b),
    ensures
        semi_count(a + seq![59u8] + b) == 1,
    decreases b.len(),
{
    if b.len() == 0 {
        lemma_semi_free_count(a);
        assert((a + seq![59u8] + b).drop_last() =~= a);
        assert((a + seq![59u8] + b).last() == 59);
    } else {
        assert(semi_free(b.drop_last()));
        lemma_decomp_count(a, b.drop_last());
        assert((a + seq![59u8] + b).drop_last() =~= a + seq![59u8] + b.drop_last());
        assert((a + seq![59u8] + b).last() == b.last());
    }
}

/// A string splits into two `;`-free parts in at most one way.
proof fn lemma_decomp_unique(a: Seq<u8>, b: Seq<u8>, a2: Seq<u8>, b2: Seq<u8>)
    requires
        a + seq![59u8] + b == a2 + seq![59u8] + b2,
        semi_free(a),
        semi_free(a2),
    ensures
        a == a2,
        b == b2,
{
    let s = a + seq![59u8] + b;
    assert(s.len() == a.len() + 1 + b.len());
    assert(s.len() == a2.len() + 1 + b2.len());
    if a.len() < a2.len() {
        assert(s[a.len() as int] == 59);
        assert(s[a.len() as int] == a2[a.len() as int]);
        assert(false);
    } else if a2.len() < a.len() {
        assert(s[a2.len() as int] == 59);
        assert(s[a2.len() as int] == a[a2.len() as int]);
        assert(false);
    } else {
        assert(a =~= a2) by {
            assert(forall|i: int| 0 <= i < a.len() ==> a[i] == s[i] && a2[i] == s[i]);
        }
        assert(b =~= b2) by {
            assert(forall|i: int|
                0 <= i < b.len() ==> b[i] == s[a.len() + 1 + i] && b2[i] == s[a.len() + 1 + i]);
        }
    }
}

/// Splits at the unique `;`: `Some` exactly when the string holds one.
pub fn split_semi(s: &[u8]) -> (r: Option<(Vec<u8>, Vec<u8>)>)
    ensures
        match r {
            Some(p) => {
                &&& s@ == p.0@ + seq![59u8] + p.1@
                &&& semi_free(p.0@)
                &&& semi_free(p.1@)
                &&& semi_count(s@) == 1
            },
            None => semi_count(s@) != 1,
        },
{
    let mut a: Vec<u8> = Vec::new();
    let mut b: Vec<u8> = Vec::new();
    let mut seen: bool = false;
    let mut i: usize = 0;
    let mut semis: usize = 0;
    while i < s.len()
        invariant
            0 <= i <= s@.len(),
            semis == semi_count(s@.subrange(0, i as int)),
            semis <= 1,
            semis <= i,
            seen == (semis >= 1),
            semi_free(a@),
            semi_free(b@),
            !seen ==> b@.len() == 0 && a@ == s@.subrange(0, i as int),
            seen ==> s@.subrange(0, i as int) == a@ + seq![59u8] + b@,
        decreases s@.len() - i,
    {
        let c = s[i];
        if c == 59 {
            if seen {
                proof {
                    let cur2 = s@.subrange(0, i + 1);
                    assert(cur2.drop_last() =~= s@.subrange(0, i as int));
                    assert(cur2.last() == 59);
                    assert(semi_count(cur2) >= 2);
                    lemma_count_prefix(s@, i + 1);
                }
                return None;
            }
            seen = true;
            semis = semis + 1;
        } else {
            if seen {
                b.push(c);
            } else {
                a.push(c);
            }
        }
        i = i + 1;
        proof {
            let cur = s@.subrange(0, i as int);
            assert(cur.drop_last() =~= s@.subrange(0, i - 1));
            assert(cur.last() == s@[i - 1]);
            if semi_count(cur) >= 1 && s@[i - 1] != 59 {
                assert(cur =~= a@ + seq![59u8] + b@);
            } else if s@[i - 1] == 59 {
                assert(cur =~= a@ + seq![59u8] + b@);
            } else {
                assert(cur =~= a@);
            }
        }
    }
    proof {
        assert(s@.subrange(0, s@.len() as int) =~= s@);
    }
    if seen {
        Some((a, b))
    } else {
        None
    }
}

/// Counting `;` in a prefix never counts more than in the whole.
proof fn lemma_count_prefix(s: Seq<u8>, i: int)
    requires
        0 <= i <= s.len(),
    ensures
        semi_count(s) >= semi_count(s.subrange(0, i)),
    decreases s.len() - i,
{
    if i == s.len() {
        assert(s.subrange(0, i) =~= s);
    } else {
        let next = s.subrange(0, i + 1);
        assert(next.drop_last() =~= s.subrange(0, i));
        lemma_count_prefix(s, i + 1);
    }
}

/// Parses a canonical decimal: `Some` exactly on canonical digit strings,
/// and then the returned value is the string's value.
pub fn parse_dec(s: &[u8]) -> (r: Option<u64>)
    ensures
        match r {
            Some(v) => is_canon_dec(s@) && v == dec_val(s@),
            None => !is_canon_dec(s@),
        },
{
    if s.len() < 1 || s.len() > 19 {
        return None;
    }
    if s.len() > 1 && s[0] == 48 {
        return None;
    }
    let mut v: u64 = 0;
    let mut i: usize = 0;
    proof {
        reveal_with_fuel(pow10, 20);
    }
    while i < s.len()
        invariant
            1 <= s@.len() <= 19,
            0 <= i <= s@.len(),
            v == dec_val(s@.subrange(0, i as int)),
            v < pow10(i as nat),
            pow10(18) == 1_000_000_000_000_000_000,
            pow10(19) == 10_000_000_000_000_000_000,
            forall|j: int| 0 <= j < i ==> 48 <= #[trigger] s@[j] <= 57,
        decreases s@.len() - i,
    {
        let c = s[i];
        if c < 48 || c > 57 {
            return None;
        }
        proof {
            assert(pow10((i + 1) as nat) == 10 * pow10(i as nat));
            assert(pow10(i as nat) <= pow10(18)) by {
                lemma_pow10_le(i as nat, 18);
            }
        }
        v = v * 10 + ((c - 48) as u64);
        i = i + 1;
        proof {
            let cur = s@.subrange(0, i as int);
            assert(cur.drop_last() =~= s@.subrange(0, i - 1));
            assert(cur.last() == s@[i - 1]);
        }
    }
    proof {
        assert(s@.subrange(0, s@.len() as int) =~= s@);
    }
    Some(v)
}

proof fn lemma_pow10_le(a: nat, b: nat)
    requires
        a <= b,
    ensures
        pow10(a) <= pow10(b),
    decreases b,
{
    if a < b {
        lemma_pow10_le(a, (b - 1) as nat);
        assert(pow10(b) == 10 * pow10((b - 1) as nat));
    }
}

/// A file path together with the service's MAC key.
pub struct FileKey {
    pub file_path: Vec<u8>,
    pub key: Vec<u8>,
}

/// The minted key text for a path, MAC key and expiry second.
pub open spec fn spec_file_key(path: Seq<u8>, key: Seq<u8>, expiry: nat) -> Seq<u8> {
    spec_dec(expiry) + seq![59u8] + b64url_of(
        hmac_sha512_of(key, b64url_of(path) + seq![59u8] + spec_dec(expiry)),
    )
}

impl FileKey {
    /// Pairs a file path with the MAC key that gates it.
    pub fn new(file_path: Vec<u8>, key: Vec<u8>) -> (r: FileKey)
        ensures
            r.file_path@ == file_path@,
            r.key@ == key@,
    {
        FileKey { file_path, key }
    }

    /// Mints the key text granting access until `expiry` (unix seconds).
    pub fn key_string(&self, expiry: u64) -> (r: Vec<u8>)
        ensures
            r@ == spec_file_key(self.file_path@, self.key@, expiry as nat),
    {
        let path_b64 = b64url_encode(self.file_path.as_slice());
        let mut msg: Vec<u8> = Vec::new();
        push_slice(&mut msg, path_b64.as_slice());
        msg.push(59);
        push_dec_u64(&mut msg, expiry);
        proof {
            assert(msg@ =~= b64url_of(self.file_path@) + seq![59u8] + spec_dec(expiry as nat));
        }
        let tag = hmac_sha512(self.key.as_slice(), msg.as_slice());
        let tag_b64 = b64url_encode(tag.as_slice());
        let mut out: Vec<u8> = Vec::new();
        push_dec_u64(&mut out, expiry);
        out.push(59);
        push_slice(&mut out, tag_b64.as_slice());
        proof {
            assert(out@ =~= spec_file_key(self.file_path@, self.key@, expiry as nat));
        }
        out
    }
}

/// What a presented key must be for `path` at clock `now`.
pub open spec fn spec_key_ok(path: Seq<u8>, fkey: Seq<u8>, s: Seq<u8>, now: u64) -> bool {
    exists|a: Seq<u8>, b: Seq<u8>|
        {
            &&& s == a + seq![59u8] + b
            &&& semi_free(a)
            &&& semi_free(b)
            &&& is_canon_dec(a)
            &&& now <= dec_val(a)
            &&& b64url_decoded(b) == Some(
                hmac_sha512_of(fkey, b64url_of(path) + seq![59u8] + a),
            )
        }
}

/// The unique decomposition of a key into two `;`-free parts, when one
/// exists (`lemma_decomp_unique` gives uniqueness).
pub open spec fn spec_key_parts(s: Seq<u8>) -> (Seq<u8>, Seq<u8>) {
    choose|a: Seq<u8>, b: Seq<u8>| s == a + seq![59u8] + b && semi_free(a) && semi_free(b)
}

/// The exact verdict on a presented key: `InvalidInput` when it does not
/// split on one `;` into two parts or the first part is not a canonical
/// decimal; `AuthFailure` when the second part does not decode to the
/// right tag; `Expired` when the tag is right but the time has passed;
/// `Ok` otherwise. (The decomposition under the `choose` is unique, by
/// `lemma_decomp_unique`.)
pub open spec fn spec_key_verdict(path: Seq<u8>, fkey: Seq<u8>, s: Seq<u8>, now: u64) -> Result<
    (),
    Error,
> {
    if semi_count(s) != 1 {
        Err(Error::InvalidInput)
    } else {
        let (a, b) = spec_key_parts(s);
        if !is_canon_dec(a) {
            Err(Error::InvalidInput)
        } else if b64url_decoded(b) != Some(
            hmac_sha512_of(fkey, b64url_of(path) + seq![59u8] + a),
        ) {
            Err(Error::AuthFailure)
        } else if now > dec_val(a) {
            Err(Error::Expired)
        } else {
            Ok(())
        }
    }
}

/// For a string that does decompose, the verdict follows that one
/// decomposition's own checks.
proof fn lemma_verdict_decomp(
    path: Seq<u8>,
    fkey: Seq<u8>,
    s: Seq<u8>,
    now: u64,
    a: Seq<u8>,
    b: Seq<u8>,
)
    requires
        s == a + seq![59u8] + b,
        semi_free(a),
        semi_free(b),
    ensures
        spec_key_verdict(path, fkey, s, now) == (if !is_canon_dec(a) {
            Err::<(), Error>(Error::InvalidInput)
        } else if b64url_decoded(b) != Some(hmac_sha512_of(fkey, b64url_of(path) + seq![59u8] + a)) {
            Err(Error::AuthFailure)
        } else if now > dec_val(a) {
            Err(Error::Expired)
        } else {
            Ok(())
        }),
{
    lemma_decomp_count(a, b);
    assert(exists|a2: Seq<u8>, b2: Seq<u8>|
        s == a2 + seq![59u8] + b2 && semi_free(a2) && semi_free(b2)) by {
        assert(s == a + seq![59u8] + b && semi_free(a) && semi_free(b));
    }
    let (a2, b2): (Seq<u8>, Seq<u8>) = spec_key_parts(s);
    assert(s == a2 + seq![59u8] + b2 && semi_free(a2) && semi_free(b2));
    lemma_decomp_unique(a, b, a2, b2);
}

/// Checks a presented key: `Ok` if and only if it is well-formed, carries
/// the right tag, and has not expired at `now`; each failure yields the
/// kind `spec_key_verdict` names.
pub fn verify_file_key(path: &[u8], fkey: &[u8], presented: &[u8], now: u64) -> (r: Result<
    (),
    Error,
>)
    ensures
        r is Ok <==> spec_key_ok(path@, fkey@, presented@, now),
        r == spec_key_verdict(path@, fkey@, presented@, now),
{
    let (a, b) = match split_semi(presented) {
        Some(p) => p,
        None => {
            proof {
                lemma_key_ok_needs_semi(path@, fkey@, presented@, now);
            }
            return Err(Error::InvalidInput);
        },
    };
    proof {
        lemma_verdict_decomp(path@, fkey@, presented@, now, a@, b@);
    }
    let t = match parse_dec(a.as_slice()) {
        Some(t) => t,
        None => {
            proof {
                lemma_key_ok_unique(path@, fkey@, presented@, now, a@, b@);
            }
            return Err(Error::InvalidInput);
        },
    };
    let path_b64 = b64url_encode(path);
    let mut msg: Vec<u8> = Vec::new();
    push_slice(&mut msg, path_b64.as_slice());
    msg.push(59);
    push_slice(&mut msg, a.as_slice());
    proof {
        assert(msg@ =~= b64url_of(path@) + seq![59u8] + a@);
    }
    let expected = hmac_sha512(fkey, msg.as_slice());
    let presented_tag = match b64url_decode(b.as_slice()) {
        Some(v) => v,
        None => {
            proof {
                lemma_key_ok_unique(path@, fkey@, presented@, now, a@, b@);
            }
            return Err(Error::AuthFailure);
        },
    };
    if !crate::obj::bytes_eq(presented_tag.as_slice(), expected.as_slice()) {
        proof {
            lemma_key_ok_unique(path@, fkey@, presented@, now, a@, b@);
        }
        return Err(Error::AuthFailure);
    }
    if now > t {
        proof {
            lemma_key_ok_unique(path@, fkey@, presented@, now, a@, b@);
        }
        return Err(Error::Expired);
    }
    proof {
        assert(presented@ == a@ + seq![59u8] + b@ && semi_free(a@) && semi_free(b@)
            && is_canon_dec(a@) && now <= dec_val(a@) && b64url_decoded(b@) == Some(
            hmac_sha512_of(fkey@, b64url_of(path@) + seq![59u8] + a@),
        ));
        assert(spec_key_ok(path@, fkey@, presented@, now));
    }
    Ok(())
}

/// A presented key that splits as `a;b` satisfies `spec_key_ok` only
/// through that one decomposition, so its own checks decide the matter.
proof fn lemma_key_ok_unique(
    path: Seq<u8>,
    fkey: Seq<u8>,
    s: Seq<u8>,
    now: u64,
    a: Seq<u8>,
    b: Seq<u8>,
)
    requires
        s == a + seq![59u8] + b,
        semi_free(a),
        semi_free(b),
    ensures
        spec_key_ok(path, fkey, s, now) ==> {
            &&& is_canon_dec(a)
            &&& now <= dec_val(a)
            &&& b64url_decoded(b) == Some(hmac_sha512_of(fkey, b64url_of(path) + seq![59u8] + a))
        },
{
    if spec_key_ok(path, fkey, s, now) {
        let (a2, b2): (Seq<u8>, Seq<u8>) = choose|a2: Seq<u8>, b2: Seq<u8>|
            {
                &&& s == a2 + seq![59u8] + b2
                &&& semi_free(a2)
                &&& semi_free(b2)
                &&& is_canon_dec(a2)
                &&& now <= dec_val(a2)
                &&& b64url_decoded(b2) == Some(
                    hmac_sha512_of(fkey, b64url_of(path) + seq![59u8] + a2),
                )
            };
        lemma_decomp_unique(a, b, a2, b2);
    }
}

/// Without exactly one `;`, nothing satisfies `spec_key_ok`.
proof fn lemma_key_ok_needs_semi(path: Seq<u8>, fkey: Seq<u8>, s: Seq<u8>, now: u64)
    requires
        semi_count(s) != 1,
    ensures
        !spec_key_ok(path, fkey, s, now),
{
    if spec_key_ok(path, fkey, s, now) {
        let (a2, b2): (Seq<u8>, Seq<u8>) = choose|a2: Seq<u8>, b2: Seq<u8>|
            {
                &&& s == a2 + seq![59u8] + b2
                &&& semi_free(a2)
                &&& semi_free(b2)
                &&& is_canon_dec(a2)
                &&& now <= dec_val(a2)
                &&& b64url_decoded(b2) == Some(
                    hmac_sha512_of(fkey, b64url_of(path) + seq![59u8] + a2),
                )
            };
        lemma_decomp_count(a2, b2);
    }
}

} // verus!
