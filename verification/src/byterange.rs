//! Locating the signature placeholders in an emitted update, rewriting the
//! `/ByteRange` placeholder to the real byte ranges, and splicing the
//! hex-encoded CMS SignedData into the reserved `/Contents` slot.
//!
//! The splice never touches a byte outside the reserved slot, so the bytes
//! the signature covers — everything before `<` and everything from the
//! closing `>` on — are exactly the bytes that were signed.

use vstd::prelude::*;
use crate::err::Error;
use crate::num::{spec_zeros, spec_dec10, spec_hex, push_dec10, push_hex, lemma_hex_len};
use crate::obj::push_slice;

verus! {

/// Bytes reserved in `/Contents` for the DER of the CMS SignedData.
pub const SIG_SLOT: usize = 8192;

/// The serialised `/Contents` value: `<` + 16384 zero digits + `>`.
pub open spec fn contents_ph() -> Seq<u8> {
    seq![60u8] + spec_zeros(16384) + seq![62u8]
}

/// ` /ByteRange ` — the bytes between the two placeholder values.
pub open spec fn byterange_label() -> Seq<u8> {
    seq![32u8, 47u8, 66u8, 121u8, 116u8, 101u8, 82u8, 97u8, 110u8, 103u8, 101u8, 32u8]
}

/// The serialised `/ByteRange` value: `<` + 34 zero digits + `>` (the
/// 17-byte placeholder string).
pub open spec fn byterange_ph() -> Seq<u8> {
    seq![60u8] + spec_zeros(34) + seq![62u8]
}

/// The signature placeholders sit at `cs`: the `/Contents` hex string at
/// `cs..cs+16386`, then ` /ByteRange ` and its 36-byte placeholder.
pub open spec fn placeholder_at(b: Seq<u8>, cs: int) -> bool {
    &&& 0 <= cs
    &&& cs + 16434 <= b.len()
    &&& b.subrange(cs, cs + 16386) == contents_ph()
    &&& b.subrange(cs + 16386, cs + 16398) == byterange_label()
    &&& b.subrange(cs + 16398, cs + 16434) == byterange_ph()
}

/// The rewritten `/ByteRange` value `[0 B C D]` with ten-digit fields.
pub open spec fn byte_range_text(cs: nat, ce: nat, len: nat) -> Seq<u8> {
    seq![91u8, 48u8, 32u8] + spec_dec10(cs) + seq![32u8] + spec_dec10(ce) + seq![32u8]
        + spec_dec10((len - ce) as nat) + seq![93u8]
}

/// Whether `b` holds `expected` at offset `at`.
fn region_eq(b: &Vec<u8>, at: usize, expected: &[u8]) -> (r: bool)
    ensures
        r == (at + expected@.len() <= b@.len() && b@.subrange(
            at as int,
            at + expected@.len(),
        ) == expected@),
{
    if b.len() < expected.len() || at > b.len() - expected.len() {
        return false;
    }
    let n: usize = b.len();
    let mut i: usize = 0;
    while i < expected.len()
        invariant
            b@.len() == n,
            at + expected@.len() <= b@.len(),
            0 <= i <= expected@.len(),
            forall|j: int| 0 <= j < i ==> b@[at + j] == expected@[j],
        decreases expected@.len() - i,
    {
        if b[at + i] != expected[i] {
            proof {
                assert(b@.subrange(at as int, at + expected@.len())[i as int] != expected@[i as int]);
            }
            return false;
        }
        i = i + 1;
    }
    proof {
        assert(b@.subrange(at as int, at + expected@.len()) =~= expected@);
    }
    true
}

/// The `/Contents` placeholder as concrete bytes.
fn contents_ph_vec() -> (r: Vec<u8>)
    ensures
        r@ == contents_ph(),
{
    let mut v: Vec<u8> = Vec::new();
    v.push(60);
    let mut i: usize = 0;
    proof {
        assert(v@ =~= seq![60u8] + spec_zeros(0));
    }
    while i < 16384
        invariant
            0 <= i <= 16384,
            v@ == seq![60u8] + spec_zeros(i as nat),
        decreases 16384 - i,
    {
        v.push(48);
        i = i + 1;
        proof {
            assert(v@ =~= seq![60u8] + spec_zeros(i as nat));
        }
    }
    v.push(62);
    proof {
        assert(v@ =~= contents_ph());
    }
    v
}

/// The `/ByteRange` placeholder as concrete bytes.
fn byterange_ph_vec() -> (r: Vec<u8>)
    ensures
        r@ == byterange_ph(),
{
    let mut v: Vec<u8> = Vec::new();
    v.push(60);
    let mut i: usize = 0;
    proof {
        assert(v@ =~= seq![60u8] + spec_zeros(0));
    }
    while i < 34
        invariant
            0 <= i <= 34,
            v@ == seq![60u8] + spec_zeros(i as nat),
        decreases 34 - i,
    {
        v.push(48);
        i = i + 1;
        proof {
            assert(v@ =~= seq![60u8] + spec_zeros(i as nat));
        }
    }
    v.push(62);
    proof {
        assert(v@ =~= byterange_ph());
    }
    v
}

/// Finds the first offset holding the untouched signature placeholders.
/// `Some((cs, ce))` gives the bounds of the `/Contents` hex string;
/// `None` means no placeholder exists anywhere in `b`.
pub fn find_sig_placeholders(b: &Vec<u8>) -> (r: Option<(usize, usize)>)
    ensures
        match r {
            Some(p) => placeholder_at(b@, p.0 as int) && p.1 == p.0 + 16386,
            None => forall|cs: int| !placeholder_at(b@, cs),
        },
{
    let cph = contents_ph_vec();
    let brph = byterange_ph_vec();
    let label: [u8; 12] = [32, 47, 66, 121, 116, 101, 82, 97, 110, 103, 101, 32];
    proof {
        assert(label@ =~= byterange_label());
    }
    let mut i: usize = 0;
    while i < b.len()
        invariant
            cph@ == contents_ph(),
            brph@ == byterange_ph(),
            label@ == byterange_label(),
            0 <= i <= b@.len(),
            forall|cs: int| 0 <= cs < i ==> !placeholder_at(b@, cs),
        decreases b@.len() - i,
    {
        if region_eq(b, i, cph.as_slice()) && region_eq(b, i + 16386, label.as_slice())
            && region_eq(b, i + 16398, brph.as_slice()) {
            return Some((i, i + 16386));
        }
        i = i + 1;
    }
    proof {
        assert forall|cs: int| !placeholder_at(b@, cs) by {
            if 0 <= cs < b@.len() {
            } else {
            }
        }
    }
    None
}

/// Rewrites the `/ByteRange` placeholder in place to `[0 B C D]`, where
/// `B` is the offset of the `<` opening `/Contents`, `C` the offset just
/// past its `>`, and `D` the byte count from there to the end of the file.
/// Nothing else changes. Fails exactly when the file is too large for the
/// ten-digit fields.
pub fn write_byte_range(b: &mut Vec<u8>, cs: usize, ce: usize) -> (r: Result<(), Error>)
    requires
        ce == cs + 16386,
        cs + 16434 <= old(b)@.len(),
    ensures
        match r {
            Ok(()) => {
                &&& old(b)@.len() < 10_000_000_000
                &&& final(b)@.len() == old(b)@.len()
                &&& final(b)@.subrange(ce + 12, ce + 48) == byte_range_text(
                    cs as nat,
                    ce as nat,
                    old(b)@.len(),
                )
                &&& forall|j: int|
                    0 <= j < old(b)@.len() && !(ce + 12 <= j < ce + 48) ==> final(b)@[j] == old(
                        b,
                    )@[j]
            },
            Err(e) => {
                &&& e == Error::PdfError
                &&& old(b)@.len() >= 10_000_000_000
                &&& final(b)@ == old(b)@
            },
        },
{
    if (b.len() as u64) >= 10_000_000_000u64 {
        return Err(Error::PdfError);
    }
    let mut text: Vec<u8> = Vec::new();
    let head: [u8; 3] = [91, 48, 32];
    push_slice(&mut text, head.as_slice());
    push_dec10(&mut text, cs as u64);
    text.push(32);
    push_dec10(&mut text, ce as u64);
    text.push(32);
    push_dec10(&mut text, (b.len() - ce) as u64);
    text.push(93);
    proof {
        assert(head@ =~= seq![91u8, 48u8, 32u8]);
        assert(text@ =~= byte_range_text(cs as nat, ce as nat, b@.len() as nat));
        assert(text@.len() == 36);
    }
    let mut k: usize = 0;
    let n: usize = b.len();
    let ghost pre = b@;
    while k < 36
        invariant
            pre.len() == n,
            text@.len() == 36,
            ce == cs + 16386,
            ce + 48 <= pre.len(),
            b@.len() == pre.len(),
            0 <= k <= 36,
            forall|j: int| 0 <= j < pre.len() && !(ce + 12 <= j < ce + 12 + k) ==> b@[j] == pre[j],
            forall|j: int| 0 <= j < k ==> b@[ce + 12 + j] == text@[j],
        decreases 36 - k,
    {
        b.set(ce + 12 + k, text[k]);
        k = k + 1;
    }
    proof {
        assert(b@.subrange(ce + 12, ce + 48) =~= text@);
    }
    Ok(())
}

/// Splices the hex encoding of `der` into the reserved `/Contents` slot,
/// leaving every byte outside the slot untouched (the slot keeps its
/// trailing zero padding). Fails exactly when the DER exceeds the slot.
pub fn splice_signature(b: &mut Vec<u8>, cs: usize, ce: usize, der: &Vec<u8>) -> (r: Result<
    (),
    Error,
>)
    requires
        ce == cs + 16386,
        ce <= old(b)@.len(),
    ensures
        match r {
            Ok(()) => {
                &&& der@.len() <= 8192
                &&& final(b)@.len() == old(b)@.len()
                &&& final(b)@.subrange(cs + 1, cs + 1 + 2 * der@.len() as int) == spec_hex(der@)
                &&& forall|j: int|
                    0 <= j < old(b)@.len() && !(cs + 1 <= j < cs + 1 + 2 * der@.len() as int)
                        ==> final(b)@[j] == old(b)@[j]
                &&& final(b)@.subrange(0, cs as int) == old(b)@.subrange(0, cs as int)
                &&& final(b)@.subrange(ce as int, old(b)@.len() as int) == old(b)@.subrange(
                    ce as int,
                    old(b)@.len() as int,
                )
            },
            Err(e) => {
                &&& e == Error::SignatureTooLarge
                &&& der@.len() > 8192
                &&& final(b)@ == old(b)@
            },
        },
{
    if der.len() > SIG_SLOT {
        return Err(Error::SignatureTooLarge);
    }
    let mut hex: Vec<u8> = Vec::new();
    push_hex(&mut hex, der.as_slice());
    proof {
        lemma_hex_len(der@);
    }
    let mut k: usize = 0;
    let n: usize = b.len();
    let ghost pre = b@;
    while k < hex.len()
        invariant
            pre.len() == n,
            hex@ == spec_hex(der@),
            hex@.len() == 2 * der@.len(),
            der@.len() <= 8192,
            ce == cs + 16386,
            ce <= pre.len(),
            b@.len() == pre.len(),
            0 <= k <= hex@.len(),
            forall|j: int| 0 <= j < pre.len() && !(cs + 1 <= j < cs + 1 + k) ==> b@[j] == pre[j],
            forall|j: int| 0 <= j < k ==> b@[cs + 1 + j] == hex@[j],
        decreases hex@.len() - k,
    {
        b.set(cs + 1 + k, hex[k]);
        k = k + 1;
    }
    proof {
        assert(b@.subrange(cs + 1, cs + 1 + 2 * der@.len() as int) =~= hex@);
        assert(b@.subrange(0, cs as int) =~= pre.subrange(0, cs as int));
        assert(b@.subrange(ce as int, pre.len() as int) =~= pre.subrange(
            ce as int,
            pre.len() as int,
        ));
    }
    Ok(())
}

/// The bytes the `/ByteRange` covers: everything before the `<` of
/// `/Contents` and everything from just after its `>` to the end.
pub fn signed_bytes(b: &Vec<u8>, cs: usize, ce: usize) -> (r: Vec<u8>)
    requires
        cs <= ce <= b@.len(),
    ensures
        r@ == b@.subrange(0, cs as int) + b@.subrange(ce as int, b@.len() as int),
{
    let mut out: Vec<u8> = Vec::new();
    let first = &b.as_slice()[0..cs];
    push_slice(&mut out, first);
    let second = &b.as_slice()[ce..b.len()];
    push_slice(&mut out, second);
    out
}

/// After a successful splice into an untouched placeholder, the
/// `/Contents` string still holds exactly 16384 hex digits: the DER's hex
/// followed by zero padding, between the original `<` and `>`.
pub proof fn lemma_contents_after_splice(pre: Seq<u8>, post: Seq<u8>, cs: int, der: Seq<u8>)
    requires
        0 <= cs,
        cs + 16386 <= pre.len(),
        pre.subrange(cs, cs + 16386) == contents_ph(),
        der.len() <= 8192,
        post.len() == pre.len(),
        post.subrange(cs + 1, cs + 1 + 2 * der.len()) == spec_hex(der),
        forall|j: int|
            0 <= j < pre.len() && !(cs + 1 <= j < cs + 1 + 2 * der.len()) ==> post[j] == pre[j],
    ensures
        post.subrange(cs, cs + 16386) == seq![60u8] + spec_hex(der) + spec_zeros(
            (16384 - 2 * der.len()) as nat,
        ) + seq![62u8],
{
    lemma_hex_len(der);
    let expect = seq![60u8] + spec_hex(der) + spec_zeros((16384 - 2 * der.len()) as nat) + seq![
        62u8,
    ];
    assert forall|j: int| 0 <= j < 16386 implies post.subrange(cs, cs + 16386)[j] == expect[j] by {
        assert(pre.subrange(cs, cs + 16386)[j] == pre[cs + j]);
        if j == 0 {
            assert(pre[cs + j] == contents_ph()[0]);
        } else if j < 1 + 2 * der.len() {
        } else if j < 16385 {
            assert(pre[cs + j] == contents_ph()[j]);
            assert(contents_ph()[j] == 48);
        } else {
            assert(pre[cs + j] == contents_ph()[j]);
        }
    }
    assert(post.subrange(cs, cs + 16386) =~= expect);
}

/// Splicing touches only the slot's interior, so the covered bytes — the
/// concatenation the `/ByteRange` names — are the same before and after:
/// what was signed is what a verifier reads back.
pub proof fn lemma_splice_preserves_covered(pre: Seq<u8>, post: Seq<u8>, cs: int, ce: int, der: Seq<
    u8,
>)
    requires
        0 <= cs,
        ce == cs + 16386,
        ce <= pre.len(),
        der.len() <= 8192,
        post.len() == pre.len(),
        forall|j: int|
            0 <= j < pre.len() && !(cs + 1 <= j < cs + 1 + 2 * der.len()) ==> post[j] == pre[j],
    ensures
        post.subrange(0, cs) + post.subrange(ce, post.len() as int) == pre.subrange(0, cs)
            + pre.subrange(ce, pre.len() as int),
{
    assert(post.subrange(0, cs) =~= pre.subrange(0, cs));
    assert(post.subrange(ce, post.len() as int) =~= pre.subrange(ce, pre.len() as int));
}

} // verus!
