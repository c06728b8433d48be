//! Decimal and hexadecimal rendering of integers and byte strings.
//!
//! These are the byte-level primitives that the PDF writer, the byte-range
//! patcher and the audit log all build on. Each executable function is
//! proved equal to a small recursive specification of the digit string.

use vstd::prelude::*;

verus! {

/// Decimal digits of `n`, most significant first (no sign, no padding).
pub open spec fn spec_dec(n: nat) -> Seq<u8>
    decreases n,
{
    if n < 10 {
        seq![(0x30 + n) as u8]
    } else {
        spec_dec(n / 10) + seq![(0x30 + n % 10) as u8]
    }
}

/// `k` ASCII zero digits.
pub open spec fn spec_zeros(k: nat) -> Seq<u8> {
    Seq::new(k, |i: int| 0x30u8)
}

/// 10^k.
pub open spec fn pow10(k: nat) -> nat
    decreases k,
{
    if k == 0 {
        1
    } else {
        10 * pow10((k - 1) as nat)
    }
}

/// `n < 10^k` gives at most `k` decimal digits (for `k >= 1`).
pub proof fn lemma_dec_len(n: nat, k: nat)
    requires
        k >= 1,
        n < pow10(k),
    ensures
        1 <= spec_dec(n).len() <= k,
    decreases k,
{
    if n < 10 {
    } else {
        assert(pow10(k) == 10 * pow10((k - 1) as nat));
        lemma_dec_len(n / 10, (k - 1) as nat);
    }
}

/// Appends the decimal digits of `n` to `out`.
pub fn push_dec_u64(out: &mut Vec<u8>, n: u64)
    ensures
        final(out)@ == old(out)@ + spec_dec(n as nat),
    decreases n,
{
    if n < 10 {
        out.push(0x30 + n as u8);
    } else {
        push_dec_u64(out, n / 10);
        out.push(0x30 + (n % 10) as u8);
    }
}

/// Decimal digits of `n`, zero-padded on the left to exactly `w` characters.
pub open spec fn spec_dec_pad(n: nat, w: nat) -> Seq<u8> {
    spec_zeros((w - spec_dec(n).len()) as nat) + spec_dec(n)
}

/// Decimal digits of `n`, zero-padded on the left to exactly 10 characters.
pub open spec fn spec_dec10(n: nat) -> Seq<u8> {
    spec_dec_pad(n, 10)
}

/// Appends `n` as exactly `width` zero-padded decimal digits.
pub fn push_dec_pad(out: &mut Vec<u8>, n: u64, width: usize)
    requires
        n < pow10(width as nat),
        width >= 1,
    ensures
        final(out)@ == old(out)@ + spec_dec_pad(n as nat, width as nat),
        spec_dec_pad(n as nat, width as nat).len() == width,
{
    proof {
        lemma_dec_len(n as nat, width as nat);
    }
    let mut digits: Vec<u8> = Vec::new();
    push_dec_u64(&mut digits, n);
    let mut pad: usize = width - digits.len();
    let ghost total_pad: int = pad as int;
    proof {
        assert(out@ =~= old(out)@ + spec_zeros(0));
    }
    while pad > 0
        invariant
            digits@ == spec_dec(n as nat),
            total_pad == width - digits@.len(),
            out@ == old(out)@ + spec_zeros((total_pad - pad) as nat),
            0 <= pad <= total_pad,
        decreases pad,
    {
        out.push(0x30);
        pad = pad - 1;
        proof {
            assert(spec_zeros((total_pad - pad) as nat) =~= spec_zeros(
                (total_pad - pad - 1) as nat,
            ) + seq![0x30u8]);
        }
    }
    let mut i: usize = 0;
    proof {
        assert(out@ =~= old(out)@ + spec_zeros(total_pad as nat) + digits@.subrange(0, 0));
    }
    while i < digits.len()
        invariant
            digits@ == spec_dec(n as nat),
            total_pad == width - digits@.len(),
            out@ == old(out)@ + spec_zeros(total_pad as nat) + digits@.subrange(0, i as int),
            0 <= i <= digits@.len(),
        decreases digits@.len() - i,
    {
        out.push(digits[i]);
        i = i + 1;
        proof {
            assert(out@ =~= old(out)@ + spec_zeros(total_pad as nat) + digits@.subrange(
                0,
                i as int,
            ));
        }
    }
    proof {
        assert(digits@.subrange(0, digits@.len() as int) =~= digits@);
        assert(out@ =~= old(out)@ + spec_dec_pad(n as nat, width as nat));
    }
}

/// Appends `n` as exactly ten zero-padded decimal digits.
pub fn push_dec10(out: &mut Vec<u8>, n: u64)
    requires
        n < 10_000_000_000,
    ensures
        final(out)@ == old(out)@ + spec_dec10(n as nat),
        spec_dec10(n as nat).len() == 10,
{
    proof {
        reveal_with_fuel(pow10, 11);
    }
    push_dec_pad(out, n, 10);
}

/// Signed decimal rendering: a minus sign for negative values, then digits.
pub open spec fn spec_dec_i64(i: int) -> Seq<u8> {
    if i < 0 {
        seq![45u8] + spec_dec((-i) as nat)
    } else {
        spec_dec(i as nat)
    }
}

/// Appends the signed decimal rendering of `n` to `out`.
pub fn push_dec_i64(out: &mut Vec<u8>, n: i64)
    ensures
        final(out)@ == old(out)@ + spec_dec_i64(n as int),
{
    if n < 0 {
        out.push(45);
        let m: u64 = (-(n as i128)) as u64;
        push_dec_u64(out, m);
        proof {
            assert(out@ =~= old(out)@ + (seq![45u8] + spec_dec(m as nat)));
        }
    } else {
        push_dec_u64(out, n as u64);
    }
}

/// Lower-case hex digit for a nibble.
pub open spec fn spec_hex_digit(n: nat) -> u8 {
    if n < 10 {
        (0x30 + n) as u8
    } else {
        (87 + n) as u8
    }
}

/// Lower-case hex rendering of a byte string, two digits per byte.
pub open spec fn spec_hex(s: Seq<u8>) -> Seq<u8>
    decreases s.len(),
{
    if s.len() == 0 {
        Seq::empty()
    } else {
        spec_hex(s.drop_last()) + seq![
            spec_hex_digit((s.last() / 16) as nat),
            spec_hex_digit((s.last() % 16) as nat),
        ]
    }
}

/// Hex output is exactly twice as long as the input.
pub proof fn lemma_hex_len(s: Seq<u8>)
    ensures
        spec_hex(s).len() == 2 * s.len(),
    decreases s.len(),
{
    if s.len() > 0 {
        lemma_hex_len(s.drop_last());
    }
}

fn hex_digit(n: u8) -> (r: u8)
    requires
        n < 16,
    ensures
        r == spec_hex_digit(n as nat),
{
    if n < 10 {
        0x30 + n
    } else {
        87 + n
    }
}

/// Appends the lower-case hex rendering of `data` to `out`.
pub fn push_hex(out: &mut Vec<u8>, data: &[u8])
    ensures
        final(out)@ == old(out)@ + spec_hex(data@),
{
    let mut i: usize = 0;
    while i < data.len()
        invariant
            out@ == old(out)@ + spec_hex(data@.subrange(0, i as int)),
            0 <= i <= data@.len(),
        decreases data@.len() - i,
    {
        out.push(hex_digit(data[i] / 16));
        out.push(hex_digit(data[i] % 16));
        i = i + 1;
        proof {
            let pre = data@.subrange(0, i - 1);
            let cur = data@.subrange(0, i as int);
            assert(cur.drop_last() =~= pre);
            assert(cur.last() == data@[i - 1]);
        }
    }
    proof {
        assert(data@.subrange(0, data@.len() as int) =~= data@);
    }
}

/// Lower-case hex rendering of `data` as a fresh byte string.
pub fn hex_bytes(data: &[u8]) -> (r: Vec<u8>)
    ensures
        r@ == spec_hex(data@),
{
    let mut out: Vec<u8> = Vec::new();
    push_hex(&mut out, data);
    out
}

/// Whether `s` is a well-formed lower-case hex string.
pub open spec fn is_hex_str(s: Seq<u8>) -> bool {
    &&& s.len() % 2 == 0
    &&& forall|i: int|
        0 <= i < s.len() ==> (0x30 <= #[trigger] s[i] <= 0x39 || 97 <= s[i] <= 102)
}

spec fn nibble_of(d: u8) -> nat {
    if 0x30 <= d <= 0x39 {
        (d - 0x30) as nat
    } else {
        (d - 87) as nat
    }
}

proof fn lemma_hex_digit_inverse(n: nat)
    requires
        n < 16,
    ensures
        nibble_of(spec_hex_digit(n)) == n,
        0x30 <= spec_hex_digit(n) <= 0x39 || 97 <= spec_hex_digit(n) <= 102,
{
}

proof fn lemma_nibble_inverse(d: u8)
    requires
        0x30 <= d <= 0x39 || 97 <= d <= 102,
    ensures
        nibble_of(d) < 16,
        spec_hex_digit(nibble_of(d)) == d,
{
}

/// Every hex rendering is a well-formed hex string.
pub proof fn lemma_hex_is_hex_str(s: Seq<u8>)
    ensures
        is_hex_str(spec_hex(s)),
    decreases s.len(),
{
    if s.len() == 0 {
    } else {
        lemma_hex_is_hex_str(s.drop_last());
        lemma_hex_len(s.drop_last());
        lemma_hex_digit_inverse((s.last() / 16) as nat);
        lemma_hex_digit_inverse((s.last() % 16) as nat);
        lemma_hex_len(s);
    }
}

fn nibble(d: u8) -> (r: Option<u8>)
    ensures
        match r {
            Some(v) => (0x30 <= d <= 0x39 || 97 <= d <= 102) && v == nibble_of(d) && v < 16,
            None => !(0x30 <= d <= 0x39 || 97 <= d <= 102),
        },
{
    if 0x30 <= d && d <= 0x39 {
        Some(d - 0x30)
    } else if 97 <= d && d <= 102 {
        Some(d - 87)
    } else {
        None
    }
}

/// Decodes a lower-case hex string; `Some(v)` exactly when `s` is
/// well-formed hex, and then `v` is the byte string it renders.
pub fn hex_decode(s: &[u8]) -> (r: Option<Vec<u8>>)
    ensures
        match r {
            Some(v) => is_hex_str(s@) && spec_hex(v@) == s@,
            None => !is_hex_str(s@),
        },
{
    if s.len() % 2 != 0 {
        return None;
    }
    let mut out: Vec<u8> = Vec::new();
    let mut i: usize = 0;
    while i < s.len()
        invariant
            s@.len() % 2 == 0,
            i % 2 == 0,
            0 <= i <= s@.len(),
            spec_hex(out@) == s@.subrange(0, i as int),
            forall|j: int|
                0 <= j < i ==> (0x30 <= #[trigger] s@[j] <= 0x39 || 97 <= s@[j] <= 102),
        decreases s@.len() - i,
    {
        let hi = match nibble(s[i]) {
            Some(v) => v,
            None => {
                proof {
                    assert(!is_hex_str(s@));
                }
                return None;
            },
        };
        let lo = match nibble(s[i + 1]) {
            Some(v) => v,
            None => {
                proof {
                    assert(!is_hex_str(s@));
                }
                return None;
            },
        };
        let b: u8 = hi * 16 + lo;
        let ghost prev_out = out@;
        out.push(b);
        i = i + 2;
        proof {
            assert(out@.drop_last() =~= prev_out);
            assert(out@.last() == b);
            assert(b / 16 == hi && b % 16 == lo);
            lemma_nibble_inverse(s@[i - 2]);
            lemma_nibble_inverse(s@[i - 1]);
            assert(spec_hex_digit((b / 16) as nat) == s@[i - 2]);
            assert(spec_hex_digit((b % 16) as nat) == s@[i - 1]);
            assert(s@.subrange(0, i as int) =~= s@.subrange(0, i - 2) + seq![
                s@[i - 2],
                s@[i - 1],
            ]);
        }
    }
    proof {
        assert(s@.subrange(0, s@.len() as int) =~= s@);
        lemma_hex_is_hex_str(out@);
    }
    Some(out)
}

} // verus!
