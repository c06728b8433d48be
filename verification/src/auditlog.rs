//! The audit log as JSON: the exact byte format the service mails out
//! beside each document. Identifiers are 32-digit lower-case hex, hashes
//! hex strings, and text fields JSON-escaped; `spec_log_json` pins the
//! serialisation byte for byte.

use vstd::prelude::*;
use crate::num::{spec_hex, spec_dec_i64, spec_hex_digit, push_hex, push_dec_i64};
use crate::obj::push_slice;
use crate::envelope::{LogEntry, LogEntryType};

verus! {

/// JSON string escaping: `"` and `\` get a backslash; control bytes
/// become `\u00XX`; everything else passes through.
pub open spec fn spec_jesc(s: Seq<u8>) -> Seq<u8>
    decreases s.len(),
{
    if s.len() == 0 {
        Seq::empty()
    } else {
        spec_jesc(s.drop_last()) + spec_jesc_byte(s.last())
    }
}

pub open spec fn spec_jesc_byte(b: u8) -> Seq<u8> {
    if b == 34 || b == 92 {
        seq![92u8, b]
    } else if b < 32 {
        seq![92u8, 117u8, 48u8, 48u8, spec_hex_digit((b / 16) as nat), spec_hex_digit(
            (b % 16) as nat,
        )]
    } else {
        seq![b]
    }
}

/// Appends the JSON escaping of `s`.
pub fn push_jesc(out: &mut Vec<u8>, s: &[u8])
    ensures
        final(out)@ == old(out)@ + spec_jesc(s@),
{
    let mut i: usize = 0;
    proof {
        assert(out@ =~= old(out)@ + spec_jesc(s@.subrange(0, 0)));
    }
    while i < s.len()
        invariant
            0 <= i <= s@.len(),
            out@ == old(out)@ + spec_jesc(s@.subrange(0, i as int)),
        decreases s@.len() - i,
    {
        let b = s[i];
        if b == 34 || b == 92 {
            out.push(92);
            out.push(b);
        } else if b < 32 {
            out.push(92);
            out.push(117);
            out.push(48);
            out.push(48);
            out.push(if b / 16 < 10 {
                48 + b / 16
            } else {
                87 + b / 16
            });
            out.push(if b % 16 < 10 {
                48 + b % 16
            } else {
                87 + b % 16
            });
        } else {
            out.push(b);
        }
        i = i + 1;
        proof {
            let cur = s@.subrange(0, i as int);
            assert(cur.drop_last() =~= s@.subrange(0, i - 1));
            assert(cur.last() == s@[i - 1]);
            assert(out@ =~= old(out)@ + spec_jesc(cur));
        }
    }
    proof {
        assert(s@.subrange(0, s@.len() as int) =~= s@);
    }
}

/// The sixteen big-endian bytes of an identifier.
pub open spec fn spec_u128_bytes(v: u128) -> Seq<u8> {
    Seq::new(16, |i: int| ((v >> (((15 - i) * 8) as u128)) & 0xff) as u8)
}

/// An identifier as 32 lower-case hex digits.
pub open spec fn spec_id_hex(v: u128) -> Seq<u8> {
    spec_hex(spec_u128_bytes(v))
}

/// Appends the 32-digit hex rendering of an identifier.
pub fn push_id_hex(out: &mut Vec<u8>, v: u128)
    ensures
        final(out)@ == old(out)@ + spec_id_hex(v),
{
    let mut bytes: Vec<u8> = Vec::new();
    let mut i: usize = 0;
    while i < 16
        invariant
            0 <= i <= 16,
            bytes@.len() == i,
            forall|j: int| 0 <= j < i ==> bytes@[j] == ((v >> (((15 - j) * 8) as u128)) & 0xff) as u8,
        decreases 16 - i,
    {
        let sh: u32 = ((15 - i) * 8) as u32;
        bytes.push(((v >> sh) & 0xff) as u8);
        i = i + 1;
    }
    proof {
        assert(bytes@ =~= spec_u128_bytes(v));
    }
    push_hex(out, bytes.as_slice());
}

/// The lower-case label of a log entry type.
pub open spec fn spec_log_type(t: LogEntryType) -> Seq<u8> {
    match t {
        LogEntryType::Created => seq![99u8, 114u8, 101u8, 97u8, 116u8, 101u8, 100u8],
        LogEntryType::Opened => seq![111u8, 112u8, 101u8, 110u8, 101u8, 100u8],
        LogEntryType::Downloaded => seq![100u8, 111u8, 119u8, 110u8, 108u8, 111u8, 97u8, 100u8, 101u8, 100u8],
        LogEntryType::Signed => seq![115u8, 105u8, 103u8, 110u8, 101u8, 100u8],
    }
}

fn push_log_type(out: &mut Vec<u8>, t: &LogEntryType)
    ensures
        final(out)@ == old(out)@ + spec_log_type(*t),
{
    match t {
        LogEntryType::Created => {
            let w: [u8; 7] = [99, 114, 101, 97, 116, 101, 100];
            push_slice(out, w.as_slice());
            proof {
                assert(w@ =~= seq![99u8, 114u8, 101u8, 97u8, 116u8, 101u8, 100u8]);
            }
        },
        LogEntryType::Opened => {
            let w: [u8; 6] = [111, 112, 101, 110, 101, 100];
            push_slice(out, w.as_slice());
            proof {
                assert(w@ =~= seq![111u8, 112u8, 101u8, 110u8, 101u8, 100u8]);
            }
        },
        LogEntryType::Downloaded => {
            let w: [u8; 10] = [100, 111, 119, 110, 108, 111, 97, 100, 101, 100];
            push_slice(out, w.as_slice());
            proof {
                assert(w@ =~= seq![100u8, 111u8, 119u8, 110u8, 108u8, 111u8, 97u8, 100u8, 101u8, 100u8]);
            }
        },
        LogEntryType::Signed => {
            let w: [u8; 6] = [115, 105, 103, 110, 101, 100];
            push_slice(out, w.as_slice());
            proof {
                assert(w@ =~= seq![115u8, 105u8, 103u8, 110u8, 101u8, 100u8]);
            }
        },
    }
}

/// One entry object: ids and hashes in hex, the timestamp a decimal, the
/// recipient's address escaped.
pub open spec fn spec_log_entry(e: LogEntry, email: Vec<u8>) -> Seq<u8> {
    seq![123u8, 34u8, 105u8, 100u8, 34u8, 58u8, 34u8] + spec_id_hex(e.id) + seq![34u8, 44u8, 34u8, 116u8, 105u8, 109u8, 101u8, 115u8, 116u8, 97u8, 109u8, 112u8, 34u8, 58u8] + spec_dec_i64(e.timestamp as int)
        + seq![44u8, 34u8, 114u8, 101u8, 99u8, 105u8, 112u8, 105u8, 101u8, 110u8, 116u8, 95u8, 105u8, 100u8, 34u8, 58u8, 34u8] + spec_id_hex(e.recipient_id) + seq![34u8, 44u8, 34u8, 114u8, 101u8, 99u8, 105u8, 112u8, 105u8, 101u8, 110u8, 116u8, 95u8, 101u8, 109u8, 97u8, 105u8, 108u8, 34u8, 58u8, 34u8] + spec_jesc(email@)
        + seq![34u8, 44u8, 34u8, 101u8, 110u8, 116u8, 114u8, 121u8, 95u8, 116u8, 121u8, 112u8, 101u8, 34u8, 58u8, 34u8] + spec_log_type(e.entry_type) + seq![34u8, 44u8, 34u8, 99u8, 117u8, 114u8, 114u8, 101u8, 110u8, 116u8, 95u8, 102u8, 105u8, 108u8, 101u8, 34u8, 58u8, 34u8] + spec_id_hex(
        e.current_file,
    ) + seq![34u8, 44u8, 34u8, 99u8, 117u8, 114u8, 114u8, 101u8, 110u8, 116u8, 95u8, 100u8, 111u8, 99u8, 117u8, 109u8, 101u8, 110u8, 116u8, 95u8, 104u8, 97u8, 115u8, 104u8, 34u8, 58u8, 34u8] + spec_hex(e.current_document_hash@) + seq![34u8, 125u8]
}

fn push_log_entry(out: &mut Vec<u8>, e: &LogEntry, email: &Vec<u8>)
    ensures
        final(out)@ == old(out)@ + spec_log_entry(*e, *email),
{
    let w1: [u8; 7] = [123, 34, 105, 100, 34, 58, 34];
    push_slice(out, w1.as_slice());
    push_id_hex(out, e.id);
    let w2: [u8; 14] = [34, 44, 34, 116, 105, 109, 101, 115, 116, 97, 109, 112, 34, 58];
    push_slice(out, w2.as_slice());
    push_dec_i64(out, e.timestamp);
    let w3: [u8; 17] = [44, 34, 114, 101, 99, 105, 112, 105, 101, 110, 116, 95, 105, 100, 34, 58, 34];
    push_slice(out, w3.as_slice());
    push_id_hex(out, e.recipient_id);
    let w4: [u8; 21] = [34, 44, 34, 114, 101, 99, 105, 112, 105, 101, 110, 116, 95, 101, 109, 97, 105, 108, 34, 58, 34];
    push_slice(out, w4.as_slice());
    push_jesc(out, email.as_slice());
    let w5: [u8; 16] = [34, 44, 34, 101, 110, 116, 114, 121, 95, 116, 121, 112, 101, 34, 58, 34];
    push_slice(out, w5.as_slice());
    push_log_type(out, &e.entry_type);
    let w6: [u8; 18] = [34, 44, 34, 99, 117, 114, 114, 101, 110, 116, 95, 102, 105, 108, 101, 34, 58, 34];
    push_slice(out, w6.as_slice());
    push_id_hex(out, e.current_file);
    let w7: [u8; 27] = [34, 44, 34, 99, 117, 114, 114, 101, 110, 116, 95, 100, 111, 99, 117, 109, 101, 110, 116, 95, 104, 97, 115, 104, 34, 58, 34];
    push_slice(out, w7.as_slice());
    push_hex(out, e.current_document_hash.as_slice());
    let w8: [u8; 2] = [34, 125];
    push_slice(out, w8.as_slice());
    proof {
        assert(w1@ =~= seq![123u8, 34u8, 105u8, 100u8, 34u8, 58u8, 34u8]);
        assert(w2@ =~= seq![34u8, 44u8, 34u8, 116u8, 105u8, 109u8, 101u8, 115u8, 116u8, 97u8, 109u8, 112u8, 34u8, 58u8]);
        assert(w3@ =~= seq![44u8, 34u8, 114u8, 101u8, 99u8, 105u8, 112u8, 105u8, 101u8, 110u8, 116u8, 95u8, 105u8, 100u8, 34u8, 58u8, 34u8]);
        assert(w4@ =~= seq![34u8, 44u8, 34u8, 114u8, 101u8, 99u8, 105u8, 112u8, 105u8, 101u8, 110u8, 116u8, 95u8, 101u8, 109u8, 97u8, 105u8, 108u8, 34u8, 58u8, 34u8]);
        assert(w5@ =~= seq![34u8, 44u8, 34u8, 101u8, 110u8, 116u8, 114u8, 121u8, 95u8, 116u8, 121u8, 112u8, 101u8, 34u8, 58u8, 34u8]);
        assert(w6@ =~= seq![34u8, 44u8, 34u8, 99u8, 117u8, 114u8, 114u8, 101u8, 110u8, 116u8, 95u8, 102u8, 105u8, 108u8, 101u8, 34u8, 58u8, 34u8]);
        assert(w7@ =~= seq![34u8, 44u8, 34u8, 99u8, 117u8, 114u8, 114u8, 101u8, 110u8, 116u8, 95u8, 100u8, 111u8, 99u8, 117u8, 109u8, 101u8, 110u8, 116u8, 95u8, 104u8, 97u8, 115u8, 104u8, 34u8, 58u8, 34u8]);
        assert(w8@ =~= seq![34u8, 125u8]);
        assert(out@ =~= old(out)@ + spec_log_entry(*e, *email));
    }
}

/// The entry objects, comma-separated.
pub open spec fn spec_log_entries(entries: Seq<LogEntry>, emails: Seq<Vec<u8>>) -> Seq<u8>
    decreases entries.len(),
{
    if entries.len() == 0 {
        Seq::empty()
    } else {
        spec_log_entries(entries.drop_last(), emails.drop_last()) + (if entries.len() > 1 {
            seq![44u8]
        } else {
            Seq::empty()
        }) + spec_log_entry(entries.last(), emails.last())
    }
}

/// The whole audit log document for one envelope, with one address per
/// entry (its recipient's).
pub open spec fn spec_log_json(envelope_id: u128, entries: Seq<LogEntry>, emails: Seq<Vec<u8>>) -> Seq<
    u8,
> {
    seq![123u8, 34u8, 101u8, 110u8, 118u8, 101u8, 108u8, 111u8, 112u8, 101u8, 95u8, 105u8, 100u8, 34u8, 58u8, 34u8] + spec_id_hex(envelope_id) + seq![34u8, 44u8, 34u8, 101u8, 110u8, 116u8, 114u8, 105u8, 101u8, 115u8, 34u8, 58u8, 91u8] + spec_log_entries(
        entries,
        emails,
    ) + seq![93u8, 125u8]
}

/// Serialises the audit log exactly as `spec_log_json` states.
pub fn log_json(envelope_id: u128, entries: &Vec<LogEntry>, emails: &Vec<Vec<u8>>) -> (r: Vec<
    u8,
>)
    requires
        emails@.len() == entries@.len(),
    ensures
        r@ == spec_log_json(envelope_id, entries@, emails@),
{
    let mut out: Vec<u8> = Vec::new();
    let w1: [u8; 16] = [123, 34, 101, 110, 118, 101, 108, 111, 112, 101, 95, 105, 100, 34, 58, 34];
    push_slice(&mut out, w1.as_slice());
    push_id_hex(&mut out, envelope_id);
    let w2: [u8; 13] = [34, 44, 34, 101, 110, 116, 114, 105, 101, 115, 34, 58, 91];
    push_slice(&mut out, w2.as_slice());
    let ghost mid = out@;
    let mut i: usize = 0;
    proof {
        assert(out@ =~= mid + spec_log_entries(
            entries@.subrange(0, 0),
            emails@.subrange(0, 0),
        ));
    }
    while i < entries.len()
        invariant
            emails@.len() == entries@.len(),
            0 <= i <= entries@.len(),
            out@ == mid + spec_log_entries(
                entries@.subrange(0, i as int),
                emails@.subrange(0, i as int),
            ),
        decreases entries@.len() - i,
    {
        if i > 0 {
            out.push(44);
        }
        push_log_entry(&mut out, &entries[i], &emails[i]);
        i = i + 1;
        proof {
            let ce = entries@.subrange(0, i as int);
            let cm = emails@.subrange(0, i as int);
            assert(ce.drop_last() =~= entries@.subrange(0, i - 1));
            assert(cm.drop_last() =~= emails@.subrange(0, i - 1));
            assert(ce.last() == entries@[i - 1] && cm.last() == emails@[i - 1]);
            assert(out@ =~= mid + spec_log_entries(ce, cm));
        }
    }
    let w3: [u8; 2] = [93, 125];
    push_slice(&mut out, w3.as_slice());
    proof {
        assert(w1@ =~= seq![123u8, 34u8, 101u8, 110u8, 118u8, 101u8, 108u8, 111u8, 112u8, 101u8, 95u8, 105u8, 100u8, 34u8, 58u8, 34u8]);
        assert(w2@ =~= seq![34u8, 44u8, 34u8, 101u8, 110u8, 116u8, 114u8, 105u8, 101u8, 115u8, 34u8, 58u8, 91u8]);
        assert(w3@ =~= seq![93u8, 125u8]);
        assert(entries@.subrange(0, entries@.len() as int) =~= entries@);
        assert(emails@.subrange(0, emails@.len() as int) =~= emails@);
        assert(out@ =~= spec_log_json(envelope_id, entries@, emails@));
    }
    out
}

} // verus!
