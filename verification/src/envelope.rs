//! The envelope data model and its progression: recipients in signing
//! order, field-value validation on submission, the choice of the next
//! recipient, and the append-only log whose newest `Signed` entry always
//! names the hash of the envelope's current file.

use vstd::prelude::*;
use crate::err::Error;
use crate::geom::NormRect;
use crate::crypto::{random_bytes, b64url_encode, b64url_of, b64url_decoded, b64url_len,
    email_ok, email_valid, sha512_of};

verus! {

/// What a template field holds.
#[derive(Clone, Copy, PartialEq, Eq, Structural, Debug)]
pub enum FieldType {
    Signature,
    Text,
    Date,
    Checkbox,
}

impl FieldType {
    /// The lower-case label used in rendered pages and logs.
    pub fn to_string(&self) -> (r: &'static str)
        ensures
            r@ == self.spec_label(),
    {
        match self {
            FieldType::Signature => "signature",
            FieldType::Text => "text",
            FieldType::Date => "date",
            FieldType::Checkbox => "checkbox",
        }
    }

    pub open spec fn spec_label(&self) -> Seq<char> {
        match self {
            FieldType::Signature => "signature"@,
            FieldType::Text => "text"@,
            FieldType::Date => "date"@,
            FieldType::Checkbox => "checkbox"@,
        }
    }
}

/// What an audit log entry records.
#[derive(Clone, Copy, PartialEq, Eq, Structural, Debug)]
pub enum LogEntryType {
    Created,
    Opened,
    Downloaded,
    Signed,
}

/// A positioned fillable field of a template.
pub struct TemplateField {
    pub id: u128,
    pub signing_order: i64,
    pub field_type: FieldType,
    pub required: bool,
    pub page: u32,
    pub rect: NormRect,
}

/// One recipient of an envelope, with the signing-link key.
pub struct EnvelopeRecipient {
    pub id: u128,
    pub envelope_id: u128,
    pub email: Vec<u8>,
    pub recipient_order: i64,
    pub key: Vec<u8>,
    pub completed: bool,
}

/// A fresh recipient key: the URL-safe unpadded base64 of 64 random
/// bytes (86 characters), decoding back to exactly those bytes.
pub fn make_recipient_key() -> (r: Vec<u8>)
    ensures
        r@.len() == 86,
        exists|b: Seq<u8>|
            b.len() == 64 && r@ == b64url_of(b) && b64url_decoded(r@) == Some(b),
{
    let bytes = random_bytes(64);
    let out = b64url_encode(bytes.as_slice());
    proof {
        assert(b64url_len(64) == 86);
        assert(bytes@.len() == 64 && out@ == b64url_of(bytes@) && b64url_decoded(out@) == Some(
            bytes@,
        ));
    }
    out
}

/// The next recipient to ask for a signature: the index of an incomplete
/// recipient of minimal `recipient_order` (the first such in the list).
/// `None` exactly when every recipient has completed, which is when the
/// envelope moves to final distribution.
pub fn next_recipient(rs: &Vec<EnvelopeRecipient>) -> (r: Option<usize>)
    ensures
        match r {
            Some(i) => {
                &&& i < rs@.len()
                &&& !rs@[i as int].completed
                &&& forall|j: int|
                    0 <= j < rs@.len() && !rs@[j].completed ==> rs@[i as int].recipient_order
                        <= #[trigger] rs@[j].recipient_order
            },
            None => forall|j: int| 0 <= j < rs@.len() ==> rs@[j].completed,
        },
{
    let mut best: Option<usize> = None;
    let mut i: usize = 0;
    while i < rs.len()
        invariant
            0 <= i <= rs@.len(),
            match best {
                Some(k) => {
                    &&& k < i
                    &&& !rs@[k as int].completed
                    &&& forall|j: int|
                        0 <= j < i && !rs@[j].completed ==> rs@[k as int].recipient_order
                            <= #[trigger] rs@[j].recipient_order
                },
                None => forall|j: int| 0 <= j < i ==> rs@[j].completed,
            },
        decreases rs@.len() - i,
    {
        if !rs[i].completed {
            match best {
                Some(k) => {
                    if rs[i].recipient_order < rs[k].recipient_order {
                        best = Some(i);
                    }
                },
                None => {
                    best = Some(i);
                },
            }
        }
        i = i + 1;
    }
    best
}

/// First value bound to a field id in a submission.
pub open spec fn spec_value_of(vals: Seq<(u128, Vec<u8>)>, id: u128) -> Option<Vec<u8>>
    decreases vals.len(),
{
    if vals.len() == 0 {
        None
    } else if vals[0].0 == id {
        Some(vals[0].1)
    } else {
        spec_value_of(vals.subrange(1, vals.len() as int), id)
    }
}

fn value_of<'a>(vals: &'a Vec<(u128, Vec<u8>)>, id: u128) -> (r: Option<&'a Vec<u8>>)
    ensures
        match r {
            Some(v) => spec_value_of(vals@, id) == Some(*v),
            None => spec_value_of(vals@, id) is None,
        },
{
    let mut i: usize = 0;
    proof {
        assert(vals@.subrange(0, vals@.len() as int) =~= vals@);
    }
    while i < vals.len()
        invariant
            0 <= i <= vals@.len(),
            spec_value_of(vals@, id) == spec_value_of(
                vals@.subrange(i as int, vals@.len() as int),
                id,
            ),
        decreases vals@.len() - i,
    {
        if vals[i].0 == id {
            proof {
                let tail = vals@.subrange(i as int, vals@.len() as int);
                assert(tail[0] == vals@[i as int]);
            }
            return Some(&vals[i].1);
        }
        i = i + 1;
        proof {
            let pre = vals@.subrange(i - 1, vals@.len() as int);
            assert(pre.subrange(1, pre.len() as int) =~= vals@.subrange(
                i as int,
                vals@.len() as int,
            ));
        }
    }
    proof {
        assert(vals@.subrange(vals@.len() as int, vals@.len() as int) =~= Seq::<(u128,
            Vec<u8>)>::empty());
    }
    None
}

/// Whether a submission satisfies one field: a value is present, and a
/// required field's value is not empty.
pub open spec fn spec_field_satisfied(f: TemplateField, vals: Seq<(u128, Vec<u8>)>) -> bool {
    match spec_value_of(vals, f.id) {
        Some(v) => !f.required || v@.len() > 0,
        None => false,
    }
}

/// Pairs every field with its submitted value. `Ok` exactly when every
/// field has a value and every required field's value is non-empty; the
/// pairs come back in field order.
pub fn collect_field_values(fields: &Vec<TemplateField>, vals: &Vec<(u128, Vec<u8>)>) -> (r:
    Result<Vec<(u128, Vec<u8>)>, Error>)
    ensures
        match r {
            Ok(out) => {
                &&& forall|k: int|
                    0 <= k < fields@.len() ==> #[trigger] spec_field_satisfied(fields@[k], vals@)
                &&& out@.len() == fields@.len()
                &&& forall|k: int|
                    0 <= k < out@.len() ==> #[trigger] out@[k].0 == fields@[k].id && out@[k].1@
                        == spec_value_of(vals@, fields@[k].id).unwrap()@
            },
            Err(e) => {
                &&& e == Error::InvalidInput
                &&& exists|k: int|
                    0 <= k < fields@.len() && !spec_field_satisfied(fields@[k], vals@)
            },
        },
{
    let mut out: Vec<(u128, Vec<u8>)> = Vec::new();
    let mut i: usize = 0;
    while i < fields.len()
        invariant
            0 <= i <= fields@.len(),
            out@.len() == i,
            forall|k: int| 0 <= k < i ==> #[trigger] spec_field_satisfied(fields@[k], vals@),
            forall|k: int|
                0 <= k < i ==> #[trigger] out@[k].0 == fields@[k].id && out@[k].1@
                    == spec_value_of(vals@, fields@[k].id).unwrap()@,
        decreases fields@.len() - i,
    {
        let v = match value_of(vals, fields[i].id) {
            Some(v) => v,
            None => {
                return Err(Error::InvalidInput);
            },
        };
        if fields[i].required && v.len() == 0 {
            return Err(Error::InvalidInput);
        }
        let copied = crate::obj::clone_bytes(v);
        out.push((fields[i].id, copied));
        i = i + 1;
    }
    Ok(out)
}

/// Builds the envelope's recipient list: the sender at order 0, already
/// complete, then one recipient per address at orders 1..=N, incomplete.
/// The set of `recipient_order` values is exactly `{0, …, N}`.
/// `Ok` exactly when every address passes the mail-address parser.
pub fn create_recipients(
    envelope_id: u128,
    sender_id: u128,
    sender_email: Vec<u8>,
    sender_key: Vec<u8>,
    emails: &Vec<Vec<u8>>,
    ids: &Vec<u128>,
    keys: &Vec<Vec<u8>>,
) -> (r: Result<Vec<EnvelopeRecipient>, Error>)
    requires
        ids@.len() == emails@.len(),
        keys@.len() == emails@.len(),
        emails@.len() < 0x8000_0000,
    ensures
        match r {
            Ok(out) => {
                &&& forall|j: int| 0 <= j < emails@.len() ==> #[trigger] email_ok(emails@[j]@)
                &&& out@.len() == emails@.len() + 1
                &&& forall|k: int|
                    0 <= k < out@.len() ==> #[trigger] out@[k].recipient_order == k
                &&& out@[0].completed
                &&& out@[0].id == sender_id
                &&& forall|k: int| 1 <= k < out@.len() ==> !(#[trigger] out@[k].completed)
                &&& forall|k: int|
                    1 <= k < out@.len() ==> #[trigger] out@[k].email@ == emails@[k - 1]@
                &&& forall|k: int|
                    1 <= k < out@.len() ==> #[trigger] out@[k].id == ids@[k - 1]
                &&& forall|k: int|
                    1 <= k < out@.len() ==> #[trigger] out@[k].key@ == keys@[k - 1]@
                &&& forall|k: int|
                    0 <= k < out@.len() ==> #[trigger] out@[k].envelope_id == envelope_id
            },
            Err(e) => {
                &&& e == Error::InvalidInput
                &&& exists|j: int| 0 <= j < emails@.len() && !email_ok(emails@[j]@)
            },
        },
{
    let mut out: Vec<EnvelopeRecipient> = Vec::new();
    out.push(
        EnvelopeRecipient {
            id: sender_id,
            envelope_id,
            email: sender_email,
            recipient_order: 0,
            key: sender_key,
            completed: true,
        },
    );
    let mut i: usize = 0;
    while i < emails.len()
        invariant
            ids@.len() == emails@.len(),
            keys@.len() == emails@.len(),
            emails@.len() < 0x8000_0000,
            0 <= i <= emails@.len(),
            out@.len() == i + 1,
            forall|j: int| 0 <= j < i ==> #[trigger] email_ok(emails@[j]@),
            forall|k: int| 0 <= k < out@.len() ==> #[trigger] out@[k].recipient_order == k,
            out@[0].completed,
            out@[0].id == sender_id,
            forall|k: int| 1 <= k < out@.len() ==> !(#[trigger] out@[k].completed),
            forall|k: int| 1 <= k < out@.len() ==> #[trigger] out@[k].email@ == emails@[k - 1]@,
            forall|k: int| 1 <= k < out@.len() ==> #[trigger] out@[k].id == ids@[k - 1],
            forall|k: int| 1 <= k < out@.len() ==> #[trigger] out@[k].key@ == keys@[k - 1]@,
            forall|k: int| 0 <= k < out@.len() ==> #[trigger] out@[k].envelope_id == envelope_id,
        decreases emails@.len() - i,
    {
        if !email_valid(emails[i].as_slice()) {
            return Err(Error::InvalidInput);
        }
        let email = crate::obj::clone_bytes(&emails[i]);
        let key = crate::obj::clone_bytes(&keys[i]);
        out.push(
            EnvelopeRecipient {
                id: ids[i],
                envelope_id,
                email,
                recipient_order: (i + 1) as i64,
                key,
                completed: false,
            },
        );
        i = i + 1;
    }
    Ok(out)
}

/// An append-only audit log entry.
pub struct LogEntry {
    pub id: u128,
    pub envelope_id: u128,
    pub timestamp: i64,
    pub recipient_id: u128,
    pub entry_type: LogEntryType,
    pub current_file: u128,
    pub current_document_hash: Vec<u8>,
}

/// An envelope with its current file bytes and its log.
pub struct EnvelopeState {
    pub id: u128,
    pub template_id: u128,
    pub base_file: u128,
    pub current_file: u128,
    pub current_bytes: Vec<u8>,
    pub log: Vec<LogEntry>,
}

/// The envelope invariant: log timestamps never decrease, and the newest
/// `Signed` entry names the current file and carries the SHA-512 of the
/// current bytes.
pub open spec fn envelope_wf(e: EnvelopeState) -> bool {
    &&& forall|i: int, j: int|
        0 <= i <= j < e.log@.len() ==> #[trigger] e.log@[i].timestamp <= #[trigger] e.log@[j].timestamp
    &&& forall|i: int|
        0 <= i < e.log@.len() ==> #[trigger] e.log@[i].envelope_id == e.id
    &&& (exists|i: int|
        0 <= i < e.log@.len() && is_latest_signed(e.log@, i)) ==> {
        let i = choose|i: int| 0 <= i < e.log@.len() && is_latest_signed(e.log@, i);
        e.log@[i].current_file == e.current_file && e.log@[i].current_document_hash@ == sha512_of(
            e.current_bytes@,
        )
    }
}

/// Entry `i` is a `Signed` entry with no later `Signed` entry.
pub open spec fn is_latest_signed(log: Seq<LogEntry>, i: int) -> bool {
    &&& 0 <= i < log.len()
    &&& log[i].entry_type == LogEntryType::Signed
    &&& forall|j: int| i < j < log.len() ==> #[trigger] log[j].entry_type != LogEntryType::Signed
}

/// Applies one signing step: appends the `Signed` entry and advances
/// `current_file`, in a single state change, preserving the invariant.
/// The log is append-only: the old entries stay untouched.
pub fn apply_sign(
    e: EnvelopeState,
    entry_id: u128,
    recipient_id: u128,
    timestamp: i64,
    new_file: u128,
    new_bytes: Vec<u8>,
    new_hash: Vec<u8>,
) -> (r: EnvelopeState)
    requires
        envelope_wf(e),
        new_hash@ == sha512_of(new_bytes@),
        forall|i: int| 0 <= i < e.log@.len() ==> #[trigger] e.log@[i].timestamp <= timestamp,
    ensures
        envelope_wf(r),
        r.log@.len() == e.log@.len() + 1,
        r.log@.subrange(0, e.log@.len() as int) == e.log@,
        r.log@.last().entry_type == LogEntryType::Signed,
        r.log@.last().id == entry_id,
        r.log@.last().recipient_id == recipient_id,
        r.log@.last().timestamp == timestamp,
        r.log@.last().envelope_id == e.id,
        r.log@.last().current_file == new_file,
        r.log@.last().current_document_hash@ == sha512_of(new_bytes@),
        r.current_file == new_file,
        r.current_bytes@ == new_bytes@,
        r.id == e.id && r.template_id == e.template_id && r.base_file == e.base_file,
{
    let mut e = e;
    let entry = LogEntry {
        id: entry_id,
        envelope_id: e.id,
        timestamp,
        recipient_id,
        entry_type: LogEntryType::Signed,
        current_file: new_file,
        current_document_hash: new_hash,
    };
    let ghost old_log = e.log@;
    e.log.push(entry);
    e.current_file = new_file;
    e.current_bytes = new_bytes;
    proof {
        assert(e.log@.subrange(0, old_log.len() as int) =~= old_log);
        let n = e.log@.len() - 1;
        assert(is_latest_signed(e.log@, n));
        assert forall|i: int|
            0 <= i < e.log@.len() && is_latest_signed(e.log@, i) implies i == n by {
            if i < n {
                assert(e.log@[n].entry_type == LogEntryType::Signed);
            }
        }
        let w = choose|i: int| 0 <= i < e.log@.len() && is_latest_signed(e.log@, i);
        assert(w == n);
    }
    e
}


/// One signing step from plain values: hashes the new revision itself and
/// applies it, so callers need not supply the digest.
pub fn sign_step(
    e: EnvelopeState,
    entry_id: u128,
    recipient_id: u128,
    timestamp: i64,
    new_file: u128,
    new_bytes: Vec<u8>,
) -> (r: EnvelopeState)
    requires
        envelope_wf(e),
        forall|i: int| 0 <= i < e.log@.len() ==> #[trigger] e.log@[i].timestamp <= timestamp,
    ensures
        envelope_wf(r),
        r.log@.len() == e.log@.len() + 1,
        r.log@.subrange(0, e.log@.len() as int) == e.log@,
        r.log@.last().entry_type == LogEntryType::Signed,
        r.log@.last().id == entry_id,
        r.log@.last().recipient_id == recipient_id,
        r.log@.last().timestamp == timestamp,
        r.log@.last().envelope_id == e.id,
        r.log@.last().current_file == new_file,
        r.log@.last().current_document_hash@ == sha512_of(new_bytes@),
        r.current_file == new_file,
        r.current_bytes@ == new_bytes@,
        r.id == e.id && r.template_id == e.template_id && r.base_file == e.base_file,
{
    let h = crate::crypto::sha512(new_bytes.as_slice());
    apply_sign(e, entry_id, recipient_id, timestamp, new_file, new_bytes, h)
}


/// Whether a presented signing-link key matches the recipient's, compared
/// in constant time.
pub fn recipient_key_matches(r: &EnvelopeRecipient, presented: &[u8]) -> (m: bool)
    ensures
        m == (r.key@ == presented@),
{
    crate::obj::bytes_eq(r.key.as_slice(), presented)
}

/// Two latest `Signed` entries are the same entry.
proof fn lemma_latest_signed_unique(log: Seq<LogEntry>, i: int, j: int)
    requires
        is_latest_signed(log, i),
        is_latest_signed(log, j),
    ensures
        i == j,
{
    if i < j {
        assert(log[j].entry_type != LogEntryType::Signed);
    } else if j < i {
        assert(log[i].entry_type != LogEntryType::Signed);
    }
}

/// Records that a recipient opened their signing link: appends an
/// `Opened` entry carrying the current file and the digest of its bytes
/// at the moment of write, leaving the file and the earlier entries
/// untouched.
pub fn open_step(e: EnvelopeState, entry_id: u128, recipient_id: u128, timestamp: i64) -> (r:
    EnvelopeState)
    requires
        envelope_wf(e),
        forall|i: int| 0 <= i < e.log@.len() ==> #[trigger] e.log@[i].timestamp <= timestamp,
    ensures
        envelope_wf(r),
        r.log@.len() == e.log@.len() + 1,
        r.log@.subrange(0, e.log@.len() as int) == e.log@,
        r.log@.last().entry_type == LogEntryType::Opened,
        r.log@.last().id == entry_id,
        r.log@.last().recipient_id == recipient_id,
        r.log@.last().timestamp == timestamp,
        r.log@.last().envelope_id == e.id,
        r.log@.last().current_file == e.current_file,
        r.log@.last().current_document_hash@ == sha512_of(e.current_bytes@),
        r.current_file == e.current_file,
        r.current_bytes@ == e.current_bytes@,
        r.id == e.id && r.template_id == e.template_id && r.base_file == e.base_file,
{
    let mut e = e;
    let h = crate::crypto::sha512(e.current_bytes.as_slice());
    let entry = LogEntry {
        id: entry_id,
        envelope_id: e.id,
        timestamp,
        recipient_id,
        entry_type: LogEntryType::Opened,
        current_file: e.current_file,
        current_document_hash: h,
    };
    let ghost old_log = e.log@;
    let ghost old_state = e;
    e.log.push(entry);
    proof {
        assert(e.log@.subrange(0, old_log.len() as int) =~= old_log);
        let n = e.log@.len() - 1;
        assert forall|i: int|
            0 <= i < e.log@.len() && is_latest_signed(e.log@, i) implies is_latest_signed(
            old_log,
            i,
        ) by {
            assert(e.log@[n].entry_type == LogEntryType::Opened);
            assert(i != n);
            assert(forall|j: int|
                i < j < old_log.len() ==> old_log[j] == #[trigger] e.log@[j]);
        }
        assert forall|i: int|
            0 <= i < old_log.len() && is_latest_signed(old_log, i) implies is_latest_signed(
            e.log@,
            i,
        ) by {
            assert(e.log@[n].entry_type != LogEntryType::Signed);
        }
        if exists|i: int| 0 <= i < e.log@.len() && is_latest_signed(e.log@, i) {
            let i1 = choose|i: int| 0 <= i < e.log@.len() && is_latest_signed(e.log@, i);
            let i0 = choose|i: int| 0 <= i < old_log.len() && is_latest_signed(old_log, i);
            assert(is_latest_signed(old_log, i1));
            assert(is_latest_signed(old_log, i0));
            lemma_latest_signed_unique(old_log, i0, i1);
            assert(old_log[i0].current_file == old_state.current_file);
        }
    }
    e
}

} // verus!
