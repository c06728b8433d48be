//! The PDF incremental-update writer.
//!
//! Given the original file bytes and the new indirect objects, it appends a
//! complete update section: the objects, a cross-reference section (classic
//! table or xref stream) and a trailer whose `/Prev` points at the
//! original's last xref. The output is pinned down byte for byte — the
//! classic form by `spec_classic_update`, the stream form entry by entry
//! and row by row; in particular the original bytes are never touched,
//! only appended to.

use vstd::prelude::*;
use crate::err::Error;
use crate::num::{spec_dec, spec_dec_pad, push_dec_u64, push_dec_pad, push_dec10, pow10};
use crate::obj::{PdfObj, ser_obj, spec_get, write_obj, push_slice, dict_get, bytes_eq};

verus! {

/// One new indirect object of the update section.
pub struct NewObj {
    pub num: u32,
    pub gen: u16,
    pub obj: PdfObj,
}

/// ` obj\n`
pub open spec fn spec_obj_kw() -> Seq<u8> {
    seq![32u8, 111u8, 98u8, 106u8, 10u8]
}

/// `\nendobj\n`
pub open spec fn spec_endobj_kw() -> Seq<u8> {
    seq![10u8, 101u8, 110u8, 100u8, 111u8, 98u8, 106u8, 10u8]
}

/// `xref\n`
pub open spec fn spec_xref_kw() -> Seq<u8> {
    seq![120u8, 114u8, 101u8, 102u8, 10u8]
}

/// `trailer\n`
pub open spec fn spec_trailer_kw() -> Seq<u8> {
    seq![116u8, 114u8, 97u8, 105u8, 108u8, 101u8, 114u8, 10u8]
}

/// `\nstartxref\n`
pub open spec fn spec_startxref_kw() -> Seq<u8> {
    seq![10u8, 115u8, 116u8, 97u8, 114u8, 116u8, 120u8, 114u8, 101u8, 102u8, 10u8]
}

/// `\n%%EOF`
pub open spec fn spec_eof_kw() -> Seq<u8> {
    seq![10u8, 37u8, 37u8, 69u8, 79u8, 70u8]
}

/// `NUM GEN obj\n` … `\nendobj\n`
pub open spec fn spec_indirect(n: NewObj) -> Seq<u8> {
    spec_dec(n.num as nat) + seq![32u8] + spec_dec(n.gen as nat) + spec_obj_kw() + ser_obj(n.obj)
        + spec_endobj_kw()
}

/// The concatenated serialisation of the update's objects, in order.
pub open spec fn spec_objs(objs: Seq<NewObj>) -> Seq<u8>
    decreases objs.len(),
{
    if objs.len() == 0 {
        Seq::empty()
    } else {
        spec_objs(objs.drop_last()) + spec_indirect(objs.last())
    }
}

/// Whether an object's `/Type` keeps it out of the user-object index.
pub open spec fn spec_skipped(o: PdfObj) -> bool {
    match spec_obj_type(o) {
        Some(t) => t == spec_objstm_name() || t == spec_xref_name() || t == spec_lin_name(),
        None => false,
    }
}

/// `ObjStm`
pub open spec fn spec_objstm_name() -> Seq<u8> {
    seq![79u8, 98u8, 106u8, 83u8, 116u8, 109u8]
}

/// `XRef`
pub open spec fn spec_xref_name() -> Seq<u8> {
    seq![88u8, 82u8, 101u8, 102u8]
}

/// `Linearized`
pub open spec fn spec_lin_name() -> Seq<u8> {
    seq![76u8, 105u8, 110u8, 101u8, 97u8, 114u8, 105u8, 122u8, 101u8, 100u8]
}

/// `Type`
pub open spec fn spec_type_key() -> Seq<u8> {
    seq![84u8, 121u8, 112u8, 101u8]
}

/// The `/Type` name of a dictionary or stream, if it has one.
pub open spec fn spec_obj_type(o: PdfObj) -> Option<Seq<u8>> {
    match o {
        PdfObj::Dict(es) => match spec_get(es@, spec_type_key()) {
            Some(PdfObj::Name(n)) => Some(n@),
            _ => None,
        },
        PdfObj::Stream(es, _) => match spec_get(es@, spec_type_key()) {
            Some(PdfObj::Name(n)) => Some(n@),
            _ => None,
        },
        _ => None,
    }
}

/// One classic xref subsection of a single entry:
/// `NUM 1\nOFFSET(10) GEN(5) n \n`.
pub open spec fn spec_xref_row(num: nat, off: nat, gen: nat) -> Seq<u8> {
    spec_dec(num) + seq![32u8, 49u8, 10u8] + spec_dec_pad(off, 10) + seq![32u8] + spec_dec_pad(
        gen,
        5,
    ) + seq![32u8, 110u8, 32u8, 10u8]
}

/// The xref rows for the update's user objects, with each object's actual
/// byte offset in the output file.
pub open spec fn spec_xref_rows(objs: Seq<NewObj>, base_len: nat) -> Seq<u8>
    decreases objs.len(),
{
    if objs.len() == 0 {
        Seq::empty()
    } else {
        spec_xref_rows(objs.drop_last(), base_len) + (if spec_skipped(objs.last().obj) {
            Seq::empty()
        } else {
            spec_xref_row(
                objs.last().num as nat,
                base_len + spec_objs(objs.drop_last()).len(),
                objs.last().gen as nat,
            )
        })
    }
}

/// `trailer\n<<…>>\nstartxref\nSTART\n%%EOF`
pub open spec fn spec_trailer_section(trailer: PdfObj, xref_start: nat) -> Seq<u8> {
    spec_trailer_kw() + ser_obj(trailer) + spec_startxref_kw() + spec_dec(xref_start)
        + spec_eof_kw()
}

/// The whole classic-xref update section.
pub open spec fn spec_classic_update(objs: Seq<NewObj>, base_len: nat, trailer: PdfObj) -> Seq<
    u8,
> {
    spec_objs(objs) + spec_xref_kw() + spec_xref_rows(objs, base_len) + spec_trailer_section(
        trailer,
        base_len + spec_objs(objs).len(),
    )
}

/// Offsets of earlier objects never pass the whole section's length.
proof fn lemma_objs_prefix_len(objs: Seq<NewObj>, k: int)
    requires
        0 <= k <= objs.len(),
    ensures
        spec_objs(objs.subrange(0, k)).len() <= spec_objs(objs).len(),
    decreases objs.len() - k,
{
    if k == objs.len() {
        assert(objs.subrange(0, k) =~= objs);
    } else {
        let next = objs.subrange(0, k + 1);
        assert(next.drop_last() =~= objs.subrange(0, k));
        lemma_objs_prefix_len(objs, k + 1);
    }
}

/// Whether this object gets a row in the user-object index.
fn is_user_object(o: &PdfObj) -> (r: bool)
    ensures
        r == !spec_skipped(*o),
{
    let es = match o {
        PdfObj::Dict(es) => es,
        PdfObj::Stream(es, _) => es,
        _ => {
            return true;
        },
    };
    let tkey: [u8; 4] = [84, 121, 112, 101];
    proof {
        assert(tkey@ =~= spec_type_key());
    }
    let n = match dict_get(es, tkey.as_slice()) {
        Some(PdfObj::Name(n)) => n,
        _ => {
            return true;
        },
    };
    let objstm: [u8; 6] = [79, 98, 106, 83, 116, 109];
    let xref: [u8; 4] = [88, 82, 101, 102];
    let lin: [u8; 10] = [76, 105, 110, 101, 97, 114, 105, 122, 101, 100];
    proof {
        assert(objstm@ =~= spec_objstm_name());
        assert(xref@ =~= spec_xref_name());
        assert(lin@ =~= spec_lin_name());
    }
    let skipped = bytes_eq(n.as_slice(), objstm.as_slice()) || bytes_eq(
        n.as_slice(),
        xref.as_slice(),
    ) || bytes_eq(n.as_slice(), lin.as_slice());
    !skipped
}

/// Appends `NUM GEN obj\n … \nendobj\n` for one object.
fn write_indirect(out: &mut Vec<u8>, n: &NewObj)
    ensures
        final(out)@ == old(out)@ + spec_indirect(*n),
{
    push_dec_u64(out, n.num as u64);
    out.push(32);
    push_dec_u64(out, n.gen as u64);
    let kw: [u8; 5] = [32, 111, 98, 106, 10];
    push_slice(out, kw.as_slice());
    write_obj(out, &n.obj);
    let kw2: [u8; 8] = [10, 101, 110, 100, 111, 98, 106, 10];
    push_slice(out, kw2.as_slice());
    proof {
        assert(kw@ =~= spec_obj_kw());
        assert(kw2@ =~= spec_endobj_kw());
        assert(out@ =~= old(out)@ + spec_indirect(*n));
    }
}

/// Appends the update's objects in order; `offs[k]` is the byte offset in
/// `out` at which object `k` was written.
fn write_objs(out: &mut Vec<u8>, objs: &Vec<NewObj>) -> (offs: Vec<usize>)
    ensures
        final(out)@ == old(out)@ + spec_objs(objs@),
        offs@.len() == objs@.len(),
        forall|k: int|
            0 <= k < objs@.len() ==> #[trigger] offs@[k] == old(out)@.len() + spec_objs(
                objs@.subrange(0, k),
            ).len(),
{
    let mut offs: Vec<usize> = Vec::new();
    let mut i: usize = 0;
    proof {
        assert(out@ =~= old(out)@ + spec_objs(objs@.subrange(0, 0)));
    }
    while i < objs.len()
        invariant
            0 <= i <= objs@.len(),
            offs@.len() == i,
            out@ == old(out)@ + spec_objs(objs@.subrange(0, i as int)),
            forall|k: int|
                0 <= k < i ==> #[trigger] offs@[k] == old(out)@.len() + spec_objs(
                    objs@.subrange(0, k),
                ).len(),
        decreases objs@.len() - i,
    {
        offs.push(out.len());
        write_indirect(out, &objs[i]);
        i = i + 1;
        proof {
            let cur = objs@.subrange(0, i as int);
            assert(cur.drop_last() =~= objs@.subrange(0, i - 1));
            assert(cur.last() == objs@[i - 1]);
            assert(out@ =~= old(out)@ + spec_objs(cur));
        }
    }
    proof {
        assert(objs@.subrange(0, objs@.len() as int) =~= objs@);
    }
    offs
}

/// Appends the classic cross-reference table (one subsection per user
/// object), the given trailer dictionary, `startxref` and `%%EOF`.
///
/// On success the output is exactly the original bytes followed by
/// `spec_classic_update`; the original bytes are untouched. The one failure
/// is an update whose xref offsets no longer fit in the table's ten decimal
/// digits (a file of 10^10 bytes or more).
pub fn write_classic_update(base: Vec<u8>, objs: &Vec<NewObj>, trailer: &PdfObj) -> (r: Result<
    Vec<u8>,
    Error,
>)
    ensures
        match r {
            Ok(out) => {
                &&& base@.len() + spec_objs(objs@).len() < 10_000_000_000
                &&& out@ == base@ + spec_classic_update(objs@, base@.len(), *trailer)
                &&& out@.subrange(0, base@.len() as int) == base@
                &&& out@.len() == base@.len() + spec_classic_update(
                    objs@,
                    base@.len(),
                    *trailer,
                ).len()
            },
            Err(e) => {
                &&& e == Error::PdfError
                &&& base@.len() + spec_objs(objs@).len() >= 10_000_000_000
            },
        },
{
    let ghost base_view = base@;
    let mut out = base;
    let offs = write_objs(&mut out, objs);
    let xref_start: usize = out.len();
    if (xref_start as u64) >= 10_000_000_000u64 {
        return Err(Error::PdfError);
    }
    let kw: [u8; 5] = [120, 114, 101, 102, 10];
    push_slice(&mut out, kw.as_slice());
    proof {
        assert(kw@ =~= spec_xref_kw());
        assert(out@ =~= base_view + spec_objs(objs@) + spec_xref_kw() + spec_xref_rows(
            objs@.subrange(0, 0),
            base_view.len(),
        ));
    }
    let mut i: usize = 0;
    while i < objs.len()
        invariant
            0 <= i <= objs@.len(),
            offs@.len() == objs@.len(),
            forall|k: int|
                0 <= k < objs@.len() ==> #[trigger] offs@[k] == base_view.len() + spec_objs(
                    objs@.subrange(0, k),
                ).len(),
            xref_start == base_view.len() + spec_objs(objs@).len(),
            xref_start < 10_000_000_000,
            out@ == base_view + spec_objs(objs@) + spec_xref_kw() + spec_xref_rows(
                objs@.subrange(0, i as int),
                base_view.len(),
            ),
        decreases objs@.len() - i,
    {
        if is_user_object(&objs[i].obj) {
            push_dec_u64(&mut out, objs[i].num as u64);
            let sep: [u8; 3] = [32, 49, 10];
            push_slice(&mut out, sep.as_slice());
            proof {
                lemma_objs_prefix_len(objs@, i as int);
                reveal_with_fuel(pow10, 11);
            }
            push_dec10(&mut out, offs[i] as u64);
            out.push(32);
            proof {
                reveal_with_fuel(pow10, 6);
            }
            push_dec_pad(&mut out, objs[i].gen as u64, 5);
            let tail: [u8; 4] = [32, 110, 32, 10];
            push_slice(&mut out, tail.as_slice());
            proof {
                assert(sep@ =~= seq![32u8, 49u8, 10u8]);
                assert(tail@ =~= seq![32u8, 110u8, 32u8, 10u8]);
            }
        }
        i = i + 1;
        proof {
            let cur = objs@.subrange(0, i as int);
            assert(cur.drop_last() =~= objs@.subrange(0, i - 1));
            assert(cur.last() == objs@[i - 1]);
            assert(out@ =~= base_view + spec_objs(objs@) + spec_xref_kw() + spec_xref_rows(
                cur,
                base_view.len(),
            ));
        }
    }
    proof {
        assert(objs@.subrange(0, objs@.len() as int) =~= objs@);
    }
    let kw2: [u8; 8] = [116, 114, 97, 105, 108, 101, 114, 10];
    push_slice(&mut out, kw2.as_slice());
    write_obj(&mut out, trailer);
    let kw3: [u8; 11] = [10, 115, 116, 97, 114, 116, 120, 114, 101, 102, 10];
    push_slice(&mut out, kw3.as_slice());
    push_dec_u64(&mut out, xref_start as u64);
    let kw4: [u8; 6] = [10, 37, 37, 69, 79, 70];
    push_slice(&mut out, kw4.as_slice());
    proof {
        assert(kw2@ =~= spec_trailer_kw());
        assert(kw3@ =~= spec_startxref_kw());
        assert(kw4@ =~= spec_eof_kw());
        assert(out@ =~= base_view + spec_classic_update(objs@, base_view.len(), *trailer));
        assert(out@.subrange(0, base_view.len() as int) =~= base_view);
    }
    Ok(out)
}


/// `Size`
pub open spec fn spec_size_key() -> Seq<u8> {
    seq![83u8, 105u8, 122u8, 101u8]
}

/// `Prev`
pub open spec fn spec_prev_key() -> Seq<u8> {
    seq![80u8, 114u8, 101u8, 118u8]
}

/// The update's trailer dictionary: the original trailer's entries with
/// `/Size` set to `max_id + 1`, `/Prev` set to the original's last xref
/// offset, and any `/Type` removed; `/Root`, `/Info`, `/ID` and every
/// other key keep their first bindings.
pub fn make_trailer(orig: Vec<(Vec<u8>, PdfObj)>, max_id: u32, prev: u64) -> (r: PdfObj)
    requires
        prev < 10_000_000_000,
    ensures
        r is Dict,
        ({
            let es = r->Dict_0@;
            &&& spec_get(es, spec_size_key()) == Some(PdfObj::Int((max_id + 1) as i64))
            &&& spec_get(es, spec_prev_key()) == Some(PdfObj::Int(prev as i64))
            &&& spec_get(es, spec_type_key()) is None
            &&& forall|k: Seq<u8>|
                k != spec_size_key() && k != spec_prev_key() && k != spec_type_key()
                    ==> spec_get(es, k) == spec_get(orig@, k)
        }),
{
    let ghost orig0 = orig@;
    let mut es = orig;
    let tk: [u8; 4] = [84, 121, 112, 101];
    crate::obj::dict_remove_all(&mut es, tk.as_slice());
    let sk: [u8; 4] = [83, 105, 122, 101];
    crate::obj::dict_set(&mut es, crate::sig::slice_to_vec(sk.as_slice()), PdfObj::Int(
        (max_id as i64) + 1,
    ));
    let pk: [u8; 4] = [80, 114, 101, 118];
    crate::obj::dict_set(&mut es, crate::sig::slice_to_vec(pk.as_slice()), PdfObj::Int(
        prev as i64,
    ));
    proof {
        assert(tk@ =~= spec_type_key());
        assert(sk@ =~= spec_size_key());
        assert(pk@ =~= spec_prev_key());
    }
    PdfObj::Dict(es)
}


/// Four big-endian bytes of an offset below 2^32.
pub open spec fn spec_be32(n: nat) -> Seq<u8> {
    seq![
        ((n / 0x1000000) % 256) as u8,
        ((n / 0x10000) % 256) as u8,
        ((n / 0x100) % 256) as u8,
        (n % 256) as u8,
    ]
}

/// Two big-endian bytes of a generation number.
pub open spec fn spec_be16(n: nat) -> Seq<u8> {
    seq![((n / 0x100) % 256) as u8, (n % 256) as u8]
}

/// One xref-stream row under `/W [1 4 2]`: type 1 (in use), the offset,
/// the generation.
pub open spec fn spec_stream_row(off: nat, gen: nat) -> Seq<u8> {
    seq![1u8] + spec_be32(off) + spec_be16(gen)
}

/// The binary rows for the update's user objects, in order, with each
/// object's actual byte offset.
pub open spec fn spec_stream_rows(objs: Seq<NewObj>, base_len: nat) -> Seq<u8>
    decreases objs.len(),
{
    if objs.len() == 0 {
        Seq::empty()
    } else {
        spec_stream_rows(objs.drop_last(), base_len) + (if spec_skipped(objs.last().obj) {
            Seq::empty()
        } else {
            spec_stream_row(
                base_len + spec_objs(objs.drop_last()).len(),
                objs.last().gen as nat,
            )
        })
    }
}

/// The `/Index` integers: one `num 1` subsection per user object.
pub open spec fn spec_index_ints(objs: Seq<NewObj>) -> Seq<PdfObj>
    decreases objs.len(),
{
    if objs.len() == 0 {
        Seq::empty()
    } else {
        spec_index_ints(objs.drop_last()) + (if spec_skipped(objs.last().obj) {
            Seq::empty()
        } else {
            seq![PdfObj::Int(objs.last().num as i64), PdfObj::Int(1i64)]
        })
    }
}

/// Appends a big-endian 32-bit offset.
fn push_be32(out: &mut Vec<u8>, n: u64)
    requires
        n < 0x1_0000_0000,
    ensures
        final(out)@ == old(out)@ + spec_be32(n as nat),
{
    out.push(((n / 0x1000000) % 256) as u8);
    out.push(((n / 0x10000) % 256) as u8);
    out.push(((n / 0x100) % 256) as u8);
    out.push((n % 256) as u8);
    proof {
        assert(out@ =~= old(out)@ + spec_be32(n as nat));
    }
}

/// The whole xref-stream update: the objects, then one new indirect
/// object — a stream whose dictionary carries `/Type /XRef /Size /Prev
/// /W [1 4 2] /Index /Length` and the caller's preserved trailer keys,
/// and whose raw content is the binary rows plus the stream's own row —
/// then `startxref` and `%%EOF`. Returns the output and that xref
/// object. The one failure is an update whose offsets no longer fit the
/// four-byte `/W` column (or a row block beyond a PDF integer).
pub fn write_stream_update(
    base: Vec<u8>,
    objs: &Vec<NewObj>,
    xref_id: u32,
    prev: u64,
    size: u32,
    kept: Vec<(Vec<u8>, PdfObj)>,
) -> (r: Result<(Vec<u8>, NewObj), Error>)
    requires
        prev < 0x1_0000_0000,
    ensures
        match r {
            Ok(p) => {
                &&& base@.len() + spec_objs(objs@).len() < 0x1_0000_0000
                &&& p.1.num == xref_id && p.1.gen == 0
                &&& p.1.obj is Stream
                &&& p.1.obj->Stream_1@ == spec_stream_rows(objs@, base@.len()) + spec_stream_row(
                    base@.len() + spec_objs(objs@).len(),
                    0,
                )
                &&& ({
                    let es = p.1.obj->Stream_0@;
                    &&& es.len() == 6 + kept@.len()
                    &&& es[0].0@ == spec_type_key() && es[0].1 is Name && es[0].1->Name_0@
                        == spec_xref_name()
                    &&& es[1].0@ == spec_size_key() && es[1].1 == PdfObj::Int(size as i64)
                    &&& es[2].0@ == spec_prev_key() && es[2].1 == PdfObj::Int(prev as i64)
                    &&& es[3].0@ == spec_w_key() && es[3].1 is Array && es[3].1->Array_0@
                        =~= seq![PdfObj::Int(1i64), PdfObj::Int(4i64), PdfObj::Int(2i64)]
                    &&& es[4].0@ == spec_index_key() && es[4].1 is Array && es[4].1->Array_0@
                        == spec_index_ints(objs@) + seq![
                        PdfObj::Int(xref_id as i64),
                        PdfObj::Int(1i64),
                    ]
                    &&& es[5].0@ == crate::image::spec_length_key() && es[5].1 == PdfObj::Int(
                        p.1.obj->Stream_1@.len() as i64,
                    )
                    &&& forall|j: int| 0 <= j < kept@.len() ==> es[6 + j] == kept@[j]
                })
                &&& p.0@ == base@ + spec_objs(objs@) + spec_indirect(p.1) + spec_startxref_kw()
                    + spec_dec((base@.len() + spec_objs(objs@).len()) as nat) + spec_eof_kw()
                &&& p.0@.subrange(0, base@.len() as int) == base@
            },
            Err(e) => {
                &&& e == Error::PdfError
                &&& base@.len() + spec_objs(objs@).len() >= 0x1_0000_0000 || spec_stream_rows(
                    objs@,
                    base@.len(),
                ).len() + 7 >= 0x7fff_ffff_ffff_ffff
            },
        },
{
    let ghost base_view = base@;
    let mut out = base;
    let offs = write_objs(&mut out, objs);
    let xref_start: usize = out.len();
    if (xref_start as u64) >= 0x1_0000_0000u64 {
        return Err(Error::PdfError);
    }
    let mut rows: Vec<u8> = Vec::new();
    let mut index: Vec<PdfObj> = Vec::new();
    let mut i: usize = 0;
    proof {
        assert(rows@ =~= spec_stream_rows(objs@.subrange(0, 0), base_view.len()));
        assert(index@ =~= spec_index_ints(objs@.subrange(0, 0)));
    }
    while i < objs.len()
        invariant
            0 <= i <= objs@.len(),
            offs@.len() == objs@.len(),
            forall|k: int|
                0 <= k < objs@.len() ==> #[trigger] offs@[k] == base_view.len() + spec_objs(
                    objs@.subrange(0, k),
                ).len(),
            xref_start == base_view.len() + spec_objs(objs@).len(),
            xref_start < 0x1_0000_0000,
            rows@ == spec_stream_rows(objs@.subrange(0, i as int), base_view.len()),
            index@ == spec_index_ints(objs@.subrange(0, i as int)),
        decreases objs@.len() - i,
    {
        if is_user_object(&objs[i].obj) {
            rows.push(1);
            proof {
                lemma_objs_prefix_len(objs@, i as int);
            }
            push_be32(&mut rows, offs[i] as u64);
            rows.push(((objs[i].gen / 0x100) % 256) as u8);
            rows.push((objs[i].gen % 256) as u8);
            index.push(PdfObj::Int(objs[i].num as i64));
            index.push(PdfObj::Int(1));
        }
        i = i + 1;
        proof {
            let cur = objs@.subrange(0, i as int);
            assert(cur.drop_last() =~= objs@.subrange(0, i - 1));
            assert(cur.last() == objs@[i - 1]);
            assert(rows@ =~= spec_stream_rows(cur, base_view.len()));
            assert(index@ =~= spec_index_ints(cur));
        }
    }
    proof {
        assert(objs@.subrange(0, objs@.len() as int) =~= objs@);
    }
    rows.push(1);
    push_be32(&mut rows, xref_start as u64);
    rows.push(0);
    rows.push(0);
    proof {
        assert(rows@ =~= spec_stream_rows(objs@, base_view.len()) + spec_stream_row(
            (base_view.len() + spec_objs(objs@).len()) as nat,
            0,
        ));
    }
    if (rows.len() as u64) >= 0x7fff_ffff_ffff_ffffu64 {
        return Err(Error::PdfError);
    }
    index.push(PdfObj::Int(xref_id as i64));
    index.push(PdfObj::Int(1));
    proof {
        assert(index@ =~= spec_index_ints(objs@) + seq![
            PdfObj::Int(xref_id as i64),
            PdfObj::Int(1i64),
        ]);
    }
    let mut es: Vec<(Vec<u8>, PdfObj)> = Vec::new();
    let tk: [u8; 4] = [84, 121, 112, 101];
    let xn: [u8; 4] = [88, 82, 101, 102];
    es.push((
        crate::sig::slice_to_vec(tk.as_slice()),
        PdfObj::Name(crate::sig::slice_to_vec(xn.as_slice())),
    ));
    let sk: [u8; 4] = [83, 105, 122, 101];
    es.push((crate::sig::slice_to_vec(sk.as_slice()), PdfObj::Int(size as i64)));
    let pk: [u8; 4] = [80, 114, 101, 118];
    es.push((crate::sig::slice_to_vec(pk.as_slice()), PdfObj::Int(prev as i64)));
    let wk: [u8; 1] = [87];
    let w = vec![PdfObj::Int(1), PdfObj::Int(4), PdfObj::Int(2)];
    es.push((crate::sig::slice_to_vec(wk.as_slice()), PdfObj::Array(w)));
    let ik: [u8; 5] = [73, 110, 100, 101, 120];
    es.push((crate::sig::slice_to_vec(ik.as_slice()), PdfObj::Array(index)));
    let lk: [u8; 6] = [76, 101, 110, 103, 116, 104];
    es.push((crate::sig::slice_to_vec(lk.as_slice()), PdfObj::Int(rows.len() as i64)));
    let mut kept = kept;
    let ghost kept0 = kept@;
    let kn: usize = kept.len();
    let mut j: usize = 0;
    while kept.len() > 0
        invariant
            kept0.len() == kn,
            prev < 0x1_0000_0000,
            kept@ =~= kept0.subrange(j as int, kept0.len() as int),
            0 <= j <= kept0.len(),
            j + kept@.len() == kept0.len(),
            es@.len() == 6 + j,
            es@.subrange(6, es@.len() as int) =~= kept0.subrange(0, j as int),
            es@[0].0@ == spec_type_key() && es@[0].1 is Name && es@[0].1->Name_0@
                == spec_xref_name(),
            es@[1].0@ == spec_size_key() && es@[1].1 == PdfObj::Int(size as i64),
            es@[2].0@ == spec_prev_key() && es@[2].1 == PdfObj::Int(prev as i64),
            es@[3].0@ == spec_w_key() && es@[3].1 is Array && es@[3].1->Array_0@ =~= seq![
                PdfObj::Int(1i64),
                PdfObj::Int(4i64),
                PdfObj::Int(2i64),
            ],
            es@[4].0@ == spec_index_key() && es@[4].1 is Array && es@[4].1->Array_0@
                == spec_index_ints(objs@) + seq![PdfObj::Int(xref_id as i64), PdfObj::Int(1i64)],
            es@[5].0@ == crate::image::spec_length_key() && es@[5].1 == PdfObj::Int(
                rows@.len() as i64,
            ),
            rows@ == spec_stream_rows(objs@, base_view.len()) + spec_stream_row(
                (base_view.len() + spec_objs(objs@).len()) as nat,
                0,
            ),
        decreases kept@.len(),
    {
        let e = kept.remove(0);
        es.push(e);
        j = j + 1;
        proof {
            assert(kept@ =~= kept0.subrange(j as int, kept0.len() as int));
            assert(es@.subrange(6, es@.len() as int) =~= kept0.subrange(0, j as int));
        }
    }
    proof {
        assert(kept0.subrange(0, kept0.len() as int) =~= kept0);
        assert(tk@ =~= spec_type_key());
        assert(xn@ =~= spec_xref_name());
        assert(sk@ =~= spec_size_key());
        assert(pk@ =~= spec_prev_key());
        assert(wk@ =~= spec_w_key());
        assert(ik@ =~= spec_index_key());
        assert(lk@ =~= crate::image::spec_length_key());
    }
    let xobj = NewObj { num: xref_id, gen: 0, obj: PdfObj::Stream(es, rows) };
    write_indirect(&mut out, &xobj);
    let kw3: [u8; 11] = [10, 115, 116, 97, 114, 116, 120, 114, 101, 102, 10];
    push_slice(&mut out, kw3.as_slice());
    push_dec_u64(&mut out, xref_start as u64);
    let kw4: [u8; 6] = [10, 37, 37, 69, 79, 70];
    push_slice(&mut out, kw4.as_slice());
    proof {
        assert(kw3@ =~= spec_startxref_kw());
        assert(kw4@ =~= spec_eof_kw());
        assert(out@ =~= base_view + spec_objs(objs@) + spec_indirect(xobj) + spec_startxref_kw()
            + spec_dec((base_view.len() + spec_objs(objs@).len()) as nat) + spec_eof_kw());
        assert(out@.subrange(0, base_view.len() as int) =~= base_view);
        assert forall|j2: int| 0 <= j2 < kept0.len() implies xobj.obj->Stream_0@[6 + j2]
            == kept0[j2] by {
            assert(xobj.obj->Stream_0@.subrange(6, xobj.obj->Stream_0@.len() as int)[j2]
                == xobj.obj->Stream_0@[6 + j2]);
        }
    }
    Ok((out, xobj))
}

/// `W`
pub open spec fn spec_w_key() -> Seq<u8> {
    seq![87u8]
}

/// `Index`
pub open spec fn spec_index_key() -> Seq<u8> {
    seq![73u8, 110u8, 100u8, 101u8, 120u8]
}

} // verus!
