//! The signature field and the page edit: content-stream overlay
//! operators for text and images, the `/M` date string, the signature
//! dictionary with its fixed `/Contents` and `/ByteRange` placeholders,
//! the widget annotation, the appearance form XObject, the AcroForm
//! wiring and the page rewrite.

use vstd::prelude::*;
use crate::err::Error;
use crate::num::{spec_dec_pad, push_dec_pad, pow10};
use crate::obj::{PdfObj, StrFmt, ser_obj, spec_esc, write_obj, push_slice};
use crate::geom::{PdfPos, MediaBox, norm_rect_wf, media_box_wf, spec_pos};
use crate::envelope::{TemplateField, FieldType};
use crate::image::{PngImage, decode_png, png_decoded};
use crate::crypto::{b64std_decode, b64std_decoded};

verus! {

/// `BT /F h Tf x y Td (text) Tj ET` — the text overlay, with the font
/// size equal to the field height and coordinates in micro-units.
pub open spec fn spec_text_ops(font: Seq<u8>, pos: crate::geom::PdfPos, text: Seq<u8>) -> Seq<
    u8,
> {
    seq![66u8, 84u8, 10u8]  // BT\n
     + seq![47u8] + font + seq![32u8] + ser_obj(PdfObj::Real(spec_q(pos.h))) + seq![
        32u8,
        84u8,
        102u8,
        10u8,
    ]  // Tf\n
     + ser_obj(PdfObj::Real(spec_q(pos.x))) + seq![32u8] + ser_obj(PdfObj::Real(spec_q(pos.y)))
        + seq![32u8, 84u8, 100u8, 10u8]  // Td\n
     + seq![40u8] + spec_esc(text) + seq![41u8, 32u8, 84u8, 106u8, 10u8]  // (text) Tj\n
     + seq![69u8, 84u8, 10u8]  // ET\n
}

/// The transform's output quantised to micro-units.
pub open spec fn spec_q(v: i64) -> i64 {
    crate::geom::spec_quant(v as int) as i64
}

/// Appends the text overlay operators for one field.
pub fn push_text_ops(out: &mut Vec<u8>, font: &[u8], pos: &PdfPos, text: &[u8])
    ensures
        final(out)@ == old(out)@ + spec_text_ops(font@, *pos, text@),
{
    let bt: [u8; 3] = [66, 84, 10];
    push_slice(out, bt.as_slice());
    out.push(47);
    push_slice(out, font);
    out.push(32);
    write_obj(out, &PdfObj::Real(crate::geom::quant_micro(pos.h)));
    let tf: [u8; 4] = [32, 84, 102, 10];
    push_slice(out, tf.as_slice());
    write_obj(out, &PdfObj::Real(crate::geom::quant_micro(pos.x)));
    out.push(32);
    write_obj(out, &PdfObj::Real(crate::geom::quant_micro(pos.y)));
    let td: [u8; 4] = [32, 84, 100, 10];
    push_slice(out, td.as_slice());
    out.push(40);
    crate::obj::push_esc(out, text);
    let tj: [u8; 5] = [41, 32, 84, 106, 10];
    push_slice(out, tj.as_slice());
    let et: [u8; 3] = [69, 84, 10];
    push_slice(out, et.as_slice());
    proof {
        assert(bt@ =~= seq![66u8, 84u8, 10u8]);
        assert(tf@ =~= seq![32u8, 84u8, 102u8, 10u8]);
        assert(td@ =~= seq![32u8, 84u8, 100u8, 10u8]);
        assert(tj@ =~= seq![41u8, 32u8, 84u8, 106u8, 10u8]);
        assert(et@ =~= seq![69u8, 84u8, 10u8]);
        assert(out@ =~= old(out)@ + spec_text_ops(font@, *pos, text@));
    }
}

/// `q w 0 0 h x y cm /N Do Q` — the image placement operators.
pub open spec fn spec_image_ops(name: Seq<u8>, pos: crate::geom::PdfPos) -> Seq<u8> {
    seq![113u8, 10u8]  // q\n
     + ser_obj(PdfObj::Real(spec_q(pos.w))) + seq![32u8, 48u8, 32u8, 48u8, 32u8] + ser_obj(
        PdfObj::Real(spec_q(pos.h)),
    ) + seq![32u8] + ser_obj(PdfObj::Real(spec_q(pos.x))) + seq![32u8] + ser_obj(
        PdfObj::Real(spec_q(pos.y)),
    ) + seq![32u8, 99u8, 109u8, 10u8]  // cm\n
     + seq![47u8] + name + seq![32u8, 68u8, 111u8, 10u8]  // /N Do\n
     + seq![81u8, 10u8]  // Q\n
}

/// Appends the image placement operators for one field.
pub fn push_image_ops(out: &mut Vec<u8>, name: &[u8], pos: &PdfPos)
    ensures
        final(out)@ == old(out)@ + spec_image_ops(name@, *pos),
{
    let qk: [u8; 2] = [113, 10];
    push_slice(out, qk.as_slice());
    write_obj(out, &PdfObj::Real(crate::geom::quant_micro(pos.w)));
    let zeros: [u8; 5] = [32, 48, 32, 48, 32];
    push_slice(out, zeros.as_slice());
    write_obj(out, &PdfObj::Real(crate::geom::quant_micro(pos.h)));
    out.push(32);
    write_obj(out, &PdfObj::Real(crate::geom::quant_micro(pos.x)));
    out.push(32);
    write_obj(out, &PdfObj::Real(crate::geom::quant_micro(pos.y)));
    let cm: [u8; 4] = [32, 99, 109, 10];
    push_slice(out, cm.as_slice());
    out.push(47);
    push_slice(out, name);
    let dok: [u8; 4] = [32, 68, 111, 10];
    push_slice(out, dok.as_slice());
    let qq: [u8; 2] = [81, 10];
    push_slice(out, qq.as_slice());
    proof {
        assert(qk@ =~= seq![113u8, 10u8]);
        assert(zeros@ =~= seq![32u8, 48u8, 32u8, 48u8, 32u8]);
        assert(cm@ =~= seq![32u8, 99u8, 109u8, 10u8]);
        assert(dok@ =~= seq![32u8, 68u8, 111u8, 10u8]);
        assert(qq@ =~= seq![81u8, 10u8]);
        assert(out@ =~= old(out)@ + spec_image_ops(name@, *pos));
    }
}

/// `D:YYYYMMDDHHMMSSZ`
pub open spec fn spec_pdf_date(y: u64, mo: u64, d: u64, h: u64, mi: u64, s: u64) -> Seq<u8> {
    seq![68u8, 58u8] + spec_dec_pad(y as nat, 4) + spec_dec_pad(mo as nat, 2) + spec_dec_pad(
        d as nat,
        2,
    ) + spec_dec_pad(h as nat, 2) + spec_dec_pad(mi as nat, 2) + spec_dec_pad(s as nat, 2) + seq![
        90u8,
    ]
}

/// Renders the `/M` signing-time string from calendar components.
pub fn pdf_date(y: u64, mo: u64, d: u64, h: u64, mi: u64, s: u64) -> (r: Vec<u8>)
    requires
        y < 10000,
        1 <= mo <= 12,
        1 <= d <= 31,
        h < 24,
        mi < 60,
        s < 60,
    ensures
        r@ == spec_pdf_date(y, mo, d, h, mi, s),
        r@.len() == 17,
{
    let mut out: Vec<u8> = Vec::new();
    out.push(68);
    out.push(58);
    proof {
        reveal_with_fuel(pow10, 5);
    }
    push_dec_pad(&mut out, y, 4);
    push_dec_pad(&mut out, mo, 2);
    push_dec_pad(&mut out, d, 2);
    push_dec_pad(&mut out, h, 2);
    push_dec_pad(&mut out, mi, 2);
    push_dec_pad(&mut out, s, 2);
    out.push(90);
    proof {
        assert(out@ =~= spec_pdf_date(y, mo, d, h, mi, s));
    }
    out
}

/// The signature dictionary: `/Type /Sig /Filter /Adobe.PPKLite
/// /SubFilter /ETSI.CAdES.detached`, the 8192-byte zero `/Contents`
/// placeholder, the 17-byte zero `/ByteRange` placeholder, the `/M` date
/// and the `/Reason`, with `/Name`, `/Location` and `/ContactInfo` when
/// given. `/Contents` is entry 3 and `/ByteRange` entry 4, so the
/// serialised dictionary carries the placeholders back to back, in the
/// exact shape `find_sig_placeholders` looks for.
pub fn build_sig_dict(
    date: Vec<u8>,
    reason: Vec<u8>,
    name: Option<Vec<u8>>,
    location: Option<Vec<u8>>,
    contact: Option<Vec<u8>>,
) -> (r: PdfObj)
    ensures
        r is Dict,
        ({
            let es = r->Dict_0@;
            &&& es.len() >= 7
            &&& es[0].0@ == crate::writer::spec_type_key() && es[0].1 is Name && es[0].1
                ->Name_0@ == spec_sig_name()
            &&& es[1].0@ == spec_filter_key() && es[1].1 is Name && es[1].1->Name_0@
                == spec_ppklite()
            &&& es[2].0@ == spec_subfilter_key() && es[2].1 is Name && es[2].1->Name_0@
                == spec_cades_detached()
            &&& es[3].0@ == spec_contents_key() && es[3].1 is Text && es[3].1->Text_0@
                == Seq::new(8192, |i: int| 0u8) && es[3].1->Text_1 == StrFmt::Hex
            &&& es[4].0@ == spec_byterange_key() && es[4].1 is Text && es[4].1->Text_0@
                == Seq::new(17, |i: int| 0u8) && es[4].1->Text_1 == StrFmt::Hex
            &&& es[5].0@ == spec_m_key() && es[5].1 is Text && es[5].1->Text_0@ == date@
                && es[5].1->Text_1 == StrFmt::Literal
            &&& es[6].0@ == spec_reason_key() && es[6].1 is Text && es[6].1->Text_0@ == reason@
                && es[6].1->Text_1 == StrFmt::Literal
            &&& es.len() == 7 + (if name is Some { 1int } else { 0 }) + (if location is Some {
                1int
            } else {
                0
            }) + (if contact is Some { 1int } else { 0 })
            &&& match name {
                Some(n) => es[7].0@ == spec_name_key() && es[7].1 is Text && es[7].1->Text_0@
                    == n@ && es[7].1->Text_1 == StrFmt::Literal,
                None => true,
            }
            &&& match location {
                Some(l) => {
                    let i = 7 + (if name is Some { 1int } else { 0 });
                    es[i].0@ == spec_location_key() && es[i].1 is Text && es[i].1->Text_0@ == l@
                        && es[i].1->Text_1 == StrFmt::Literal
                },
                None => true,
            }
            &&& match contact {
                Some(c) => {
                    let i = 7 + (if name is Some { 1int } else { 0 }) + (if location is Some {
                        1int
                    } else {
                        0
                    });
                    es[i].0@ == spec_contact_key() && es[i].1 is Text && es[i].1->Text_0@ == c@
                        && es[i].1->Text_1 == StrFmt::Literal
                },
                None => true,
            }
        }),
{
    let mut es: Vec<(Vec<u8>, PdfObj)> = Vec::new();
    let tk: [u8; 4] = [84, 121, 112, 101];
    let sig: [u8; 3] = [83, 105, 103];
    es.push((slice_to_vec(tk.as_slice()), PdfObj::Name(slice_to_vec(sig.as_slice()))));
    let fk: [u8; 6] = [70, 105, 108, 116, 101, 114];
    let ppk: [u8; 13] = [65, 100, 111, 98, 101, 46, 80, 80, 75, 76, 105, 116, 101];
    es.push((slice_to_vec(fk.as_slice()), PdfObj::Name(slice_to_vec(ppk.as_slice()))));
    let sfk: [u8; 9] = [83, 117, 98, 70, 105, 108, 116, 101, 114];
    let cad: [u8; 19] = [
        69,
        84,
        83,
        73,
        46,
        67,
        65,
        100,
        69,
        83,
        46,
        100,
        101,
        116,
        97,
        99,
        104,
        101,
        100,
    ];
    es.push((slice_to_vec(sfk.as_slice()), PdfObj::Name(slice_to_vec(cad.as_slice()))));
    let ck: [u8; 8] = [67, 111, 110, 116, 101, 110, 116, 115];
    let contents = zero_vec(8192);
    es.push((slice_to_vec(ck.as_slice()), PdfObj::Text(contents, StrFmt::Hex)));
    let brk: [u8; 9] = [66, 121, 116, 101, 82, 97, 110, 103, 101];
    let brange = zero_vec(17);
    es.push((slice_to_vec(brk.as_slice()), PdfObj::Text(brange, StrFmt::Hex)));
    let mk: [u8; 1] = [77];
    es.push((slice_to_vec(mk.as_slice()), PdfObj::Text(date, StrFmt::Literal)));
    let rk: [u8; 6] = [82, 101, 97, 115, 111, 110];
    es.push((slice_to_vec(rk.as_slice()), PdfObj::Text(reason, StrFmt::Literal)));
    proof {
        assert(tk@ =~= crate::writer::spec_type_key());
        assert(sig@ =~= spec_sig_name());
        assert(fk@ =~= spec_filter_key());
        assert(ppk@ =~= spec_ppklite());
        assert(sfk@ =~= spec_subfilter_key());
        assert(cad@ =~= spec_cades_detached());
        assert(ck@ =~= spec_contents_key());
        assert(brk@ =~= spec_byterange_key());
        assert(mk@ =~= spec_m_key());
        assert(rk@ =~= spec_reason_key());
    }
    match name {
        Some(n) => {
            let nk: [u8; 4] = [78, 97, 109, 101];
            proof {
                assert(nk@ =~= spec_name_key());
            }
            es.push((slice_to_vec(nk.as_slice()), PdfObj::Text(n, StrFmt::Literal)));
        },
        None => {},
    }
    match location {
        Some(l) => {
            let lk: [u8; 8] = [76, 111, 99, 97, 116, 105, 111, 110];
            proof {
                assert(lk@ =~= spec_location_key());
            }
            es.push((slice_to_vec(lk.as_slice()), PdfObj::Text(l, StrFmt::Literal)));
        },
        None => {},
    }
    match contact {
        Some(c) => {
            let cik: [u8; 11] = [67, 111, 110, 116, 97, 99, 116, 73, 110, 102, 111];
            proof {
                assert(cik@ =~= spec_contact_key());
            }
            es.push((slice_to_vec(cik.as_slice()), PdfObj::Text(c, StrFmt::Literal)));
        },
        None => {},
    }
    PdfObj::Dict(es)
}

/// Copies a slice into a fresh byte vector.
pub fn slice_to_vec(s: &[u8]) -> (r: Vec<u8>)
    ensures
        r@ == s@,
{
    let mut v: Vec<u8> = Vec::new();
    push_slice(&mut v, s);
    proof {
        assert(v@ =~= s@);
    }
    v
}

/// A vector of `n` zero bytes.
pub fn zero_vec(n: usize) -> (r: Vec<u8>)
    ensures
        r@ == Seq::new(n as nat, |i: int| 0u8),
{
    let mut v: Vec<u8> = Vec::new();
    let mut i: usize = 0;
    while i < n
        invariant
            0 <= i <= n,
            v@ =~= Seq::new(i as nat, |k: int| 0u8),
        decreases n - i,
    {
        v.push(0);
        i = i + 1;
        proof {
            assert(v@ =~= Seq::new(i as nat, |k: int| 0u8));
        }
    }
    v
}

/// `Sig`
pub open spec fn spec_sig_name() -> Seq<u8> {
    seq![83u8, 105u8, 103u8]
}

/// `Filter`
pub open spec fn spec_filter_key() -> Seq<u8> {
    seq![70u8, 105u8, 108u8, 116u8, 101u8, 114u8]
}

/// `Adobe.PPKLite`
pub open spec fn spec_ppklite() -> Seq<u8> {
    seq![65u8, 100u8, 111u8, 98u8, 101u8, 46u8, 80u8, 80u8, 75u8, 76u8, 105u8, 116u8, 101u8]
}

/// `SubFilter`
pub open spec fn spec_subfilter_key() -> Seq<u8> {
    seq![83u8, 117u8, 98u8, 70u8, 105u8, 108u8, 116u8, 101u8, 114u8]
}

/// `ETSI.CAdES.detached`
pub open spec fn spec_cades_detached() -> Seq<u8> {
    seq![69u8, 84u8, 83u8, 73u8, 46u8, 67u8, 65u8, 100u8, 69u8, 83u8, 46u8, 100u8, 101u8, 116u8,
        97u8, 99u8, 104u8, 101u8, 100u8]
}

/// `Contents`
pub open spec fn spec_contents_key() -> Seq<u8> {
    seq![67u8, 111u8, 110u8, 116u8, 101u8, 110u8, 116u8, 115u8]
}

/// `ByteRange`
pub open spec fn spec_byterange_key() -> Seq<u8> {
    seq![66u8, 121u8, 116u8, 101u8, 82u8, 97u8, 110u8, 103u8, 101u8]
}

/// `M`
pub open spec fn spec_m_key() -> Seq<u8> {
    seq![77u8]
}

/// `Reason`
pub open spec fn spec_reason_key() -> Seq<u8> {
    seq![82u8, 101u8, 97u8, 115u8, 111u8, 110u8]
}

/// `Name`
pub open spec fn spec_name_key() -> Seq<u8> {
    seq![78u8, 97u8, 109u8, 101u8]
}

/// `Location`
pub open spec fn spec_location_key() -> Seq<u8> {
    seq![76u8, 111u8, 99u8, 97u8, 116u8, 105u8, 111u8, 110u8]
}

/// `ContactInfo`
pub open spec fn spec_contact_key() -> Seq<u8> {
    seq![67u8, 111u8, 110u8, 116u8, 97u8, 99u8, 116u8, 73u8, 110u8, 102u8, 111u8]
}


/// The widget annotation for the signature field: `/Type /Annot
/// /Subtype /Widget /FT /Sig`, the field rectangle, flag 132, `/V` the
/// signature dictionary, `/T` the field name, `/P` the page, and `/AP`
/// naming the appearance XObject.
pub fn build_sig_widget(
    pos: &PdfPos,
    field_name: Vec<u8>,
    sig_oid: (u32, u16),
    ap_oid: (u32, u16),
    page_oid: (u32, u16),
) -> (r: PdfObj)
    ensures
        r is Dict,
        ({
            let es = r->Dict_0@;
            &&& es.len() == 9
            &&& es[0].0@ == crate::writer::spec_type_key() && es[0].1 is Name && es[0].1
                ->Name_0@ == spec_annot_name()
            &&& es[1].0@ == crate::image::spec_subtype_key() && es[1].1 is Name && es[1].1
                ->Name_0@ == spec_widget_name()
            &&& es[2].0@ == spec_ft_key() && es[2].1 is Name && es[2].1->Name_0@
                == spec_sig_name()
            &&& es[3].0@ == spec_rect_key() && es[3].1 is Array && ({
                let a = es[3].1->Array_0@;
                &&& a.len() == 4
                &&& a[0] == PdfObj::Real(spec_q(pos.x))
                &&& a[1] == PdfObj::Real(spec_q(pos.y))
                &&& a[2] == PdfObj::Real((spec_q(pos.x) + spec_q(pos.w)) as i64)
                &&& a[3] == PdfObj::Real((spec_q(pos.y) + spec_q(pos.h)) as i64)
            })
            &&& es[4].0@ == spec_f_key() && es[4].1 == PdfObj::Int(132)
            &&& es[5].0@ == spec_v_key() && es[5].1 == PdfObj::Ref(sig_oid.0, sig_oid.1)
            &&& es[6].0@ == spec_t_key() && es[6].1 is Text && es[6].1->Text_0@ == field_name@
                && es[6].1->Text_1 == StrFmt::Literal
            &&& es[7].0@ == spec_p_key() && es[7].1 == PdfObj::Ref(page_oid.0, page_oid.1)
            &&& es[8].0@ == spec_ap_key() && es[8].1 is Dict && ({
                let ap = es[8].1->Dict_0@;
                ap.len() == 1 && ap[0].0@ == spec_n_key() && ap[0].1 == PdfObj::Ref(
                    ap_oid.0,
                    ap_oid.1,
                )
            })
        }),
{
    let qx = crate::geom::quant_micro(pos.x);
    let qy = crate::geom::quant_micro(pos.y);
    let qw = crate::geom::quant_micro(pos.w);
    let qh = crate::geom::quant_micro(pos.h);
    let mut es: Vec<(Vec<u8>, PdfObj)> = Vec::new();
    let tk: [u8; 4] = [84, 121, 112, 101];
    let an: [u8; 5] = [65, 110, 110, 111, 116];
    es.push((slice_to_vec(tk.as_slice()), PdfObj::Name(slice_to_vec(an.as_slice()))));
    let stk: [u8; 7] = [83, 117, 98, 116, 121, 112, 101];
    let wn: [u8; 6] = [87, 105, 100, 103, 101, 116];
    es.push((slice_to_vec(stk.as_slice()), PdfObj::Name(slice_to_vec(wn.as_slice()))));
    let ftk: [u8; 2] = [70, 84];
    let sg: [u8; 3] = [83, 105, 103];
    es.push((slice_to_vec(ftk.as_slice()), PdfObj::Name(slice_to_vec(sg.as_slice()))));
    let rk: [u8; 4] = [82, 101, 99, 116];
    let rect = vec![
        PdfObj::Real(qx),
        PdfObj::Real(qy),
        PdfObj::Real(qx + qw),
        PdfObj::Real(qy + qh),
    ];
    es.push((slice_to_vec(rk.as_slice()), PdfObj::Array(rect)));
    let fk: [u8; 1] = [70];
    es.push((slice_to_vec(fk.as_slice()), PdfObj::Int(132)));
    let vk: [u8; 1] = [86];
    es.push((slice_to_vec(vk.as_slice()), PdfObj::Ref(sig_oid.0, sig_oid.1)));
    let tkn: [u8; 1] = [84];
    es.push((slice_to_vec(tkn.as_slice()), PdfObj::Text(field_name, StrFmt::Literal)));
    let pk: [u8; 1] = [80];
    es.push((slice_to_vec(pk.as_slice()), PdfObj::Ref(page_oid.0, page_oid.1)));
    let apk: [u8; 2] = [65, 80];
    let nk: [u8; 1] = [78];
    let ap = vec![(slice_to_vec(nk.as_slice()), PdfObj::Ref(ap_oid.0, ap_oid.1))];
    es.push((slice_to_vec(apk.as_slice()), PdfObj::Dict(ap)));
    proof {
        assert(tk@ =~= crate::writer::spec_type_key());
        assert(an@ =~= spec_annot_name());
        assert(stk@ =~= crate::image::spec_subtype_key());
        assert(wn@ =~= spec_widget_name());
        assert(ftk@ =~= spec_ft_key());
        assert(sg@ =~= spec_sig_name());
        assert(rk@ =~= spec_rect_key());
        assert(fk@ =~= spec_f_key());
        assert(vk@ =~= spec_v_key());
        assert(tkn@ =~= spec_t_key());
        assert(pk@ =~= spec_p_key());
        assert(apk@ =~= spec_ap_key());
        assert(nk@ =~= spec_n_key());
    }
    PdfObj::Dict(es)
}

/// The signature appearance: a Form XObject of the field's extent whose
/// stream paints the recipient's image XObject over the whole form.
/// Fails exactly when the stream would overflow a PDF integer.
pub fn build_sig_appearance(pos: &PdfPos, img_name: Vec<u8>, img_oid: (u32, u16)) -> (r: Result<
    PdfObj,
    crate::err::Error,
>)
    ensures
        r is Err <==> spec_image_ops(img_name@, spec_ap_pos(*pos)).len() >= 0x7fff_ffff_ffff_ffff,
        match r {
            Ok(o) => {
                &&& o is Stream
                &&& o->Stream_1@ == spec_image_ops(img_name@, spec_ap_pos(*pos))
                &&& ({
                    let es = o->Stream_0@;
                    &&& es.len() == 6
                    &&& es[0].0@ == crate::writer::spec_type_key() && es[0].1 is Name && es[0].1
                        ->Name_0@ == crate::image::spec_xobject_name()
                    &&& es[1].0@ == crate::image::spec_subtype_key() && es[1].1 is Name
                        && es[1].1->Name_0@ == spec_form_name()
                    &&& es[2].0@ == spec_bbox_key() && es[2].1 is Array && ({
                        let a = es[2].1->Array_0@;
                        &&& a.len() == 4
                        &&& a[0] == PdfObj::Real(0)
                        &&& a[1] == PdfObj::Real(0)
                        &&& a[2] == PdfObj::Real(spec_q(pos.w))
                        &&& a[3] == PdfObj::Real(spec_q(pos.h))
                    })
                    &&& es[3].0@ == spec_formtype_key() && es[3].1 == PdfObj::Int(1)
                    &&& es[4].0@ == spec_resources_key() && es[4].1 is Dict && ({
                        let res = es[4].1->Dict_0@;
                        &&& res.len() == 1
                        &&& res[0].0@ == crate::image::spec_xobject_name() && res[0].1 is Dict
                        &&& ({
                            let xs = res[0].1->Dict_0@;
                            xs.len() == 1 && xs[0].0@ == img_name@ && xs[0].1 == PdfObj::Ref(
                                img_oid.0,
                                img_oid.1,
                            )
                        })
                    })
                    &&& es[5].0@ == crate::image::spec_length_key() && es[5].1 == PdfObj::Int(
                        spec_image_ops(img_name@, spec_ap_pos(*pos)).len() as i64,
                    )
                })
            },
            Err(e) => e == crate::err::Error::PdfError,
        },
{
    let ap_pos = PdfPos { x: 0, y: 0, w: pos.w, h: pos.h };
    let mut content: Vec<u8> = Vec::new();
    push_image_ops(&mut content, img_name.as_slice(), &ap_pos);
    if (content.len() as u64) >= 0x7fff_ffff_ffff_ffffu64 {
        return Err(crate::err::Error::PdfError);
    }
    let mut es: Vec<(Vec<u8>, PdfObj)> = Vec::new();
    let tk: [u8; 4] = [84, 121, 112, 101];
    let xo: [u8; 7] = [88, 79, 98, 106, 101, 99, 116];
    es.push((slice_to_vec(tk.as_slice()), PdfObj::Name(slice_to_vec(xo.as_slice()))));
    let stk: [u8; 7] = [83, 117, 98, 116, 121, 112, 101];
    let fo: [u8; 4] = [70, 111, 114, 109];
    es.push((slice_to_vec(stk.as_slice()), PdfObj::Name(slice_to_vec(fo.as_slice()))));
    let bk: [u8; 4] = [66, 66, 111, 120];
    let bbox = vec![
        PdfObj::Real(0),
        PdfObj::Real(0),
        PdfObj::Real(crate::geom::quant_micro(pos.w)),
        PdfObj::Real(crate::geom::quant_micro(pos.h)),
    ];
    es.push((slice_to_vec(bk.as_slice()), PdfObj::Array(bbox)));
    let ftk: [u8; 8] = [70, 111, 114, 109, 84, 121, 112, 101];
    es.push((slice_to_vec(ftk.as_slice()), PdfObj::Int(1)));
    let rsk: [u8; 9] = [82, 101, 115, 111, 117, 114, 99, 101, 115];
    let xs = vec![(img_name, PdfObj::Ref(img_oid.0, img_oid.1))];
    let res = vec![(slice_to_vec(xo.as_slice()), PdfObj::Dict(xs))];
    es.push((slice_to_vec(rsk.as_slice()), PdfObj::Dict(res)));
    let lk: [u8; 6] = [76, 101, 110, 103, 116, 104];
    es.push((slice_to_vec(lk.as_slice()), PdfObj::Int(content.len() as i64)));
    proof {
        assert(tk@ =~= crate::writer::spec_type_key());
        assert(xo@ =~= crate::image::spec_xobject_name());
        assert(stk@ =~= crate::image::spec_subtype_key());
        assert(fo@ =~= spec_form_name());
        assert(bk@ =~= spec_bbox_key());
        assert(ftk@ =~= spec_formtype_key());
        assert(rsk@ =~= spec_resources_key());
        assert(lk@ =~= crate::image::spec_length_key());
    }
    Ok(PdfObj::Stream(es, content))
}

/// The appearance paints at the form's own origin.
pub open spec fn spec_ap_pos(pos: PdfPos) -> PdfPos {
    PdfPos { x: 0, y: 0, w: pos.w, h: pos.h }
}

/// Marks the AcroForm for signatures and appends the widget to its
/// field list: `/SigFlags 3`, the widget reference last in `/Fields`
/// (after the existing references, if `/Fields` was an array), every
/// other key untouched.
pub fn acroform_with_field(acro: Vec<(Vec<u8>, PdfObj)>, widget: (u32, u16)) -> (r: Vec<(
    Vec<u8>,
    PdfObj,
)>)
    ensures
        crate::obj::spec_get(r@, spec_sigflags_key()) == Some(PdfObj::Int(3)),
        ({
            let fv = crate::obj::spec_get(r@, spec_fields_key());
            &&& fv is Some
            &&& fv.unwrap() is Array
            &&& ({
                let f = fv.unwrap()->Array_0@;
                &&& f.len() >= 1
                &&& f.last() == PdfObj::Ref(widget.0, widget.1)
                &&& match crate::obj::spec_get(acro@, spec_fields_key()) {
                    Some(PdfObj::Array(f0)) => f == f0@.push(PdfObj::Ref(widget.0, widget.1)),
                    _ => f.len() == 1,
                }
            })
        }),
        forall|k: Seq<u8>|
            k != spec_sigflags_key() && k != spec_fields_key() ==> crate::obj::spec_get(r@, k)
                == crate::obj::spec_get(acro@, k),
{
    let mut es = acro;
    let sfk: [u8; 8] = [83, 105, 103, 70, 108, 97, 103, 115];
    crate::obj::dict_set(&mut es, slice_to_vec(sfk.as_slice()), PdfObj::Int(3));
    let flk: [u8; 6] = [70, 105, 101, 108, 100, 115];
    let mut fields: Vec<PdfObj> = match crate::obj::dict_take(&mut es, flk.as_slice()) {
        Some(PdfObj::Array(v)) => v,
        _ => Vec::new(),
    };
    fields.push(PdfObj::Ref(widget.0, widget.1));
    crate::obj::dict_set(&mut es, slice_to_vec(flk.as_slice()), PdfObj::Array(fields));
    proof {
        assert(sfk@ =~= spec_sigflags_key());
        assert(flk@ =~= spec_fields_key());
    }
    es
}

/// Rewrites a page dictionary for one edit: `/Contents` becomes a
/// reference to the new content stream, and the shared font is bound
/// under `/Resources/Font` by `font_name`. Every other page key keeps its
/// first binding; a `/Resources` or `/Font` that was a dictionary keeps
/// its other entries. (A `/Resources` held by reference must be inlined
/// by the caller first, as the original clones it before editing.)
pub fn page_setup(
    page: Vec<(Vec<u8>, PdfObj)>,
    content_oid: (u32, u16),
    font_name: Vec<u8>,
    font_oid: (u32, u16),
) -> (r: Vec<(Vec<u8>, PdfObj)>)
    ensures
        crate::obj::spec_get(r@, spec_contents_key()) == Some(
            PdfObj::Ref(content_oid.0, content_oid.1),
        ),
        ({
            let rv = crate::obj::spec_get(r@, spec_resources_key());
            &&& rv is Some
            &&& rv.unwrap() is Dict
            &&& ({
                let res = rv.unwrap()->Dict_0@;
                let fv = crate::obj::spec_get(res, spec_font_key());
                &&& fv is Some
                &&& fv.unwrap() is Dict
                &&& crate::obj::spec_get(fv.unwrap()->Dict_0@, font_name@) == Some(
                    PdfObj::Ref(font_oid.0, font_oid.1),
                )
                &&& match crate::obj::spec_get(page@, spec_resources_key()) {
                    Some(PdfObj::Dict(res0)) => forall|k: Seq<u8>|
                        k != spec_font_key() ==> crate::obj::spec_get(res, k)
                            == crate::obj::spec_get(res0@, k),
                    _ => true,
                }
            })
        }),
        forall|k: Seq<u8>|
            k != spec_contents_key() && k != spec_resources_key() ==> crate::obj::spec_get(
                r@,
                k,
            ) == crate::obj::spec_get(page@, k),
{
    let mut es = page;
    let ck: [u8; 8] = [67, 111, 110, 116, 101, 110, 116, 115];
    crate::obj::dict_set(
        &mut es,
        slice_to_vec(ck.as_slice()),
        PdfObj::Ref(content_oid.0, content_oid.1),
    );
    let rsk: [u8; 9] = [82, 101, 115, 111, 117, 114, 99, 101, 115];
    let mut res: Vec<(Vec<u8>, PdfObj)> = match crate::obj::dict_take(&mut es, rsk.as_slice()) {
        Some(PdfObj::Dict(d)) => d,
        _ => Vec::new(),
    };
    let fok: [u8; 4] = [70, 111, 110, 116];
    let mut fonts: Vec<(Vec<u8>, PdfObj)> = match crate::obj::dict_take(&mut res, fok.as_slice()) {
        Some(PdfObj::Dict(d)) => d,
        _ => Vec::new(),
    };
    crate::obj::dict_set(&mut fonts, font_name, PdfObj::Ref(font_oid.0, font_oid.1));
    crate::obj::dict_set(&mut res, slice_to_vec(fok.as_slice()), PdfObj::Dict(fonts));
    crate::obj::dict_set(&mut es, slice_to_vec(rsk.as_slice()), PdfObj::Dict(res));
    proof {
        assert(ck@ =~= spec_contents_key());
        assert(rsk@ =~= spec_resources_key());
        assert(fok@ =~= spec_font_key());
    }
    es
}

/// `Annot`
pub open spec fn spec_annot_name() -> Seq<u8> {
    seq![65u8, 110u8, 110u8, 111u8, 116u8]
}

/// `Widget`
pub open spec fn spec_widget_name() -> Seq<u8> {
    seq![87u8, 105u8, 100u8, 103u8, 101u8, 116u8]
}

/// `FT`
pub open spec fn spec_ft_key() -> Seq<u8> {
    seq![70u8, 84u8]
}

/// `Rect`
pub open spec fn spec_rect_key() -> Seq<u8> {
    seq![82u8, 101u8, 99u8, 116u8]
}

/// `F`
pub open spec fn spec_f_key() -> Seq<u8> {
    seq![70u8]
}

/// `V`
pub open spec fn spec_v_key() -> Seq<u8> {
    seq![86u8]
}

/// `T`
pub open spec fn spec_t_key() -> Seq<u8> {
    seq![84u8]
}

/// `P`
pub open spec fn spec_p_key() -> Seq<u8> {
    seq![80u8]
}

/// `AP`
pub open spec fn spec_ap_key() -> Seq<u8> {
    seq![65u8, 80u8]
}

/// `N`
pub open spec fn spec_n_key() -> Seq<u8> {
    seq![78u8]
}

/// `Form`
pub open spec fn spec_form_name() -> Seq<u8> {
    seq![70u8, 111u8, 114u8, 109u8]
}

/// `BBox`
pub open spec fn spec_bbox_key() -> Seq<u8> {
    seq![66u8, 66u8, 111u8, 120u8]
}

/// `FormType`
pub open spec fn spec_formtype_key() -> Seq<u8> {
    seq![70u8, 111u8, 114u8, 109u8, 84u8, 121u8, 112u8, 101u8]
}

/// `Resources`
pub open spec fn spec_resources_key() -> Seq<u8> {
    seq![82u8, 101u8, 115u8, 111u8, 117u8, 114u8, 99u8, 101u8, 115u8]
}

/// `Font`
pub open spec fn spec_font_key() -> Seq<u8> {
    seq![70u8, 111u8, 110u8, 116u8]
}

/// `SigFlags`
pub open spec fn spec_sigflags_key() -> Seq<u8> {
    seq![83u8, 105u8, 103u8, 70u8, 108u8, 97u8, 103u8, 115u8]
}

/// `Fields`
pub open spec fn spec_fields_key() -> Seq<u8> {
    seq![70u8, 105u8, 101u8, 108u8, 100u8, 115u8]
}


/// The content operators for one filled field. Text, date and checkbox
/// values are drawn with the shared font at the field's rectangle; a
/// signature value is base64-decoded, PNG-decoded, and placed as the
/// image XObject named `img_name` (the decoded frame comes back so the
/// caller can build that XObject). It fails exactly on a signature value
/// that is not base64 (`InvalidInput`) or not a decodable PNG
/// (`UnsupportedImage`), and then leaves the operators untouched.
pub fn field_overlay_ops(
    out: &mut Vec<u8>,
    field: &TemplateField,
    value: &[u8],
    mb: &MediaBox,
    font_name: &[u8],
    img_name: &[u8],
) -> (r: Result<Option<PngImage>, Error>)
    requires
        norm_rect_wf(field.rect),
        media_box_wf(*mb),
    ensures
        r is Err <==> (field.field_type == FieldType::Signature && (b64std_decoded(value@)
            is None || png_decoded(b64std_decoded(value@).unwrap()) is None)),
        match r {
            Ok(opt) => match field.field_type {
                FieldType::Signature => {
                    &&& opt is Some
                    &&& b64std_decoded(value@) is Some
                    &&& png_decoded(b64std_decoded(value@).unwrap()) == Some(opt.unwrap())
                    &&& final(out)@ == old(out)@ + spec_image_ops(
                        img_name@,
                        spec_pos(field.rect, *mb),
                    )
                },
                _ => {
                    &&& opt is None
                    &&& final(out)@ == old(out)@ + spec_text_ops(
                        font_name@,
                        spec_pos(field.rect, *mb),
                        value@,
                    )
                },
            },
            Err(e) => {
                &&& final(out)@ == old(out)@
                &&& (e == Error::InvalidInput <==> b64std_decoded(value@) is None)
                &&& (e == Error::UnsupportedImage <==> (b64std_decoded(value@) is Some
                    && png_decoded(b64std_decoded(value@).unwrap()) is None))
            },
        },
{
    let pos = crate::geom::to_pdf_space(&field.rect, mb);
    match field.field_type {
        FieldType::Signature => {
            let png_bytes = match b64std_decode(value) {
                Some(v) => v,
                None => {
                    return Err(Error::InvalidInput);
                },
            };
            let img = match decode_png(png_bytes.as_slice()) {
                Ok(i) => i,
                Err(_) => {
                    return Err(Error::UnsupportedImage);
                },
            };
            push_image_ops(out, img_name, &pos);
            Ok(Some(img))
        },
        _ => {
            push_text_ops(out, font_name, &pos, value);
            Ok(None)
        },
    }
}


/// Appends the widget reference to the page's `/Annots` array (creating
/// it if absent); every other page key keeps its first binding.
pub fn page_with_annot(page: Vec<(Vec<u8>, PdfObj)>, widget: (u32, u16)) -> (r: Vec<(
    Vec<u8>,
    PdfObj,
)>)
    ensures
        ({
            let av = crate::obj::spec_get(r@, spec_annots_key());
            &&& av is Some
            &&& av.unwrap() is Array
            &&& ({
                let a = av.unwrap()->Array_0@;
                &&& a.len() >= 1
                &&& a.last() == PdfObj::Ref(widget.0, widget.1)
                &&& match crate::obj::spec_get(page@, spec_annots_key()) {
                    Some(PdfObj::Array(a0)) => a == a0@.push(PdfObj::Ref(widget.0, widget.1)),
                    _ => a.len() == 1,
                }
            })
        }),
        forall|k: Seq<u8>|
            k != spec_annots_key() ==> crate::obj::spec_get(r@, k) == crate::obj::spec_get(
                page@,
                k,
            ),
{
    let mut es = page;
    let ak: [u8; 6] = [65, 110, 110, 111, 116, 115];
    let mut annots: Vec<PdfObj> = match crate::obj::dict_take(&mut es, ak.as_slice()) {
        Some(PdfObj::Array(v)) => v,
        _ => Vec::new(),
    };
    annots.push(PdfObj::Ref(widget.0, widget.1));
    crate::obj::dict_set(&mut es, slice_to_vec(ak.as_slice()), PdfObj::Array(annots));
    proof {
        assert(ak@ =~= spec_annots_key());
    }
    es
}

/// `Annots`
pub open spec fn spec_annots_key() -> Seq<u8> {
    seq![65u8, 110u8, 110u8, 111u8, 116u8, 115u8]
}

} // verus!
