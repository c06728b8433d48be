//! PNG handling for field overlays: decoding (through the `png` crate),
//! splitting alpha images into an opaque channel plus a grayscale soft
//! mask, and building the image XObjects with the
//! `[/ASCIIHexDecode /FlateDecode]` filter chain.

use vstd::prelude::*;
use std::io::Write;
use crate::err::Error;
use crate::num::spec_hex;
use crate::obj::PdfObj;

verus! {

/// A decoded PNG frame as plain values.
pub struct PngImage {
    pub width: u32,
    pub height: u32,
    /// 1, 2, 4, 8 or 16.
    pub bit_depth: u8,
    /// The PNG colour type code: 0 grayscale, 2 RGB, 3 indexed,
    /// 4 grayscale+alpha, 6 RGBA.
    pub color: u8,
    pub data: Vec<u8>,
}

/// What the `png` decoder yields for a byte string: `None` exactly when it
/// rejects the input. The result depends on the bytes alone.
pub uninterp spec fn png_decoded(data: Seq<u8>) -> Option<PngImage>;

/// Relies on png's `Decoder`/`Reader::next_frame`: decodes the first frame
/// into packed scanline bytes of length `buffer_size()`, with the header's
/// width, height, bit depth and colour type.
#[verifier::external_body]
pub fn decode_png(data: &[u8]) -> (r: Result<PngImage, Error>)
    ensures
        match r {
            Ok(img) => png_decoded(data@) == Some(img),
            Err(e) => e == Error::UnsupportedImage && png_decoded(data@) is None,
        },
{
    let mut reader = png::Decoder::new(data).read_info().map_err(|_| Error::UnsupportedImage)?;
    let mut buf = vec![0u8; reader.output_buffer_size()];
    let info = reader.next_frame(&mut buf).map_err(|_| Error::UnsupportedImage)?;
    buf.truncate(info.buffer_size());
    let (w, h) = (info.width, info.height);
    let (bd, ct) = (info.bit_depth as u8, info.color_type as u8);
    Ok(PngImage { width: w, height: h, bit_depth: bd, color: ct, data: buf })
}

/// What the `deflate` crate's zlib encoder emits at default compression
/// for a byte string. Deterministic in the input.
pub uninterp spec fn zlib_of(data: Seq<u8>) -> Seq<u8>;

/// Relies on deflate's `write::ZlibEncoder` at `Compression::Default`:
/// a zlib stream that decompresses back to the input. Writing to a `Vec`
/// cannot fail.
#[verifier::external_body]
pub fn zlib_compress(data: &[u8]) -> (r: Vec<u8>)
    ensures
        r@ == zlib_of(data@),
{
    let mut enc = deflate::write::ZlibEncoder::new(Vec::new(), deflate::Compression::Default);
    enc.write_all(data).unwrap();
    enc.finish().unwrap()
}

/// Keeps the bytes at index `!= 3 mod 4`: the RGB samples of RGBA data.
pub open spec fn spec_rgb_of_rgba(s: Seq<u8>) -> Seq<u8> {
    Seq::new((s.len() - s.len() / 4) as nat, |i: int| s[4 * (i / 3) + i % 3])
}

/// Keeps every fourth byte: the alpha samples of RGBA data.
pub open spec fn spec_alpha_of_rgba(s: Seq<u8>) -> Seq<u8> {
    Seq::new((s.len() / 4) as nat, |i: int| s[4 * i + 3])
}

/// Keeps the even bytes: the gray samples of grayscale+alpha data.
pub open spec fn spec_gray_of_ga(s: Seq<u8>) -> Seq<u8> {
    Seq::new((s.len() - s.len() / 2) as nat, |i: int| s[2 * i])
}

/// Keeps the odd bytes: the alpha samples of grayscale+alpha data.
pub open spec fn spec_alpha_of_ga(s: Seq<u8>) -> Seq<u8> {
    Seq::new((s.len() / 2) as nat, |i: int| s[2 * i + 1])
}

/// Splits 8-bit RGBA samples into RGB bytes and alpha bytes.
pub fn split_rgba(data: &[u8]) -> (r: (Vec<u8>, Vec<u8>))
    requires
        data@.len() % 4 == 0,
    ensures
        r.0@ == spec_rgb_of_rgba(data@),
        r.1@ == spec_alpha_of_rgba(data@),
{
    let mut rgb: Vec<u8> = Vec::new();
    let mut alpha: Vec<u8> = Vec::new();
    let mut i: usize = 0;
    while i < data.len()
        invariant
            data@.len() % 4 == 0,
            i % 4 == 0,
            0 <= i <= data@.len(),
            rgb@.len() == 3 * (i / 4),
            alpha@.len() == i / 4,
            forall|j: int| 0 <= j < rgb@.len() ==> rgb@[j] == data@[4 * (j / 3) + j % 3],
            forall|j: int| 0 <= j < alpha@.len() ==> alpha@[j] == data@[4 * j + 3],
        decreases data@.len() - i,
    {
        rgb.push(data[i]);
        rgb.push(data[i + 1]);
        rgb.push(data[i + 2]);
        alpha.push(data[i + 3]);
        i = i + 4;
        proof {
            let ghost q = i / 4 - 1;
            assert forall|j: int| 0 <= j < rgb@.len() implies rgb@[j] == data@[4 * (j / 3) + j
                % 3] by {
                if j >= 3 * q {
                    assert(j / 3 == q && j % 3 == j - 3 * q);
                }
            }
        }
    }
    proof {
        assert(rgb@ =~= spec_rgb_of_rgba(data@));
        assert(alpha@ =~= spec_alpha_of_rgba(data@));
    }
    (rgb, alpha)
}

/// Splits 8-bit grayscale+alpha samples into gray bytes and alpha bytes.
pub fn split_gray_alpha(data: &[u8]) -> (r: (Vec<u8>, Vec<u8>))
    requires
        data@.len() % 2 == 0,
    ensures
        r.0@ == spec_gray_of_ga(data@),
        r.1@ == spec_alpha_of_ga(data@),
{
    let mut gray: Vec<u8> = Vec::new();
    let mut alpha: Vec<u8> = Vec::new();
    let mut i: usize = 0;
    while i < data.len()
        invariant
            data@.len() % 2 == 0,
            i % 2 == 0,
            0 <= i <= data@.len(),
            gray@.len() == i / 2,
            alpha@.len() == i / 2,
            forall|j: int| 0 <= j < gray@.len() ==> gray@[j] == data@[2 * j],
            forall|j: int| 0 <= j < alpha@.len() ==> alpha@[j] == data@[2 * j + 1],
        decreases data@.len() - i,
    {
        gray.push(data[i]);
        alpha.push(data[i + 1]);
        i = i + 2;
    }
    proof {
        assert(gray@ =~= spec_gray_of_ga(data@));
        assert(alpha@ =~= spec_alpha_of_ga(data@));
    }
    (gray, alpha)
}

/// Re-interleaves split RGB and alpha bytes back into RGBA samples.
pub fn merge_rgba(rgb: &[u8], alpha: &[u8]) -> (r: Vec<u8>)
    requires
        rgb@.len() == 3 * alpha@.len(),
    ensures
        r@.len() == 4 * alpha@.len(),
        spec_rgb_of_rgba(r@) == rgb@,
        spec_alpha_of_rgba(r@) == alpha@,
{
    let mut out: Vec<u8> = Vec::new();
    let mut i: usize = 0;
    let rl: usize = rgb.len();
    while i < alpha.len()
        invariant
            rgb@.len() == rl,
            rgb@.len() == 3 * alpha@.len(),
            0 <= i <= alpha@.len(),
            out@.len() == 4 * i,
            forall|j: int| 0 <= j < 3 * i ==> out@[4 * (j / 3) + j % 3] == rgb@[j],
            forall|j: int| 0 <= j < i ==> out@[4 * j + 3] == alpha@[j],
        decreases alpha@.len() - i,
    {
        out.push(rgb[3 * i]);
        out.push(rgb[3 * i + 1]);
        out.push(rgb[3 * i + 2]);
        out.push(alpha[i]);
        i = i + 1;
        proof {
            assert forall|j: int| 0 <= j < 3 * i implies out@[4 * (j / 3) + j % 3] == rgb@[j] by {
                if j >= 3 * i - 3 {
                    assert(j / 3 == i - 1 && j % 3 == j - 3 * (i - 1));
                }
            }
        }
    }
    proof {
        assert(spec_rgb_of_rgba(out@) =~= rgb@);
        assert(spec_alpha_of_rgba(out@) =~= alpha@);
    }
    out
}

/// Round trip: splitting RGBA data and re-interleaving the two channels
/// reproduces the pixel data byte for byte.
pub proof fn lemma_rgba_split_merge(s: Seq<u8>, rgb: Seq<u8>, alpha: Seq<u8>, merged: Seq<u8>)
    requires
        s.len() % 4 == 0,
        rgb == spec_rgb_of_rgba(s),
        alpha == spec_alpha_of_rgba(s),
        merged.len() == 4 * alpha.len(),
        spec_rgb_of_rgba(merged) == rgb,
        spec_alpha_of_rgba(merged) == alpha,
    ensures
        merged == s,
{
    assert forall|k: int| 0 <= k < s.len() implies merged[k] == s[k] by {
        if k % 4 == 3 {
            let j = k / 4;
            assert(merged.len() == s.len());
            assert(k == 4 * j + 3);
            assert(j <= s.len() / 4 - 1);
            assert(0 <= j < s.len() / 4);
            assert(spec_alpha_of_rgba(merged)[j] == merged[4 * j + 3]);
            assert(spec_alpha_of_rgba(s)[j] == s[4 * j + 3]);
            assert(spec_alpha_of_rgba(merged)[j] == spec_alpha_of_rgba(s)[j]);
        } else {
            let q = k / 4;
            let j = 3 * q + k % 4;
            assert(merged.len() == s.len());
            assert(k == 4 * q + k % 4 && 0 <= k % 4 < 3);
            assert(j / 3 == q && j % 3 == k % 4);
            assert(q <= s.len() / 4 - 1);
            assert(0 <= j < s.len() - s.len() / 4);
            assert(spec_rgb_of_rgba(merged)[j] == spec_rgb_of_rgba(s)[j]);
            assert(spec_rgb_of_rgba(s)[j] == s[4 * (j / 3) + j % 3]);
            assert(4 * (j / 3) + j % 3 == k);
        }
    }
    assert(merged =~= s);
}

/// The entries every image XObject this library emits carries, in
/// order: `/Type /XObject /Subtype /Image /ColorSpace cs /Width w
/// /Height h /BitsPerComponent bpc /Filter [/ASCIIHexDecode
/// /FlateDecode] /Length len`, then `/SMask ref` when a soft mask is
/// present.
pub open spec fn image_entries_shape(
    es: Seq<(Vec<u8>, PdfObj)>,
    cs: Seq<u8>,
    w: u32,
    h: u32,
    bpc: u8,
    len: int,
    smask: Option<(u32, u16)>,
) -> bool {
    &&& es.len() == (if smask is Some { 9int } else { 8int })
    &&& es[0].0@ == crate::writer::spec_type_key() && es[0].1 is Name && es[0].1->Name_0@
        == spec_xobject_name()
    &&& es[1].0@ == spec_subtype_key() && es[1].1 is Name && es[1].1->Name_0@ == spec_image_name()
    &&& es[2].0@ == spec_colorspace_key() && es[2].1 is Name && es[2].1->Name_0@ == cs
    &&& es[3].0@ == spec_width_key() && es[3].1 == PdfObj::Int(w as i64)
    &&& es[4].0@ == spec_height_key() && es[4].1 == PdfObj::Int(h as i64)
    &&& es[5].0@ == spec_bpc_key() && es[5].1 == PdfObj::Int(bpc as i64)
    &&& es[6].0@ == spec_filter_key() && es[6].1 is Array && es[6].1->Array_0@.len() == 2
        && es[6].1->Array_0@[0] is Name && es[6].1->Array_0@[0]->Name_0@ == spec_asciihex_name()
        && es[6].1->Array_0@[1] is Name && es[6].1->Array_0@[1]->Name_0@ == spec_flate_name()
    &&& es[7].0@ == spec_length_key() && es[7].1 == PdfObj::Int(len as i64)
    &&& match smask {
        Some(oid) => es[8].0@ == spec_smask_key() && es[8].1 == PdfObj::Ref(oid.0, oid.1),
        None => true,
    }
}

/// `ASCIIHexDecode`
pub open spec fn spec_asciihex_name() -> Seq<u8> {
    seq![65u8, 83u8, 67u8, 73u8, 73u8, 72u8, 101u8, 120u8, 68u8, 101u8, 99u8, 111u8, 100u8,
        101u8]
}

/// `FlateDecode`
pub open spec fn spec_flate_name() -> Seq<u8> {
    seq![70u8, 108u8, 97u8, 116u8, 101u8, 68u8, 101u8, 99u8, 111u8, 100u8, 101u8]
}

/// `XObject`
pub open spec fn spec_xobject_name() -> Seq<u8> {
    seq![88u8, 79u8, 98u8, 106u8, 101u8, 99u8, 116u8]
}

/// `Image`
pub open spec fn spec_image_name() -> Seq<u8> {
    seq![73u8, 109u8, 97u8, 103u8, 101u8]
}

/// `Subtype`
pub open spec fn spec_subtype_key() -> Seq<u8> {
    seq![83u8, 117u8, 98u8, 116u8, 121u8, 112u8, 101u8]
}

/// `ColorSpace`
pub open spec fn spec_colorspace_key() -> Seq<u8> {
    seq![67u8, 111u8, 108u8, 111u8, 114u8, 83u8, 112u8, 97u8, 99u8, 101u8]
}

/// `DeviceGray`
pub open spec fn spec_devicegray() -> Seq<u8> {
    seq![68u8, 101u8, 118u8, 105u8, 99u8, 101u8, 71u8, 114u8, 97u8, 121u8]
}

/// `DeviceRGB`
pub open spec fn spec_devicergb() -> Seq<u8> {
    seq![68u8, 101u8, 118u8, 105u8, 99u8, 101u8, 82u8, 71u8, 66u8]
}

/// `Width`
pub open spec fn spec_width_key() -> Seq<u8> {
    seq![87u8, 105u8, 100u8, 116u8, 104u8]
}

/// `Height`
pub open spec fn spec_height_key() -> Seq<u8> {
    seq![72u8, 101u8, 105u8, 103u8, 104u8, 116u8]
}

/// `BitsPerComponent`
pub open spec fn spec_bpc_key() -> Seq<u8> {
    seq![66u8, 105u8, 116u8, 115u8, 80u8, 101u8, 114u8, 67u8, 111u8, 109u8, 112u8, 111u8, 110u8,
        101u8, 110u8, 116u8]
}

/// `SMask`
pub open spec fn spec_smask_key() -> Seq<u8> {
    seq![83u8, 77u8, 97u8, 115u8, 107u8]
}

/// `Length`
pub open spec fn spec_length_key() -> Seq<u8> {
    seq![76u8, 101u8, 110u8, 103u8, 116u8, 104u8]
}

/// `Filter`
pub open spec fn spec_filter_key() -> Seq<u8> {
    seq![70u8, 105u8, 108u8, 116u8, 101u8, 114u8]
}

/// The stream content an image XObject carries: the zlib stream of the
/// samples, hex-encoded, with the `>` end-of-data marker of
/// `/ASCIIHexDecode`.
pub open spec fn spec_image_content(samples: Seq<u8>) -> Seq<u8> {
    spec_hex(zlib_of(samples)) + seq![62u8]
}


/// Whether the writer supports this bit depth and colour type: depths
/// 1, 2, 4 and 8 for grayscale and RGB, depth 8 for the alpha types.
pub open spec fn spec_png_supported(bd: u8, ct: u8) -> bool {
    ||| ((ct == 0 || ct == 2) && (bd == 1 || bd == 2 || bd == 4 || bd == 8))
    ||| ((ct == 4 || ct == 6) && bd == 8)
}

/// The samples of the main image channel: the gray or RGB bytes for the
/// alpha colour types, the raw data otherwise.
pub open spec fn spec_main_samples(img: PngImage) -> Seq<u8> {
    if img.color == 4 {
        spec_gray_of_ga(img.data@)
    } else if img.color == 6 {
        spec_rgb_of_rgba(img.data@)
    } else {
        img.data@
    }
}

/// The alpha samples of an alpha colour type.
pub open spec fn spec_alpha_samples(img: PngImage) -> Seq<u8> {
    if img.color == 4 {
        spec_alpha_of_ga(img.data@)
    } else {
        spec_alpha_of_rgba(img.data@)
    }
}

/// Exactly when `png_to_xobjects` refuses a decoded frame: an unsupported
/// depth or colour type, a sample buffer that does not divide into whole
/// pixels, or an encoded stream too long for a PDF integer.
pub open spec fn spec_png_rejected(img: PngImage) -> bool {
    ||| !spec_png_supported(img.bit_depth, img.color)
    ||| (img.color == 4 && img.data@.len() % 2 != 0)
    ||| (img.color == 6 && img.data@.len() % 4 != 0)
    ||| spec_image_content(spec_main_samples(img)).len() >= 0x7fff_ffff_ffff_ffff
    ||| ((img.color == 4 || img.color == 6) && spec_image_content(spec_alpha_samples(img)).len()
        >= 0x7fff_ffff_ffff_ffff)
}

/// Builds the stream entries of one image XObject.
fn image_entries(
    cs_gray: bool,
    w: u32,
    h: u32,
    bpc: u8,
    len: usize,
    smask: Option<(u32, u16)>,
) -> (r: Vec<(Vec<u8>, PdfObj)>)
    requires
        len < 0x7fff_ffff_ffff_ffff,
    ensures
        image_entries_shape(
            r@,
            if cs_gray {
                spec_devicegray()
            } else {
                spec_devicergb()
            },
            w,
            h,
            bpc,
            len as int,
            smask,
        ),
{
    let mut es: Vec<(Vec<u8>, PdfObj)> = Vec::new();
    let tk: [u8; 4] = [84, 121, 112, 101];
    let xo: [u8; 7] = [88, 79, 98, 106, 101, 99, 116];
    es.push((crate::sig::slice_to_vec(tk.as_slice()), PdfObj::Name(crate::sig::slice_to_vec(xo.as_slice()))));
    let stk: [u8; 7] = [83, 117, 98, 116, 121, 112, 101];
    let imn: [u8; 5] = [73, 109, 97, 103, 101];
    es.push((crate::sig::slice_to_vec(stk.as_slice()), PdfObj::Name(crate::sig::slice_to_vec(imn.as_slice()))));
    let csk: [u8; 10] = [67, 111, 108, 111, 114, 83, 112, 97, 99, 101];
    let csv: Vec<u8> = if cs_gray {
        let g: [u8; 10] = [68, 101, 118, 105, 99, 101, 71, 114, 97, 121];
        crate::sig::slice_to_vec(g.as_slice())
    } else {
        let c: [u8; 9] = [68, 101, 118, 105, 99, 101, 82, 71, 66];
        crate::sig::slice_to_vec(c.as_slice())
    };
    es.push((crate::sig::slice_to_vec(csk.as_slice()), PdfObj::Name(csv)));
    let wk: [u8; 5] = [87, 105, 100, 116, 104];
    es.push((crate::sig::slice_to_vec(wk.as_slice()), PdfObj::Int(w as i64)));
    let hk: [u8; 6] = [72, 101, 105, 103, 104, 116];
    es.push((crate::sig::slice_to_vec(hk.as_slice()), PdfObj::Int(h as i64)));
    let bk: [u8; 16] = [66, 105, 116, 115, 80, 101, 114, 67, 111, 109, 112, 111, 110, 101, 110,
        116];
    es.push((crate::sig::slice_to_vec(bk.as_slice()), PdfObj::Int(bpc as i64)));
    let fk: [u8; 6] = [70, 105, 108, 116, 101, 114];
    let ah: [u8; 14] = [65, 83, 67, 73, 73, 72, 101, 120, 68, 101, 99, 111, 100, 101];
    let fl: [u8; 11] = [70, 108, 97, 116, 101, 68, 101, 99, 111, 100, 101];
    let filters = vec![
        PdfObj::Name(crate::sig::slice_to_vec(ah.as_slice())),
        PdfObj::Name(crate::sig::slice_to_vec(fl.as_slice())),
    ];
    es.push((crate::sig::slice_to_vec(fk.as_slice()), PdfObj::Array(filters)));
    let lk: [u8; 6] = [76, 101, 110, 103, 116, 104];
    es.push((crate::sig::slice_to_vec(lk.as_slice()), PdfObj::Int(len as i64)));
    match smask {
        Some(oid) => {
            let sk: [u8; 5] = [83, 77, 97, 115, 107];
            es.push((crate::sig::slice_to_vec(sk.as_slice()), PdfObj::Ref(oid.0, oid.1)));
        },
        None => {},
    }
    proof {
        assert(tk@ =~= crate::writer::spec_type_key());
        assert(xo@ =~= spec_xobject_name());
        assert(stk@ =~= spec_subtype_key());
        assert(imn@ =~= spec_image_name());
        assert(csk@ =~= spec_colorspace_key());
        assert(wk@ =~= spec_width_key());
        assert(hk@ =~= spec_height_key());
        assert(bk@ =~= spec_bpc_key());
        assert(fk@ =~= spec_filter_key());
        assert(ah@ =~= spec_asciihex_name());
        assert(fl@ =~= spec_flate_name());
        assert(lk@ =~= spec_length_key());
    }
    es
}

/// The zlib-and-hex stream body for a sample buffer.
fn image_content(samples: &[u8]) -> (r: Vec<u8>)
    ensures
        r@ == spec_image_content(samples@),
{
    let comp = zlib_compress(samples);
    let mut body = crate::num::hex_bytes(comp.as_slice());
    body.push(62);
    proof {
        assert(body@ =~= spec_image_content(samples@));
    }
    body
}

/// Turns a decoded PNG into the image XObject, plus the grayscale
/// `/SMask` XObject when the colour type carries alpha. It fails, with
/// `UnsupportedImage`, exactly on the inputs `spec_png_rejected` names;
/// every other frame is encoded. For the alpha forms, the mask stream
/// carries exactly the input's alpha bytes, zlib-compressed and
/// hex-encoded.
pub fn png_to_xobjects(img: &PngImage, mask_oid: (u32, u16)) -> (r: Result<
    (PdfObj, Option<PdfObj>),
    Error,
>)
    ensures
        r is Err <==> spec_png_rejected(*img),
        match r {
            Ok(p) => {
                &&& spec_png_supported(img.bit_depth, img.color)
                &&& p.0 is Stream
                &&& p.1 is Some <==> (img.color == 4 || img.color == 6)
                &&& ({
                    let samples = if img.color == 4 {
                        spec_gray_of_ga(img.data@)
                    } else if img.color == 6 {
                        spec_rgb_of_rgba(img.data@)
                    } else {
                        img.data@
                    };
                    &&& image_entries_shape(
                        p.0->Stream_0@,
                        if img.color == 0 || img.color == 4 {
                            spec_devicegray()
                        } else {
                            spec_devicergb()
                        },
                        img.width,
                        img.height,
                        img.bit_depth,
                        spec_image_content(samples).len() as int,
                        if img.color == 4 || img.color == 6 {
                            Some(mask_oid)
                        } else {
                            None
                        },
                    )
                    &&& p.0->Stream_1@ == spec_image_content(samples)
                })
                &&& match p.1 {
                    Some(mask) => {
                        let alpha = if img.color == 4 {
                            spec_alpha_of_ga(img.data@)
                        } else {
                            spec_alpha_of_rgba(img.data@)
                        };
                        &&& mask is Stream
                        &&& image_entries_shape(
                            mask->Stream_0@,
                            spec_devicegray(),
                            img.width,
                            img.height,
                            img.bit_depth,
                            spec_image_content(alpha).len() as int,
                            None,
                        )
                        &&& mask->Stream_1@ == spec_image_content(alpha)
                    },
                    None => true,
                }
            },
            Err(e) => e == Error::UnsupportedImage,
        },
{
    let supported = (img.color == 0 || img.color == 2) && (img.bit_depth == 1 || img.bit_depth
        == 2 || img.bit_depth == 4 || img.bit_depth == 8) || (img.color == 4 || img.color == 6)
        && img.bit_depth == 8;
    if !supported {
        return Err(Error::UnsupportedImage);
    }
    if img.color == 4 || img.color == 6 {
        let (main, alpha) = if img.color == 4 {
            if img.data.len() % 2 != 0 {
                return Err(Error::UnsupportedImage);
            }
            split_gray_alpha(img.data.as_slice())
        } else {
            if img.data.len() % 4 != 0 {
                return Err(Error::UnsupportedImage);
            }
            split_rgba(img.data.as_slice())
        };
        let body = image_content(main.as_slice());
        let mask_body = image_content(alpha.as_slice());
        proof {
            crate::num::lemma_hex_len(zlib_of(main@));
            crate::num::lemma_hex_len(zlib_of(alpha@));
        }
        if (body.len() as u64) >= 0x7fff_ffff_ffff_ffffu64 || (mask_body.len() as u64) >= 0x7fff_ffff_ffff_ffffu64 {
            return Err(Error::UnsupportedImage);
        }
        let es = image_entries(
            img.color == 4,
            img.width,
            img.height,
            img.bit_depth,
            body.len(),
            Some(mask_oid),
        );
        let mes = image_entries(true, img.width, img.height, img.bit_depth, mask_body.len(), None);
        Ok((PdfObj::Stream(es, body), Some(PdfObj::Stream(mes, mask_body))))
    } else {
        let body = image_content(img.data.as_slice());
        if (body.len() as u64) >= 0x7fff_ffff_ffff_ffffu64 {
            return Err(Error::UnsupportedImage);
        }
        let es = image_entries(
            img.color == 0,
            img.width,
            img.height,
            img.bit_depth,
            body.len(),
            None,
        );
        Ok((PdfObj::Stream(es, body), None))
    }
}

} // verus!
