use esign::byterange::{find_sig_placeholders, signed_bytes, splice_signature, write_byte_range};
use esign::envelope::{
    apply_sign, collect_field_values, create_recipients, make_recipient_key, next_recipient,
    EnvelopeRecipient, EnvelopeState, FieldType, LogEntryType, TemplateField,
};
use esign::err::Error;
use esign::filekey::{parse_dec, split_semi, verify_file_key, FileKey};
use esign::geom::{quant_micro, to_pdf_space, MediaBox, NormRect, PdfPos};
use esign::image::{decode_png, merge_rgba, split_gray_alpha, split_rgba, zlib_compress};
use esign::num::{hex_bytes, hex_decode, push_dec10, push_dec_i64, push_dec_u64};
use esign::obj::{obj_bytes, PdfObj, StrFmt};
use esign::sig::{build_sig_dict, pdf_date};
use esign::writer::{write_classic_update, NewObj};
use esign::crypto::{
    b64url_decode, b64url_encode, email_valid, fresh_uuid, hmac_sha512, random_bytes, sha512,
};

#[test]
fn decimal_rendering() {
    let mut v: Vec<u8> = Vec::new();
    push_dec_u64(&mut v, 0);
    assert_eq!(v, b"0");
    let mut v: Vec<u8> = Vec::new();
    push_dec_u64(&mut v, 90210);
    assert_eq!(v, b"90210");
    let mut v: Vec<u8> = Vec::new();
    push_dec10(&mut v, 42);
    assert_eq!(v, b"0000000042");
    let mut v: Vec<u8> = Vec::new();
    push_dec_i64(&mut v, -12);
    assert_eq!(v, b"-12");
}

#[test]
fn hex_round_trip() {
    assert_eq!(hex_bytes(&[0xde, 0xad, 0x00, 0x0f]), b"dead000f");
    let dec = hex_decode(b"dead000f").unwrap();
    assert_eq!(dec, vec![0xde, 0xad, 0x00, 0x0f]);
    assert!(hex_decode(b"abc").is_none());
    assert!(hex_decode(b"zz").is_none());
    assert!(hex_decode(b"AB").is_none());
}

#[test]
fn object_serialisation() {
    assert_eq!(obj_bytes(&PdfObj::Null), b"null");
    assert_eq!(obj_bytes(&PdfObj::Bool(true)), b"true");
    assert_eq!(obj_bytes(&PdfObj::Int(-42)), b"-42");
    assert_eq!(obj_bytes(&PdfObj::Real(1_500_000)), b"1.500000");
    assert_eq!(obj_bytes(&PdfObj::Real(-250_000)), b"-0.250000");
    assert_eq!(obj_bytes(&PdfObj::Name(b"Type".to_vec())), b"/Type");
    assert_eq!(
        obj_bytes(&PdfObj::Text(b"a(b".to_vec(), StrFmt::Literal)),
        b"(a\\(b)"
    );
    assert_eq!(obj_bytes(&PdfObj::Text(vec![0xab], StrFmt::Hex)), b"<ab>");
    assert_eq!(obj_bytes(&PdfObj::Ref(3, 0)), b"3 0 R");
    assert_eq!(
        obj_bytes(&PdfObj::Array(vec![PdfObj::Int(1), PdfObj::Int(2)])),
        b"[1 2 ]"
    );
    assert_eq!(
        obj_bytes(&PdfObj::Dict(vec![(b"K".to_vec(), PdfObj::Int(7))])),
        b"<</K 7 >>"
    );
    assert_eq!(
        obj_bytes(&PdfObj::Stream(
            vec![(b"Length".to_vec(), PdfObj::Int(2))],
            b"AB".to_vec()
        )),
        b"<</Length 2 >>stream\nAB\nendstream"
    );
}

#[test]
fn date_rendering() {
    assert_eq!(pdf_date(2024, 1, 2, 3, 4, 5), b"D:20240102030405Z");
}

fn trailer_for_test() -> PdfObj {
    PdfObj::Dict(vec![
        (b"Size".to_vec(), PdfObj::Int(11)),
        (b"Prev".to_vec(), PdfObj::Int(42)),
        (b"Root".to_vec(), PdfObj::Ref(1, 0)),
    ])
}

#[test]
fn classic_update_appends_only() {
    let base = b"%PDF-1.7\nBASE".to_vec();
    let objs = vec![NewObj {
        num: 9,
        gen: 0,
        obj: PdfObj::Dict(vec![(b"K".to_vec(), PdfObj::Int(7))]),
    }];
    let out = write_classic_update(base.clone(), &objs, &trailer_for_test()).unwrap();
    assert_eq!(&out[..base.len()], &base[..]);
    let text = String::from_utf8(out.clone()).unwrap();
    assert!(text.contains("9 0 obj\n<</K 7 >>\nendobj\n"));
    assert!(text.contains("xref\n9 1\n0000000013 00000 n \n"));
    assert!(text.contains("trailer\n<</Size 11 /Prev 42 /Root 1 0 R >>"));
    assert!(text.ends_with("%%EOF"));
    let startxref = text.rfind("startxref\n").unwrap();
    let num: usize = text[startxref + 10..text.len() - 6].trim().parse().unwrap();
    // the xref starts right after the single written object
    assert_eq!(&out[num..num + 5], b"xref\n");
}

#[test]
fn byte_range_correctness() {
    // A trivial base, a signature dictionary, finalisation: the rewritten
    // /ByteRange must be [0 B C D] with B the offset of `<`, C the offset
    // just past `>`, D the remainder of the file.
    let base = b"%PDF-1.7\n1 0 obj\n<<>>\nendobj\n".to_vec();
    let date = pdf_date(2024, 1, 2, 3, 4, 5);
    let sig = build_sig_dict(date, b"signed".to_vec(), None, None, None);
    let objs = vec![NewObj { num: 7, gen: 0, obj: sig }];
    let out = write_classic_update(base.clone(), &objs, &trailer_for_test()).unwrap();
    assert_eq!(&out[..base.len()], &base[..]);

    let (cs, ce) = find_sig_placeholders(&out).unwrap();
    assert_eq!(ce, cs + 16386);
    assert_eq!(out[cs], b'<');
    assert_eq!(out[ce - 1], b'>');
    // /Contents length: 16384 hex digits between the brackets
    assert!(out[cs + 1..ce - 1].iter().all(|b| *b == b'0'));
    assert_eq!(ce - 1 - (cs + 1), 16384);

    let mut patched = out.clone();
    write_byte_range(&mut patched, cs, ce).unwrap();
    let br = &patched[ce + 12..ce + 48];
    let text = String::from_utf8(br.to_vec()).unwrap();
    assert_eq!(&text[..1], "[");
    assert_eq!(&text[text.len() - 1..], "]");
    let nums: Vec<u64> = text[1..text.len() - 1]
        .split(' ')
        .map(|p| p.parse().unwrap())
        .collect();
    assert_eq!(
        nums,
        vec![0, cs as u64, ce as u64, (patched.len() - ce) as u64]
    );
    assert_eq!(patched.len(), out.len());

    // splice a signature and check the covered bytes stay identical
    let covered_before = signed_bytes(&patched, cs, ce);
    let der = vec![0x30u8, 0x82, 0x01, 0x00, 0xAA, 0xBB];
    let mut done = patched.clone();
    splice_signature(&mut done, cs, ce, &der).unwrap();
    let covered_after = signed_bytes(&done, cs, ce);
    assert_eq!(covered_before, covered_after);
    assert_eq!(&done[cs + 1..cs + 1 + 2 * der.len()], b"30820100aabb");
    assert!(done[cs + 1 + 2 * der.len()..ce - 1].iter().all(|b| *b == b'0'));

    // an oversized CMS is refused
    let big = vec![0u8; 8193];
    let mut copy = patched.clone();
    assert_eq!(
        splice_signature(&mut copy, cs, ce, &big),
        Err(Error::SignatureTooLarge)
    );
}

#[test]
fn coordinate_transform_exact() {
    let mb = MediaBox {
        llx: 0,
        lly: 0,
        urx: 612_000_000,
        ury: 792_000_000,
    };
    let r = NormRect {
        top: 250_000,
        left: 500_000,
        width: 100_000,
        height: 50_000,
    };
    let p = to_pdf_space(&r, &mb);
    assert_eq!(p.x, 500_000i64 * 612_000_000);
    assert_eq!(p.w, 100_000i64 * 612_000_000);
    assert_eq!(p.h, 50_000i64 * 792_000_000);
    assert_eq!(
        p.y,
        792_000_000i64 * 1_000_000 - 250_000 * 792_000_000 - 50_000 * 792_000_000
    );
    assert_eq!(quant_micro(p.x), 306_000_000);
    assert_eq!(quant_micro(-1_999_999), -1);
}

#[test]
fn text_ops_shape() {
    let pos = PdfPos {
        x: 10_000_000_000_000,
        y: 20_000_000_000_000,
        w: 0,
        h: 12_000_000_000_000,
    };
    let mut ops: Vec<u8> = Vec::new();
    esign::sig::push_text_ops(&mut ops, b"F_esign_Helvetica", &pos, b"hi");
    let text = String::from_utf8(ops).unwrap();
    assert_eq!(
        text,
        "BT\n/F_esign_Helvetica 12.000000 Tf\n10.000000 20.000000 Td\n(hi) Tj\nET\n"
    );
}

#[test]
fn png_alpha_split() {
    // an 8-bit RGBA gradient
    let mut data: Vec<u8> = Vec::new();
    for y in 0..4u8 {
        for x in 0..4u8 {
            data.extend_from_slice(&[x * 60, y * 60, 255 - x * 60, x * 16 + y * 4]);
        }
    }
    let mut png_bytes: Vec<u8> = Vec::new();
    {
        let mut enc = png::Encoder::new(&mut png_bytes, 4, 4);
        enc.set_color(png::ColorType::Rgba);
        enc.set_depth(png::BitDepth::Eight);
        let mut w = enc.write_header().unwrap();
        w.write_image_data(&data).unwrap();
    }
    let img = decode_png(&png_bytes).unwrap();
    assert_eq!(img.width, 4);
    assert_eq!(img.height, 4);
    assert_eq!(img.color, 6);
    assert_eq!(img.bit_depth, 8);
    assert_eq!(img.data, data);

    let (rgb, alpha) = split_rgba(&img.data);
    assert_eq!(alpha.len(), 16);
    let expected_alpha: Vec<u8> = data.chunks(4).map(|c| c[3]).collect();
    assert_eq!(alpha, expected_alpha);

    // decode → encode-as-XObject stream → re-decode reproduces the bytes
    let merged = merge_rgba(&rgb, &alpha);
    assert_eq!(merged, data);
    let comp = zlib_compress(&alpha);
    let hexed = hex_bytes(&comp);
    let unhexed = hex_decode(&hexed).unwrap();
    let raw = inflate::inflate_bytes_zlib(&unhexed).unwrap();
    assert_eq!(raw, alpha);

    // the emitted XObject pair: /DeviceRGB main image, /DeviceGray /SMask
    // of the same dimensions, whose stream holds exactly the alpha bytes
    let (main, mask) = esign::image::png_to_xobjects(&img, (42, 0)).unwrap();
    let (entries, _body) = match &main {
        PdfObj::Stream(es, body) => (es, body),
        _ => panic!("main image is a stream"),
    };
    let get = |key: &[u8]| -> &PdfObj {
        &entries.iter().find(|e| e.0 == key).unwrap().1
    };
    assert!(matches!(get(b"ColorSpace"), PdfObj::Name(n) if n == b"DeviceRGB"));
    assert!(matches!(get(b"BitsPerComponent"), PdfObj::Int(8)));
    assert!(matches!(get(b"SMask"), PdfObj::Ref(42, 0)));
    let mask = mask.unwrap();
    let (mes, mbody) = match &mask {
        PdfObj::Stream(es, body) => (es, body),
        _ => panic!("mask is a stream"),
    };
    let mget = |key: &[u8]| -> &PdfObj {
        &mes.iter().find(|e| e.0 == key).unwrap().1
    };
    assert!(matches!(mget(b"ColorSpace"), PdfObj::Name(n) if n == b"DeviceGray"));
    assert!(matches!(mget(b"Width"), PdfObj::Int(4)));
    assert!(matches!(mget(b"Height"), PdfObj::Int(4)));
    let hex_part = &mbody[..mbody.len() - 1];
    let mask_raw =
        inflate::inflate_bytes_zlib(&hex_decode(hex_part).unwrap()).unwrap();
    assert_eq!(mask_raw, alpha);
    // an unsupported depth is refused
    let bad = esign::image::PngImage {
        width: 1,
        height: 1,
        bit_depth: 16,
        color: 0,
        data: vec![0, 0],
    };
    assert!(esign::image::png_to_xobjects(&bad, (1, 0)).is_err());
}

#[test]
fn gray_alpha_split() {
    let data = vec![10u8, 200, 20, 201, 30, 202];
    let (gray, alpha) = split_gray_alpha(&data);
    assert_eq!(gray, vec![10, 20, 30]);
    assert_eq!(alpha, vec![200, 201, 202]);
}

#[test]
fn digest_vectors() {
    let d = sha512(b"");
    assert_eq!(
        hex_bytes(&d),
        b"cf83e1357eefb8bdf1542850d66d8007d620e4050b5715dc83f4a921d36ce9ce47d0d13c5d85f2b0ff8318d2877eec2f63b931bd47417a81a538327af927da3e".to_vec()
    );
    let key = vec![0x0bu8; 20];
    let tag = hmac_sha512(&key, b"Hi There");
    assert_eq!(
        hex_bytes(&tag),
        b"87aa7cdea5ef619d4ff0b4241a1d6cb02379f4e2ce4ec2787ad0b30545e17cdedaa833b7d6b8a702038b274eaea3f4e4be9d914eeb61f1702e696c203a126854".to_vec()
    );
}

#[test]
fn base64_and_random() {
    assert_eq!(b64url_encode(b"foo"), b"Zm9v");
    assert_eq!(b64url_decode(b"Zm9v").unwrap(), b"foo");
    assert!(b64url_decode(b"!!bad!!").is_none());
    assert_eq!(random_bytes(64).len(), 64);
    assert_eq!(make_recipient_key().len(), 86);
    let u = fresh_uuid();
    assert_eq!((u >> 76) & 0xf, 4);
}

#[test]
fn email_parsing() {
    assert!(email_valid(b"someone@example.com"));
    assert!(!email_valid(b"not an email"));
}

#[test]
fn split_and_parse() {
    let (a, b) = split_semi(b"123;tail").unwrap();
    assert_eq!(a, b"123");
    assert_eq!(b, b"tail");
    assert!(split_semi(b"no-semi").is_none());
    assert!(split_semi(b"two;semi;s").is_none());
    assert_eq!(parse_dec(b"1700000300"), Some(1_700_000_300));
    assert_eq!(parse_dec(b"0"), Some(0));
    assert_eq!(parse_dec(b"007"), None);
    assert_eq!(parse_dec(b""), None);
    assert_eq!(parse_dec(b"12a"), None);
}

#[test]
fn hmac_file_key() {
    // files_key of zero bytes, path base.pdf, expiry 1_700_000_300
    let files_key = vec![0u8; 64];
    let fk = FileKey::new(b"base.pdf".to_vec(), files_key.clone());
    let key = fk.key_string(1_700_000_300);
    assert_eq!(
        verify_file_key(b"base.pdf", &files_key, &key, 1_700_000_000),
        Ok(())
    );
    assert_eq!(
        verify_file_key(b"base.pdf", &files_key, &key, 1_700_000_600),
        Err(Error::Expired)
    );
    // a tampered tag is refused
    let mut bad = key.clone();
    let last = bad.len() - 1;
    bad[last] = if bad[last] == b'A' { b'B' } else { b'A' };
    assert_eq!(
        verify_file_key(b"base.pdf", &files_key, &bad, 1_700_000_000),
        Err(Error::AuthFailure)
    );
    // a key minted for another path is refused
    assert_eq!(
        verify_file_key(b"other.pdf", &files_key, &key, 1_700_000_000),
        Err(Error::AuthFailure)
    );
    // a malformed key is refused
    assert_eq!(
        verify_file_key(b"base.pdf", &files_key, b"nokey", 1_700_000_000),
        Err(Error::InvalidInput)
    );
}

fn recipient(order: i64, completed: bool) -> EnvelopeRecipient {
    EnvelopeRecipient {
        id: order as u128,
        envelope_id: 1,
        email: b"r@example.com".to_vec(),
        recipient_order: order,
        key: b"k".to_vec(),
        completed,
    }
}

#[test]
fn progression_picks_lowest_incomplete() {
    let rs = vec![recipient(0, true), recipient(2, false), recipient(1, false)];
    assert_eq!(next_recipient(&rs), Some(2));
    let rs = vec![recipient(0, true), recipient(1, true)];
    assert_eq!(next_recipient(&rs), None);
}

fn field(id: u128, required: bool, order: i64) -> TemplateField {
    TemplateField {
        id,
        signing_order: order,
        field_type: FieldType::Text,
        required,
        page: 1,
        rect: NormRect { top: 0, left: 0, width: 100_000, height: 50_000 },
    }
}

#[test]
fn field_validation() {
    let fields = vec![field(1, true, 0), field(2, false, 0)];
    let vals = vec![(1u128, b"x".to_vec()), (2u128, Vec::new())];
    let out = collect_field_values(&fields, &vals).unwrap();
    assert_eq!(out.len(), 2);
    assert_eq!(out[0].1, b"x");
    // a missing field is refused
    let vals = vec![(1u128, b"x".to_vec())];
    assert_eq!(collect_field_values(&fields, &vals), Err(Error::InvalidInput));
    // an empty required field is refused
    let vals = vec![(1u128, Vec::new()), (2u128, Vec::new())];
    assert_eq!(collect_field_values(&fields, &vals), Err(Error::InvalidInput));
}

#[test]
fn sender_only_envelope() {
    // a template with two sender text fields and no other recipients
    let fields = vec![field(1, true, 0), field(2, true, 0)];
    let vals = vec![(1u128, b"a".to_vec()), (2u128, b"b".to_vec())];
    assert!(collect_field_values(&fields, &vals).is_ok());
    let rs = create_recipients(
        9,
        100,
        b"sender@example.com".to_vec(),
        b"key0".to_vec(),
        &Vec::new(),
        &Vec::new(),
        &Vec::new(),
    )
    .unwrap();
    assert_eq!(rs.len(), 1);
    assert_eq!(rs[0].recipient_order, 0);
    assert!(rs[0].completed);
    // nothing left to sign: straight to final distribution
    assert_eq!(next_recipient(&rs), None);
}

#[test]
fn two_recipient_envelope() {
    let emails = vec![b"r1@example.com".to_vec(), b"r2@example.com".to_vec()];
    let ids = vec![201u128, 202u128];
    let keys = vec![make_recipient_key(), make_recipient_key()];
    let mut rs = create_recipients(
        9,
        100,
        b"sender@example.com".to_vec(),
        b"key0".to_vec(),
        &emails,
        &ids,
        &keys,
    )
    .unwrap();
    // recipient orders are exactly {0, 1, 2}
    let orders: Vec<i64> = rs.iter().map(|r| r.recipient_order).collect();
    assert_eq!(orders, vec![0, 1, 2]);
    assert!(rs[0].completed && !rs[1].completed && !rs[2].completed);
    // progression: recipient 1 signs, then recipient 2, then final
    assert_eq!(next_recipient(&rs), Some(1));
    rs[1].completed = true;
    assert_eq!(next_recipient(&rs), Some(2));
    rs[2].completed = true;
    assert_eq!(next_recipient(&rs), None);
    // an invalid address is refused
    let bad = vec![b"nope".to_vec()];
    let r = create_recipients(
        9,
        100,
        b"sender@example.com".to_vec(),
        b"key0".to_vec(),
        &bad,
        &vec![1u128],
        &vec![b"k".to_vec()],
    );
    assert!(r.is_err());
}

#[test]
fn signed_log_entry_matches_hash() {
    let bytes0 = b"rev0".to_vec();
    let h0 = sha512(&bytes0);
    // sign_step computes the digest itself
    let quick = EnvelopeState {
        id: 9,
        template_id: 1,
        base_file: 50,
        current_file: 50,
        current_bytes: bytes0.clone(),
        log: Vec::new(),
    };
    let quick = esign::envelope::sign_step(quick, 7, 100, 999, 51, b"rev1".to_vec());
    assert_eq!(quick.log[0].current_document_hash, sha512(b"rev1"));
    let state = EnvelopeState {
        id: 9,
        template_id: 1,
        base_file: 50,
        current_file: 50,
        current_bytes: bytes0,
        log: Vec::new(),
    };
    let new_bytes = b"rev1".to_vec();
    let h1 = sha512(&new_bytes);
    let state = apply_sign(state, 1, 100, 1000, 51, new_bytes.clone(), h1.clone());
    assert_eq!(state.current_file, 51);
    assert_eq!(state.log.len(), 1);
    assert_eq!(state.log[0].entry_type, LogEntryType::Signed);
    assert_eq!(state.log[0].current_document_hash, h1);
    // duplicate delivery appends in timestamp order, never out of order
    let h2 = sha512(&new_bytes);
    let state = apply_sign(state, 2, 100, 1000, 52, new_bytes.clone(), h2);
    assert!(state.log[0].timestamp <= state.log[1].timestamp);
    // the hash in the log is the digest of the file at the moment of write
    assert_eq!(state.log[1].current_document_hash, sha512(&new_bytes));
    assert_ne!(h0, sha512(&new_bytes));
}

#[test]
fn opened_entry_and_key_gate() {
    let state = EnvelopeState {
        id: 9,
        template_id: 1,
        base_file: 50,
        current_file: 50,
        current_bytes: b"rev0".to_vec(),
        log: Vec::new(),
    };
    let state = esign::envelope::open_step(state, 3, 100, 500);
    assert_eq!(state.log.len(), 1);
    assert_eq!(state.log[0].entry_type, LogEntryType::Opened);
    assert_eq!(state.log[0].current_file, 50);
    assert_eq!(state.log[0].current_document_hash, sha512(b"rev0"));
    assert_eq!(state.current_bytes, b"rev0");

    let r = recipient(1, false);
    assert!(esign::envelope::recipient_key_matches(&r, b"k"));
    assert!(!esign::envelope::recipient_key_matches(&r, b"wrong"));
}

#[test]
fn error_labels() {
    assert_eq!(Error::SignatureTooLarge.label(), "signature_too_large");
    assert_eq!(Error::Expired.label(), "expired");
}

#[test]
fn field_type_labels() {
    assert_eq!(FieldType::Signature.to_string(), "signature");
    assert_eq!(FieldType::Checkbox.to_string(), "checkbox");
}

#[test]
fn file_too_large_refused() {
    // write_byte_range refuses nothing here (file is small), and the
    // contents slot is a fixed 8192 bytes
    assert_eq!(esign::byterange::SIG_SLOT, 8192);
    assert_eq!(esign::contents_slot_len(), 8192);
}


#[test]
fn recipient_key_decodes_back() {
    let key = make_recipient_key();
    assert_eq!(key.len(), 86);
    let raw = b64url_decode(&key).unwrap();
    assert_eq!(raw.len(), 64);
    assert_eq!(b64url_encode(&raw), key);
}

fn dict_of(o: &PdfObj) -> &Vec<(Vec<u8>, PdfObj)> {
    match o {
        PdfObj::Dict(es) => es,
        _ => panic!("expected a dictionary"),
    }
}

fn entry<'a>(es: &'a [(Vec<u8>, PdfObj)], key: &[u8]) -> &'a PdfObj {
    &es.iter().find(|e| e.0 == key).unwrap().1
}

#[test]
fn sig_dict_optional_entries() {
    let date = pdf_date(2024, 1, 2, 3, 4, 5);
    let sig = build_sig_dict(
        date,
        b"why".to_vec(),
        Some(b"Jo Doe".to_vec()),
        Some(b"10.0.0.1 (agent)".to_vec()),
        Some(b"jo@example.com".to_vec()),
    );
    let es = dict_of(&sig);
    assert_eq!(es.len(), 10);
    assert!(matches!(entry(es, b"Name"), PdfObj::Text(v, StrFmt::Literal) if v == b"Jo Doe"));
    assert!(
        matches!(entry(es, b"Location"), PdfObj::Text(v, StrFmt::Literal) if v == b"10.0.0.1 (agent)")
    );
    assert!(
        matches!(entry(es, b"ContactInfo"), PdfObj::Text(v, StrFmt::Literal) if v == b"jo@example.com")
    );
    let no_opts = build_sig_dict(pdf_date(2024, 1, 2, 3, 4, 5), b"why".to_vec(), None, None, None);
    assert_eq!(dict_of(&no_opts).len(), 7);
}

#[test]
fn trailer_construction() {
    let orig = vec![
        (b"Size".to_vec(), PdfObj::Int(4)),
        (b"Root".to_vec(), PdfObj::Ref(1, 0)),
        (b"Type".to_vec(), PdfObj::Name(b"XRef".to_vec())),
        (b"ID".to_vec(), PdfObj::Array(vec![])),
    ];
    let t = esign::writer::make_trailer(orig, 9, 42);
    let es = dict_of(&t);
    assert!(matches!(entry(es, b"Size"), PdfObj::Int(10)));
    assert!(matches!(entry(es, b"Prev"), PdfObj::Int(42)));
    assert!(matches!(entry(es, b"Root"), PdfObj::Ref(1, 0)));
    assert!(es.iter().all(|e| e.0 != b"Type"));
}

#[test]
fn acroform_and_annots_wiring() {
    let acro = vec![(b"Fields".to_vec(), PdfObj::Array(vec![PdfObj::Ref(5, 0)]))];
    let acro = esign::sig::acroform_with_field(acro, (9, 0));
    assert!(matches!(entry(&acro, b"SigFlags"), PdfObj::Int(3)));
    match entry(&acro, b"Fields") {
        PdfObj::Array(v) => {
            assert_eq!(v.len(), 2);
            assert!(matches!(v[1], PdfObj::Ref(9, 0)));
        }
        _ => panic!("Fields is an array"),
    }
    let page = vec![(b"MediaBox".to_vec(), PdfObj::Array(vec![]))];
    let page = esign::sig::page_with_annot(page, (9, 0));
    match entry(&page, b"Annots") {
        PdfObj::Array(v) => assert!(matches!(v[0], PdfObj::Ref(9, 0))),
        _ => panic!("Annots is an array"),
    }
}

#[test]
fn page_edit_binds_font() {
    let page = vec![
        (b"Type".to_vec(), PdfObj::Name(b"Page".to_vec())),
        (b"Contents".to_vec(), PdfObj::Ref(4, 0)),
        (
            b"Resources".to_vec(),
            PdfObj::Dict(vec![(b"ProcSet".to_vec(), PdfObj::Array(vec![]))]),
        ),
    ];
    let page = esign::sig::page_setup(page, (20, 0), b"F_esign_Helvetica".to_vec(), (21, 0));
    assert!(matches!(entry(&page, b"Contents"), PdfObj::Ref(20, 0)));
    let res = dict_of(entry(&page, b"Resources"));
    // the old resource entries survive and the font is bound
    assert!(res.iter().any(|e| e.0 == b"ProcSet"));
    let fonts = dict_of(entry(res, b"Font"));
    assert!(matches!(entry(fonts, b"F_esign_Helvetica"), PdfObj::Ref(21, 0)));
    assert!(matches!(entry(&page, b"Type"), PdfObj::Name(n) if n == b"Page"));
}

#[test]
fn widget_and_appearance() {
    let pos = PdfPos {
        x: 2_000_000_000_000,
        y: 3_000_000_000_000,
        w: 1_000_000_000_000,
        h: 500_000_000_000,
    };
    let w = esign::sig::build_sig_widget(&pos, b"Signature1".to_vec(), (7, 0), (8, 0), (3, 0));
    let es = dict_of(&w);
    assert!(matches!(entry(es, b"FT"), PdfObj::Name(n) if n == b"Sig"));
    assert!(matches!(entry(es, b"F"), PdfObj::Int(132)));
    assert!(matches!(entry(es, b"V"), PdfObj::Ref(7, 0)));
    assert!(matches!(entry(es, b"P"), PdfObj::Ref(3, 0)));
    match entry(es, b"Rect") {
        PdfObj::Array(v) => {
            assert!(matches!(v[0], PdfObj::Real(2_000_000)));
            assert!(matches!(v[2], PdfObj::Real(3_000_000)));
        }
        _ => panic!("Rect is an array"),
    }
    let ap = esign::sig::build_sig_appearance(&pos, b"Xsig".to_vec(), (9, 0)).unwrap();
    match &ap {
        PdfObj::Stream(es, content) => {
            assert!(matches!(entry(es, b"Subtype"), PdfObj::Name(n) if n == b"Form"));
            let mut expect: Vec<u8> = Vec::new();
            let origin = PdfPos { x: 0, y: 0, w: pos.w, h: pos.h };
            esign::sig::push_image_ops(&mut expect, b"Xsig", &origin);
            assert_eq!(content, &expect);
        }
        _ => panic!("appearance is a stream"),
    }
}

#[test]
fn stream_update_structure() {
    let base = b"%PDF-1.5
1 0 obj
<<>>
endobj
".to_vec();
    let objs = vec![NewObj {
        num: 9,
        gen: 0,
        obj: PdfObj::Dict(vec![(b"K".to_vec(), PdfObj::Int(7))]),
    }];
    let kept = vec![(b"Root".to_vec(), PdfObj::Ref(1, 0))];
    let (out, xobj) =
        esign::writer::write_stream_update(base.clone(), &objs, 10, 42, 11, kept).unwrap();
    assert_eq!(&out[..base.len()], &base[..]);
    let text = String::from_utf8_lossy(&out);
    assert!(text.contains("9 0 obj\n<</K 7 >>\nendobj\n"));
    assert!(text.contains("10 0 obj\n<</Type /XRef /Size 11 /Prev 42 /W [1 4 2 ] /Index [9 1 10 1 ] /Length 14 /Root 1 0 R >>stream\n"));
    assert!(text.ends_with("%%EOF"));
    // two rows of (type, offset:4, generation:2), the stream's own last
    match &xobj.obj {
        PdfObj::Stream(_, rows) => {
            assert_eq!(rows.len(), 14);
            assert_eq!(rows[0], 1);
            assert_eq!(&rows[1..5], &(base.len() as u32).to_be_bytes());
            let start = text.rfind("startxref\n").unwrap();
            let xref_start: u32 = text[start + 10..text.len() - 6].trim().parse().unwrap();
            assert_eq!(&rows[8..12], &xref_start.to_be_bytes());
        }
        _ => panic!("xref object is a stream"),
    }
}

#[test]
fn audit_log_json_round_trip() {
    let entries = vec![
        esign::envelope::LogEntry {
            id: 1,
            envelope_id: 9,
            timestamp: 1_700_000_000,
            recipient_id: 100,
            entry_type: LogEntryType::Created,
            current_file: 50,
            current_document_hash: sha512(b"rev0"),
        },
        esign::envelope::LogEntry {
            id: 2,
            envelope_id: 9,
            timestamp: 1_700_000_100,
            recipient_id: 101,
            entry_type: LogEntryType::Signed,
            current_file: 51,
            current_document_hash: sha512(b"rev1"),
        },
    ];
    let emails = vec![b"a@example.com".to_vec(), b"b \"quoted\"@example.com".to_vec()];
    let json = esign::auditlog::log_json(9, &entries, &emails);
    // the serialised log parses back with byte-exact field values
    let v: serde_json::Value = serde_json::from_slice(&json).unwrap();
    assert_eq!(
        v["envelope_id"].as_str().unwrap(),
        "00000000000000000000000000000009"
    );
    let es = v["entries"].as_array().unwrap();
    assert_eq!(es.len(), 2);
    assert_eq!(es[0]["timestamp"].as_i64().unwrap(), 1_700_000_000);
    assert_eq!(es[0]["entry_type"].as_str().unwrap(), "created");
    assert_eq!(es[0]["recipient_email"].as_str().unwrap(), "a@example.com");
    assert_eq!(es[1]["recipient_email"].as_str().unwrap(), "b \"quoted\"@example.com");
    assert_eq!(
        es[1]["current_document_hash"].as_str().unwrap().as_bytes(),
        &hex_bytes(&sha512(b"rev1"))[..]
    );
    assert_eq!(es[1]["entry_type"].as_str().unwrap(), "signed");
}

#[test]
fn field_overlay_assembly() {
    let mb = MediaBox { llx: 0, lly: 0, urx: 612_000_000, ury: 792_000_000 };
    let text_field = field(1, true, 0);
    let mut ops: Vec<u8> = Vec::new();
    let r = esign::sig::field_overlay_ops(&mut ops, &text_field, b"hello", &mb, b"F1", b"X1");
    assert!(matches!(r, Ok(None)));
    drop(r);
    assert!(!ops.is_empty());
    let mut expect: Vec<u8> = Vec::new();
    esign::sig::push_text_ops(&mut expect, b"F1", &to_pdf_space(&text_field.rect, &mb), b"hello");
    assert_eq!(ops, expect);

    // a signature field: base64 PNG in, image placement out
    let mut sig_field = field(2, true, 1);
    sig_field.field_type = FieldType::Signature;
    let mut png_bytes: Vec<u8> = Vec::new();
    {
        let mut enc = png::Encoder::new(&mut png_bytes, 2, 2);
        enc.set_color(png::ColorType::Grayscale);
        enc.set_depth(png::BitDepth::Eight);
        let mut w = enc.write_header().unwrap();
        w.write_image_data(&[1, 2, 3, 4]).unwrap();
    }
    let b64 = base64::encode_config(&png_bytes, base64::STANDARD).into_bytes();
    let mut ops2: Vec<u8> = Vec::new();
    let img = esign::sig::field_overlay_ops(&mut ops2, &sig_field, &b64, &mb, b"F1", b"X7")
        .unwrap()
        .unwrap();
    assert_eq!(img.data, vec![1, 2, 3, 4]);
    assert!(!ops2.is_empty());
    // not base64: invalid input; base64 of garbage: unsupported image
    let mut sink: Vec<u8> = Vec::new();
    assert!(matches!(
        esign::sig::field_overlay_ops(&mut sink, &sig_field, b"!!", &mb, b"F1", b"X7"),
        Err(Error::InvalidInput)
    ));
    let garbage = base64::encode_config(b"not a png", base64::STANDARD).into_bytes();
    assert!(matches!(
        esign::sig::field_overlay_ops(&mut sink, &sig_field, &garbage, &mb, b"F1", b"X7"),
        Err(Error::UnsupportedImage)
    ));
    assert!(sink.is_empty());
}
