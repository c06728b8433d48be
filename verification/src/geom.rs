//! Field geometry: the exact coordinate transform between normalised
//! template rectangles (top/left/width/height as fractions of the page,
//! top-left origin) and PDF user space (bottom-left origin, anchored at the
//! rectangle's lower-left corner).
//!
//! All arithmetic is exact: values are rationals written as `(numerator,
//! denominator)` pairs, and coordinates are carried in millionths. The
//! round-trip laws `lemma_norm_round_trip` and `lemma_pdf_round_trip`
//! state that the two directions of the transform invert each other
//! exactly, for every rectangle and every media box of nonzero extent.

use vstd::prelude::*;

verus! {

/// Rational addition on `(numerator, denominator)` pairs.
pub open spec fn radd(a: (int, int), b: (int, int)) -> (int, int) {
    (a.0 * b.1 + b.0 * a.1, a.1 * b.1)
}

/// Rational subtraction.
pub open spec fn rsub(a: (int, int), b: (int, int)) -> (int, int) {
    (a.0 * b.1 - b.0 * a.1, a.1 * b.1)
}

/// Rational multiplication.
pub open spec fn rmul(a: (int, int), b: (int, int)) -> (int, int) {
    (a.0 * b.0, a.1 * b.1)
}

/// Rational division.
pub open spec fn rdiv(a: (int, int), b: (int, int)) -> (int, int) {
    (a.0 * b.1, a.1 * b.0)
}

/// Rational equality by cross-multiplication.
pub open spec fn req(a: (int, int), b: (int, int)) -> bool {
    a.0 * b.1 == b.0 * a.1
}

/// A usable rational: nonzero denominator.
pub open spec fn dok(a: (int, int)) -> bool {
    a.1 != 0
}

/// A normalised field rectangle: fractions of the page, top-left origin.
pub struct RatRect {
    pub top: (int, int),
    pub left: (int, int),
    pub width: (int, int),
    pub height: (int, int),
}

/// A media box after min/max normalisation.
pub struct RatBox {
    pub llx: (int, int),
    pub lly: (int, int),
    pub urx: (int, int),
    pub ury: (int, int),
}

/// A rectangle in PDF user space: lower-left corner and extent.
pub struct RatPdfRect {
    pub x: (int, int),
    pub y: (int, int),
    pub w: (int, int),
    pub h: (int, int),
}

pub open spec fn box_w(mb: RatBox) -> (int, int) {
    rsub(mb.urx, mb.llx)
}

pub open spec fn box_h(mb: RatBox) -> (int, int) {
    rsub(mb.ury, mb.lly)
}

/// `x = llx + left·W`, `y = lly + (ury − top·H) − h`, `w = width·W`,
/// `h = height·H`.
pub open spec fn spec_to_pdf(r: RatRect, mb: RatBox) -> RatPdfRect {
    RatPdfRect {
        x: radd(mb.llx, rmul(r.left, box_w(mb))),
        y: rsub(radd(mb.lly, rsub(mb.ury, rmul(r.top, box_h(mb)))), rmul(r.height, box_h(mb))),
        w: rmul(r.width, box_w(mb)),
        h: rmul(r.height, box_h(mb)),
    }
}

/// The inverse transform: `left = (x − llx)/W`,
/// `top = ((lly + ury) − (y + h))/H`.
pub open spec fn spec_to_norm(p: RatPdfRect, mb: RatBox) -> RatRect {
    RatRect {
        top: rdiv(rsub(radd(mb.lly, mb.ury), radd(p.y, p.h)), box_h(mb)),
        left: rdiv(rsub(p.x, mb.llx), box_w(mb)),
        width: rdiv(p.w, box_w(mb)),
        height: rdiv(p.h, box_h(mb)),
    }
}

/// The media box is usable: denominators nonzero and nonzero extent.
pub open spec fn box_ok(mb: RatBox) -> bool {
    &&& dok(mb.llx)
    &&& dok(mb.lly)
    &&& dok(mb.urx)
    &&& dok(mb.ury)
    &&& box_w(mb).0 != 0
    &&& box_h(mb).0 != 0
}

pub open spec fn rect_ok(r: RatRect) -> bool {
    dok(r.top) && dok(r.left) && dok(r.width) && dok(r.height)
}

pub open spec fn prect_ok(p: RatPdfRect) -> bool {
    dok(p.x) && dok(p.y) && dok(p.w) && dok(p.h)
}

proof fn lemma_nz(x: int, y: int)
    requires
        x != 0,
        y != 0,
    ensures
        x * y != 0,
{
    assert(x * y != 0) by (nonlinear_arith)
        requires
            x != 0,
            y != 0,
    ;
}

proof fn lemma_req_trans(a: (int, int), b: (int, int), c: (int, int))
    requires
        req(a, b),
        req(b, c),
        b.1 != 0,
    ensures
        req(a, c),
{
    assert(a.0 * c.1 == c.0 * a.1) by (nonlinear_arith)
        requires
            a.0 * b.1 == b.0 * a.1,
            b.0 * c.1 == c.0 * b.1,
            b.1 != 0,
    ;
}

/// `(a + m) − a ≡ m`
proof fn lemma_add_sub_cancel(a: (int, int), m: (int, int))
    ensures
        req(rsub(radd(a, m), a), m),
{
    assert(((a.0 * m.1 + m.0 * a.1) * a.1 - a.0 * (a.1 * m.1)) * m.1 == m.0 * ((a.1 * m.1) * a.1))
        by (nonlinear_arith);
}

/// `(a + m) − m ≡ a`
proof fn lemma_add_then_sub(a: (int, int), m: (int, int))
    ensures
        req(rsub(radd(a, m), m), a),
{
    assert(((a.0 * m.1 + m.0 * a.1) * m.1 - m.0 * (a.1 * m.1)) * a.1 == a.0 * ((a.1 * m.1) * m.1))
        by (nonlinear_arith);
}

/// `(a · c)/c ≡ a`
proof fn lemma_mul_div_cancel(a: (int, int), c: (int, int))
    ensures
        req(rdiv(rmul(a, c), c), a),
{
    assert(((a.0 * c.0) * c.1) * a.1 == a.0 * ((a.1 * c.1) * c.0)) by (nonlinear_arith);
}

/// `(u/c) · c ≡ u`
proof fn lemma_div_mul_cancel(u: (int, int), c: (int, int))
    ensures
        req(rmul(rdiv(u, c), c), u),
{
    assert(((u.0 * c.1) * c.0) * u.1 == u.0 * ((u.1 * c.0) * c.1)) by (nonlinear_arith);
}

/// `a + (u − a) ≡ u`
proof fn lemma_add_sub_restore(a: (int, int), u: (int, int))
    ensures
        req(radd(a, rsub(u, a)), u),
{
    assert((a.0 * (u.1 * a.1) + (u.0 * a.1 - a.0 * u.1) * a.1) * u.1 == u.0 * (a.1 * (u.1 * a.1)))
        by (nonlinear_arith);
}

/// `b − ((a + b) − c) ≡ c − a`
proof fn lemma_sub_sub(a: (int, int), b: (int, int), c: (int, int))
    ensures
        req(rsub(b, rsub(radd(a, b), c)), rsub(c, a)),
{
    assert(((a.0 * b.1 + b.0 * a.1) * c.1 - c.0 * (a.1 * b.1)) * b.1 == a.0 * b.1 * c.1 * b.1 + b.0
        * a.1 * c.1 * b.1 - c.0 * (a.1 * b.1) * b.1) by (nonlinear_arith);
    assert(b.0 * ((a.1 * b.1) * c.1) == b.0 * a.1 * c.1 * b.1) by (nonlinear_arith);
    assert((b.0 * ((a.1 * b.1) * c.1) - ((a.0 * b.1 + b.0 * a.1) * c.1 - c.0 * (a.1 * b.1)) * b.1)
        * (c.1 * a.1) == (c.0 * (a.1 * b.1) * b.1 - a.0 * b.1 * c.1 * b.1) * (c.1 * a.1))
        by (nonlinear_arith)
        requires
            b.0 * ((a.1 * b.1) * c.1) - ((a.0 * b.1 + b.0 * a.1) * c.1 - c.0 * (a.1 * b.1)) * b.1
                == c.0 * (a.1 * b.1) * b.1 - a.0 * b.1 * c.1 * b.1,
    ;
    assert((c.0 * (a.1 * b.1) * b.1 - a.0 * b.1 * c.1 * b.1) * (c.1 * a.1) == c.0 * (a.1 * b.1)
        * b.1 * (c.1 * a.1) - a.0 * b.1 * c.1 * b.1 * (c.1 * a.1)) by (nonlinear_arith);
    assert((c.0 * a.1 - a.0 * c.1) * (b.1 * ((a.1 * b.1) * c.1)) == c.0 * a.1 * (b.1 * ((a.1 * b.1)
        * c.1)) - a.0 * c.1 * (b.1 * ((a.1 * b.1) * c.1))) by (nonlinear_arith);
    assert(c.0 * (a.1 * b.1) * b.1 * (c.1 * a.1) == c.0 * a.1 * (b.1 * ((a.1 * b.1) * c.1)))
        by (nonlinear_arith);
    assert(a.0 * b.1 * c.1 * b.1 * (c.1 * a.1) == a.0 * c.1 * (b.1 * ((a.1 * b.1) * c.1)))
        by (nonlinear_arith);
}

proof fn lemma_rdiv_cong(u: (int, int), v: (int, int), c: (int, int))
    requires
        req(u, v),
    ensures
        req(rdiv(u, c), rdiv(v, c)),
{
    assert((u.0 * c.1) * (v.1 * c.0) == (v.0 * c.1) * (u.1 * c.0)) by (nonlinear_arith)
        requires
            u.0 * v.1 == v.0 * u.1,
    ;
}

proof fn lemma_radd_cong(c: (int, int), u: (int, int), v: (int, int))
    requires
        req(u, v),
    ensures
        req(radd(c, u), radd(c, v)),
{
    assert((c.0 * u.1 + u.0 * c.1) * (c.1 * v.1) == c.0 * u.1 * (c.1 * v.1) + u.0 * c.1 * (c.1
        * v.1)) by (nonlinear_arith);
    assert((c.0 * v.1 + v.0 * c.1) * (c.1 * u.1) == c.0 * v.1 * (c.1 * u.1) + v.0 * c.1 * (c.1
        * u.1)) by (nonlinear_arith);
    assert(c.0 * u.1 * (c.1 * v.1) == c.0 * v.1 * (c.1 * u.1)) by (nonlinear_arith);
    assert(u.0 * c.1 * (c.1 * v.1) == (u.0 * v.1) * (c.1 * c.1)) by (nonlinear_arith);
    assert(v.0 * c.1 * (c.1 * u.1) == (v.0 * u.1) * (c.1 * c.1)) by (nonlinear_arith);
}

proof fn lemma_rsub_cong_l(c: (int, int), u: (int, int), v: (int, int))
    requires
        req(u, v),
    ensures
        req(rsub(c, u), rsub(c, v)),
{
    assert((c.0 * u.1 - u.0 * c.1) * (c.1 * v.1) == c.0 * u.1 * (c.1 * v.1) - u.0 * c.1 * (c.1
        * v.1)) by (nonlinear_arith);
    assert((c.0 * v.1 - v.0 * c.1) * (c.1 * u.1) == c.0 * v.1 * (c.1 * u.1) - v.0 * c.1 * (c.1
        * u.1)) by (nonlinear_arith);
    assert(c.0 * u.1 * (c.1 * v.1) == c.0 * v.1 * (c.1 * u.1)) by (nonlinear_arith);
    assert(u.0 * c.1 * (c.1 * v.1) == (u.0 * v.1) * (c.1 * c.1)) by (nonlinear_arith);
    assert(v.0 * c.1 * (c.1 * u.1) == (v.0 * u.1) * (c.1 * c.1)) by (nonlinear_arith);
}

proof fn lemma_rsub_cong_r(u: (int, int), v: (int, int), c: (int, int))
    requires
        req(u, v),
    ensures
        req(rsub(u, c), rsub(v, c)),
{
    assert((u.0 * c.1 - c.0 * u.1) * (v.1 * c.1) == u.0 * c.1 * (v.1 * c.1) - c.0 * u.1 * (v.1
        * c.1)) by (nonlinear_arith);
    assert((v.0 * c.1 - c.0 * v.1) * (u.1 * c.1) == v.0 * c.1 * (u.1 * c.1) - c.0 * v.1 * (u.1
        * c.1)) by (nonlinear_arith);
    assert(u.0 * c.1 * (v.1 * c.1) == (u.0 * v.1) * (c.1 * c.1)) by (nonlinear_arith);
    assert(v.0 * c.1 * (u.1 * c.1) == (v.0 * u.1) * (c.1 * c.1)) by (nonlinear_arith);
    assert(c.0 * u.1 * (v.1 * c.1) == c.0 * v.1 * (u.1 * c.1)) by (nonlinear_arith);
}

/// Mapping a normalised rectangle into PDF space and back returns the same
/// rectangle, exactly, for every rectangle and every media box with
/// nonzero width and height.
pub proof fn lemma_norm_round_trip(r: RatRect, mb: RatBox)
    requires
        rect_ok(r),
        box_ok(mb),
    ensures
        req(spec_to_norm(spec_to_pdf(r, mb), mb).top, r.top),
        req(spec_to_norm(spec_to_pdf(r, mb), mb).left, r.left),
        req(spec_to_norm(spec_to_pdf(r, mb), mb).width, r.width),
        req(spec_to_norm(spec_to_pdf(r, mb), mb).height, r.height),
{
    let wb = box_w(mb);
    let hb = box_h(mb);
    let p = spec_to_pdf(r, mb);
    lemma_nz(mb.urx.1, mb.llx.1);
    lemma_nz(mb.ury.1, mb.lly.1);
    assert(wb.1 == mb.urx.1 * mb.llx.1 && hb.1 == mb.ury.1 * mb.lly.1);

    // width and height: (w·W)/W ≡ w
    lemma_mul_div_cancel(r.width, wb);
    lemma_mul_div_cancel(r.height, hb);

    // left: ((llx + l·W) − llx)/W ≡ (l·W)/W ≡ l
    let m = rmul(r.left, wb);
    lemma_nz(r.left.1, wb.1);
    lemma_add_sub_cancel(mb.llx, m);
    lemma_rdiv_cong(rsub(radd(mb.llx, m), mb.llx), m, wb);
    lemma_mul_div_cancel(r.left, wb);
    lemma_nz(m.1, wb.0);
    assert(rdiv(m, wb).1 == m.1 * wb.0);
    lemma_req_trans(rdiv(rsub(radd(mb.llx, m), mb.llx), wb), rdiv(m, wb), r.left);

    // top: ((lly + ury) − (y + h))/H ≡ (t·H)/H ≡ t
    let th = rmul(r.top, hb);
    let ph = rmul(r.height, hb);
    let yy = rsub(radd(mb.lly, rsub(mb.ury, th)), ph);
    lemma_nz(r.top.1, hb.1);
    lemma_nz(r.height.1, hb.1);
    lemma_nz(mb.ury.1, th.1);
    lemma_nz(mb.lly.1, mb.ury.1 * th.1);
    // y + h ≡ lly + (ury − t·H)
    let a1 = radd(mb.lly, rsub(mb.ury, th));
    assert(a1.1 == mb.lly.1 * (mb.ury.1 * th.1));
    lemma_add_sub_cancel_rev(a1, ph);
    // (lly + ury) − (y + h) ≡ (lly + ury) − (lly + (ury − t·H)) ≡ t·H
    lemma_rsub_cong_l(radd(mb.lly, mb.ury), radd(yy, ph), a1);
    lemma_sum_diff(mb.lly, mb.ury, th);
    lemma_nz(mb.lly.1, mb.ury.1);
    lemma_nz(a1.1, ph.1);
    assert(rsub(radd(mb.lly, mb.ury), a1).1 == (mb.lly.1 * mb.ury.1) * a1.1);
    lemma_nz(mb.lly.1 * mb.ury.1, a1.1);
    lemma_req_trans(
        rsub(radd(mb.lly, mb.ury), radd(yy, ph)),
        rsub(radd(mb.lly, mb.ury), a1),
        th,
    );
    lemma_rdiv_cong(rsub(radd(mb.lly, mb.ury), radd(yy, ph)), th, hb);
    lemma_mul_div_cancel(r.top, hb);
    lemma_nz(th.1, hb.0);
    lemma_req_trans(rdiv(rsub(radd(mb.lly, mb.ury), radd(yy, ph)), hb), rdiv(th, hb), r.top);
}

/// `((a − m) + m) ≡ a`
proof fn lemma_add_sub_cancel_rev(a: (int, int), m: (int, int))
    ensures
        req(radd(rsub(a, m), m), a),
{
    assert(((a.0 * m.1 - m.0 * a.1) * m.1 + m.0 * (a.1 * m.1)) * a.1 == a.0 * ((a.1 * m.1) * m.1))
        by (nonlinear_arith);
}

/// `(a + b) − (a + (b − m)) ≡ m`
proof fn lemma_sum_diff(a: (int, int), b: (int, int), m: (int, int))
    ensures
        req(rsub(radd(a, b), radd(a, rsub(b, m))), m),
{
    assert((a.0 * b.1 + b.0 * a.1) * (a.1 * (b.1 * m.1)) == a.0 * b.1 * (a.1 * (b.1 * m.1)) + b.0
        * a.1 * (a.1 * (b.1 * m.1))) by (nonlinear_arith);
    assert((a.0 * (b.1 * m.1) + (b.0 * m.1 - m.0 * b.1) * a.1) * (a.1 * b.1) == a.0 * (b.1 * m.1)
        * (a.1 * b.1) + b.0 * m.1 * a.1 * (a.1 * b.1) - m.0 * b.1 * a.1 * (a.1 * b.1))
        by (nonlinear_arith);
    assert(a.0 * b.1 * (a.1 * (b.1 * m.1)) == a.0 * (b.1 * m.1) * (a.1 * b.1)) by (nonlinear_arith);
    assert(b.0 * a.1 * (a.1 * (b.1 * m.1)) == b.0 * m.1 * a.1 * (a.1 * b.1)) by (nonlinear_arith);
    assert(((a.0 * b.1 + b.0 * a.1) * (a.1 * (b.1 * m.1)) - (a.0 * (b.1 * m.1) + (b.0 * m.1 - m.0
        * b.1) * a.1) * (a.1 * b.1)) * m.1 == (m.0 * b.1 * a.1 * (a.1 * b.1)) * m.1)
        by (nonlinear_arith)
        requires
            (a.0 * b.1 + b.0 * a.1) * (a.1 * (b.1 * m.1)) - (a.0 * (b.1 * m.1) + (b.0 * m.1 - m.0
                * b.1) * a.1) * (a.1 * b.1) == m.0 * b.1 * a.1 * (a.1 * b.1),
    ;
    assert((m.0 * b.1 * a.1 * (a.1 * b.1)) * m.1 == m.0 * ((a.1 * b.1) * (a.1 * (b.1 * m.1))))
        by (nonlinear_arith);
}

/// Mapping a PDF-space rectangle to its normalised form and back returns
/// the same rectangle, exactly.
pub proof fn lemma_pdf_round_trip(p: RatPdfRect, mb: RatBox)
    requires
        prect_ok(p),
        box_ok(mb),
    ensures
        req(spec_to_pdf(spec_to_norm(p, mb), mb).x, p.x),
        req(spec_to_pdf(spec_to_norm(p, mb), mb).y, p.y),
        req(spec_to_pdf(spec_to_norm(p, mb), mb).w, p.w),
        req(spec_to_pdf(spec_to_norm(p, mb), mb).h, p.h),
{
    let wb = box_w(mb);
    let hb = box_h(mb);
    let n = spec_to_norm(p, mb);
    lemma_nz(mb.urx.1, mb.llx.1);
    lemma_nz(mb.ury.1, mb.lly.1);
    assert(wb.1 == mb.urx.1 * mb.llx.1 && hb.1 == mb.ury.1 * mb.lly.1);

    // w and h: (w/W)·W ≡ w
    lemma_div_mul_cancel(p.w, wb);
    lemma_div_mul_cancel(p.h, hb);

    // x: llx + ((x − llx)/W)·W ≡ llx + (x − llx) ≡ x
    lemma_div_mul_cancel(rsub(p.x, mb.llx), wb);
    lemma_radd_cong(mb.llx, rmul(n.left, wb), rsub(p.x, mb.llx));
    lemma_add_sub_restore(mb.llx, p.x);
    lemma_nz(p.x.1, mb.llx.1);
    lemma_nz(p.x.1 * mb.llx.1, mb.llx.1);
    lemma_nz(mb.llx.1, p.x.1 * mb.llx.1);
    lemma_req_trans(radd(mb.llx, rmul(n.left, wb)), radd(mb.llx, rsub(p.x, mb.llx)), p.x);

    // y: lly + (ury − (t'·H)) − h'  with  t'·H ≡ (lly + ury) − (y + h)
    // and h' ≡ h, which collapses to y.
    let s = rsub(radd(mb.lly, mb.ury), radd(p.y, p.h));
    lemma_nz(p.y.1, p.h.1);
    lemma_nz(mb.lly.1, mb.ury.1);
    lemma_nz(mb.lly.1 * mb.ury.1, p.y.1 * p.h.1);
    assert(s.1 == (mb.lly.1 * mb.ury.1) * (p.y.1 * p.h.1));
    lemma_div_mul_cancel(s, hb);
    // ury − t'·H ≡ ury − s ≡ (y + h) − lly
    lemma_rsub_cong_l(mb.ury, rmul(n.top, hb), s);
    lemma_sub_sub(mb.lly, mb.ury, radd(p.y, p.h));
    lemma_nz(mb.ury.1, s.1);
    lemma_req_trans(
        rsub(mb.ury, rmul(n.top, hb)),
        rsub(mb.ury, s),
        rsub(radd(p.y, p.h), mb.lly),
    );
    // lly + (ury − t'·H) ≡ lly + ((y + h) − lly) ≡ y + h
    lemma_radd_cong(mb.lly, rsub(mb.ury, rmul(n.top, hb)), rsub(radd(p.y, p.h), mb.lly));
    lemma_add_sub_restore(mb.lly, radd(p.y, p.h));
    lemma_nz(radd(p.y, p.h).1, mb.lly.1);
    lemma_nz(mb.lly.1, radd(p.y, p.h).1 * mb.lly.1);
    lemma_req_trans(
        radd(mb.lly, rsub(mb.ury, rmul(n.top, hb))),
        radd(mb.lly, rsub(radd(p.y, p.h), mb.lly)),
        radd(p.y, p.h),
    );
    // subtract h' ≡ h:  (y + h) − h ≡ y
    lemma_rsub_cong_r(
        radd(mb.lly, rsub(mb.ury, rmul(n.top, hb))),
        radd(p.y, p.h),
        rmul(n.height, hb),
    );
    lemma_rsub_cong_l(radd(p.y, p.h), rmul(n.height, hb), p.h);
    lemma_add_then_sub(p.y, p.h);
    lemma_nz(p.h.1, hb.0);
    lemma_nz(p.h.1 * hb.0, hb.1);
    assert(rmul(n.height, hb).1 == (p.h.1 * hb.0) * hb.1);
    lemma_nz(radd(p.y, p.h).1, rmul(n.height, hb).1);
    lemma_nz(radd(p.y, p.h).1, p.h.1);
    lemma_req_trans(
        rsub(radd(mb.lly, rsub(mb.ury, rmul(n.top, hb))), rmul(n.height, hb)),
        rsub(radd(p.y, p.h), rmul(n.height, hb)),
        rsub(radd(p.y, p.h), p.h),
    );
    lemma_req_trans(
        rsub(radd(mb.lly, rsub(mb.ury, rmul(n.top, hb))), rmul(n.height, hb)),
        rsub(radd(p.y, p.h), p.h),
        p.y,
    );
}

/// A normalised field rectangle in millionths of the page's extent.
pub struct NormRect {
    pub top: i64,
    pub left: i64,
    pub width: i64,
    pub height: i64,
}

/// A media box in micropoints, already normalised so `llx <= urx` and
/// `lly <= ury`.
pub struct MediaBox {
    pub llx: i64,
    pub lly: i64,
    pub urx: i64,
    pub ury: i64,
}

/// A PDF-space rectangle in points scaled by 10^12 (micropoints carrying
/// six further exact fraction digits).
pub struct PdfPos {
    pub x: i64,
    pub y: i64,
    pub w: i64,
    pub h: i64,
}

/// The rectangle's millionths lie in `[0, 1_000_000]`.
pub open spec fn norm_rect_wf(r: NormRect) -> bool {
    &&& 0 <= r.top <= 1_000_000
    &&& 0 <= r.left <= 1_000_000
    &&& 0 <= r.width <= 1_000_000
    &&& 0 <= r.height <= 1_000_000
}

/// Micropoint coordinates up to a million points in magnitude, in order.
pub open spec fn media_box_wf(mb: MediaBox) -> bool {
    &&& -1_000_000_000_000 <= mb.llx <= mb.urx <= 1_000_000_000_000
    &&& -1_000_000_000_000 <= mb.lly <= mb.ury <= 1_000_000_000_000
}

pub open spec fn rat_rect_of(r: NormRect) -> RatRect {
    RatRect {
        top: (r.top as int, 1_000_000),
        left: (r.left as int, 1_000_000),
        width: (r.width as int, 1_000_000),
        height: (r.height as int, 1_000_000),
    }
}

pub open spec fn rat_box_of(mb: MediaBox) -> RatBox {
    RatBox {
        llx: (mb.llx as int, 1_000_000),
        lly: (mb.lly as int, 1_000_000),
        urx: (mb.urx as int, 1_000_000),
        ury: (mb.ury as int, 1_000_000),
    }
}

/// The transform's output as a value: the same formulas over
/// millionth-scaled integers (all in range under the well-formedness
/// bounds).
pub open spec fn spec_pos(r: NormRect, mb: MediaBox) -> PdfPos {
    PdfPos {
        x: (mb.llx * 1_000_000 + r.left * (mb.urx - mb.llx)) as i64,
        y: ((mb.lly + mb.ury) * 1_000_000 - r.top * (mb.ury - mb.lly) - r.height * (mb.ury
            - mb.lly)) as i64,
        w: (r.width * (mb.urx - mb.llx)) as i64,
        h: (r.height * (mb.ury - mb.lly)) as i64,
    }
}

/// The exact transform on millionth-scaled values. Each output component
/// is the exact rational of `spec_to_pdf`, carried over the fixed
/// denominator 10^12.
pub fn to_pdf_space(r: &NormRect, mb: &MediaBox) -> (p: PdfPos)
    requires
        norm_rect_wf(*r),
        media_box_wf(*mb),
    ensures
        p.x == mb.llx * 1_000_000 + r.left * (mb.urx - mb.llx),
        p.y == (mb.lly + mb.ury) * 1_000_000 - r.top * (mb.ury - mb.lly) - r.height * (mb.ury
            - mb.lly),
        p.w == r.width * (mb.urx - mb.llx),
        p.h == r.height * (mb.ury - mb.lly),
        p == spec_pos(*r, *mb),
{
    let dw: i64 = mb.urx - mb.llx;
    let dh: i64 = mb.ury - mb.lly;
    proof {
        lemma_scaled_bounds(r.left as int, dw as int);
        lemma_scaled_bounds(r.top as int, dh as int);
        lemma_scaled_bounds(r.width as int, dw as int);
        lemma_scaled_bounds(r.height as int, dh as int);
    }
    let x: i64 = mb.llx * 1_000_000 + r.left * dw;
    let y: i64 = (mb.lly + mb.ury) * 1_000_000 - r.top * dh - r.height * dh;
    let w: i64 = r.width * dw;
    let h: i64 = r.height * dh;
    let p = PdfPos { x, y, w, h };
    proof {
        assert(p == spec_pos(*r, *mb));
    }
    p
}

proof fn lemma_scaled_bounds(f: int, d: int)
    requires
        0 <= f <= 1_000_000,
        -2_000_000_000_000 <= d <= 2_000_000_000_000,
    ensures
        -2_000_000_000_000_000_000 <= f * d <= 2_000_000_000_000_000_000,
{
    assert(-2_000_000_000_000_000_000 <= f * d <= 2_000_000_000_000_000_000) by (nonlinear_arith)
        requires
            0 <= f <= 1_000_000,
            -2_000_000_000_000 <= d <= 2_000_000_000_000,
    ;
}

/// Truncating division toward zero by one million: the quantisation from
/// the transform's 10^-12 scale to the writer's 10^-6 scale.
pub open spec fn spec_quant(v: int) -> int {
    if v >= 0 {
        v / 1_000_000
    } else {
        -((-v) / 1_000_000)
    }
}

/// Quantises a transform output to micro-units for the content stream.
pub fn quant_micro(v: i64) -> (r: i64)
    ensures
        r == spec_quant(v as int),
        -9_223_372_036_855 <= r <= 9_223_372_036_855,
{
    if v >= 0 {
        let q: u64 = (v as u64) / 1_000_000;
        q as i64
    } else {
        let m: u64 = (-(v as i128)) as u64;
        let q: u64 = m / 1_000_000;
        proof {
            assert(q <= m);
        }
        -(q as i64)
    }
}

} // verus!
