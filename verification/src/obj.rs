//! The library's PDF object model and its byte-exact serialiser.
//!
//! A document under edit is a map from object ids to `PdfObj` values with
//! explicit `Ref` nodes, never a cyclic pointer graph. The serialiser is
//! proved to emit exactly the byte string given by `ser_obj`, the
//! specification of the concrete PDF syntax this library writes.

use vstd::prelude::*;
use crate::num::{
    spec_dec, spec_dec_i64, spec_dec_pad, spec_hex, push_dec_u64, push_dec_i64, push_dec_pad,
    push_hex, pow10,
};

verus! {

/// How a PDF string object is written: as a literal `(...)` or hex `<...>`.
#[derive(Clone, Copy, PartialEq, Eq, Structural, Debug)]
pub enum StrFmt {
    Literal,
    Hex,
}

/// An object id: object number and generation number.
pub type ObjId = (u32, u16);

/// A PDF object. `Real` carries a value in millionths, written with six
/// decimal places; the library never manipulates floating point.
pub enum PdfObj {
    Null,
    Bool(bool),
    Int(i64),
    Real(i64),
    Name(Vec<u8>),
    Text(Vec<u8>, StrFmt),
    Array(Vec<PdfObj>),
    Dict(Vec<(Vec<u8>, PdfObj)>),
    Stream(Vec<(Vec<u8>, PdfObj)>, Vec<u8>),
    Ref(u32, u16),
}

/// Literal-string escaping: `(`, `)` and `\` get a backslash.
pub open spec fn spec_esc(s: Seq<u8>) -> Seq<u8>
    decreases s.len(),
{
    if s.len() == 0 {
        Seq::empty()
    } else {
        spec_esc(s.drop_last()) + (if s.last() == 40 || s.last() == 41 || s.last() == 92 {
            seq![92u8, s.last()]
        } else {
            seq![s.last()]
        })
    }
}

/// A `Real` in millionths, written as `-?digits.dddddd`.
pub open spec fn spec_real(m: int) -> Seq<u8> {
    if m < 0 {
        seq![45u8] + spec_real_mag((-m) as nat)
    } else {
        spec_real_mag(m as nat)
    }
}

pub open spec fn spec_real_mag(a: nat) -> Seq<u8> {
    spec_dec(a / 1000000) + seq![46u8] + spec_dec_pad(a % 1000000, 6)
}

/// The byte string this library writes for an object.
pub open spec fn ser_obj(o: PdfObj) -> Seq<u8>
    decreases o, 1int,
{
    match o {
        PdfObj::Null => seq![110u8, 117u8, 108u8, 108u8],  // null
        PdfObj::Bool(b) => if b {
            seq![116u8, 114u8, 117u8, 101u8]  // true
        } else {
            seq![102u8, 97u8, 108u8, 115u8, 101u8]  // false
        },
        PdfObj::Int(i) => spec_dec_i64(i as int),
        PdfObj::Real(m) => spec_real(m as int),
        PdfObj::Name(n) => seq![47u8] + n@,
        PdfObj::Text(s, f) => if f == StrFmt::Literal {
            seq![40u8] + spec_esc(s@) + seq![41u8]
        } else {
            seq![60u8] + spec_hex(s@) + seq![62u8]
        },
        PdfObj::Array(v) => seq![91u8] + ser_arr(v@) + seq![93u8],
        PdfObj::Dict(es) => seq![60u8, 60u8] + ser_entries(es@) + seq![62u8, 62u8],
        PdfObj::Stream(es, data) => seq![60u8, 60u8] + ser_entries(es@) + seq![62u8, 62u8]
            + spec_stream_kw() + data@ + spec_endstream_kw(),
        PdfObj::Ref(n, g) => spec_dec(n as nat) + seq![32u8] + spec_dec(g as nat) + seq![
            32u8,
            82u8,
        ],
    }
}

/// Array elements, each followed by one space.
pub open spec fn ser_arr(s: Seq<PdfObj>) -> Seq<u8>
    decreases s, 0int,
{
    if s.len() == 0 {
        Seq::empty()
    } else {
        ser_arr(s.subrange(0, s.len() - 1)) + ser_obj(s[s.len() - 1]) + seq![32u8]
    }
}

/// Dictionary entries: `/Key value ` in order, duplicates never written.
pub open spec fn ser_entries(s: Seq<(Vec<u8>, PdfObj)>) -> Seq<u8>
    decreases s, 0int,
{
    if s.len() == 0 {
        Seq::empty()
    } else {
        ser_entries(s.subrange(0, s.len() - 1)) + ser_entry(s[s.len() - 1])
    }
}

pub open spec fn ser_entry(e: (Vec<u8>, PdfObj)) -> Seq<u8>
    decreases e, 1int,
{
    seq![47u8] + e.0@ + seq![32u8] + ser_obj(e.1) + seq![32u8]
}

/// `stream\n`
pub open spec fn spec_stream_kw() -> Seq<u8> {
    seq![115u8, 116u8, 114u8, 101u8, 97u8, 109u8, 10u8]
}

/// `\nendstream`
pub open spec fn spec_endstream_kw() -> Seq<u8> {
    seq![10u8, 101u8, 110u8, 100u8, 115u8, 116u8, 114u8, 101u8, 97u8, 109u8]
}

/// Appends a slice to the output byte string.
pub fn push_slice(out: &mut Vec<u8>, s: &[u8])
    ensures
        final(out)@ == old(out)@ + s@,
{
    out.extend_from_slice(s);
}

pub fn push_esc(out: &mut Vec<u8>, s: &[u8])
    ensures
        final(out)@ == old(out)@ + spec_esc(s@),
{
    let mut i: usize = 0;
    proof {
        assert(out@ =~= old(out)@ + spec_esc(s@.subrange(0, 0)));
    }
    while i < s.len()
        invariant
            0 <= i <= s@.len(),
            out@ == old(out)@ + spec_esc(s@.subrange(0, i as int)),
        decreases s@.len() - i,
    {
        let b = s[i];
        if b == 40 || b == 41 || b == 92 {
            out.push(92);
        }
        out.push(b);
        i = i + 1;
        proof {
            let cur = s@.subrange(0, i as int);
            assert(cur.drop_last() =~= s@.subrange(0, i - 1));
            assert(cur.last() == s@[i - 1]);
            assert(out@ =~= old(out)@ + spec_esc(cur));
        }
    }
    proof {
        assert(s@.subrange(0, s@.len() as int) =~= s@);
    }
}

fn push_real(out: &mut Vec<u8>, m: i64)
    ensures
        final(out)@ == old(out)@ + spec_real(m as int),
{
    let mag: u64 = if m < 0 {
        out.push(45);
        (-(m as i128)) as u64
    } else {
        m as u64
    };
    push_dec_u64(out, mag / 1000000);
    out.push(46);
    proof {
        reveal_with_fuel(pow10, 7);
    }
    push_dec_pad(out, mag % 1000000, 6);
    proof {
        if m < 0 {
            assert(out@ =~= old(out)@ + (seq![45u8] + spec_real_mag((-(m as int)) as nat)));
        } else {
            assert(out@ =~= old(out)@ + spec_real_mag(m as nat));
        }
    }
}

/// Writes `o` to `out` exactly as `ser_obj` specifies.
#[verifier::rlimit(50)]
pub fn write_obj(out: &mut Vec<u8>, o: &PdfObj)
    ensures
        final(out)@ == old(out)@ + ser_obj(*o),
    decreases *o,
{
    match o {
        PdfObj::Null => {
            let kw: [u8; 4] = [110, 117, 108, 108];
            push_slice(out, kw.as_slice());
            proof {
                assert(kw@ =~= seq![110u8, 117u8, 108u8, 108u8]);
            }
        },
        PdfObj::Bool(b) => {
            if *b {
                let kw: [u8; 4] = [116, 114, 117, 101];
                push_slice(out, kw.as_slice());
                proof {
                    assert(kw@ =~= seq![116u8, 114u8, 117u8, 101u8]);
                }
            } else {
                let kw: [u8; 5] = [102, 97, 108, 115, 101];
                push_slice(out, kw.as_slice());
                proof {
                    assert(kw@ =~= seq![102u8, 97u8, 108u8, 115u8, 101u8]);
                }
            }
        },
        PdfObj::Int(i) => {
            push_dec_i64(out, *i);
        },
        PdfObj::Real(m) => {
            push_real(out, *m);
        },
        PdfObj::Name(n) => {
            out.push(47);
            push_slice(out, n.as_slice());
            proof {
                assert(out@ =~= old(out)@ + (seq![47u8] + n@));
            }
        },
        PdfObj::Text(s, f) => {
            if *f == StrFmt::Literal {
                out.push(40);
                push_esc(out, s.as_slice());
                out.push(41);
                proof {
                    assert(out@ =~= old(out)@ + (seq![40u8] + spec_esc(s@) + seq![41u8]));
                }
            } else {
                out.push(60);
                push_hex(out, s.as_slice());
                out.push(62);
                proof {
                    assert(out@ =~= old(out)@ + (seq![60u8] + spec_hex(s@) + seq![62u8]));
                }
            }
        },
        PdfObj::Array(v) => {
            out.push(91);
            let mut i: usize = 0;
            proof {
                assert(ser_arr(v@.subrange(0, 0)) =~= Seq::<u8>::empty());
                assert(out@ =~= old(out)@ + seq![91u8] + ser_arr(v@.subrange(0, 0)));
            }
            while i < v.len()
                invariant
                    *o is Array,
                    o->Array_0 == *v,
                    0 <= i <= v@.len(),
                    out@ == old(out)@ + seq![91u8] + ser_arr(v@.subrange(0, i as int)),
                decreases v@.len() - i,
        {
                proof {
                    assert(*o is Array && o->Array_0 == *v);
                    assert(decreases_to!(*o => o->Array_0));
                    vstd::std_specs::vec::axiom_vec_index_decreases::<PdfObj>(*v, i as int);
                    assert(decreases_to!(*o => v@[i as int]));
                }
                write_obj(out, &v[i]);
                out.push(32);
                i = i + 1;
                proof {
                    let cur = v@.subrange(0, i as int);
                    assert(cur.subrange(0, cur.len() - 1) =~= v@.subrange(0, i - 1));
                    assert(cur[cur.len() - 1] == v@[i - 1]);
                    assert(out@ =~= old(out)@ + seq![91u8] + ser_arr(cur));
                }
            }
            out.push(93);
            proof {
                assert(v@.subrange(0, v@.len() as int) =~= v@);
                assert(out@ =~= old(out)@ + (seq![91u8] + ser_arr(v@) + seq![93u8]));
            }
        },
        PdfObj::Dict(es) => {
            out.push(60);
            out.push(60);
            let mut i: usize = 0;
            proof {
                assert(ser_entries(es@.subrange(0, 0)) =~= Seq::<u8>::empty());
                assert(out@ =~= old(out)@ + seq![60u8, 60u8] + ser_entries(es@.subrange(0, 0)));
            }
            while i < es.len()
                invariant
                    *o is Dict,
                    o->Dict_0 == *es,
                    0 <= i <= es@.len(),
                    out@ == old(out)@ + seq![60u8, 60u8] + ser_entries(es@.subrange(0, i as int)),
                decreases es@.len() - i,
            {
                out.push(47);
                push_slice(out, es[i].0.as_slice());
                out.push(32);
                proof {
                    assert(*o is Dict && o->Dict_0 == *es);
                    assert(decreases_to!(*o => o->Dict_0));
                    vstd::std_specs::vec::axiom_vec_index_decreases::<(Vec<u8>, PdfObj)>(
                        *es,
                        i as int,
                    );
                    assert(decreases_to!(es@[i as int] => es@[i as int].1));
                    assert(decreases_to!(*o => es@[i as int].1));
                }
                write_obj(out, &es[i].1);
                out.push(32);
                i = i + 1;
                proof {
                    let cur = es@.subrange(0, i as int);
                    assert(cur.subrange(0, cur.len() - 1) =~= es@.subrange(0, i - 1));
                    assert(cur[cur.len() - 1] == es@[i - 1]);
                    assert(ser_entries(cur) == ser_entries(es@.subrange(0, i - 1)) + ser_entry(
                        es@[i - 1],
                    ));
                    assert(out@ =~= old(out)@ + seq![60u8, 60u8] + ser_entries(cur));
                }
            }
            out.push(62);
            out.push(62);
            proof {
                assert(es@.subrange(0, es@.len() as int) =~= es@);
                assert(out@ =~= old(out)@ + (seq![60u8, 60u8] + ser_entries(es@) + seq![
                    62u8,
                    62u8,
                ]));
            }
        },
        PdfObj::Stream(es, data) => {
            out.push(60);
            out.push(60);
            let mut i: usize = 0;
            proof {
                assert(ser_entries(es@.subrange(0, 0)) =~= Seq::<u8>::empty());
                assert(out@ =~= old(out)@ + seq![60u8, 60u8] + ser_entries(es@.subrange(0, 0)));
            }
            while i < es.len()
                invariant
                    *o is Stream,
                    o->Stream_0 == *es,
                    0 <= i <= es@.len(),
                    out@ == old(out)@ + seq![60u8, 60u8] + ser_entries(es@.subrange(0, i as int)),
                decreases es@.len() - i,
            {
                out.push(47);
                push_slice(out, es[i].0.as_slice());
                out.push(32);
                proof {
                    assert(*o is Stream && o->Stream_0 == *es);
                    assert(decreases_to!(*o => o->Stream_0));
                    vstd::std_specs::vec::axiom_vec_index_decreases::<(Vec<u8>, PdfObj)>(
                        *es,
                        i as int,
                    );
                    assert(decreases_to!(es@[i as int] => es@[i as int].1));
                    assert(decreases_to!(*o => es@[i as int].1));
                }
                write_obj(out, &es[i].1);
                out.push(32);
                i = i + 1;
                proof {
                    let cur = es@.subrange(0, i as int);
                    assert(cur.subrange(0, cur.len() - 1) =~= es@.subrange(0, i - 1));
                    assert(cur[cur.len() - 1] == es@[i - 1]);
                    assert(ser_entries(cur) == ser_entries(es@.subrange(0, i - 1)) + ser_entry(
                        es@[i - 1],
                    ));
                    assert(out@ =~= old(out)@ + seq![60u8, 60u8] + ser_entries(cur));
                }
            }
            out.push(62);
            out.push(62);
            proof {
                assert(es@.subrange(0, es@.len() as int) =~= es@);
            }
            let kw: [u8; 7] = [115, 116, 114, 101, 97, 109, 10];
            push_slice(out, kw.as_slice());
            push_slice(out, data.as_slice());
            let kw2: [u8; 10] = [10, 101, 110, 100, 115, 116, 114, 101, 97, 109];
            push_slice(out, kw2.as_slice());
            proof {
                assert(kw@ =~= spec_stream_kw());
                assert(kw2@ =~= spec_endstream_kw());
                assert(out@ =~= old(out)@ + (seq![60u8, 60u8] + ser_entries(es@) + seq![
                    62u8,
                    62u8,
                ] + spec_stream_kw() + data@ + spec_endstream_kw()));
            }
        },
        PdfObj::Ref(n, g) => {
            push_dec_u64(out, *n as u64);
            out.push(32);
            push_dec_u64(out, *g as u64);
            out.push(32);
            out.push(82);
            proof {
                assert(out@ =~= old(out)@ + (spec_dec(*n as nat) + seq![32u8] + spec_dec(
                    *g as nat,
                ) + seq![32u8, 82u8]));
            }
        },
    }
}

/// Serialises one object to a fresh byte string.
pub fn obj_bytes(o: &PdfObj) -> (r: Vec<u8>)
    ensures
        r@ == ser_obj(*o),
{
    let mut out: Vec<u8> = Vec::new();
    write_obj(&mut out, o);
    out
}

/// First value bound to `key`, searching entries front to back.
pub open spec fn spec_get(es: Seq<(Vec<u8>, PdfObj)>, key: Seq<u8>) -> Option<PdfObj>
    decreases es.len(),
{
    if es.len() == 0 {
        None
    } else if es[0].0@ == key {
        Some(es[0].1)
    } else {
        spec_get(es.subrange(1, es.len() as int), key)
    }
}

/// Whether two byte strings hold the same bytes. The scan is
/// constant-time in the contents for equal lengths: it accumulates the
/// differences instead of leaving at the first one, since callers compare
/// MAC tags and recipient keys with it.
pub fn bytes_eq(a: &[u8], b: &[u8]) -> (r: bool)
    ensures
        r == (a@ == b@),
{
    if a.len() != b.len() {
        proof {
            assert(a@.len() != b@.len());
        }
        return false;
    }
    let mut diff: u8 = 0;
    let mut i: usize = 0;
    while i < a.len()
        invariant
            a@.len() == b@.len(),
            0 <= i <= a@.len(),
            (diff == 0) <==> (forall|j: int| 0 <= j < i ==> a@[j] == b@[j]),
        decreases a@.len() - i,
    {
        let x = a[i];
        let y = b[i];
        let ghost pre = diff;
        diff = diff | (x ^ y);
        i = i + 1;
        proof {
            assert((pre | (x ^ y)) == 0 <==> pre == 0 && (x ^ y) == 0) by (bit_vector);
            assert((x ^ y) == 0 <==> x == y) by (bit_vector);
        }
    }
    if diff == 0 {
        proof {
            assert(a@ =~= b@);
        }
        true
    } else {
        false
    }
}

/// Looks `key` up in dictionary entries, front to back.
pub fn dict_get<'a>(es: &'a Vec<(Vec<u8>, PdfObj)>, key: &[u8]) -> (r: Option<&'a PdfObj>)
    ensures
        match r {
            Some(v) => spec_get(es@, key@) == Some(*v),
            None => spec_get(es@, key@) is None,
        },
{
    let mut i: usize = 0;
    proof {
        assert(es@.subrange(0, es@.len() as int) =~= es@);
    }
    while i < es.len()
        invariant
            0 <= i <= es@.len(),
            spec_get(es@, key@) == spec_get(es@.subrange(i as int, es@.len() as int), key@),
        decreases es@.len() - i,
    {
        if bytes_eq(es[i].0.as_slice(), key) {
            proof {
                let tail = es@.subrange(i as int, es@.len() as int);
                assert(tail[0] == es@[i as int]);
            }
            return Some(&es[i].1);
        }
        i = i + 1;
        proof {
            let pre = es@.subrange(i - 1, es@.len() as int);
            assert(pre.subrange(1, pre.len() as int) =~= es@.subrange(i as int, es@.len() as int));
        }
    }
    proof {
        assert(es@.subrange(es@.len() as int, es@.len() as int) =~= Seq::<(Vec<u8>,
            PdfObj,
        )>::empty());
    }
    None
}

/// Binds `key` to `val`: replaces the first existing binding, else appends.
pub fn dict_set(es: &mut Vec<(Vec<u8>, PdfObj)>, key: Vec<u8>, val: PdfObj)
    ensures
        spec_get(final(es)@, key@) == Some(val),
        final(es)@.len() <= old(es)@.len() + 1,
        forall|k: Seq<u8>| k != key@ ==> spec_get(final(es)@, k) == spec_get(old(es)@, k),
{
    let mut i: usize = 0;
    while i < es.len()
        invariant
            0 <= i <= es@.len(),
            es@ == old(es)@,
            forall|j: int| 0 <= j < i ==> es@[j].0@ != key@,
        decreases es@.len() - i,
    {
        if bytes_eq(es[i].0.as_slice(), key.as_slice()) {
            es.set(i, (key, val));
            proof {
                lemma_get_after_set(old(es)@, es@, i as int, key@);
            }
            return ;
        }
        i = i + 1;
    }
    es.push((key, val));
    proof {
        lemma_get_after_push(old(es)@, es@, key@);
    }
}

proof fn lemma_get_after_set(
    pre: Seq<(Vec<u8>, PdfObj)>,
    post: Seq<(Vec<u8>, PdfObj)>,
    i: int,
    key: Seq<u8>,
)
    requires
        0 <= i < pre.len(),
        post.len() == pre.len(),
        pre[i].0@ == key,
        post[i].0@ == key,
        forall|j: int| 0 <= j < pre.len() && j != i ==> post[j] == pre[j],
        forall|j: int| 0 <= j < i ==> pre[j].0@ != key,
    ensures
        spec_get(post, key) == Some(post[i].1),
        forall|k: Seq<u8>| k != key ==> spec_get(post, k) == spec_get(pre, k),
    decreases i,
{
    if i == 0 {
        assert forall|k: Seq<u8>| k != key implies spec_get(post, k) == spec_get(pre, k) by {
            lemma_get_tails_equal(pre, post, k);
        }
    } else {
        let pret = pre.subrange(1, pre.len() as int);
        let postt = post.subrange(1, post.len() as int);
        lemma_get_after_set(pret, postt, i - 1, key);
        assert(post[0] == pre[0]);
        assert(postt[i - 1].1 == post[i].1);
        assert forall|k: Seq<u8>| k != key implies spec_get(post, k) == spec_get(pre, k) by {
            if post[0].0@ == k {
            } else {
                assert(spec_get(post, k) == spec_get(postt, k));
                assert(spec_get(pre, k) == spec_get(pret, k));
            }
        }
    }
}

proof fn lemma_get_empty(s: Seq<(Vec<u8>, PdfObj)>, k: Seq<u8>)
    requires
        s.len() == 0,
    ensures
        spec_get(s, k) is None,
{
}

proof fn lemma_get_tails_equal(pre: Seq<(Vec<u8>, PdfObj)>, post: Seq<(Vec<u8>, PdfObj)>, k: Seq<u8>)
    requires
        pre.len() >= 1,
        post.len() == pre.len(),
        forall|j: int| 1 <= j < pre.len() ==> post[j] == pre[j],
    ensures
        spec_get(post.subrange(1, post.len() as int), k) == spec_get(
            pre.subrange(1, pre.len() as int),
            k,
        ),
{
    assert(post.subrange(1, post.len() as int) =~= pre.subrange(1, pre.len() as int));
}

proof fn lemma_get_after_push(pre: Seq<(Vec<u8>, PdfObj)>, post: Seq<(Vec<u8>, PdfObj)>, key: Seq<u8>)
    requires
        post.len() == pre.len() + 1,
        post[post.len() - 1].0@ == key,
        forall|j: int| 0 <= j < pre.len() ==> post[j] == pre[j],
        forall|j: int| 0 <= j < pre.len() ==> pre[j].0@ != key,
    ensures
        spec_get(post, key) == Some(post[post.len() - 1].1),
        forall|k: Seq<u8>| k != key ==> spec_get(post, k) == spec_get(pre, k),
    decreases pre.len(),
{
    if pre.len() == 0 {
        assert(post.len() == 1);
        assert(spec_get(post, key) == Some(post[0].1));
        assert forall|k: Seq<u8>| k != key implies spec_get(post, k) == spec_get(pre, k) by {
            lemma_get_empty(post.subrange(1, post.len() as int), k);
            lemma_get_empty(pre, k);
        }
    } else {
        let pret = pre.subrange(1, pre.len() as int);
        let postt = post.subrange(1, post.len() as int);
        assert(postt.len() == pret.len() + 1);
        assert(postt[postt.len() - 1].0@ == key);
        assert(forall|j: int| 0 <= j < pret.len() ==> postt[j] == pret[j]);
        assert(forall|j: int| 0 <= j < pret.len() ==> pret[j].0@ != key);
        lemma_get_after_push(pret, postt, key);
        assert(post[0] == pre[0]);
        assert(post[0].0@ != key);
        assert(postt[postt.len() - 1].1 == post[post.len() - 1].1);
        assert forall|k: Seq<u8>| k != key implies spec_get(post, k) == spec_get(pre, k) by {
            if post[0].0@ == k {
            } else {
                assert(spec_get(post, k) == spec_get(postt, k));
                assert(spec_get(pre, k) == spec_get(pret, k));
            }
        }
    }
}

/// Exact copy of a byte string.
pub fn clone_bytes(b: &Vec<u8>) -> (r: Vec<u8>)
    ensures
        r@ == b@,
{
    let mut out: Vec<u8> = Vec::new();
    out.extend_from_slice(b.as_slice());
    proof {
        assert(out@ =~= b@);
    }
    out
}


/// The entries with every binding of `key` removed, in order.
pub open spec fn spec_drop_key(es: Seq<(Vec<u8>, PdfObj)>, key: Seq<u8>) -> Seq<(Vec<u8>, PdfObj)>
    decreases es.len(),
{
    if es.len() == 0 {
        Seq::empty()
    } else if es[0].0@ == key {
        spec_drop_key(es.subrange(1, es.len() as int), key)
    } else {
        seq![es[0]] + spec_drop_key(es.subrange(1, es.len() as int), key)
    }
}

proof fn lemma_drop_key_get(es: Seq<(Vec<u8>, PdfObj)>, key: Seq<u8>, k: Seq<u8>)
    ensures
        k == key ==> spec_get(spec_drop_key(es, key), k) is None,
        k != key ==> spec_get(spec_drop_key(es, key), k) == spec_get(es, k),
    decreases es.len(),
{
    if es.len() == 0 {
    } else {
        let tail = es.subrange(1, es.len() as int);
        lemma_drop_key_get(tail, key, k);
        if es[0].0@ == key {
        } else {
            let d = seq![es[0]] + spec_drop_key(tail, key);
            assert(d[0] == es[0]);
            assert(d.subrange(1, d.len() as int) =~= spec_drop_key(tail, key));
        }
    }
}

/// Removes every binding of `key`; every other key's first binding is
/// untouched.
pub fn dict_remove_all(es: &mut Vec<(Vec<u8>, PdfObj)>, key: &[u8])
    ensures
        final(es)@ == spec_drop_key(old(es)@, key@),
        spec_get(final(es)@, key@) is None,
        forall|k: Seq<u8>| k != key@ ==> spec_get(final(es)@, k) == spec_get(old(es)@, k),
{
    let ghost orig = es@;
    let n0: usize = es.len();
    let mut kept: Vec<(Vec<u8>, PdfObj)> = Vec::new();
    let mut i: usize = 0;
    proof {
        assert(orig.subrange(0, orig.len() as int) =~= orig);
        assert(kept@ + spec_drop_key(orig.subrange(0, orig.len() as int), key@) =~= spec_drop_key(
            orig,
            key@,
        ));
    }
    while es.len() > 0
        invariant
            orig.len() == n0,
            es@ =~= orig.subrange(i as int, orig.len() as int),
            0 <= i <= orig.len(),
            i + es@.len() == orig.len(),
            kept@ + spec_drop_key(orig.subrange(i as int, orig.len() as int), key@)
                == spec_drop_key(orig, key@),
        decreases es@.len(),
    {
        let e = es.remove(0);
        let keep = !bytes_eq(e.0.as_slice(), key);
        proof {
            let suf = orig.subrange(i as int, orig.len() as int);
            assert(suf[0] == orig[i as int]);
            assert(e == orig[i as int]);
            assert(suf.subrange(1, suf.len() as int) =~= orig.subrange(
                i + 1,
                orig.len() as int,
            ));
        }
        if keep {
            kept.push(e);
        }
        i = i + 1;
        proof {
            assert(es@ =~= orig.subrange(i as int, orig.len() as int));
            assert(kept@ + spec_drop_key(orig.subrange(i as int, orig.len() as int), key@)
                =~= spec_drop_key(orig, key@));
        }
    }
    proof {
        assert(orig.subrange(orig.len() as int, orig.len() as int) =~= Seq::<(Vec<u8>,
            PdfObj)>::empty());
        assert(kept@ =~= spec_drop_key(orig, key@));
    }
    *es = kept;
    proof {
        lemma_drop_key_get(orig, key@, key@);
        assert forall|k: Seq<u8>| k != key@ implies spec_get(es@, k) == spec_get(orig, k) by {
            lemma_drop_key_get(orig, key@, k);
        }
    }
}


proof fn lemma_get_after_remove(
    pre: Seq<(Vec<u8>, PdfObj)>,
    post: Seq<(Vec<u8>, PdfObj)>,
    i: int,
    key: Seq<u8>,
)
    requires
        0 <= i < pre.len(),
        pre[i].0@ == key,
        post.len() == pre.len() - 1,
        forall|j: int| 0 <= j < i ==> post[j] == pre[j],
        forall|j: int| i <= j < post.len() ==> post[j] == pre[j + 1],
        forall|j: int| 0 <= j < i ==> pre[j].0@ != key,
    ensures
        forall|k: Seq<u8>| k != key ==> spec_get(post, k) == spec_get(pre, k),
    decreases i,
{
    if i == 0 {
        assert forall|k: Seq<u8>| k != key implies spec_get(post, k) == spec_get(pre, k) by {
            assert(pre.subrange(1, pre.len() as int) =~= post);
        }
    } else {
        let pret = pre.subrange(1, pre.len() as int);
        let postt = post.subrange(1, post.len() as int);
        assert(forall|j: int| 0 <= j < i - 1 ==> postt[j] == pret[j]);
        assert(forall|j: int| i - 1 <= j < postt.len() ==> postt[j] == pret[j + 1]);
        lemma_get_after_remove(pret, postt, i - 1, key);
        assert(post[0] == pre[0]);
        assert forall|k: Seq<u8>| k != key implies spec_get(post, k) == spec_get(pre, k) by {
            if post[0].0@ == k {
            } else {
                assert(spec_get(post, k) == spec_get(postt, k));
                assert(spec_get(pre, k) == spec_get(pret, k));
            }
        }
    }
}

/// Takes the first binding of `key` out of the entries, handing the value
/// back; every other key's first binding is untouched.
pub fn dict_take(es: &mut Vec<(Vec<u8>, PdfObj)>, key: &[u8]) -> (r: Option<PdfObj>)
    ensures
        match r {
            Some(v) => spec_get(old(es)@, key@) == Some(v),
            None => spec_get(old(es)@, key@) is None && final(es)@ == old(es)@,
        },
        forall|k: Seq<u8>| k != key@ ==> spec_get(final(es)@, k) == spec_get(old(es)@, k),
{
    let mut i: usize = 0;
    while i < es.len()
        invariant
            0 <= i <= es@.len(),
            es@ == old(es)@,
            forall|j: int| 0 <= j < i ==> es@[j].0@ != key@,
        decreases es@.len() - i,
    {
        if bytes_eq(es[i].0.as_slice(), key) {
            let ghost pre = es@;
            let e = es.remove(i);
            proof {
                assert(e == pre[i as int]);
                assert(forall|j: int| 0 <= j < i ==> es@[j] == pre[j]);
                assert(forall|j: int| i <= j < es@.len() ==> es@[j] == pre[j + 1]);
                lemma_get_after_remove(pre, es@, i as int, key@);
                lemma_get_prefix_hit(pre, i as int, key@);
            }
            return Some(e.1);
        }
        i = i + 1;
    }
    proof {
        lemma_get_all_miss(es@, key@);
    }
    None
}

proof fn lemma_get_prefix_hit(es: Seq<(Vec<u8>, PdfObj)>, i: int, key: Seq<u8>)
    requires
        0 <= i < es.len(),
        es[i].0@ == key,
        forall|j: int| 0 <= j < i ==> es[j].0@ != key,
    ensures
        spec_get(es, key) == Some(es[i].1),
    decreases i,
{
    if i > 0 {
        let tail = es.subrange(1, es.len() as int);
        assert(tail[i - 1] == es[i]);
        assert(forall|j: int| 0 <= j < i - 1 ==> tail[j] == es[j + 1]);
        lemma_get_prefix_hit(tail, i - 1, key);
    }
}

proof fn lemma_get_all_miss(es: Seq<(Vec<u8>, PdfObj)>, key: Seq<u8>)
    requires
        forall|j: int| 0 <= j < es.len() ==> es[j].0@ != key,
    ensures
        spec_get(es, key) is None,
    decreases es.len(),
{
    if es.len() > 0 {
        let tail = es.subrange(1, es.len() as int);
        assert(forall|j: int| 0 <= j < tail.len() ==> tail[j] == es[j + 1]);
        lemma_get_all_miss(tail, key);
    }
}

} // verus!
