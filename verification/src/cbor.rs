//! Deterministic binary encoding of structured values.
//!
//! The wire form is a self-describing map/array format: each item starts
//! with a byte whose high three bits give the major type and whose low
//! five bits give a small value or the width of a length that follows,
//! big-endian. The encoder always emits the shortest length form, so
//! encoding the same value twice yields identical bytes; the decoder also
//! accepts indefinite-length arrays and maps, which foreign producers
//! emit, and rejects everything else that the encoder cannot re-produce
//! (tags, floating point, non-text map keys, non-shortest lengths).

use vstd::prelude::*;
use vstd::utf8::{encode_utf8, decode_utf8, valid_utf8, encode_utf8_valid_utf8,
    encode_utf8_decode_utf8};
use crate::value::{VData, Value, vmodel, vseq_model, vmap_model};
use crate::Error;

verus! {

/// 256 to the power `k`.
pub open spec fn pow256(k: nat) -> nat
    decreases k,
{
    if k == 0 {
        1
    } else {
        256 * pow256((k - 1) as nat)
    }
}

/// The `k` big-endian bytes of `n`.
pub open spec fn spec_be_bytes(n: nat, k: nat) -> Seq<u8>
    decreases k,
{
    if k == 0 {
        Seq::empty()
    } else {
        spec_be_bytes(n / 256, (k - 1) as nat).push((n % 256) as u8)
    }
}

/// The value of big-endian bytes.
pub open spec fn spec_be_val(b: Seq<u8>) -> nat
    decreases b.len(),
{
    if b.len() == 0 {
        0
    } else {
        spec_be_val(b.drop_last()) * 256 + b.last() as nat
    }
}

/// The small powers of 256 that header widths use.
pub proof fn lemma_pow256_vals()
    ensures
        pow256(1) == 0x100,
        pow256(2) == 0x1_0000,
        pow256(4) == 0x1_0000_0000,
        pow256(8) == 0x1_0000_0000_0000_0000,
{
    assert(pow256(0) == 1);
    assert(pow256(1) == 0x100);
    assert(pow256(2) == 0x1_0000);
    assert(pow256(3) == 0x100_0000);
    assert(pow256(4) == 0x1_0000_0000);
    assert(pow256(5) == 0x100_0000_0000);
    assert(pow256(6) == 0x1_0000_0000_0000);
    assert(pow256(7) == 0x100_0000_0000_0000);
    assert(pow256(8) == 0x1_0000_0000_0000_0000);
}

pub proof fn lemma_be_bytes_len(n: nat, k: nat)
    ensures
        spec_be_bytes(n, k).len() == k,
    decreases k,
{
    if k > 0 {
        lemma_be_bytes_len(n / 256, (k - 1) as nat);
    }
}

/// Reading back the big-endian bytes of `n` yields `n`.
pub proof fn lemma_be_roundtrip(n: nat, k: nat)
    requires
        n < pow256(k),
    ensures
        spec_be_val(spec_be_bytes(n, k)) == n,
    decreases k,
{
    if k == 0 {
    } else {
        assert(pow256(k) == 256 * pow256((k - 1) as nat));
        assert(n / 256 < pow256((k - 1) as nat)) by (nonlinear_arith)
            requires
                n < 256 * pow256((k - 1) as nat),
        ;
        lemma_be_roundtrip(n / 256, (k - 1) as nat);
        let b = spec_be_bytes(n, k);
        assert(b.drop_last() =~= spec_be_bytes(n / 256, (k - 1) as nat));
        assert(b.last() == (n % 256) as u8);
    }
}

/// The value of big-endian bytes is below 256 to their count.
pub proof fn lemma_be_val_bound(b: Seq<u8>)
    ensures
        spec_be_val(b) < pow256(b.len()),
    decreases b.len(),
{
    if b.len() > 0 {
        lemma_be_val_bound(b.drop_last());
        assert(spec_be_val(b.drop_last()) * 256 + b.last() < pow256(b.len())) by (nonlinear_arith)
            requires
                spec_be_val(b.drop_last()) < pow256((b.len() - 1) as nat),
                pow256(b.len() as nat) == 256 * pow256((b.len() - 1) as nat),
                b.last() < 256,
        ;
    }
}

/// The canonical (shortest) header for major type `major` carrying the
/// value or length `n`.
pub open spec fn spec_header(major: nat, n: nat) -> Seq<u8> {
    if n < 24 {
        seq![(major * 32 + n) as u8]
    } else if n <= 0xff {
        seq![(major * 32 + 24) as u8] + spec_be_bytes(n, 1)
    } else if n <= 0xffff {
        seq![(major * 32 + 25) as u8] + spec_be_bytes(n, 2)
    } else if n <= 0xffff_ffff {
        seq![(major * 32 + 26) as u8] + spec_be_bytes(n, 4)
    } else {
        seq![(major * 32 + 27) as u8] + spec_be_bytes(n, 8)
    }
}

/// Reads a header: the carried value and the bytes consumed. Only
/// canonical (shortest-form) headers are accepted, and only widths up to
/// eight bytes; the indefinite-length marker is not a header.
pub open spec fn spec_decode_head(b: Seq<u8>) -> Option<(nat, int)> {
    if b.len() == 0 {
        None
    } else {
        let ai = b[0] as nat % 32;
        if ai < 24 {
            Some((ai, 1))
        } else if ai == 24 {
            if b.len() >= 2 && b[1] >= 24 {
                Some((b[1] as nat, 2))
            } else {
                None
            }
        } else if ai == 25 {
            if b.len() >= 3 && spec_be_val(b.subrange(1, 3)) > 0xff {
                Some((spec_be_val(b.subrange(1, 3)), 3))
            } else {
                None
            }
        } else if ai == 26 {
            if b.len() >= 5 && spec_be_val(b.subrange(1, 5)) > 0xffff {
                Some((spec_be_val(b.subrange(1, 5)), 5))
            } else {
                None
            }
        } else if ai == 27 {
            if b.len() >= 9 && spec_be_val(b.subrange(1, 9)) > 0xffff_ffff {
                Some((spec_be_val(b.subrange(1, 9)), 9))
            } else {
                None
            }
        } else {
            None
        }
    }
}

/// The canonical header decodes to exactly what it was built from, in
/// any context.
pub proof fn lemma_head_roundtrip(major: nat, n: nat, rest: Seq<u8>)
    requires
        major < 6,
        n <= u64::MAX,
    ensures
        ({
            let h = spec_header(major, n);
            &&& 1 <= h.len() <= 9
            &&& spec_decode_head(h + rest) == Some((n, h.len() as int))
            &&& (h + rest)[0] as nat / 32 == major
            &&& (h + rest)[0] as nat % 32 != 31
        }),
{
    let h = spec_header(major, n);
    let t = h + rest;
    if n < 24 {
        assert(t[0] == (major * 32 + n) as u8);
        assert((major * 32 + n) < 256);
        assert(t[0] as nat % 32 == n && t[0] as nat / 32 == major) by (nonlinear_arith)
            requires
                t[0] as nat == major * 32 + n,
                n < 24,
                major < 6,
        ;
    } else {
        let (w, ai) = if n <= 0xff {
            (1nat, 24nat)
        } else if n <= 0xffff {
            (2nat, 25nat)
        } else if n <= 0xffff_ffff {
            (4nat, 26nat)
        } else {
            (8nat, 27nat)
        };
        lemma_be_bytes_len(n, w);
        assert(t[0] == (major * 32 + ai) as u8);
        assert(t[0] as nat % 32 == ai && t[0] as nat / 32 == major) by (nonlinear_arith)
            requires
                t[0] as nat == major * 32 + ai,
                24 <= ai <= 27,
                major < 6,
        ;
        lemma_pow256_vals();
        lemma_be_roundtrip(n, w);
        assert(t.subrange(1, 1 + w as int) =~= spec_be_bytes(n, w));
        if n <= 0xff {
            assert(t[1] == spec_be_bytes(n, 1)[0]);
            assert(spec_be_bytes(n, 1) =~= Seq::empty().push((n % 256) as u8));
            assert(t[1] as nat == n % 256);
            assert(n % 256 == n);
        }
    }
}

/// The canonical encoding of a structured value.
pub open spec fn spec_encode(v: VData) -> Seq<u8>
    decreases v,
{
    match v {
        VData::Null => seq![0xf6u8],
        VData::Bool(x) => if x {
            seq![0xf5u8]
        } else {
            seq![0xf4u8]
        },
        VData::UInt(n) => spec_header(0, n as nat),
        VData::Neg(n) => spec_header(1, n as nat),
        VData::Bytes(b) => spec_header(2, b.len()) + b,
        VData::Text(t) => spec_encode_text(t),
        VData::Array(a) => spec_header(4, a.len()) + spec_encode_items(a),
        VData::Dict(m) => spec_header(5, m.len()) + spec_encode_entries(m),
    }
}

/// The canonical encoding of a text string: a text header followed by
/// the UTF-8 bytes.
pub open spec fn spec_encode_text(t: Seq<char>) -> Seq<u8> {
    spec_header(3, encode_utf8(t).len()) + encode_utf8(t)
}

/// The concatenated encodings of array items.
pub open spec fn spec_encode_items(a: Seq<VData>) -> Seq<u8>
    decreases a,
{
    if a.len() == 0 {
        Seq::empty()
    } else {
        spec_encode(a[0]) + spec_encode_items(a.drop_first())
    }
}

/// The concatenated encodings of map entries, key then value.
pub open spec fn spec_encode_entries(m: Seq<(Seq<char>, VData)>) -> Seq<u8>
    decreases m,
{
    if m.len() == 0 {
        Seq::empty()
    } else {
        spec_encode_text(m[0].0) + spec_encode(m[0].1) + spec_encode_entries(m.drop_first())
    }
}

/// Whether a value's lengths all fit the wire format's 64-bit length
/// fields. Every value built by executable code is bounded.
pub open spec fn spec_bounded(v: VData) -> bool
    decreases v,
{
    match v {
        VData::Null => true,
        VData::Bool(_) => true,
        VData::UInt(_) => true,
        VData::Neg(_) => true,
        VData::Bytes(b) => b.len() <= u64::MAX,
        VData::Text(t) => encode_utf8(t).len() <= u64::MAX,
        VData::Array(a) => a.len() <= u64::MAX && (forall|i: int|
            0 <= i < a.len() ==> spec_bounded(#[trigger] a[i])),
        VData::Dict(m) => m.len() <= u64::MAX && (forall|i: int|
            0 <= i < m.len() ==> encode_utf8((#[trigger] m[i]).0).len() <= u64::MAX && spec_bounded(
                m[i].1,
            )),
    }
}

/// Decodes the first value of `b`: the value and the bytes consumed.
pub open spec fn spec_decode(b: Seq<u8>) -> Option<(VData, int)>
    decreases b.len(), 1int,
{
    if b.len() == 0 {
        None
    } else {
        let m0 = b[0] as nat / 32;
        let ai = b[0] as nat % 32;
        if m0 == 0 {
            match spec_decode_head(b) {
                Some((n, used)) => Some((VData::UInt(n as u64), used)),
                None => None,
            }
        } else if m0 == 1 {
            match spec_decode_head(b) {
                Some((n, used)) => Some((VData::Neg(n as u64), used)),
                None => None,
            }
        } else if m0 == 2 {
            match spec_decode_head(b) {
                Some((n, used)) => if used + n <= b.len() {
                    Some((VData::Bytes(b.subrange(used, used + n)), used + n))
                } else {
                    None
                },
                None => None,
            }
        } else if m0 == 3 {
            match spec_decode_head(b) {
                Some((n, used)) => if used + n <= b.len() && valid_utf8(
                    b.subrange(used, used + n),
                ) {
                    Some((VData::Text(decode_utf8(b.subrange(used, used + n))), used + n))
                } else {
                    None
                },
                None => None,
            }
        } else if m0 == 4 {
            if ai == 31 {
                match spec_decode_items_indef(b.skip(1)) {
                    Some((items, used)) => Some((VData::Array(items), 1 + used)),
                    None => None,
                }
            } else {
                match spec_decode_head(b) {
                    Some((n, used)) => if 1 <= used <= b.len() {
                        match spec_decode_items(b.skip(used), n) {
                            Some((items, used2)) => Some((VData::Array(items), used + used2)),
                            None => None,
                        }
                    } else {
                        None
                    },
                    None => None,
                }
            }
        } else if m0 == 5 {
            if ai == 31 {
                match spec_decode_entries_indef(b.skip(1)) {
                    Some((es, used)) => Some((VData::Dict(es), 1 + used)),
                    None => None,
                }
            } else {
                match spec_decode_head(b) {
                    Some((n, used)) => if 1 <= used <= b.len() {
                        match spec_decode_entries(b.skip(used), n) {
                            Some((es, used2)) => Some((VData::Dict(es), used + used2)),
                            None => None,
                        }
                    } else {
                        None
                    },
                    None => None,
                }
            }
        } else if m0 == 6 {
            None
        } else {
            if b[0] == 0xf4 {
                Some((VData::Bool(false), 1))
            } else if b[0] == 0xf5 {
                Some((VData::Bool(true), 1))
            } else if b[0] == 0xf6 {
                Some((VData::Null, 1))
            } else {
                None
            }
        }
    }
}

/// Decodes exactly `n` values.
pub open spec fn spec_decode_items(b: Seq<u8>, n: nat) -> Option<(Seq<VData>, int)>
    decreases b.len(), 3int + n,
{
    if n == 0 {
        Some((Seq::empty(), 0))
    } else {
        match spec_decode(b) {
            Some((v, used)) => if 1 <= used <= b.len() {
                match spec_decode_items(b.skip(used), (n - 1) as nat) {
                    Some((items, used2)) => Some((seq![v] + items, used + used2)),
                    None => None,
                }
            } else {
                None
            },
            None => None,
        }
    }
}

/// Decodes values until the stop byte.
pub open spec fn spec_decode_items_indef(b: Seq<u8>) -> Option<(Seq<VData>, int)>
    decreases b.len(), 2int,
{
    if b.len() == 0 {
        None
    } else if b[0] == 0xff {
        Some((Seq::empty(), 1))
    } else {
        match spec_decode(b) {
            Some((v, used)) => if 1 <= used <= b.len() {
                match spec_decode_items_indef(b.skip(used)) {
                    Some((items, used2)) => Some((seq![v] + items, used + used2)),
                    None => None,
                }
            } else {
                None
            },
            None => None,
        }
    }
}

/// Decodes exactly `n` map entries; keys must be text.
pub open spec fn spec_decode_entries(b: Seq<u8>, n: nat) -> Option<(Seq<(Seq<char>, VData)>, int)>
    decreases b.len(), 3int + n,
{
    if n == 0 {
        Some((Seq::empty(), 0))
    } else {
        match spec_decode(b) {
            Some((kv, ku)) => match kv {
                VData::Text(k) => if 1 <= ku <= b.len() {
                    match spec_decode(b.skip(ku)) {
                        Some((v, vu)) => if 1 <= vu <= b.skip(ku).len() {
                            match spec_decode_entries(b.skip(ku).skip(vu), (n - 1) as nat) {
                                Some((es, eu)) => Some((seq![(k, v)] + es, ku + vu + eu)),
                                None => None,
                            }
                        } else {
                            None
                        },
                        None => None,
                    }
                } else {
                    None
                },
                _ => None,
            },
            None => None,
        }
    }
}

/// Decodes map entries until the stop byte; keys must be text.
pub open spec fn spec_decode_entries_indef(b: Seq<u8>) -> Option<(Seq<(Seq<char>, VData)>, int)>
    decreases b.len(), 2int,
{
    if b.len() == 0 {
        None
    } else if b[0] == 0xff {
        Some((Seq::empty(), 1))
    } else {
        match spec_decode(b) {
            Some((kv, ku)) => match kv {
                VData::Text(k) => if 1 <= ku <= b.len() {
                    match spec_decode(b.skip(ku)) {
                        Some((v, vu)) => if 1 <= vu <= b.skip(ku).len() {
                            match spec_decode_entries_indef(b.skip(ku).skip(vu)) {
                                Some((es, eu)) => Some((seq![(k, v)] + es, ku + vu + eu)),
                                None => None,
                            }
                        } else {
                            None
                        },
                        None => None,
                    }
                } else {
                    None
                },
                _ => None,
            },
            None => None,
        }
    }
}

/// Encoded text decodes back to the same characters, in any context.
pub proof fn lemma_decode_text(t: Seq<char>, rest: Seq<u8>)
    requires
        encode_utf8(t).len() <= u64::MAX,
    ensures
        ({
            let e = spec_encode_text(t);
            &&& e.len() >= 1
            &&& spec_decode(e + rest) == Some((VData::Text(t), e.len() as int))
        }),
{
    broadcast use encode_utf8_valid_utf8, encode_utf8_decode_utf8;

    let u = encode_utf8(t);
    let h = spec_header(3, u.len());
    let e = spec_encode_text(t);
    lemma_head_roundtrip(3, u.len(), u + rest);
    assert(e + rest =~= h + (u + rest));
    let total = e + rest;
    let used = h.len() as int;
    assert(spec_decode_head(total) == Some((u.len() as nat, used)));
    assert(total.subrange(used, used + u.len()) =~= u);
    assert(valid_utf8(u));
    assert(decode_utf8(u) == t);
}

/// An encoded value decodes back to itself, in any context: the central
/// correctness fact of the codec.
#[verifier::rlimit(100)]
#[verifier::spinoff_prover]
pub proof fn lemma_decode_encode(v: VData, rest: Seq<u8>)
    requires
        spec_bounded(v),
    ensures
        ({
            let e = spec_encode(v);
            &&& e.len() >= 1
            &&& spec_decode(e + rest) == Some((v, e.len() as int))
        }),
    decreases v, 1int,
{
    let e = spec_encode(v);
    let total = e + rest;
    match v {
        VData::Null => {
            assert(total[0] == 0xf6);
            assert(total[0] as nat / 32 == 7);
        },
        VData::Bool(x) => {
            if x {
                assert(total[0] == 0xf5);
            } else {
                assert(total[0] == 0xf4);
            }
            assert(total[0] as nat / 32 == 7);
            assert(total[0] != 0xff);
        },
        VData::UInt(n) => {
            lemma_head_roundtrip(0, n as nat, rest);
        },
        VData::Neg(n) => {
            lemma_head_roundtrip(1, n as nat, rest);
        },
        VData::Bytes(bs) => {
            let h = spec_header(2, bs.len());
            lemma_head_roundtrip(2, bs.len(), bs + rest);
            assert(e + rest =~= h + (bs + rest));
            let used = h.len() as int;
            assert(total.subrange(used, used + bs.len()) =~= bs);
        },
        VData::Text(t) => {
            lemma_decode_text(t, rest);
        },
        VData::Array(a) => {
            let h = spec_header(4, a.len());
            let body = spec_encode_items(a);
            lemma_head_roundtrip(4, a.len(), body + rest);
            assert(e + rest =~= h + (body + rest));
            let used = h.len() as int;
            assert(total.skip(used) =~= body + rest);
            lemma_decode_encode_items(a, rest);
        },
        VData::Dict(m) => {
            let h = spec_header(5, m.len());
            let body = spec_encode_entries(m);
            lemma_head_roundtrip(5, m.len(), body + rest);
            assert(e + rest =~= h + (body + rest));
            let used = h.len() as int;
            assert(total.skip(used) =~= body + rest);
            lemma_decode_encode_entries(m, rest);
        },
    }
}

/// Encoded array items decode back to themselves, in any context.
#[verifier::rlimit(100)]
#[verifier::spinoff_prover]
pub proof fn lemma_decode_encode_items(a: Seq<VData>, rest: Seq<u8>)
    requires
        forall|i: int| 0 <= i < a.len() ==> spec_bounded(#[trigger] a[i]),
    ensures
        spec_decode_items(spec_encode_items(a) + rest, a.len()) == Some((
            a,
            spec_encode_items(a).len() as int,
        )),
    decreases a, 0int,
{
    if a.len() == 0 {
        assert(spec_encode_items(a) + rest =~= rest);
        assert(a =~= Seq::<VData>::empty());
    } else {
        let e0 = spec_encode(a[0]);
        let etail = spec_encode_items(a.drop_first());
        lemma_decode_encode(a[0], etail + rest);
        let total = spec_encode_items(a) + rest;
        assert(total =~= e0 + (etail + rest));
        assert(total.skip(e0.len() as int) =~= etail + rest);
        assert(forall|i: int|
            0 <= i < a.drop_first().len() ==> spec_bounded(#[trigger] a.drop_first()[i]));
        lemma_decode_encode_items(a.drop_first(), rest);
        assert(seq![a[0]] + a.drop_first() =~= a);
    }
}

/// Encoded map entries decode back to themselves, in any context.
#[verifier::rlimit(100)]
#[verifier::spinoff_prover]
pub proof fn lemma_decode_encode_entries(m: Seq<(Seq<char>, VData)>, rest: Seq<u8>)
    requires
        forall|i: int|
            0 <= i < m.len() ==> encode_utf8((#[trigger] m[i]).0).len() <= u64::MAX && spec_bounded(
                m[i].1,
            ),
    ensures
        spec_decode_entries(spec_encode_entries(m) + rest, m.len()) == Some((
            m,
            spec_encode_entries(m).len() as int,
        )),
    decreases m, 0int,
{
    if m.len() == 0 {
        assert(spec_encode_entries(m) + rest =~= rest);
        assert(m =~= Seq::<(Seq<char>, VData)>::empty());
    } else {
        let ek = spec_encode_text(m[0].0);
        let ev = spec_encode(m[0].1);
        let etail = spec_encode_entries(m.drop_first());
        let total = spec_encode_entries(m) + rest;
        lemma_decode_text(m[0].0, ev + (etail + rest));
        assert(total =~= ek + (ev + (etail + rest)));
        assert(total.skip(ek.len() as int) =~= ev + (etail + rest));
        lemma_decode_encode(m[0].1, etail + rest);
        assert(total.skip(ek.len() as int).skip(ev.len() as int) =~= etail + rest);
        assert(forall|i: int|
            0 <= i < m.drop_first().len() ==> encode_utf8(
                (#[trigger] m.drop_first()[i]).0,
            ).len() <= u64::MAX && spec_bounded(m.drop_first()[i].1));
        lemma_decode_encode_entries(m.drop_first(), rest);
        assert(seq![m[0]] + m.drop_first() =~= m);
    }
}

/// Appending an item appends its encoding.
pub proof fn lemma_encode_items_push(a: Seq<VData>, x: VData)
    ensures
        spec_encode_items(a.push(x)) == spec_encode_items(a) + spec_encode(x),
    decreases a.len(),
{
    let s = a.push(x);
    if a.len() == 0 {
        assert(a =~= Seq::<VData>::empty());
        assert(spec_encode_items(a) == Seq::<u8>::empty());
        assert(s[0] == x);
        assert(s.drop_first() =~= Seq::<VData>::empty());
        assert(spec_encode_items(s) == spec_encode(s[0]) + spec_encode_items(s.drop_first()));
        assert(spec_encode_items(s) =~= spec_encode_items(a) + spec_encode(x));
    } else {
        assert(s.drop_first() =~= a.drop_first().push(x));
        lemma_encode_items_push(a.drop_first(), x);
        assert(s[0] == a[0]);
        assert(spec_encode_items(s) == spec_encode(s[0]) + spec_encode_items(s.drop_first()));
        assert(spec_encode_items(a) == spec_encode(a[0]) + spec_encode_items(a.drop_first()));
        assert(spec_encode_items(s) =~= spec_encode_items(a) + spec_encode(x));
    }
}

/// Appending an entry appends its encoding.
pub proof fn lemma_encode_entries_push(m: Seq<(Seq<char>, VData)>, k: Seq<char>, x: VData)
    ensures
        spec_encode_entries(m.push((k, x))) == spec_encode_entries(m) + spec_encode_text(k)
            + spec_encode(x),
    decreases m.len(),
{
    let s = m.push((k, x));
    if m.len() == 0 {
        assert(m =~= Seq::<(Seq<char>, VData)>::empty());
        assert(spec_encode_entries(m) == Seq::<u8>::empty());
        assert(s[0] == (k, x));
        assert(s.drop_first() =~= Seq::<(Seq<char>, VData)>::empty());
        assert(spec_encode_entries(s) == spec_encode_text(s[0].0) + spec_encode(s[0].1)
            + spec_encode_entries(s.drop_first()));
        assert(spec_encode_entries(s) =~= spec_encode_entries(m) + spec_encode_text(k)
            + spec_encode(x));
    } else {
        assert(s.drop_first() =~= m.drop_first().push((k, x)));
        lemma_encode_entries_push(m.drop_first(), k, x);
        assert(s[0] == m[0]);
        assert(spec_encode_entries(s) == spec_encode_text(s[0].0) + spec_encode(s[0].1)
            + spec_encode_entries(s.drop_first()));
        assert(spec_encode_entries(m) == spec_encode_text(m[0].0) + spec_encode(m[0].1)
            + spec_encode_entries(m.drop_first()));
        assert(spec_encode_entries(s) =~= spec_encode_entries(m) + spec_encode_text(k)
            + spec_encode(x));
    }
}

fn push_be(n: u64, k: u8, out: &mut Vec<u8>)
    requires
        k <= 8,
    ensures
        final(out)@ == old(out)@ + spec_be_bytes(n as nat, k as nat),
    decreases k,
{
    if k == 0 {
        proof {
            assert(out@ =~= old(out)@ + spec_be_bytes(n as nat, 0));
        }
    } else {
        push_be(n / 256, k - 1, out);
        out.push((n % 256) as u8);
        proof {
            assert(out@ =~= old(out)@ + spec_be_bytes(n as nat, k as nat));
        }
    }
}

/// Appends the eight big-endian bytes of `n`.
pub fn push_be_bytes(n: u64, out: &mut Vec<u8>)
    ensures
        final(out)@ == old(out)@ + spec_be_bytes(n as nat, 8),
{
    push_be(n, 8, out);
}

fn encode_header(major: u8, n: u64, out: &mut Vec<u8>)
    requires
        major < 6,
    ensures
        final(out)@ == old(out)@ + spec_header(major as nat, n as nat),
{
    if n < 24 {
        out.push(major * 32 + (n as u8));
        proof {
            assert(out@ =~= old(out)@ + spec_header(major as nat, n as nat));
        }
    } else if n <= 0xff {
        out.push(major * 32 + 24);
        push_be(n, 1, out);
        proof {
            assert(out@ =~= old(out)@ + spec_header(major as nat, n as nat));
        }
    } else if n <= 0xffff {
        out.push(major * 32 + 25);
        push_be(n, 2, out);
        proof {
            assert(out@ =~= old(out)@ + spec_header(major as nat, n as nat));
        }
    } else if n <= 0xffff_ffff {
        out.push(major * 32 + 26);
        push_be(n, 4, out);
        proof {
            assert(out@ =~= old(out)@ + spec_header(major as nat, n as nat));
        }
    } else {
        out.push(major * 32 + 27);
        push_be(n, 8, out);
        proof {
            assert(out@ =~= old(out)@ + spec_header(major as nat, n as nat));
        }
    }
}

/// Appends the canonical encoding of `v` to `out`. Every value held in
/// executable form has bounded lengths, which this records.
#[verifier::loop_isolation(false)]
pub fn encode_value(v: &Value, out: &mut Vec<u8>)
    ensures
        final(out)@ == old(out)@ + spec_encode(vmodel(*v)),
        spec_bounded(vmodel(*v)),
    decreases *v,
{
    match v {
        Value::Null => {
            out.push(0xf6);
            proof {
                assert(out@ =~= old(out)@ + spec_encode(vmodel(*v)));
            }
        },
        Value::Bool(x) => {
            if *x {
                out.push(0xf5);
            } else {
                out.push(0xf4);
            }
            proof {
                assert(out@ =~= old(out)@ + spec_encode(vmodel(*v)));
            }
        },
        Value::UInt(n) => {
            encode_header(0, *n, out);
        },
        Value::Neg(n) => {
            encode_header(1, *n, out);
        },
        Value::Bytes(bs) => {
            let l = bs.len();
            encode_header(2, l as u64, out);
            out.extend_from_slice(bs.as_slice());
            proof {
                assert(out@ =~= old(out)@ + spec_encode(vmodel(*v)));
            }
        },
        Value::Text(s) => {
            let sb = s.as_str().as_bytes();
            let l = sb.len();
            encode_header(3, l as u64, out);
            out.extend_from_slice(sb);
            proof {
                assert(out@ =~= old(out)@ + spec_encode(vmodel(*v)));
            }
        },
        Value::Array(a) => {
            let l = a.len();
            encode_header(4, l as u64, out);
            let ghost base = out@;
            let ghost ms = vseq_model(a@);
            proof {
                crate::value::lemma_vseq_model_len(a@);
            }
            let mut i: usize = 0;
            while i < l
                invariant
                    l == a@.len(),
                    ms == vseq_model(a@),
                    ms.len() == l,
                    i <= l,
                    out@ == base + spec_encode_items(ms.take(i as int)),
                    forall|j: int| 0 <= j < i ==> spec_bounded(#[trigger] ms[j]),
                decreases l - i,
            {
                proof {
                    broadcast use vstd::std_specs::vec::axiom_vec_index_decreases;
                    assert(*v == Value::Array(*a));
                    assert(decreases_to!(*v => v->Array_0));
                    assert(decreases_to!(*v => *a));
                    assert(decreases_to!(*a => a@[i as int]));
                }
                encode_value(&a[i], out);
                proof {
                    crate::value::lemma_vseq_model_index(a@, i as int);
                    lemma_encode_items_push(ms.take(i as int), ms[i as int]);
                    assert(ms.take(i + 1) =~= ms.take(i as int).push(ms[i as int]));
                }
                i = i + 1;
            }
            proof {
                assert(ms.take(l as int) =~= ms);
                assert(out@ =~= old(out)@ + spec_encode(vmodel(*v)));
                assert(spec_bounded(vmodel(*v)));
            }
        },
        Value::Dict(m) => {
            let l = m.len();
            encode_header(5, l as u64, out);
            let ghost base = out@;
            let ghost ms = vmap_model(m@);
            proof {
                crate::value::lemma_vmap_model_len(m@);
            }
            let mut i: usize = 0;
            while i < l
                invariant
                    l == m@.len(),
                    ms == vmap_model(m@),
                    ms.len() == l,
                    i <= l,
                    out@ == base + spec_encode_entries(ms.take(i as int)),
                    forall|j: int|
                        0 <= j < i ==> vstd::utf8::encode_utf8((#[trigger] ms[j]).0).len()
                            <= u64::MAX && spec_bounded(ms[j].1),
                decreases l - i,
            {
                proof {
                    broadcast use vstd::std_specs::vec::axiom_vec_index_decreases;
                    assert(*v == Value::Dict(*m));
                    assert(decreases_to!(*v => v->Dict_0));
                    assert(decreases_to!(*v => *m));
                    assert(decreases_to!(*m => m@[i as int]));
                    assert(decreases_to!(m@[i as int] => m@[i as int].1));
                }
                let entry = &m[i];
                let kb = entry.0.as_str().as_bytes();
                let kl = kb.len();
                encode_header(3, kl as u64, out);
                out.extend_from_slice(kb);
                encode_value(&entry.1, out);
                proof {
                    crate::value::lemma_vmap_model_index(m@, i as int);
                    lemma_encode_entries_push(
                        ms.take(i as int),
                        ms[i as int].0,
                        ms[i as int].1,
                    );
                    assert(ms.take(i + 1) =~= ms.take(i as int).push(ms[i as int]));
                    assert(out@ =~= base + spec_encode_entries(ms.take(i + 1)));
                }
                i = i + 1;
            }
            proof {
                assert(ms.take(l as int) =~= ms);
                assert(out@ =~= old(out)@ + spec_encode(vmodel(*v)));
                assert(spec_bounded(vmodel(*v)));
            }
        },
    }
}

pub proof fn lemma_pow256_mono(a: nat, b: nat)
    requires
        a <= b,
    ensures
        pow256(a) <= pow256(b),
    decreases b,
{
    if a < b {
        lemma_pow256_mono(a, (b - 1) as nat);
        assert(pow256(b) == 256 * pow256((b - 1) as nat));
        assert(256 * pow256((b - 1) as nat) >= pow256((b - 1) as nat)) by (nonlinear_arith);
    }
}

/// Reads `k` big-endian bytes starting at `pos`.
#[verifier::loop_isolation(false)]
fn read_be(b: &Vec<u8>, pos: usize, k: usize) -> (n: u64)
    requires
        k <= 8,
        pos + k <= b@.len(),
    ensures
        n as nat == spec_be_val(b@.subrange(pos as int, pos + k)),
{
    let blen = b.len();
    let mut n: u64 = 0;
    let mut i: usize = 0;
    while i < k
        invariant
            i <= k,
            n as nat == spec_be_val(b@.subrange(pos as int, pos + i)),
            (n as nat) < pow256(i as nat),
        decreases k - i,
    {
        proof {
            lemma_pow256_vals();
            lemma_pow256_mono((i + 1) as nat, 8);
            assert(n as nat * 256 + b@[pos + i] < pow256((i + 1) as nat)) by (nonlinear_arith)
                requires
                    (n as nat) < pow256(i as nat),
                    pow256((i + 1) as nat) == 256 * pow256(i as nat),
                    b@[pos + i] < 256,
            ;
        }
        n = n * 256 + (b[pos + i] as u64);
        i = i + 1;
        proof {
            assert(b@.subrange(pos as int, pos + i).drop_last() =~= b@.subrange(
                pos as int,
                pos + i - 1,
            ));
            assert(b@.subrange(pos as int, pos + i).last() == b@[pos + i - 1]);
        }
    }
    proof {
        assert(b@.subrange(pos as int, pos + k) =~= b@.subrange(pos as int, pos + i));
    }
    n
}

/// Reads the header at `pos`: the carried value and the position after it.
fn decode_head(b: &Vec<u8>, pos: usize) -> (r: Option<(u64, usize)>)
    requires
        pos < b@.len(),
    ensures
        match r {
            Some(p) => pos < p.1 <= b@.len() && spec_decode_head(b@.skip(pos as int)) == Some((
                p.0 as nat,
                p.1 - pos,
            )),
            None => spec_decode_head(b@.skip(pos as int)) is None,
        },
{
    let ghost t = b@.skip(pos as int);
    proof {
        assert(t[0] == b@[pos as int]);
    }
    let remaining = b.len() - pos;
    let ai = b[pos] % 32;
    if ai < 24 {
        Some((ai as u64, pos + 1))
    } else if ai == 24 {
        if remaining >= 2 && b[pos + 1] >= 24 {
            proof {
                assert(t[1] == b@[pos + 1]);
            }
            Some((b[pos + 1] as u64, pos + 2))
        } else {
            proof {
                if remaining >= 2 {
                    assert(t[1] == b@[pos + 1]);
                }
            }
            None
        }
    } else if ai == 25 {
        if remaining >= 3 {
            let n = read_be(b, pos + 1, 2);
            proof {
                assert(t.subrange(1, 3) =~= b@.subrange(pos + 1, pos + 3));
            }
            if n > 0xff {
                Some((n, pos + 3))
            } else {
                None
            }
        } else {
            None
        }
    } else if ai == 26 {
        if remaining >= 5 {
            let n = read_be(b, pos + 1, 4);
            proof {
                assert(t.subrange(1, 5) =~= b@.subrange(pos + 1, pos + 5));
            }
            if n > 0xffff {
                Some((n, pos + 5))
            } else {
                None
            }
        } else {
            None
        }
    } else if ai == 27 {
        if remaining >= 9 {
            let n = read_be(b, pos + 1, 8);
            proof {
                assert(t.subrange(1, 9) =~= b@.subrange(pos + 1, pos + 9));
            }
            if n > 0xffff_ffff {
                Some((n, pos + 9))
            } else {
                None
            }
        } else {
            None
        }
    } else {
        None
    }
}

/// Decodes the value starting at `pos`: the value and the position after
/// it. Succeeds exactly when the model decoder succeeds, and returns
/// exactly the value the model decoder gives.
#[verifier::loop_isolation(false)]
#[verifier::rlimit(80)]
pub fn decode_value(b: &Vec<u8>, pos: usize) -> (r: Result<(Value, usize), Error>)
    requires
        pos <= b@.len(),
    ensures
        match r {
            Ok(p) => pos < p.1 <= b@.len() && spec_decode(b@.skip(pos as int)) == Some((
                vmodel(p.0),
                p.1 - pos,
            )),
            Err(e) => e == Error::Decode && spec_decode(b@.skip(pos as int)) is None,
        },
    decreases b@.len() - pos, 0int,
{
    let ghost t = b@.skip(pos as int);
    if pos == b.len() {
        return Err(Error::Decode);
    }
    proof {
        assert(t[0] == b@[pos as int]);
    }
    let ib = b[pos];
    let m0 = ib / 32;
    let ai = ib % 32;
    if m0 == 0 {
        match decode_head(b, pos) {
            Some(p) => Ok((Value::UInt(p.0), p.1)),
            None => Err(Error::Decode),
        }
    } else if m0 == 1 {
        match decode_head(b, pos) {
            Some(p) => Ok((Value::Neg(p.0), p.1)),
            None => Err(Error::Decode),
        }
    } else if m0 == 2 {
        match decode_head(b, pos) {
            Some(p) => {
                let n = p.0;
                let end = p.1;
                if n <= (b.len() - end) as u64 {
                    let n_us = n as usize;
                    let mut bytes: Vec<u8> = Vec::new();
                    let mut i: usize = 0;
                    while i < n_us
                        invariant
                            i <= n_us,
                            bytes@ == b@.subrange(end as int, end + i),
                        decreases n_us - i,
                    {
                        bytes.push(b[end + i]);
                        i = i + 1;
                        proof {
                            assert(bytes@ =~= b@.subrange(end as int, end + i));
                        }
                    }
                    proof {
                        assert(t.subrange((end - pos) as int, (end - pos) + n_us) =~= b@.subrange(
                            end as int,
                            end + n_us,
                        ));
                    }
                    Ok((Value::Bytes(bytes), end + n_us))
                } else {
                    Err(Error::Decode)
                }
            },
            None => Err(Error::Decode),
        }
    } else if m0 == 3 {
        match decode_head(b, pos) {
            Some(p) => {
                let n = p.0;
                let end = p.1;
                if n <= (b.len() - end) as u64 {
                    let n_us = n as usize;
                    let mut bytes: Vec<u8> = Vec::new();
                    let mut i: usize = 0;
                    while i < n_us
                        invariant
                            i <= n_us,
                            bytes@ == b@.subrange(end as int, end + i),
                        decreases n_us - i,
                    {
                        bytes.push(b[end + i]);
                        i = i + 1;
                        proof {
                            assert(bytes@ =~= b@.subrange(end as int, end + i));
                        }
                    }
                    proof {
                        assert(t.subrange((end - pos) as int, (end - pos) + n_us) =~= b@.subrange(
                            end as int,
                            end + n_us,
                        ));
                    }
                    match crate::strutil::bytes_to_string(bytes.as_slice()) {
                        Some(s) => Ok((Value::Text(s), end + n_us)),
                        None => Err(Error::Decode),
                    }
                } else {
                    Err(Error::Decode)
                }
            },
            None => Err(Error::Decode),
        }
    } else if m0 == 4 {
        if ai == 31 {
            match decode_items_indef(b, pos + 1) {
                Ok(p) => {
                    proof {
                        assert(t.skip(1) =~= b@.skip(pos + 1));
                    }
                    Ok((Value::Array(p.0), p.1))
                },
                Err(_) => {
                    proof {
                        assert(t.skip(1) =~= b@.skip(pos + 1));
                    }
                    Err(Error::Decode)
                },
            }
        } else {
            match decode_head(b, pos) {
                Some(hp) => {
                    match decode_items_def(b, hp.1, hp.0) {
                        Ok(p) => {
                            proof {
                                assert(t.skip((hp.1 - pos) as int) =~= b@.skip(hp.1 as int));
                            }
                            Ok((Value::Array(p.0), p.1))
                        },
                        Err(_) => {
                            proof {
                                assert(t.skip((hp.1 - pos) as int) =~= b@.skip(hp.1 as int));
                            }
                            Err(Error::Decode)
                        },
                    }
                },
                None => Err(Error::Decode),
            }
        }
    } else if m0 == 5 {
        if ai == 31 {
            match decode_entries_indef(b, pos + 1) {
                Ok(p) => {
                    proof {
                        assert(t.skip(1) =~= b@.skip(pos + 1));
                    }
                    Ok((Value::Dict(p.0), p.1))
                },
                Err(_) => {
                    proof {
                        assert(t.skip(1) =~= b@.skip(pos + 1));
                    }
                    Err(Error::Decode)
                },
            }
        } else {
            match decode_head(b, pos) {
                Some(hp) => {
                    match decode_entries_def(b, hp.1, hp.0) {
                        Ok(p) => {
                            proof {
                                assert(t.skip((hp.1 - pos) as int) =~= b@.skip(hp.1 as int));
                            }
                            Ok((Value::Dict(p.0), p.1))
                        },
                        Err(_) => {
                            proof {
                                assert(t.skip((hp.1 - pos) as int) =~= b@.skip(hp.1 as int));
                            }
                            Err(Error::Decode)
                        },
                    }
                },
                None => Err(Error::Decode),
            }
        }
    } else if m0 == 6 {
        Err(Error::Decode)
    } else {
        if ib == 0xf4 {
            Ok((Value::Bool(false), pos + 1))
        } else if ib == 0xf5 {
            Ok((Value::Bool(true), pos + 1))
        } else if ib == 0xf6 {
            Ok((Value::Null, pos + 1))
        } else {
            Err(Error::Decode)
        }
    }
}

/// Decodes exactly `n` array items starting at `start`.
#[verifier::loop_isolation(false)]
#[verifier::rlimit(80)]
fn decode_items_def(b: &Vec<u8>, start: usize, n: u64) -> (r: Result<(Vec<Value>, usize), Error>)
    requires
        start <= b@.len(),
    ensures
        match r {
            Ok(p) => start <= p.1 <= b@.len() && spec_decode_items(b@.skip(start as int), n as nat)
                == Some((vseq_model(p.0@), p.1 - start)),
            Err(e) => e == Error::Decode && spec_decode_items(b@.skip(start as int), n as nat)
                is None,
        },
    decreases b@.len() - start, 1int,
{
    let mut items: Vec<Value> = Vec::new();
    let mut cur: usize = start;
    let mut i: u64 = 0;
    while i < n
        invariant
            start <= cur <= b@.len(),
            i <= n,
            match spec_decode_items(b@.skip(cur as int), (n - i) as nat) {
                Some(p) => spec_decode_items(b@.skip(start as int), n as nat) == Some((
                    vseq_model(items@) + p.0,
                    (cur - start) + p.1,
                )),
                None => spec_decode_items(b@.skip(start as int), n as nat) is None,
            },
        decreases n - i,
    {
        let ghost old_items = items@;
        let ghost old_cur = cur as int;
        match decode_value(b, cur) {
            Ok(vp) => {
                let v = vp.0;
                let vend = vp.1;
                proof {
                    let tc = b@.skip(old_cur);
                    assert(tc.skip(vend - old_cur) =~= b@.skip(vend as int));
                    crate::value::lemma_vseq_model_push(old_items, v);
                    assert(spec_decode_items(tc, (n - i) as nat) == match spec_decode_items(
                        b@.skip(vend as int),
                        (n - i - 1) as nat,
                    ) {
                        Some(p2) => Some((seq![vmodel(v)] + p2.0, (vend - old_cur) + p2.1)),
                        None => None,
                    });
                    if let Some(p2) = spec_decode_items(b@.skip(vend as int), (n - i - 1) as nat) {
                        assert(vseq_model(old_items) + (seq![vmodel(v)] + p2.0) =~= vseq_model(
                            old_items.push(v),
                        ) + p2.0);
                    }
                }
                items.push(v);
                cur = vend;
                i = i + 1;
            },
            Err(_) => {
                return Err(Error::Decode);
            },
        }
    }
    proof {
        assert(vseq_model(items@) + Seq::<VData>::empty() =~= vseq_model(items@));
    }
    Ok((items, cur))
}

/// Decodes array items starting at `start` until the stop byte.
#[verifier::loop_isolation(false)]
#[verifier::rlimit(80)]
fn decode_items_indef(b: &Vec<u8>, start: usize) -> (r: Result<(Vec<Value>, usize), Error>)
    requires
        start <= b@.len(),
    ensures
        match r {
            Ok(p) => start <= p.1 <= b@.len() && spec_decode_items_indef(b@.skip(start as int))
                == Some((vseq_model(p.0@), p.1 - start)),
            Err(e) => e == Error::Decode && spec_decode_items_indef(b@.skip(start as int)) is None,
        },
    decreases b@.len() - start, 1int,
{
    let mut items: Vec<Value> = Vec::new();
    let mut cur: usize = start;
    let mut done = false;
    while !done
        invariant
            start <= cur <= b@.len(),
            !done ==> match spec_decode_items_indef(b@.skip(cur as int)) {
                Some(p) => spec_decode_items_indef(b@.skip(start as int)) == Some((
                    vseq_model(items@) + p.0,
                    (cur - start) + p.1,
                )),
                None => spec_decode_items_indef(b@.skip(start as int)) is None,
            },
            done ==> start < cur && spec_decode_items_indef(b@.skip(start as int)) == Some((
                vseq_model(items@),
                cur - start,
            )),
        decreases b@.len() - cur + (if done {
            0int
        } else {
            1int
        }),
    {
        if cur == b.len() {
            return Err(Error::Decode);
        }
        proof {
            assert(b@.skip(cur as int)[0] == b@[cur as int]);
        }
        if b[cur] == 0xff {
            proof {
                assert(vseq_model(items@) + Seq::<VData>::empty() =~= vseq_model(items@));
            }
            cur = cur + 1;
            done = true;
        } else {
            let ghost old_items = items@;
            let ghost old_cur = cur as int;
            match decode_value(b, cur) {
                Ok(vp) => {
                    let v = vp.0;
                    let vend = vp.1;
                    proof {
                        let tc = b@.skip(old_cur);
                        assert(tc.skip(vend - old_cur) =~= b@.skip(vend as int));
                        crate::value::lemma_vseq_model_push(old_items, v);
                        assert(spec_decode_items_indef(tc) == match spec_decode_items_indef(
                            b@.skip(vend as int),
                        ) {
                            Some(p2) => Some((seq![vmodel(v)] + p2.0, (vend - old_cur) + p2.1)),
                            None => None,
                        });
                        if let Some(p2) = spec_decode_items_indef(b@.skip(vend as int)) {
                            assert(vseq_model(old_items) + (seq![vmodel(v)] + p2.0) =~= vseq_model(
                                old_items.push(v),
                            ) + p2.0);
                        }
                    }
                    items.push(v);
                    cur = vend;
                },
                Err(_) => {
                    return Err(Error::Decode);
                },
            }
        }
    }
    Ok((items, cur))
}

/// Decodes exactly `n` map entries starting at `start`; keys must be
/// text.
#[verifier::loop_isolation(false)]
#[verifier::rlimit(80)]
fn decode_entries_def(b: &Vec<u8>, start: usize, n: u64) -> (r: Result<
    (Vec<(String, Value)>, usize),
    Error,
>)
    requires
        start <= b@.len(),
    ensures
        match r {
            Ok(p) => start <= p.1 <= b@.len() && spec_decode_entries(
                b@.skip(start as int),
                n as nat,
            ) == Some((vmap_model(p.0@), p.1 - start)),
            Err(e) => e == Error::Decode && spec_decode_entries(b@.skip(start as int), n as nat)
                is None,
        },
    decreases b@.len() - start, 1int,
{
    let mut entries: Vec<(String, Value)> = Vec::new();
    let mut cur: usize = start;
    let mut i: u64 = 0;
    while i < n
        invariant
            start <= cur <= b@.len(),
            i <= n,
            match spec_decode_entries(b@.skip(cur as int), (n - i) as nat) {
                Some(p) => spec_decode_entries(b@.skip(start as int), n as nat) == Some((
                    vmap_model(entries@) + p.0,
                    (cur - start) + p.1,
                )),
                None => spec_decode_entries(b@.skip(start as int), n as nat) is None,
            },
        decreases n - i,
    {
        let ghost old_entries = entries@;
        let ghost old_cur = cur as int;
        match decode_value(b, cur) {
            Ok(kp) => {
                match kp.0 {
                    Value::Text(ks) => {
                        let kend = kp.1;
                        match decode_value(b, kend) {
                            Ok(vp) => {
                                let v = vp.0;
                                let vend = vp.1;
                                proof {
                                    let tc = b@.skip(old_cur);
                                    let tk = b@.skip(kend as int);
                                    assert(tc.skip(kend - old_cur) =~= tk);
                                    assert(tk.skip((vend - kend) as int) =~= b@.skip(vend as int));
                                    crate::value::lemma_vmap_model_push(old_entries, ks, v);
                                    assert(spec_decode_entries(tc, (n - i) as nat)
                                        == match spec_decode_entries(
                                        b@.skip(vend as int),
                                        (n - i - 1) as nat,
                                    ) {
                                        Some(p2) => Some((
                                            seq![(ks@, vmodel(v))] + p2.0,
                                            (vend - old_cur) + p2.1,
                                        )),
                                        None => None,
                                    });
                                    if let Some(p2) = spec_decode_entries(
                                        b@.skip(vend as int),
                                        (n - i - 1) as nat,
                                    ) {
                                        assert(vmap_model(old_entries) + (seq![(ks@, vmodel(v))]
                                            + p2.0) =~= vmap_model(old_entries.push((ks, v)))
                                            + p2.0);
                                    }
                                }
                                entries.push((ks, v));
                                cur = vend;
                                i = i + 1;
                            },
                            Err(_) => {
                                proof {
                                    let tc = b@.skip(old_cur);
                                    assert(tc.skip(kend - old_cur) =~= b@.skip(kend as int));
                                }
                                return Err(Error::Decode);
                            },
                        }
                    },
                    _ => {
                        return Err(Error::Decode);
                    },
                }
            },
            Err(_) => {
                return Err(Error::Decode);
            },
        }
    }
    proof {
        assert(vmap_model(entries@) + Seq::<(Seq<char>, VData)>::empty() =~= vmap_model(entries@));
    }
    Ok((entries, cur))
}

/// Decodes map entries starting at `start` until the stop byte; keys
/// must be text.
#[verifier::loop_isolation(false)]
#[verifier::rlimit(80)]
fn decode_entries_indef(b: &Vec<u8>, start: usize) -> (r: Result<
    (Vec<(String, Value)>, usize),
    Error,
>)
    requires
        start <= b@.len(),
    ensures
        match r {
            Ok(p) => start <= p.1 <= b@.len() && spec_decode_entries_indef(b@.skip(start as int))
                == Some((vmap_model(p.0@), p.1 - start)),
            Err(e) => e == Error::Decode && spec_decode_entries_indef(b@.skip(start as int))
                is None,
        },
    decreases b@.len() - start, 1int,
{
    let mut entries: Vec<(String, Value)> = Vec::new();
    let mut cur: usize = start;
    let mut done = false;
    while !done
        invariant
            start <= cur <= b@.len(),
            !done ==> match spec_decode_entries_indef(b@.skip(cur as int)) {
                Some(p) => spec_decode_entries_indef(b@.skip(start as int)) == Some((
                    vmap_model(entries@) + p.0,
                    (cur - start) + p.1,
                )),
                None => spec_decode_entries_indef(b@.skip(start as int)) is None,
            },
            done ==> start < cur && spec_decode_entries_indef(b@.skip(start as int)) == Some((
                vmap_model(entries@),
                cur - start,
            )),
        decreases b@.len() - cur + (if done {
            0int
        } else {
            1int
        }),
    {
        if cur == b.len() {
            return Err(Error::Decode);
        }
        proof {
            assert(b@.skip(cur as int)[0] == b@[cur as int]);
        }
        if b[cur] == 0xff {
            proof {
                assert(vmap_model(entries@) + Seq::<(Seq<char>, VData)>::empty() =~= vmap_model(
                    entries@,
                ));
            }
            cur = cur + 1;
            done = true;
        } else {
            let ghost old_entries = entries@;
            let ghost old_cur = cur as int;
            match decode_value(b, cur) {
                Ok(kp) => {
                    match kp.0 {
                        Value::Text(ks) => {
                            let kend = kp.1;
                            match decode_value(b, kend) {
                                Ok(vp) => {
                                    let v = vp.0;
                                    let vend = vp.1;
                                    proof {
                                        let tc = b@.skip(old_cur);
                                        let tk = b@.skip(kend as int);
                                        assert(tc.skip(kend - old_cur) =~= tk);
                                        assert(tk.skip((vend - kend) as int) =~= b@.skip(
                                            vend as int,
                                        ));
                                        crate::value::lemma_vmap_model_push(old_entries, ks, v);
                                        assert(spec_decode_entries_indef(tc)
                                            == match spec_decode_entries_indef(
                                            b@.skip(vend as int),
                                        ) {
                                            Some(p2) => Some((
                                                seq![(ks@, vmodel(v))] + p2.0,
                                                (vend - old_cur) + p2.1,
                                            )),
                                            None => None,
                                        });
                                        if let Some(p2) = spec_decode_entries_indef(
                                            b@.skip(vend as int),
                                        ) {
                                            assert(vmap_model(old_entries) + (seq![
                                                (ks@, vmodel(v)),
                                            ] + p2.0) =~= vmap_model(old_entries.push((ks, v)))
                                                + p2.0);
                                        }
                                    }
                                    entries.push((ks, v));
                                    cur = vend;
                                },
                                Err(_) => {
                                    proof {
                                        let tc = b@.skip(old_cur);
                                        assert(tc.skip(kend - old_cur) =~= b@.skip(kend as int));
                                    }
                                    return Err(Error::Decode);
                                },
                            }
                        },
                        _ => {
                            return Err(Error::Decode);
                        },
                    }
                },
                Err(_) => {
                    return Err(Error::Decode);
                },
            }
        }
    }
    Ok((entries, cur))
}

/// Decodes a byte vector that holds exactly one value: the whole input
/// must be consumed.
pub fn decode_whole(b: &Vec<u8>) -> (r: Result<Value, Error>)
    ensures
        match r {
            Ok(v) => spec_decode(b@) == Some((vmodel(v), b@.len() as int)),
            Err(e) => e == Error::Decode && (spec_decode(b@) is None || spec_decode(
                b@,
            ).unwrap().1 != b@.len()),
        },
{
    proof {
        assert(b@.skip(0) =~= b@);
    }
    match decode_value(b, 0) {
        Ok(p) => {
            if p.1 == b.len() {
                Ok(p.0)
            } else {
                Err(Error::Decode)
            }
        },
        Err(e) => Err(e),
    }
}

/// Item encoding distributes over concatenation.
pub proof fn lemma_encode_items_concat(a: Seq<VData>, b: Seq<VData>)
    ensures
        spec_encode_items(a + b) == spec_encode_items(a) + spec_encode_items(b),
    decreases a.len(),
{
    if a.len() == 0 {
        assert(a + b =~= b);
        assert(spec_encode_items(a) =~= Seq::<u8>::empty());
        assert(spec_encode_items(a + b) =~= spec_encode_items(a) + spec_encode_items(b));
    } else {
        assert((a + b)[0] == a[0]);
        assert((a + b).drop_first() =~= a.drop_first() + b);
        lemma_encode_items_concat(a.drop_first(), b);
        assert(spec_encode_items(a + b) =~= spec_encode_items(a) + spec_encode_items(b));
    }
}

/// The encoding of an item list splits around any one item.
pub proof fn lemma_encode_items_split(a: Seq<VData>, i: int)
    requires
        0 <= i < a.len(),
    ensures
        spec_encode_items(a) == spec_encode_items(a.take(i)) + spec_encode(a[i])
            + spec_encode_items(a.skip(i + 1)),
{
    assert(a =~= a.take(i) + (seq![a[i]] + a.skip(i + 1)));
    lemma_encode_items_concat(a.take(i), seq![a[i]] + a.skip(i + 1));
    lemma_encode_items_concat(seq![a[i]], a.skip(i + 1));
    assert(seq![a[i]].drop_first() =~= Seq::<VData>::empty());
    assert(spec_encode_items(seq![a[i]].drop_first()) =~= Seq::<u8>::empty());
    assert(spec_encode_items(seq![a[i]]) =~= spec_encode(a[i]));
    assert(spec_encode_items(a) =~= spec_encode_items(a.take(i)) + spec_encode(a[i])
        + spec_encode_items(a.skip(i + 1)));
}

/// The canonical encoding of a value, as a fresh byte vector.
pub fn encode_to_vec(v: &Value) -> (r: Vec<u8>)
    ensures
        r@ == spec_encode(vmodel(*v)),
        spec_bounded(vmodel(*v)),
{
    let mut out: Vec<u8> = Vec::new();
    encode_value(v, &mut out);
    proof {
        assert(out@ =~= spec_encode(vmodel(*v)));
    }
    out
}

} // verus!
