//! The decoder: KIM bytes back to text.
//!
//! Bytes are consumed in order into an accumulator; a byte with the
//! continuation flag clear ends the current run, and the accumulated
//! integer must then be a Unicode scalar value.  A stream that ends inside
//! a run is `Truncated`; a run that reconstructs anything outside the
//! scalar-value range is `InvalidScalarValue`.  Decoding is all-or-nothing:
//! on any error no partial text is returned.

use vstd::prelude::*;
use vstd::utf8::{char_is_scalar, char_u32_cast, is_scalar};

use crate::classes::MAX_ENCODABLE;
use crate::encode::{kim_scalar_bytes, kim_text_bytes};
use crate::KimError;

verus! {

/// Whether a KIM byte carries the continuation flag: more bytes of the
/// same run follow.
pub open spec fn has_continuation(b: u8) -> bool {
    b & 0x80 == 0x80
}

/// The 7-bit payload group of a KIM byte.
pub open spec fn group_of(b: u8) -> nat {
    (b & 0x7F) as nat
}

/// What decoding the rest of a stream yields, given the bits already
/// accumulated from the current run (`acc`) and whether the stream stands
/// inside an unterminated run (`mid_run`).
pub open spec fn kim_decode_partial(bs: Seq<u8>, acc: nat, mid_run: bool) -> Result<
    Seq<char>,
    KimError,
>
    decreases bs.len(),
{
    if bs.len() == 0 {
        if mid_run {
            Err(KimError::Truncated)
        } else {
            Ok(Seq::empty())
        }
    } else {
        let b = bs[0];
        let acc2 = acc * 0x80 + group_of(b);
        if has_continuation(b) {
            kim_decode_partial(bs.drop_first(), acc2, true)
        } else if acc2 <= 0x10FFFF && is_scalar(acc2 as u32) {
            match kim_decode_partial(bs.drop_first(), 0, false) {
                Ok(rest) => Ok(seq![(acc2 as u32) as char] + rest),
                Err(e) => Err(e),
            }
        } else {
            Err(KimError::InvalidScalarValue)
        }
    }
}

/// What decoding a whole KIM byte sequence yields.
pub open spec fn kim_decode(bs: Seq<u8>) -> Result<Seq<char>, KimError> {
    kim_decode_partial(bs, 0, false)
}

/// Relies on `char::from_u32`: for every integer at most 0x10FFFF and
/// outside the surrogate range it returns `Some` of the character with
/// exactly that scalar value.
#[verifier::external_body]
fn scalar_to_char(v: u32) -> (c: char)
    requires
        is_scalar(v),
    ensures
        c as u32 == v,
{
    char::from_u32(v).unwrap()
}

/// Relies on `String::push`: it appends the given character to the end of
/// the string.
#[verifier::external_body]
fn push_char(s: &mut String, c: char)
    ensures
        final(s)@ == old(s)@.push(c),
{
    s.push(c);
}

/// Flag and payload of one byte, and one clamped accumulator step.
proof fn lemma_byte_step(b: u8, acc: u32, low: u32)
    by (bit_vector)
    requires
        acc <= 0x110000,
        low == (b & 0x7F) as u32,
    ensures
        (b & 0x80 == 0x80) <==> b >= 0x80,
        low <= 0x7F,
        ((acc << 7) | low) == acc * 0x80 + low,
{
}

/// Decoding one run of `v`: the groups reassemble exactly `v`.  The three
/// facts cover the three run shapes (1, 2 and 3 bytes).
proof fn lemma_run_bits_class1(v: u32)
    by (bit_vector)
    requires
        v < 0x80,
    ensures
        (v as u8) & 0x80 != 0x80,
        (((v as u8) & 0x7F) as u32) == v,
{
}

proof fn lemma_run_bits_class2(v: u32)
    by (bit_vector)
    requires
        0x80 <= v < 0x800,
    ensures
        ((0x80 | (v >> 7)) as u8) & 0x80 == 0x80,
        ((v & 0x7F) as u8) & 0x80 != 0x80,
        ((((0x80 | (v >> 7)) as u8) & 0x7F) as u32) == v >> 7,
        ((((v & 0x7F) as u8) & 0x7F) as u32) == v & 0x7F,
        (v >> 7) * 0x80 + (v & 0x7F) == v,
{
}

proof fn lemma_run_bits_class34(v: u32)
    by (bit_vector)
    requires
        0x800 <= v <= 0x1FFFFF,
    ensures
        ((0x80 | (v >> 14)) as u8) & 0x80 == 0x80,
        ((0x80 | ((v >> 7) & 0x7F)) as u8) & 0x80 == 0x80,
        ((v & 0x7F) as u8) & 0x80 != 0x80,
        ((((0x80 | (v >> 14)) as u8) & 0x7F) as u32) == v >> 14,
        ((((0x80 | ((v >> 7) & 0x7F)) as u8) & 0x7F) as u32) == (v >> 7) & 0x7F,
        ((((v & 0x7F) as u8) & 0x7F) as u32) == v & 0x7F,
        ((v >> 14) * 0x80 + ((v >> 7) & 0x7F)) * 0x80 + (v & 0x7F) == v,
{
}

/// Decoding one run: the run of an encodable value `v` standing before any
/// `rest` decodes to `v`'s character followed by the decode of `rest` when
/// `v` is a Unicode scalar value, and is rejected as `InvalidScalarValue`
/// otherwise.
pub proof fn lemma_decode_run(v: u32, rest: Seq<u8>)
    requires
        v <= MAX_ENCODABLE,
    ensures
        is_scalar(v) ==> kim_decode(kim_scalar_bytes(v) + rest) == match kim_decode(rest) {
            Ok(t) => Ok::<Seq<char>, KimError>(seq![v as char] + t),
            Err(e) => Err::<Seq<char>, KimError>(e),
        },
        !is_scalar(v) ==> kim_decode(kim_scalar_bytes(v) + rest) == Err::<Seq<char>, KimError>(
            KimError::InvalidScalarValue,
        ),
{
    let bs = kim_scalar_bytes(v) + rest;
    if v < 0x80 {
        lemma_run_bits_class1(v);
        assert(bs[0] == (v as u8));
        assert(bs.drop_first() =~= rest);
        assert(0 * 0x80 + group_of(v as u8) == v);
    } else if v < 0x800 {
        lemma_run_bits_class2(v);
        let b0 = (0x80 | (v >> 7)) as u8;
        let b1 = (v & 0x7F) as u8;
        assert(bs[0] == b0);
        assert(bs.drop_first() =~= seq![b1] + rest);
        let a1 = 0 * 0x80 + group_of(b0);
        assert(a1 == (v >> 7));
        assert((seq![b1] + rest)[0] == b1);
        assert((seq![b1] + rest).drop_first() =~= rest);
        assert(a1 * 0x80 + group_of(b1) == (v >> 7) * 0x80 + (v & 0x7F));
        assert(kim_decode_partial(bs, 0, false) == kim_decode_partial(seq![b1] + rest, a1, true));
    } else {
        lemma_run_bits_class34(v);
        let b0 = (0x80 | (v >> 14)) as u8;
        let b1 = (0x80 | ((v >> 7) & 0x7F)) as u8;
        let b2 = (v & 0x7F) as u8;
        assert(bs[0] == b0);
        assert(bs.drop_first() =~= seq![b1, b2] + rest);
        let a1 = 0 * 0x80 + group_of(b0);
        assert(a1 == (v >> 14));
        assert((seq![b1, b2] + rest)[0] == b1);
        assert((seq![b1, b2] + rest).drop_first() =~= seq![b2] + rest);
        let a2 = a1 * 0x80 + group_of(b1);
        assert(a2 == (v >> 14) * 0x80 + ((v >> 7) & 0x7F));
        assert((seq![b2] + rest)[0] == b2);
        assert((seq![b2] + rest).drop_first() =~= rest);
        assert(a2 * 0x80 + group_of(b2) == v);
        assert(kim_decode_partial(bs, 0, false) == kim_decode_partial(seq![b1, b2] + rest, a1, true));
        assert(kim_decode_partial(seq![b1, b2] + rest, a1, true) == kim_decode_partial(
            seq![b2] + rest,
            a2,
            true,
        ));
    }
}

/// Decoding behind a well-formed prefix: the encoded text comes off the
/// front unchanged, and whatever decoding the remainder yields — text or
/// error — is passed through.
pub proof fn lemma_decode_text_prefix(t: Seq<char>, x: Seq<u8>)
    ensures
        kim_decode(kim_text_bytes(t) + x) == match kim_decode(x) {
            Ok(u) => Ok::<Seq<char>, KimError>(t + u),
            Err(e) => Err::<Seq<char>, KimError>(e),
        },
    decreases t.len(),
{
    if t.len() == 0 {
        assert(kim_text_bytes(t) + x =~= x);
        match kim_decode(x) {
            Ok(u) => {
                assert(t + u =~= u);
            },
            Err(_) => {},
        }
    } else {
        let v = t[0] as u32;
        char_is_scalar(t[0]);
        char_u32_cast(t[0], v);
        let tail = t.drop_first();
        lemma_decode_text_prefix(tail, x);
        lemma_decode_run(v, kim_text_bytes(tail) + x);
        assert(kim_text_bytes(t) + x =~= kim_scalar_bytes(v) + (kim_text_bytes(tail) + x));
        match kim_decode(x) {
            Ok(u) => {
                assert(seq![v as char] + (tail + u) =~= t + u);
            },
            Err(_) => {},
        }
    }
}

/// Round trip: decoding the encoding of any text yields exactly that text.
pub proof fn lemma_round_trip(s: Seq<char>)
    ensures
        kim_decode(kim_text_bytes(s)) == Ok::<Seq<char>, KimError>(s),
{
    lemma_decode_text_prefix(s, Seq::empty());
    assert(kim_text_bytes(s) + Seq::<u8>::empty() =~= kim_text_bytes(s));
    assert(kim_decode(Seq::<u8>::empty()) == Ok::<Seq<char>, KimError>(Seq::<char>::empty()));
    assert(s + Seq::<char>::empty() =~= s);
}

proof fn lemma_unterminated_tail(bs: Seq<u8>, acc: nat, mid_run: bool)
    requires
        mid_run || bs.len() > 0,
        forall|i: int| 0 <= i < bs.len() ==> has_continuation(#[trigger] bs[i]),
    ensures
        kim_decode_partial(bs, acc, mid_run) == Err::<Seq<char>, KimError>(KimError::Truncated),
    decreases bs.len(),
{
    if bs.len() > 0 {
        lemma_unterminated_tail(bs.drop_first(), acc * 0x80 + group_of(bs[0]), true);
    }
}

proof fn lemma_flagged_last_byte_fails(bs: Seq<u8>, acc: nat, mid_run: bool)
    requires
        bs.len() > 0,
        has_continuation(bs.last()),
    ensures
        kim_decode_partial(bs, acc, mid_run) is Err,
    decreases bs.len(),
{
    let b = bs[0];
    if bs.len() == 1 {
        assert(bs.last() == b);
    } else {
        assert(bs.drop_first().last() == bs.last());
        if has_continuation(b) {
            lemma_flagged_last_byte_fails(bs.drop_first(), acc * 0x80 + group_of(b), true);
        } else {
            lemma_flagged_last_byte_fails(bs.drop_first(), 0, false);
        }
    }
}

/// No sequence whose last byte carries the continuation flag ever decodes:
/// its final run is unterminated, so decoding fails — with `Truncated` when
/// it is reached, or with `InvalidScalarValue` from an earlier run.
pub proof fn lemma_flagged_last_byte_never_decodes(bs: Seq<u8>)
    requires
        bs.len() > 0,
        has_continuation(bs.last()),
    ensures
        kim_decode(bs) is Err,
{
    lemma_flagged_last_byte_fails(bs, 0, false);
}

/// A stream that ends inside an unterminated run is rejected as
/// `Truncated`: a well-formed prefix followed by a nonempty tail of
/// continuation-flagged bytes fails with exactly that error.
pub proof fn lemma_truncated_rejected(t: Seq<char>, tail: Seq<u8>)
    requires
        tail.len() > 0,
        forall|i: int| 0 <= i < tail.len() ==> has_continuation(#[trigger] tail[i]),
    ensures
        kim_decode(kim_text_bytes(t) + tail) == Err::<Seq<char>, KimError>(KimError::Truncated),
{
    lemma_decode_text_prefix(t, tail);
    lemma_unterminated_tail(tail, 0, false);
}

/// A run that reconstructs a value in the surrogate range is rejected as
/// `InvalidScalarValue`, wherever it stands after a well-formed prefix and
/// whatever bytes follow it.
pub proof fn lemma_surrogate_rejected(t: Seq<char>, w: u32, rest: Seq<u8>)
    requires
        0xD800 <= w <= 0xDFFF,
    ensures
        kim_decode(kim_text_bytes(t) + (kim_scalar_bytes(w) + rest)) == Err::<Seq<char>, KimError>(
            KimError::InvalidScalarValue,
        ),
{
    lemma_decode_text_prefix(t, kim_scalar_bytes(w) + rest);
    lemma_decode_run(w, rest);
}

/// Decodes a KIM byte sequence, reconstructing one character per run.
/// Returns exactly what the decoding function of the model yields.
pub fn decode_bytes(bytes: &Vec<u8>) -> (r: Result<String, KimError>)
    ensures
        match kim_decode(bytes@) {
            Ok(t) => r matches Ok(out) && out@ == t,
            Err(e) => r matches Err(e2) && e2 == e,
        },
{
    let ghost total = bytes@;
    let mut out = String::new();
    let mut acc: u32 = 0;
    let ghost mut gacc: nat = 0;
    let mut mid_run = false;
    let mut i: usize = 0;
    proof {
        assert(total.skip(0) =~= total);
        if let Ok(t) = kim_decode(total) {
            assert(out@ + t =~= t);
        }
    }
    while i < bytes.len()
        invariant
            i <= bytes.len(),
            total == bytes@,
            !mid_run ==> gacc == 0 && acc == 0,
            mid_run ==> (gacc <= 0x10FFFF ==> acc == gacc),
            mid_run ==> (gacc > 0x10FFFF ==> acc > 0x10FFFF),
            acc <= 0x110000,
            (match kim_decode_partial(total.skip(i as int), gacc, mid_run) {
                Ok(t) => kim_decode(total) == Ok::<Seq<char>, KimError>(out@ + t),
                Err(e) => kim_decode(total) == Err::<Seq<char>, KimError>(e),
            }),
        decreases bytes.len() - i,
    {
        let b = bytes[i];
        let low = (b & 0x7F) as u32;
        proof {
            lemma_byte_step(b, acc, low);
            assert(total.skip(i as int)[0] == b);
            assert(total.skip(i as int).drop_first() =~= total.skip(i as int + 1));
        }
        let shifted = (acc << 7) | low;
        let ghost gacc2 = gacc * 0x80 + group_of(b);
        proof {
            if gacc > 0x10FFFF {
                assert(gacc * 0x80 + group_of(b) > 0x10FFFF);
            }
        }
        if b >= 0x80 {
            acc = if shifted > 0x10FFFF {
                0x110000
            } else {
                shifted
            };
            mid_run = true;
            proof {
                gacc = gacc2;
            }
        } else {
            let valid = shifted <= 0x10FFFF && !(0xD800 <= shifted && shifted <= 0xDFFF);
            proof {
                if gacc2 <= 0x10FFFF {
                    assert(shifted == gacc2);
                }
                assert(valid == (gacc2 <= 0x10FFFF && is_scalar(gacc2 as u32)));
            }
            if valid {
                let c = scalar_to_char(shifted);
                proof {
                    char_u32_cast(c, shifted);
                }
                let ghost out_before = out@;
                push_char(&mut out, c);
                proof {
                    if let Ok(rest) = kim_decode_partial(total.skip(i as int + 1), 0, false) {
                        assert(out_before + (seq![c] + rest) =~= out@ + rest);
                    }
                }
                acc = 0;
                mid_run = false;
                proof {
                    gacc = 0;
                }
            } else {
                return Err(KimError::InvalidScalarValue);
            }
        }
        i = i + 1;
    }
    proof {
        assert(total.skip(i as int) =~= Seq::<u8>::empty());
        if !mid_run {
            assert(out@ + Seq::<char>::empty() =~= out@);
        }
    }
    if mid_run {
        Err(KimError::Truncated)
    } else {
        Ok(out)
    }
}

} // verus!
