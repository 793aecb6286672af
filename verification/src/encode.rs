//! The encoder: scalar values to KIM byte runs.
//!
//! A value is widened to its length class's data-bit capacity, left-padded
//! with zero bits to a multiple of 7, split into 7-bit groups most
//! significant first, and emitted one byte per group.  Every byte but the
//! last of a run carries the continuation flag (top bit set); the last has
//! it clear.  Encoding is context-free per scalar value, so runs for a
//! whole text are simply concatenated in input order.

use vstd::prelude::*;

use crate::classes::{kim_byte_count, length_class, MAX_ENCODABLE};
use crate::KimError;

verus! {

/// The KIM byte run of one scalar value: its 7-bit groups, most significant
/// first, flagged on every byte but the last.
pub open spec fn kim_scalar_bytes(v: u32) -> Seq<u8>
    recommends
        v <= MAX_ENCODABLE,
{
    if v < 0x80 {
        seq![v as u8]
    } else if v < 0x800 {
        seq![(0x80 | (v >> 7)) as u8, (v & 0x7F) as u8]
    } else {
        seq![(0x80 | (v >> 14)) as u8, (0x80 | ((v >> 7) & 0x7F)) as u8, (v & 0x7F) as u8]
    }
}

/// The KIM byte sequence of a whole text: the runs of its scalar values,
/// concatenated in order.
pub open spec fn kim_text_bytes(s: Seq<char>) -> Seq<u8>
    decreases s.len(),
{
    if s.len() == 0 {
        Seq::empty()
    } else {
        kim_scalar_bytes(s[0] as u32) + kim_text_bytes(s.drop_first())
    }
}

/// A run is as long as the class table says: `kim_byte_count` bytes.
pub proof fn lemma_scalar_run_length(v: u32)
    requires
        v <= MAX_ENCODABLE,
    ensures
        kim_scalar_bytes(v).len() == kim_byte_count(length_class(v)),
{
}

/// For every Unicode scalar value, the KIM encoding takes at most as many
/// bytes as the ordinary UTF-8 encoding, and strictly fewer exactly for
/// values of the 4-byte class.
pub proof fn lemma_kim_never_longer_than_utf8(v: u32)
    requires
        vstd::utf8::is_scalar(v),
    ensures
        vstd::utf8::encode_scalar(v).len() == crate::classes::utf8_byte_count(length_class(v)),
        kim_scalar_bytes(v).len() <= vstd::utf8::encode_scalar(v).len(),
        kim_scalar_bytes(v).len() < vstd::utf8::encode_scalar(v).len() <==> length_class(v) == 4,
{
}

/// Encoding concatenates: the byte sequence of `a + b` is the byte
/// sequence of `a` followed by that of `b`, for any texts `a` and `b`.
pub proof fn lemma_text_bytes_concat(a: Seq<char>, b: Seq<char>)
    ensures
        kim_text_bytes(a + b) == kim_text_bytes(a) + kim_text_bytes(b),
    decreases a.len(),
{
    if a.len() == 0 {
        assert(a + b =~= b);
        assert(kim_text_bytes(a) + kim_text_bytes(b) =~= kim_text_bytes(b));
    } else {
        lemma_text_bytes_concat(a.drop_first(), b);
        assert((a + b).drop_first() =~= a.drop_first() + b);
        assert(kim_scalar_bytes(a[0] as u32) + (kim_text_bytes(a.drop_first()) + kim_text_bytes(b))
            =~= kim_text_bytes(a) + kim_text_bytes(b));
        assert((a + b)[0] == a[0]);
    }
}

/// Appending one character appends exactly its run.
pub proof fn lemma_text_bytes_push(s: Seq<char>, c: char)
    ensures
        kim_text_bytes(s.push(c)) == kim_text_bytes(s) + kim_scalar_bytes(c as u32),
{
    assert(s.push(c) =~= s + seq![c]);
    lemma_text_bytes_concat(s, seq![c]);
    assert(seq![c].drop_first() =~= Seq::<char>::empty());
    assert(kim_text_bytes(seq![c].drop_first()) == Seq::<u8>::empty());
    assert(kim_text_bytes(seq![c]) =~= kim_scalar_bytes(c as u32));
}

/// Encodes one integer as a KIM byte run appended to `out`.  A value that
/// fits no length class is rejected whole: nothing is appended and the
/// encode fails with `OutOfRange`.
pub fn encode_scalar_value_into(out: &mut Vec<u8>, v: u32) -> (r: Result<(), KimError>)
    ensures
        r is Ok <==> v <= MAX_ENCODABLE,
        r is Ok ==> final(out)@ == old(out)@ + kim_scalar_bytes(v),
        r is Err ==> final(out)@ == old(out)@ && r == Err::<(), KimError>(KimError::OutOfRange),
{
    if v < 0x80 {
        out.push(v as u8);
        assert(out@ =~= old(out)@ + kim_scalar_bytes(v));
        Ok(())
    } else if v < 0x800 {
        assert((0x80u32 | (v >> 7)) < 0x100 && (v & 0x7F) < 0x100) by (bit_vector)
            requires
                v < 0x800u32,
        ;
        out.push((0x80 | (v >> 7)) as u8);
        out.push((v & 0x7F) as u8);
        assert(out@ =~= old(out)@ + kim_scalar_bytes(v));
        Ok(())
    } else if v <= MAX_ENCODABLE {
        assert((0x80u32 | (v >> 14)) < 0x100 && (0x80u32 | ((v >> 7) & 0x7F)) < 0x100 && (v & 0x7F)
            < 0x100) by (bit_vector)
            requires
                v <= 0x1FFFFFu32,
        ;
        out.push((0x80 | (v >> 14)) as u8);
        out.push((0x80 | ((v >> 7) & 0x7F)) as u8);
        out.push((v & 0x7F) as u8);
        assert(out@ =~= old(out)@ + kim_scalar_bytes(v));
        Ok(())
    } else {
        Err(KimError::OutOfRange)
    }
}

/// Encodes one integer (normally a Unicode scalar value) as its own KIM
/// byte run.  `Err(OutOfRange)` exactly when the value fits no length
/// class — impossible for a scalar value taken from well-formed text, but
/// guarded against rather than letting a malformed run out.
pub fn encode_scalar_value(v: u32) -> (r: Result<Vec<u8>, KimError>)
    ensures
        match r {
            Ok(run) => v <= MAX_ENCODABLE && run@ == kim_scalar_bytes(v),
            Err(e) => v > MAX_ENCODABLE && e == KimError::OutOfRange,
        },
{
    let mut out: Vec<u8> = Vec::new();
    match encode_scalar_value_into(&mut out, v) {
        Ok(_) => {
            assert(out@ =~= kim_scalar_bytes(v));
            Ok(out)
        },
        Err(e) => Err(e),
    }
}

/// Encodes a whole text: every scalar value's run, in input order.  Total
/// for well-formed text, since every Unicode scalar value has a class.
pub fn encode_text(s: &str) -> (r: Vec<u8>)
    ensures
        r@ == kim_text_bytes(s@),
{
    let mut out: Vec<u8> = Vec::new();
    for c in it: s.chars()
        invariant
            it.seq() == s@,
            out@ == kim_text_bytes(s@.take(it.index() as int)),
    {
        proof {
            vstd::utf8::char_is_scalar(c);
            lemma_text_bytes_push(s@.take(it.index() as int), c);
            assert(s@.take(it.index() as int + 1) =~= s@.take(it.index() as int).push(c));
        }
        let _ = encode_scalar_value_into(&mut out, c as u32);
    }
    assert(s@.take(s@.len() as int) =~= s@);
    out
}

} // verus!
