//! Structured serialization of the operand model: a lossless, tagged
//! byte-level encode/decode for every operand type.  Sum types are encoded
//! as a tag byte followed by the payload; structs field by field.  An
//! immediate is stored in two forms, its raw value (sign and little-endian
//! base-2^32 digits) and its hexadecimal rendering, and decoding fails if
//! the two disagree.

use vstd::prelude::*;

use crate::felt::{
    ascii_bytes, canonical_limbs, hex_chars, signed_value, FeltView, FieldElement,
};
use crate::operand::{
    BinOpOperand, BinOpView, CellRef, DerefOrImmediate, DoiView, Operation, Register, ResOpView,
    ResOperand,
};

verus! {

broadcast use vstd::std_specs::vec::group_vec_axioms;

/// Why a structured decode failed.
#[derive(Copy, Clone, Debug, PartialEq, Eq, Structural)]
pub enum DecodeError {
    /// The input ends before the end of the encoded value.
    Truncated,
    /// A variant tag byte holds an unknown value.
    BadTag,
    /// The sign byte of an immediate is neither zero nor one.
    BadSign,
    /// An immediate's digits are not in canonical form.
    NonCanonical,
    /// The hex field of an immediate does not denote its value field.
    HexMismatch,
}

/// The little-endian encoding of a 64-bit length field.
pub open spec fn spec_enc_u64(x: u64) -> Seq<u8> {
    seq![
        (x & 0xff) as u8,
        ((x >> 8) & 0xff) as u8,
        ((x >> 16) & 0xff) as u8,
        ((x >> 24) & 0xff) as u8,
        ((x >> 32) & 0xff) as u8,
        ((x >> 40) & 0xff) as u8,
        ((x >> 48) & 0xff) as u8,
        ((x >> 56) & 0xff) as u8,
    ]
}

/// The number read back from a little-endian 64-bit field.
pub open spec fn spec_dec_u64(b: Seq<u8>) -> u64
    recommends
        b.len() == 8,
{
    (b[0] as u64) | ((b[1] as u64) << 8) | ((b[2] as u64) << 16) | ((b[3] as u64) << 24) | ((
    b[4] as u64) << 32) | ((b[5] as u64) << 40) | ((b[6] as u64) << 48) | ((b[7] as u64) << 56)
}

/// Decoding the encoding of a 64-bit field yields the field.
pub proof fn lemma_u64_round_trip(x: u64)
    ensures
        spec_dec_u64(spec_enc_u64(x)) == x,
{
    assert(((x & 0xff) as u8 as u64) | (((x >> 8) & 0xff) as u8 as u64) << 8 | (((x >> 16)
        & 0xff) as u8 as u64) << 16 | (((x >> 24) & 0xff) as u8 as u64) << 24 | (((x >> 32)
        & 0xff) as u8 as u64) << 32 | (((x >> 40) & 0xff) as u8 as u64) << 40 | (((x >> 48)
        & 0xff) as u8 as u64) << 48 | (((x >> 56) & 0xff) as u8 as u64) << 56 == x)
        by (bit_vector);
}

/// The little-endian encoding of one base-2^32 digit.
pub open spec fn spec_enc_u32(x: u32) -> Seq<u8> {
    seq![(x & 0xff) as u8, ((x >> 8) & 0xff) as u8, ((x >> 16) & 0xff) as u8, ((x >> 24)
        & 0xff) as u8]
}

/// The digit read back from a little-endian 32-bit field.
pub open spec fn spec_dec_u32(b: Seq<u8>) -> u32
    recommends
        b.len() == 4,
{
    (b[0] as u32) | ((b[1] as u32) << 8) | ((b[2] as u32) << 16) | ((b[3] as u32) << 24)
}

/// Decoding the encoding of a 32-bit digit yields the digit.
pub proof fn lemma_u32_round_trip(x: u32)
    ensures
        spec_dec_u32(spec_enc_u32(x)) == x,
{
    assert(((x & 0xff) as u8 as u32) | (((x >> 8) & 0xff) as u8 as u32) << 8 | (((x >> 16)
        & 0xff) as u8 as u32) << 16 | (((x >> 24) & 0xff) as u8 as u32) << 24 == x)
        by (bit_vector);
}

/// The little-endian encoding of a 16-bit signed offset.
pub open spec fn spec_enc_i16(x: i16) -> Seq<u8> {
    seq![((x as u16) & 0xff) as u8, (((x as u16) >> 8) & 0xff) as u8]
}

/// The offset read back from a little-endian 16-bit field.
pub open spec fn spec_dec_i16(b: Seq<u8>) -> i16
    recommends
        b.len() == 2,
{
    ((b[0] as u16) | ((b[1] as u16) << 8)) as i16
}

/// Decoding the encoding of a 16-bit offset yields the offset.
pub proof fn lemma_i16_round_trip(x: i16)
    ensures
        spec_dec_i16(spec_enc_i16(x)) == x,
{
    assert(((((x as u16) & 0xff) as u8 as u16) | (((((x as u16) >> 8) & 0xff) as u8 as u16)
        << 8)) as i16 == x) by (bit_vector);
}

/// Appends the little-endian encoding of a 64-bit length field.
fn enc_u64(out: &mut Vec<u8>, x: u64)
    ensures
        final(out)@ == old(out)@ + spec_enc_u64(x),
{
    out.push((x & 0xff) as u8);
    out.push(((x >> 8) & 0xff) as u8);
    out.push(((x >> 16) & 0xff) as u8);
    out.push(((x >> 24) & 0xff) as u8);
    out.push(((x >> 32) & 0xff) as u8);
    out.push(((x >> 40) & 0xff) as u8);
    out.push(((x >> 48) & 0xff) as u8);
    out.push(((x >> 56) & 0xff) as u8);
    proof {
        assert(out@ =~= old(out)@ + spec_enc_u64(x));
    }
}

/// Appends the little-endian encoding of one base-2^32 digit.
fn enc_u32(out: &mut Vec<u8>, x: u32)
    ensures
        final(out)@ == old(out)@ + spec_enc_u32(x),
{
    out.push((x & 0xff) as u8);
    out.push(((x >> 8) & 0xff) as u8);
    out.push(((x >> 16) & 0xff) as u8);
    out.push(((x >> 24) & 0xff) as u8);
    proof {
        assert(out@ =~= old(out)@ + spec_enc_u32(x));
    }
}

/// Appends the little-endian encoding of a 16-bit signed offset.
fn enc_i16(out: &mut Vec<u8>, x: i16)
    ensures
        final(out)@ == old(out)@ + spec_enc_i16(x),
{
    let u: u16 = x as u16;
    out.push((u & 0xff) as u8);
    out.push(((u >> 8) & 0xff) as u8);
    proof {
        assert(out@ =~= old(out)@ + spec_enc_i16(x));
    }
}

/// The concatenated little-endian encodings of a digit sequence.
pub open spec fn spec_enc_limbs(limbs: Seq<u32>) -> Seq<u8>
    decreases limbs.len(),
{
    if limbs.len() == 0 {
        Seq::empty()
    } else {
        spec_enc_u32(limbs[0]) + spec_enc_limbs(limbs.skip(1))
    }
}

/// Each digit takes four bytes.
pub proof fn lemma_enc_limbs_len(limbs: Seq<u32>)
    ensures
        spec_enc_limbs(limbs).len() == 4 * limbs.len(),
    decreases limbs.len(),
{
    if limbs.len() > 0 {
        lemma_enc_limbs_len(limbs.skip(1));
    }
}

/// Appending one digit appends its four bytes.
pub proof fn lemma_enc_limbs_push(limbs: Seq<u32>, x: u32)
    ensures
        spec_enc_limbs(limbs.push(x)) == spec_enc_limbs(limbs) + spec_enc_u32(x),
    decreases limbs.len(),
{
    if limbs.len() == 0 {
        reveal_with_fuel(spec_enc_limbs, 3);
        assert(limbs.push(x).skip(1) =~= Seq::<u32>::empty());
        assert(spec_enc_limbs(limbs.push(x)) =~= spec_enc_limbs(limbs) + spec_enc_u32(x));
    } else {
        lemma_enc_limbs_push(limbs.skip(1), x);
        assert(limbs.push(x).skip(1) =~= limbs.skip(1).push(x));
        assert(limbs.push(x)[0] == limbs[0]);
        assert(spec_enc_limbs(limbs.push(x)) == spec_enc_u32(limbs[0]) + spec_enc_limbs(
            limbs.skip(1).push(x),
        ));
        assert(spec_enc_u32(limbs[0]) + (spec_enc_limbs(limbs.skip(1)) + spec_enc_u32(x)) =~= (
        spec_enc_u32(limbs[0]) + spec_enc_limbs(limbs.skip(1))) + spec_enc_u32(x));
    }
}

/// The digit sequence read back from concatenated four-byte fields.
pub open spec fn spec_dec_limbs(b: Seq<u8>) -> Seq<u32>
    decreases b.len(),
{
    if b.len() < 4 {
        Seq::empty()
    } else {
        seq![spec_dec_u32(b.subrange(0, 4))] + spec_dec_limbs(b.skip(4))
    }
}

/// Reading four more bytes appends one more digit.
pub proof fn lemma_dec_limbs_snoc(b: Seq<u8>, c: Seq<u8>)
    requires
        b.len() % 4 == 0,
        c.len() == 4,
    ensures
        spec_dec_limbs(b + c) == spec_dec_limbs(b).push(spec_dec_u32(c)),
    decreases b.len(),
{
    if b.len() == 0 {
        reveal_with_fuel(spec_dec_limbs, 3);
        assert(b + c =~= c);
        assert(c.subrange(0, 4) =~= c);
        assert(c.skip(4) =~= Seq::<u8>::empty());
        assert(spec_dec_limbs(b + c) =~= spec_dec_limbs(b).push(spec_dec_u32(c)));
    } else {
        lemma_dec_limbs_snoc(b.skip(4), c);
        assert((b + c).subrange(0, 4) =~= b.subrange(0, 4));
        assert((b + c).skip(4) =~= b.skip(4) + c);
        assert(spec_dec_limbs(b + c) == seq![spec_dec_u32(b.subrange(0, 4))] + spec_dec_limbs(
            b.skip(4),
        ).push(spec_dec_u32(c)));
        assert(seq![spec_dec_u32(b.subrange(0, 4))] + spec_dec_limbs(b.skip(4)).push(
            spec_dec_u32(c),
        ) =~= (seq![spec_dec_u32(b.subrange(0, 4))] + spec_dec_limbs(b.skip(4))).push(
            spec_dec_u32(c),
        ));
    }
}

/// Decoding the encoding of a digit sequence yields the sequence.
pub proof fn lemma_dec_enc_limbs(limbs: Seq<u32>)
    ensures
        spec_dec_limbs(spec_enc_limbs(limbs)) == limbs,
    decreases limbs.len(),
{
    if limbs.len() == 0 {
        assert(spec_dec_limbs(spec_enc_limbs(limbs)) =~= limbs);
    } else {
        let e = spec_enc_limbs(limbs);
        lemma_enc_limbs_len(limbs.skip(1));
        assert(e.subrange(0, 4) =~= spec_enc_u32(limbs[0]));
        assert(e.skip(4) =~= spec_enc_limbs(limbs.skip(1)));
        lemma_u32_round_trip(limbs[0]);
        lemma_dec_enc_limbs(limbs.skip(1));
        assert(spec_dec_limbs(e) =~= limbs);
    }
}

/// The hexadecimal field stored beside an immediate's raw value: the ASCII
/// bytes of the hexadecimal rendering of the denoted integer.
pub open spec fn spec_hex_field(v: FeltView) -> Seq<u8> {
    ascii_bytes(hex_chars(v.value()))
}

/// The serialized form of an immediate: a sign byte, the digit count, the
/// little-endian digits, and the hexadecimal rendering of the value.
pub open spec fn spec_enc_felt(v: FeltView) -> Seq<u8> {
    seq![if v.negative { 1u8 } else { 0u8 }] + spec_enc_u64(v.limbs.len() as u64)
        + spec_enc_limbs(v.limbs) + spec_hex_field(v)
}

/// The immediate read back from its serialized form, with the count of
/// bytes consumed; or the reason the input is malformed.  The hexadecimal
/// field must denote exactly the decoded value.
pub open spec fn spec_dec_felt(s: Seq<u8>) -> Result<(FeltView, nat), DecodeError> {
    if s.len() < 1 {
        Err(DecodeError::Truncated)
    } else if s[0] != 0 && s[0] != 1 {
        Err(DecodeError::BadSign)
    } else if s.len() < 9 {
        Err(DecodeError::Truncated)
    } else {
        let negative = s[0] == 1;
        let count = spec_dec_u64(s.subrange(1, 9)) as int;
        if s.len() < 9 + 4 * count {
            Err(DecodeError::Truncated)
        } else {
            let limbs = spec_dec_limbs(s.subrange(9, 9 + 4 * count));
            if !canonical_limbs(negative, limbs) {
                Err(DecodeError::NonCanonical)
            } else {
                let hex = ascii_bytes(hex_chars(signed_value(negative, limbs)));
                let p = 9 + 4 * count;
                if s.len() < p + hex.len() {
                    Err(DecodeError::Truncated)
                } else if s.subrange(p, p + hex.len() as int) != hex {
                    Err(DecodeError::HexMismatch)
                } else {
                    Ok((FeltView { negative, limbs }, (p + hex.len()) as nat))
                }
            }
        }
    }
}

/// Decoding the encoding of a canonical immediate, whatever follows it,
/// yields that immediate and consumes exactly its encoding.
pub proof fn lemma_dec_enc_felt(v: FeltView, rest: Seq<u8>)
    requires
        felt_encodable(v),
    ensures
        spec_dec_felt(spec_enc_felt(v) + rest) == Ok::<(FeltView, nat), DecodeError>(
            (v, spec_enc_felt(v).len() as nat),
        ),
{
    let s = spec_enc_felt(v) + rest;
    let sign: u8 = if v.negative { 1u8 } else { 0u8 };
    let cnt: u64 = v.limbs.len() as u64;
    let hex = spec_hex_field(v);
    lemma_enc_limbs_len(v.limbs);
    assert(s[0] == sign);
    assert(s.subrange(1, 9) =~= spec_enc_u64(cnt));
    lemma_u64_round_trip(cnt);
    let count = v.limbs.len() as int;
    assert(s.subrange(9, 9 + 4 * count) =~= spec_enc_limbs(v.limbs));
    lemma_dec_enc_limbs(v.limbs);
    let p = 9 + 4 * count;
    assert(s.subrange(p, p + hex.len() as int) =~= hex);
    assert((FeltView { negative: v.negative, limbs: v.limbs }) == v);
    assert(spec_enc_felt(v).len() == p + hex.len());
}

/// Reads a little-endian 64-bit field.
fn dec_u64(data: &Vec<u8>, pos: usize) -> (r: u64)
    requires
        pos + 8 <= data.len(),
    ensures
        r == spec_dec_u64(data@.subrange(pos as int, pos as int + 8)),
{
    let r = (data[pos] as u64) | ((data[pos + 1] as u64) << 8) | ((data[pos + 2] as u64) << 16)
        | ((data[pos + 3] as u64) << 24) | ((data[pos + 4] as u64) << 32) | ((data[pos
        + 5] as u64) << 40) | ((data[pos + 6] as u64) << 48) | ((data[pos + 7] as u64) << 56);
    r
}

/// Reads a little-endian 32-bit digit.
fn dec_u32(data: &Vec<u8>, pos: usize) -> (r: u32)
    requires
        pos + 4 <= data.len(),
    ensures
        r == spec_dec_u32(data@.subrange(pos as int, pos as int + 4)),
{
    let r = (data[pos] as u32) | ((data[pos + 1] as u32) << 8) | ((data[pos + 2] as u32) << 16)
        | ((data[pos + 3] as u32) << 24);
    r
}

/// Reads a little-endian 16-bit signed offset.
fn dec_i16(data: &Vec<u8>, pos: usize) -> (r: i16)
    requires
        pos + 2 <= data.len(),
    ensures
        r == spec_dec_i16(data@.subrange(pos as int, pos as int + 2)),
{
    let u: u16 = (data[pos] as u16) | ((data[pos + 1] as u16) << 8);
    let r: i16 = #[verifier::truncate] (u as i16);
    r
}

impl FieldElement {
    /// Appends the structured serialization of this immediate: sign byte,
    /// digit count, digits, and the hexadecimal rendering of the value.
    pub fn encode(&self, out: &mut Vec<u8>)
        ensures
            final(out)@ == old(out)@ + spec_enc_felt(self@),
    {
        out.push(if self.negative { 1u8 } else { 0u8 });
        enc_u64(out, self.limbs.len() as u64);
        let ghost mid = out@;
        let mut i: usize = 0;
        while i < self.limbs.len()
            invariant
                i <= self.limbs.len(),
                out@ == mid + spec_enc_limbs(self.limbs@.take(i as int)),
            decreases self.limbs.len() - i,
        {
            enc_u32(out, self.limbs[i]);
            proof {
                assert(self.limbs@.take(i + 1) =~= self.limbs@.take(i as int).push(
                    self.limbs@[i as int],
                ));
                lemma_enc_limbs_push(self.limbs@.take(i as int), self.limbs@[i as int]);
                assert(out@ =~= mid + spec_enc_limbs(self.limbs@.take(i + 1)));
            }
            i = i + 1;
        }
        let mut hex = self.hex_bytes();
        out.append(&mut hex);
        proof {
            assert(self.limbs@.take(self.limbs@.len() as int) =~= self.limbs@);
            assert(out@ =~= old(out)@ + spec_enc_felt(self@));
        }
    }

    /// Decodes an immediate from `data` starting at `pos`; on success the
    /// decoded value is canonical and its hexadecimal field denotes its raw
    /// value, and the new position follows the encoding.
    #[verifier::loop_isolation(false)]
    #[verifier::rlimit(100)]
    pub fn decode(data: &Vec<u8>, pos: usize) -> (r: Result<(FieldElement, usize), DecodeError>)
        requires
            pos <= data.len(),
        ensures
            spec_dec_felt(data@.skip(pos as int)) matches Ok(p) ==> (r matches Ok(q) && q.0@
                == p.0 && q.1 == pos + p.1),
            spec_dec_felt(data@.skip(pos as int)) matches Err(e) ==> r == Err::<
                (FieldElement, usize),
                DecodeError,
            >(e),
            r matches Ok(q) ==> pos < q.1 <= data.len(),
    {
        let ghost s = data@.skip(pos as int);
        if data.len() - pos < 1 {
            return Err(DecodeError::Truncated);
        }
        let sign = data[pos];
        proof {
            assert(s[0] == data@[pos as int]);
        }
        if sign != 0 && sign != 1 {
            return Err(DecodeError::BadSign);
        }
        if data.len() - pos < 9 {
            return Err(DecodeError::Truncated);
        }
        let negative = sign == 1;
        let cnt64 = dec_u64(data, pos + 1);
        proof {
            assert(data@.subrange(pos + 1, pos as int + 9) =~= s.subrange(1, 9));
        }
        let rem: usize = data.len() - pos - 9;
        if cnt64 > (rem / 4) as u64 {
            proof {
                assert(4 * ((rem / 4) as int) <= rem as int);
                assert(s.len() < 9 + 4 * (cnt64 as int));
            }
            return Err(DecodeError::Truncated);
        }
        let count = cnt64 as usize;
        proof {
            assert(4 * (count as int) <= 4 * ((rem / 4) as int) <= rem as int);
        }
        let limb_start = pos + 9;
        let mut limbs: Vec<u32> = Vec::new();
        let mut i: usize = 0;
        while i < count
            invariant
                i <= count,
                pos + 9 == limb_start,
                pos <= data.len(),
                4 * (count as int) <= data.len() - pos - 9,
                limbs@ == spec_dec_limbs(data@.subrange(limb_start as int, limb_start + 4 * i)),
                limbs@.len() == i,
            decreases count - i,
        {
            let limb = dec_u32(data, limb_start + 4 * i);
            limbs.push(limb);
            proof {
                let prev = data@.subrange(limb_start as int, limb_start + 4 * i);
                let c = data@.subrange(limb_start + 4 * i, limb_start + 4 * i + 4);
                assert(prev.len() % 4 == 0);
                lemma_dec_limbs_snoc(prev, c);
                assert(prev + c =~= data@.subrange(limb_start as int, limb_start + 4 * (i + 1)));
            }
            i = i + 1;
        }
        proof {
            assert(data@.subrange(limb_start as int, limb_start + 4 * (count as int)) =~= s.subrange(
                9,
                9 + 4 * (cnt64 as int),
            ));
        }
        if limbs.len() > 0 {
            if limbs[limbs.len() - 1] == 0 {
                proof {
                    assert(limbs@.last() == 0);
                }
                return Err(DecodeError::NonCanonical);
            }
        } else if negative {
            return Err(DecodeError::NonCanonical);
        }
        let f = FieldElement { negative, limbs };
        let expected = f.hex_bytes();
        let hex_start = limb_start + 4 * count;
        if data.len() - hex_start < expected.len() {
            return Err(DecodeError::Truncated);
        }
        let mut j: usize = 0;
        while j < expected.len()
            invariant
                j <= expected.len(),
                hex_start + expected.len() <= data.len(),
                forall|k: int| 0 <= k < j ==> data@[hex_start + k] == expected@[k],
            decreases expected.len() - j,
        {
            if data[hex_start + j] != expected[j] {
                proof {
                    let hex = ascii_bytes(hex_chars(signed_value(negative, f.limbs@)));
                    let p = 9 + 4 * (cnt64 as int);
                    assert(hex.len() == expected@.len());
                    assert(s.len() >= p + hex.len());
                    assert(s.subrange(p, p + hex.len() as int)[j as int] == s[p + j]);
                    assert(s[p + j] == data@[pos + p + j]);
                    assert(pos + p + j == hex_start + j);
                    assert(s.subrange(p, p + hex.len() as int)[j as int] != hex[j as int]);
                    assert(s.subrange(p, p + hex.len() as int) != hex);
                }
                return Err(DecodeError::HexMismatch);
            }
            j = j + 1;
        }
        proof {
            let hex = ascii_bytes(hex_chars(signed_value(negative, f.limbs@)));
            let p = 9 + 4 * (cnt64 as int);
            assert(s.subrange(p, p + hex.len() as int) =~= expected@);
        }
        Ok((f, hex_start + expected.len()))
    }
}

/// A canonical immediate whose digit count fits the length field.
pub open spec fn felt_encodable(v: FeltView) -> bool {
    v.wf() && v.limbs.len() <= u64::MAX
}

/// Whether a reference-or-immediate can be serialized and read back.
pub open spec fn doi_encodable(v: DoiView) -> bool {
    match v {
        DoiView::Deref(_) => true,
        DoiView::Immediate(f) => felt_encodable(f),
    }
}

/// Whether a binary expression can be serialized and read back.
pub open spec fn binop_encodable(v: BinOpView) -> bool {
    doi_encodable(v.b)
}

/// Whether an operand can be serialized and read back.
pub open spec fn resop_encodable(v: ResOpView) -> bool {
    match v {
        ResOpView::Deref(_) => true,
        ResOpView::DoubleDeref(_, _) => true,
        ResOpView::Immediate(f) => felt_encodable(f),
        ResOpView::BinOp(b) => binop_encodable(b),
    }
}

/// The serialized form of a register: one tag byte.
pub open spec fn spec_enc_register(r: Register) -> Seq<u8> {
    match r {
        Register::AP => seq![0u8],
        Register::FP => seq![1u8],
    }
}

/// The register read back from its tag byte.
pub open spec fn spec_dec_register(s: Seq<u8>) -> Result<(Register, nat), DecodeError> {
    if s.len() < 1 {
        Err(DecodeError::Truncated)
    } else if s[0] == 0 {
        Ok((Register::AP, 1))
    } else if s[0] == 1 {
        Ok((Register::FP, 1))
    } else {
        Err(DecodeError::BadTag)
    }
}

/// The serialized form of an operator: one tag byte.
pub open spec fn spec_enc_operation(o: Operation) -> Seq<u8> {
    match o {
        Operation::Add => seq![0u8],
        Operation::Mul => seq![1u8],
    }
}

/// The operator read back from its tag byte.
pub open spec fn spec_dec_operation(s: Seq<u8>) -> Result<(Operation, nat), DecodeError> {
    if s.len() < 1 {
        Err(DecodeError::Truncated)
    } else if s[0] == 0 {
        Ok((Operation::Add, 1))
    } else if s[0] == 1 {
        Ok((Operation::Mul, 1))
    } else {
        Err(DecodeError::BadTag)
    }
}

/// The serialized form of a cell reference: register, then offset.
pub open spec fn spec_enc_cell_ref(c: CellRef) -> Seq<u8> {
    spec_enc_register(c.register) + spec_enc_i16(c.offset)
}

/// The cell reference read back field by field.
pub open spec fn spec_dec_cell_ref(s: Seq<u8>) -> Result<(CellRef, nat), DecodeError> {
    match spec_dec_register(s) {
        Err(e) => Err(e),
        Ok((register, n)) => if s.len() < n + 2 {
            Err(DecodeError::Truncated)
        } else {
            Ok(
                (
                    CellRef { register, offset: spec_dec_i16(s.subrange(n as int, n as int + 2)) },
                    (n + 2) as nat,
                ),
            )
        },
    }
}

/// The serialized form of a reference-or-immediate: a tag byte, then the
/// payload.
pub open spec fn spec_enc_doi(v: DoiView) -> Seq<u8> {
    match v {
        DoiView::Deref(c) => seq![0u8] + spec_enc_cell_ref(c),
        DoiView::Immediate(f) => seq![1u8] + spec_enc_felt(f),
    }
}

/// The reference-or-immediate read back from its tagged form.
pub open spec fn spec_dec_doi(s: Seq<u8>) -> Result<(DoiView, nat), DecodeError> {
    if s.len() < 1 {
        Err(DecodeError::Truncated)
    } else if s[0] == 0 {
        match spec_dec_cell_ref(s.skip(1)) {
            Err(e) => Err(e),
            Ok((c, n)) => Ok((DoiView::Deref(c), (n + 1) as nat)),
        }
    } else if s[0] == 1 {
        match spec_dec_felt(s.skip(1)) {
            Err(e) => Err(e),
            Ok((f, n)) => Ok((DoiView::Immediate(f), (n + 1) as nat)),
        }
    } else {
        Err(DecodeError::BadTag)
    }
}

/// The serialized form of a binary expression: operator, left cell, right
/// operand.
pub open spec fn spec_enc_binop(v: BinOpView) -> Seq<u8> {
    spec_enc_operation(v.op) + spec_enc_cell_ref(v.a) + spec_enc_doi(v.b)
}

/// The binary expression read back field by field.
pub open spec fn spec_dec_binop(s: Seq<u8>) -> Result<(BinOpView, nat), DecodeError> {
    match spec_dec_operation(s) {
        Err(e) => Err(e),
        Ok((op, n1)) => match spec_dec_cell_ref(s.skip(n1 as int)) {
            Err(e) => Err(e),
            Ok((a, n2)) => match spec_dec_doi(s.skip(n1 as int + n2 as int)) {
                Err(e) => Err(e),
                Ok((b, n3)) => Ok((BinOpView { op, a, b }, (n1 + n2 + n3) as nat)),
            },
        },
    }
}

/// The serialized form of an operand: a tag byte, then the payload.
pub open spec fn spec_enc_resop(v: ResOpView) -> Seq<u8> {
    match v {
        ResOpView::Deref(c) => seq![0u8] + spec_enc_cell_ref(c),
        ResOpView::DoubleDeref(c, off) => seq![1u8] + spec_enc_cell_ref(c) + spec_enc_i16(off),
        ResOpView::Immediate(f) => seq![2u8] + spec_enc_felt(f),
        ResOpView::BinOp(b) => seq![3u8] + spec_enc_binop(b),
    }
}

/// The operand read back from its tagged form.
pub open spec fn spec_dec_resop(s: Seq<u8>) -> Result<(ResOpView, nat), DecodeError> {
    if s.len() < 1 {
        Err(DecodeError::Truncated)
    } else if s[0] == 0 {
        match spec_dec_cell_ref(s.skip(1)) {
            Err(e) => Err(e),
            Ok((c, n)) => Ok((ResOpView::Deref(c), (n + 1) as nat)),
        }
    } else if s[0] == 1 {
        match spec_dec_cell_ref(s.skip(1)) {
            Err(e) => Err(e),
            Ok((c, n)) => if s.len() < 1 + n + 2 {
                Err(DecodeError::Truncated)
            } else {
                Ok(
                    (
                        ResOpView::DoubleDeref(
                            c,
                            spec_dec_i16(s.subrange(1 + n as int, 3 + n as int)),
                        ),
                        (n + 3) as nat,
                    ),
                )
            },
        }
    } else if s[0] == 2 {
        match spec_dec_felt(s.skip(1)) {
            Err(e) => Err(e),
            Ok((f, n)) => Ok((ResOpView::Immediate(f), (n + 1) as nat)),
        }
    } else if s[0] == 3 {
        match spec_dec_binop(s.skip(1)) {
            Err(e) => Err(e),
            Ok((b, n)) => Ok((ResOpView::BinOp(b), (n + 1) as nat)),
        }
    } else {
        Err(DecodeError::BadTag)
    }
}

/// Decoding the encoding of a register, whatever follows it, yields that
/// register.
pub proof fn lemma_dec_enc_register(r: Register, rest: Seq<u8>)
    ensures
        spec_dec_register(spec_enc_register(r) + rest) == Ok::<(Register, nat), DecodeError>(
            (r, 1),
        ),
{
    let s = spec_enc_register(r) + rest;
    assert(s[0] == spec_enc_register(r)[0]);
}

/// Decoding the encoding of an operator, whatever follows it, yields that
/// operator.
pub proof fn lemma_dec_enc_operation(o: Operation, rest: Seq<u8>)
    ensures
        spec_dec_operation(spec_enc_operation(o) + rest) == Ok::<(Operation, nat), DecodeError>(
            (o, 1),
        ),
{
    let s = spec_enc_operation(o) + rest;
    assert(s[0] == spec_enc_operation(o)[0]);
}

/// Decoding the encoding of a cell reference, whatever follows it, yields
/// that cell reference.
pub proof fn lemma_dec_enc_cell_ref(c: CellRef, rest: Seq<u8>)
    ensures
        spec_dec_cell_ref(spec_enc_cell_ref(c) + rest) == Ok::<(CellRef, nat), DecodeError>(
            (c, 3),
        ),
{
    let s = spec_enc_cell_ref(c) + rest;
    assert(s =~= spec_enc_register(c.register) + (spec_enc_i16(c.offset) + rest));
    lemma_dec_enc_register(c.register, spec_enc_i16(c.offset) + rest);
    assert(s.subrange(1, 3) =~= spec_enc_i16(c.offset));
    lemma_i16_round_trip(c.offset);
}

/// Decoding the encoding of a reference-or-immediate, whatever follows it,
/// yields that reference-or-immediate.
pub proof fn lemma_dec_enc_doi(v: DoiView, rest: Seq<u8>)
    requires
        doi_encodable(v),
    ensures
        spec_dec_doi(spec_enc_doi(v) + rest) == Ok::<(DoiView, nat), DecodeError>(
            (v, spec_enc_doi(v).len() as nat),
        ),
{
    let s = spec_enc_doi(v) + rest;
    match v {
        DoiView::Deref(c) => {
            assert(s[0] == 0);
            assert(s.skip(1) =~= spec_enc_cell_ref(c) + rest);
            lemma_dec_enc_cell_ref(c, rest);
        },
        DoiView::Immediate(f) => {
            assert(s[0] == 1);
            assert(s.skip(1) =~= spec_enc_felt(f) + rest);
            lemma_dec_enc_felt(f, rest);
        },
    }
}

/// Decoding the encoding of a binary expression, whatever follows it,
/// yields that expression.
#[verifier::rlimit(100)]
pub proof fn lemma_dec_enc_binop(v: BinOpView, rest: Seq<u8>)
    requires
        binop_encodable(v),
    ensures
        spec_dec_binop(spec_enc_binop(v) + rest) == Ok::<(BinOpView, nat), DecodeError>(
            (v, spec_enc_binop(v).len() as nat),
        ),
{
    let s = spec_enc_binop(v) + rest;
    assert(s =~= spec_enc_operation(v.op) + (spec_enc_cell_ref(v.a) + (spec_enc_doi(v.b)
        + rest)));
    lemma_dec_enc_operation(v.op, spec_enc_cell_ref(v.a) + (spec_enc_doi(v.b) + rest));
    assert(s.skip(1) =~= spec_enc_cell_ref(v.a) + (spec_enc_doi(v.b) + rest));
    lemma_dec_enc_cell_ref(v.a, spec_enc_doi(v.b) + rest);
    assert(s.skip(4) =~= spec_enc_doi(v.b) + rest);
    lemma_dec_enc_doi(v.b, rest);
    assert((BinOpView { op: v.op, a: v.a, b: v.b }) == v);
}

/// Decoding the encoding of an operand, whatever follows it, yields that
/// operand and consumes exactly its encoding.
proof fn lemma_dec_enc_resop_deref(c: CellRef, rest: Seq<u8>)
    ensures
        spec_dec_resop(spec_enc_resop(ResOpView::Deref(c)) + rest) == Ok::<
            (ResOpView, nat),
            DecodeError,
        >((ResOpView::Deref(c), spec_enc_resop(ResOpView::Deref(c)).len() as nat)),
{
    let s = spec_enc_resop(ResOpView::Deref(c)) + rest;
    assert(s[0] == 0);
    assert(s.skip(1) =~= spec_enc_cell_ref(c) + rest);
    lemma_dec_enc_cell_ref(c, rest);
}

proof fn lemma_dec_enc_resop_double_deref(c: CellRef, off: i16, rest: Seq<u8>)
    ensures
        spec_dec_resop(spec_enc_resop(ResOpView::DoubleDeref(c, off)) + rest) == Ok::<
            (ResOpView, nat),
            DecodeError,
        >((ResOpView::DoubleDeref(c, off), spec_enc_resop(ResOpView::DoubleDeref(c, off)).len() as nat)),
{
    let s = spec_enc_resop(ResOpView::DoubleDeref(c, off)) + rest;
    assert(s[0] == 1);
    assert(s.skip(1) =~= spec_enc_cell_ref(c) + (spec_enc_i16(off) + rest));
    lemma_dec_enc_cell_ref(c, spec_enc_i16(off) + rest);
    assert(s.subrange(4, 6) =~= spec_enc_i16(off));
    lemma_i16_round_trip(off);
}

proof fn lemma_dec_enc_resop_immediate(f: FeltView, rest: Seq<u8>)
    requires
        felt_encodable(f),
    ensures
        spec_dec_resop(spec_enc_resop(ResOpView::Immediate(f)) + rest) == Ok::<
            (ResOpView, nat),
            DecodeError,
        >((ResOpView::Immediate(f), spec_enc_resop(ResOpView::Immediate(f)).len() as nat)),
{
    let s = spec_enc_resop(ResOpView::Immediate(f)) + rest;
    assert(s[0] == 2);
    assert(s.skip(1) =~= spec_enc_felt(f) + rest);
    lemma_dec_enc_felt(f, rest);
}

proof fn lemma_dec_enc_resop_binop(b: BinOpView, rest: Seq<u8>)
    requires
        binop_encodable(b),
    ensures
        spec_dec_resop(spec_enc_resop(ResOpView::BinOp(b)) + rest) == Ok::<
            (ResOpView, nat),
            DecodeError,
        >((ResOpView::BinOp(b), spec_enc_resop(ResOpView::BinOp(b)).len() as nat)),
{
    let s = spec_enc_resop(ResOpView::BinOp(b)) + rest;
    assert(s[0] == 3);
    assert(s.skip(1) =~= spec_enc_binop(b) + rest);
    lemma_dec_enc_binop(b, rest);
}

/// Decoding the encoding of an operand, whatever follows it, yields that
/// operand and consumes exactly its encoding.
pub proof fn lemma_dec_enc_resop(v: ResOpView, rest: Seq<u8>)
    requires
        resop_encodable(v),
    ensures
        spec_dec_resop(spec_enc_resop(v) + rest) == Ok::<(ResOpView, nat), DecodeError>(
            (v, spec_enc_resop(v).len() as nat),
        ),
{
    match v {
        ResOpView::Deref(c) => lemma_dec_enc_resop_deref(c, rest),
        ResOpView::DoubleDeref(c, off) => lemma_dec_enc_resop_double_deref(c, off, rest),
        ResOpView::Immediate(f) => lemma_dec_enc_resop_immediate(f, rest),
        ResOpView::BinOp(b) => lemma_dec_enc_resop_binop(b, rest),
    }
}

impl Register {
    /// Appends the serialized form of this register.
    pub fn encode(&self, out: &mut Vec<u8>)
        ensures
            final(out)@ == old(out)@ + spec_enc_register(*self),
    {
        match self {
            Register::AP => out.push(0u8),
            Register::FP => out.push(1u8),
        }
        proof {
            assert(out@ =~= old(out)@ + spec_enc_register(*self));
        }
    }

    /// Decodes a register from `data` starting at `pos`.
    pub fn decode(data: &Vec<u8>, pos: usize) -> (r: Result<(Register, usize), DecodeError>)
        requires
            pos <= data.len(),
        ensures
            spec_dec_register(data@.skip(pos as int)) matches Ok(p) ==> (r matches Ok(q) && q.0
                == p.0 && q.1 == pos + p.1),
            spec_dec_register(data@.skip(pos as int)) matches Err(e) ==> r == Err::<
                (Register, usize),
                DecodeError,
            >(e),
            r matches Ok(q) ==> pos < q.1 <= data.len(),
    {
        if data.len() - pos < 1 {
            return Err(DecodeError::Truncated);
        }
        let t = data[pos];
        proof {
            assert(data@.skip(pos as int)[0] == data@[pos as int]);
        }
        if t == 0 {
            Ok((Register::AP, pos + 1))
        } else if t == 1 {
            Ok((Register::FP, pos + 1))
        } else {
            Err(DecodeError::BadTag)
        }
    }
}

impl Operation {
    /// Appends the serialized form of this operator.
    pub fn encode(&self, out: &mut Vec<u8>)
        ensures
            final(out)@ == old(out)@ + spec_enc_operation(*self),
    {
        match self {
            Operation::Add => out.push(0u8),
            Operation::Mul => out.push(1u8),
        }
        proof {
            assert(out@ =~= old(out)@ + spec_enc_operation(*self));
        }
    }

    /// Decodes an operator from `data` starting at `pos`.
    pub fn decode(data: &Vec<u8>, pos: usize) -> (r: Result<(Operation, usize), DecodeError>)
        requires
            pos <= data.len(),
        ensures
            spec_dec_operation(data@.skip(pos as int)) matches Ok(p) ==> (r matches Ok(q) && q.0
                == p.0 && q.1 == pos + p.1),
            spec_dec_operation(data@.skip(pos as int)) matches Err(e) ==> r == Err::<
                (Operation, usize),
                DecodeError,
            >(e),
            r matches Ok(q) ==> pos < q.1 <= data.len(),
    {
        if data.len() - pos < 1 {
            return Err(DecodeError::Truncated);
        }
        let t = data[pos];
        proof {
            assert(data@.skip(pos as int)[0] == data@[pos as int]);
        }
        if t == 0 {
            Ok((Operation::Add, pos + 1))
        } else if t == 1 {
            Ok((Operation::Mul, pos + 1))
        } else {
            Err(DecodeError::BadTag)
        }
    }
}

impl CellRef {
    /// Appends the serialized form of this cell reference.
    pub fn encode(&self, out: &mut Vec<u8>)
        ensures
            final(out)@ == old(out)@ + spec_enc_cell_ref(*self),
    {
        self.register.encode(out);
        enc_i16(out, self.offset);
        proof {
            assert(out@ =~= old(out)@ + spec_enc_cell_ref(*self));
        }
    }

    /// Decodes a cell reference from `data` starting at `pos`.
    pub fn decode(data: &Vec<u8>, pos: usize) -> (r: Result<(CellRef, usize), DecodeError>)
        requires
            pos <= data.len(),
        ensures
            spec_dec_cell_ref(data@.skip(pos as int)) matches Ok(p) ==> (r matches Ok(q) && q.0
                == p.0 && q.1 == pos + p.1),
            spec_dec_cell_ref(data@.skip(pos as int)) matches Err(e) ==> r == Err::<
                (CellRef, usize),
                DecodeError,
            >(e),
            r matches Ok(q) ==> pos < q.1 <= data.len(),
    {
        let ghost s = data@.skip(pos as int);
        let reg = match Register::decode(data, pos) {
            Ok(q) => q,
            Err(e) => {
                return Err(e);
            },
        };
        if data.len() - reg.1 < 2 {
            return Err(DecodeError::Truncated);
        }
        let off = dec_i16(data, reg.1);
        proof {
            let n = (reg.1 - pos) as int;
            assert(data@.subrange(reg.1 as int, reg.1 as int + 2) =~= s.subrange(n, n + 2));
        }
        Ok((CellRef { register: reg.0, offset: off }, reg.1 + 2))
    }
}

impl DerefOrImmediate {
    /// Appends the serialized form of this reference-or-immediate.
    pub fn encode(&self, out: &mut Vec<u8>)
        ensures
            final(out)@ == old(out)@ + spec_enc_doi(self@),
    {
        match self {
            DerefOrImmediate::Deref(c) => {
                out.push(0u8);
                c.encode(out);
            },
            DerefOrImmediate::Immediate(f) => {
                out.push(1u8);
                f.encode(out);
            },
        }
        proof {
            assert(out@ =~= old(out)@ + spec_enc_doi(self@));
        }
    }

    /// Decodes a reference-or-immediate from `data` starting at `pos`.
    #[verifier::rlimit(100)]
    pub fn decode(data: &Vec<u8>, pos: usize) -> (r: Result<
        (DerefOrImmediate, usize),
        DecodeError,
    >)
        requires
            pos <= data.len(),
        ensures
            spec_dec_doi(data@.skip(pos as int)) matches Ok(p) ==> (r matches Ok(q) && q.0@ == p.0
                && q.1 == pos + p.1),
            spec_dec_doi(data@.skip(pos as int)) matches Err(e) ==> r == Err::<
                (DerefOrImmediate, usize),
                DecodeError,
            >(e),
            r matches Ok(q) ==> pos < q.1 <= data.len(),
    {
        let ghost s = data@.skip(pos as int);
        if data.len() - pos < 1 {
            return Err(DecodeError::Truncated);
        }
        let t = data[pos];
        proof {
            assert(s[0] == data@[pos as int]);
            assert(s.skip(1) =~= data@.skip(pos as int + 1));
        }
        if t == 0 {
            match CellRef::decode(data, pos + 1) {
                Ok(q) => Ok((DerefOrImmediate::Deref(q.0), q.1)),
                Err(e) => Err(e),
            }
        } else if t == 1 {
            match FieldElement::decode(data, pos + 1) {
                Ok(q) => Ok((DerefOrImmediate::Immediate(q.0), q.1)),
                Err(e) => Err(e),
            }
        } else {
            Err(DecodeError::BadTag)
        }
    }
}

impl BinOpOperand {
    /// Appends the serialized form of this binary expression.
    pub fn encode(&self, out: &mut Vec<u8>)
        ensures
            final(out)@ == old(out)@ + spec_enc_binop(self@),
    {
        self.op.encode(out);
        self.a.encode(out);
        self.b.encode(out);
        proof {
            assert(out@ =~= old(out)@ + spec_enc_binop(self@));
        }
    }

    /// Decodes a binary expression from `data` starting at `pos`.
    #[verifier::rlimit(100)]
    pub fn decode(data: &Vec<u8>, pos: usize) -> (r: Result<(BinOpOperand, usize), DecodeError>)
        requires
            pos <= data.len(),
        ensures
            spec_dec_binop(data@.skip(pos as int)) matches Ok(p) ==> (r matches Ok(q) && q.0@
                == p.0 && q.1 == pos + p.1),
            spec_dec_binop(data@.skip(pos as int)) matches Err(e) ==> r == Err::<
                (BinOpOperand, usize),
                DecodeError,
            >(e),
            r matches Ok(q) ==> pos < q.1 <= data.len(),
    {
        let ghost s = data@.skip(pos as int);
        let op = match Operation::decode(data, pos) {
            Ok(q) => q,
            Err(e) => {
                return Err(e);
            },
        };
        proof {
            assert(data@.skip(op.1 as int) =~= s.skip((op.1 - pos) as int));
        }
        let a = match CellRef::decode(data, op.1) {
            Ok(q) => q,
            Err(e) => {
                return Err(e);
            },
        };
        proof {
            assert(data@.skip(a.1 as int) =~= s.skip((a.1 - pos) as int));
        }
        let b = match DerefOrImmediate::decode(data, a.1) {
            Ok(q) => q,
            Err(e) => {
                return Err(e);
            },
        };
        Ok((BinOpOperand { op: op.0, a: a.0, b: b.0 }, b.1))
    }
}

impl ResOperand {
    /// Appends the serialized form of this operand.
    pub fn encode(&self, out: &mut Vec<u8>)
        ensures
            final(out)@ == old(out)@ + spec_enc_resop(self@),
    {
        match self {
            ResOperand::Deref(c) => {
                out.push(0u8);
                c.encode(out);
            },
            ResOperand::DoubleDeref(c, off) => {
                out.push(1u8);
                c.encode(out);
                enc_i16(out, *off);
            },
            ResOperand::Immediate(f) => {
                out.push(2u8);
                f.encode(out);
            },
            ResOperand::BinOp(b) => {
                out.push(3u8);
                b.encode(out);
            },
        }
        proof {
            assert(out@ =~= old(out)@ + spec_enc_resop(self@));
        }
    }

    /// Decodes an operand from `data` starting at `pos`.
    #[verifier::rlimit(100)]
    pub fn decode(data: &Vec<u8>, pos: usize) -> (r: Result<(ResOperand, usize), DecodeError>)
        requires
            pos <= data.len(),
        ensures
            spec_dec_resop(data@.skip(pos as int)) matches Ok(p) ==> (r matches Ok(q) && q.0@
                == p.0 && q.1 == pos + p.1),
            spec_dec_resop(data@.skip(pos as int)) matches Err(e) ==> r == Err::<
                (ResOperand, usize),
                DecodeError,
            >(e),
            r matches Ok(q) ==> pos < q.1 <= data.len(),
    {
        let ghost s = data@.skip(pos as int);
        if data.len() - pos < 1 {
            return Err(DecodeError::Truncated);
        }
        let t = data[pos];
        proof {
            assert(s[0] == data@[pos as int]);
            assert(s.skip(1) =~= data@.skip(pos as int + 1));
        }
        if t == 0 {
            match CellRef::decode(data, pos + 1) {
                Ok(q) => Ok((ResOperand::Deref(q.0), q.1)),
                Err(e) => Err(e),
            }
        } else if t == 1 {
            let c = match CellRef::decode(data, pos + 1) {
                Ok(q) => q,
                Err(e) => {
                    return Err(e);
                },
            };
            if data.len() - c.1 < 2 {
                return Err(DecodeError::Truncated);
            }
            let off = dec_i16(data, c.1);
            proof {
                let n = (c.1 - pos) as int;
                assert(data@.subrange(c.1 as int, c.1 as int + 2) =~= s.subrange(n, n + 2));
            }
            Ok((ResOperand::DoubleDeref(c.0, off), c.1 + 2))
        } else if t == 2 {
            match FieldElement::decode(data, pos + 1) {
                Ok(q) => Ok((ResOperand::Immediate(q.0), q.1)),
                Err(e) => Err(e),
            }
        } else if t == 3 {
            match BinOpOperand::decode(data, pos + 1) {
                Ok(q) => Ok((ResOperand::BinOp(q.0), q.1)),
                Err(e) => Err(e),
            }
        } else {
            Err(DecodeError::BadTag)
        }
    }
}

} // verus!
