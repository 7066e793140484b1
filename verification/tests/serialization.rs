use casm_operand::{
    BinOpOperand, CellRef, DecodeError, DerefOrImmediate, FieldElement, Operation, Register,
    ResOperand,
};

fn encoded_felt(f: &FieldElement) -> Vec<u8> {
    let mut out = Vec::new();
    f.encode(&mut out);
    out
}

#[test]
fn register_round_trip() {
    for r in [Register::AP, Register::FP] {
        let mut out = Vec::new();
        r.encode(&mut out);
        assert_eq!(Register::decode(&out, 0), Ok((r, out.len())));
    }
}

#[test]
fn operation_round_trip() {
    for o in [Operation::Add, Operation::Mul] {
        let mut out = Vec::new();
        o.encode(&mut out);
        assert_eq!(Operation::decode(&out, 0), Ok((o.clone(), out.len())));
    }
}

#[test]
fn cell_ref_round_trip() {
    let c = CellRef { register: Register::FP, offset: -3 };
    let mut out = Vec::new();
    c.encode(&mut out);
    assert_eq!(out.len(), 3);
    assert_eq!(CellRef::decode(&out, 0), Ok((c, 3)));
}

#[test]
fn felt_round_trip_small() {
    let f = FieldElement::from_u64(42);
    let out = encoded_felt(&f);
    let (g, n) = FieldElement::decode(&out, 0).unwrap();
    assert_eq!(g, f);
    assert_eq!(n, out.len());
}

#[test]
fn felt_round_trip_negative_multi_limb() {
    let f = FieldElement { negative: true, limbs: vec![0xdead_beef, 0x1234_5678, 9] };
    let out = encoded_felt(&f);
    let (g, n) = FieldElement::decode(&out, 0).unwrap();
    assert_eq!(g, f);
    assert_eq!(n, out.len());
}

#[test]
fn felt_round_trip_zero() {
    let f = FieldElement::from_u64(0);
    let out = encoded_felt(&f);
    // sign byte, eight count bytes, no digits, then the hex field "0x0"
    assert_eq!(out.len(), 12);
    let (g, _) = FieldElement::decode(&out, 0).unwrap();
    assert_eq!(g, f);
}

#[test]
fn felt_serialized_form_holds_value_and_hex() {
    let f = FieldElement::from_u64(42);
    let out = encoded_felt(&f);
    // sign 0, count 1, one little-endian digit, then the ASCII hex field
    assert_eq!(out[0], 0);
    assert_eq!(&out[1..9], &[1, 0, 0, 0, 0, 0, 0, 0]);
    assert_eq!(&out[9..13], &[42, 0, 0, 0]);
    assert_eq!(&out[13..], &b"0x2a"[..]);
    // the hex field denotes the same number as the raw value field
    assert_eq!(0x2a, 42);
    assert_eq!(f.render(), "42");
}

#[test]
fn felt_hex_field_negative() {
    let f = FieldElement::from_i64(-26);
    let out = encoded_felt(&f);
    assert_eq!(out[0], 1);
    assert_eq!(&out[13..], &b"-0x1a"[..]);
}

#[test]
fn felt_hex_bytes_beyond_u64() {
    let beyond = FieldElement { negative: false, limbs: vec![0, 0, 1] };
    assert_eq!(beyond.hex_bytes(), b"0x10000000000000000".to_vec());
}

#[test]
fn decode_empty_is_truncated() {
    let empty: Vec<u8> = Vec::new();
    assert_eq!(Register::decode(&empty, 0), Err(DecodeError::Truncated));
    assert_eq!(FieldElement::decode(&empty, 0), Err(DecodeError::Truncated));
    assert_eq!(ResOperand::decode(&empty, 0), Err(DecodeError::Truncated));
}

#[test]
fn decode_unknown_tag() {
    let data = vec![9u8];
    assert_eq!(Register::decode(&data, 0), Err(DecodeError::BadTag));
    assert_eq!(Operation::decode(&data, 0), Err(DecodeError::BadTag));
    assert_eq!(DerefOrImmediate::decode(&data, 0), Err(DecodeError::BadTag));
    assert_eq!(ResOperand::decode(&data, 0), Err(DecodeError::BadTag));
}

#[test]
fn decode_bad_sign() {
    let data = vec![5u8];
    assert_eq!(FieldElement::decode(&data, 0), Err(DecodeError::BadSign));
}

#[test]
fn decode_non_canonical_leading_zero() {
    // sign 0, count 1, single digit 0: a leading zero limb
    let mut data = vec![0u8, 1, 0, 0, 0, 0, 0, 0, 0];
    data.extend_from_slice(&[0, 0, 0, 0]);
    assert_eq!(FieldElement::decode(&data, 0), Err(DecodeError::NonCanonical));
}

#[test]
fn decode_non_canonical_negative_zero() {
    // sign 1, count 0: negative zero
    let data = vec![1u8, 0, 0, 0, 0, 0, 0, 0, 0];
    assert_eq!(FieldElement::decode(&data, 0), Err(DecodeError::NonCanonical));
}

#[test]
fn decode_hex_mismatch() {
    let f = FieldElement::from_u64(42);
    let mut out = encoded_felt(&f);
    let last = out.len() - 1;
    out[last] = b'b';
    assert_eq!(FieldElement::decode(&out, 0), Err(DecodeError::HexMismatch));
}

#[test]
fn decode_truncated_digits() {
    let f = FieldElement::from_u64(42);
    let out = encoded_felt(&f);
    let cut: Vec<u8> = out[..11].to_vec();
    assert_eq!(FieldElement::decode(&cut, 0), Err(DecodeError::Truncated));
}

#[test]
fn decode_truncated_hex() {
    let f = FieldElement::from_u64(42);
    let out = encoded_felt(&f);
    let cut: Vec<u8> = out[..out.len() - 1].to_vec();
    assert_eq!(FieldElement::decode(&cut, 0), Err(DecodeError::Truncated));
}

#[test]
fn deref_or_immediate_round_trip() {
    let d = DerefOrImmediate::Deref(CellRef { register: Register::AP, offset: 2 });
    let mut out = Vec::new();
    d.encode(&mut out);
    assert_eq!(DerefOrImmediate::decode(&out, 0), Ok((d, out.len())));

    let i = DerefOrImmediate::Immediate(FieldElement::from_i64(-7));
    let mut out2 = Vec::new();
    i.encode(&mut out2);
    assert_eq!(DerefOrImmediate::decode(&out2, 0), Ok((i, out2.len())));
}

#[test]
fn bin_op_round_trip() {
    let b = BinOpOperand {
        op: Operation::Mul,
        a: CellRef { register: Register::FP, offset: 1 },
        b: DerefOrImmediate::Immediate(FieldElement::from_u64(3)),
    };
    let mut out = Vec::new();
    b.encode(&mut out);
    assert_eq!(BinOpOperand::decode(&out, 0), Ok((b, out.len())));
}

#[test]
fn res_operand_round_trip_all_variants() {
    let cases = vec![
        ResOperand::Deref(CellRef { register: Register::AP, offset: -9 }),
        ResOperand::DoubleDeref(CellRef { register: Register::AP, offset: 5 }, 2),
        ResOperand::Immediate(FieldElement::from_u64(u64::MAX)),
        ResOperand::BinOp(BinOpOperand {
            op: Operation::Add,
            a: CellRef { register: Register::AP, offset: 0 },
            b: DerefOrImmediate::Deref(CellRef { register: Register::FP, offset: -2 }),
        }),
    ];
    for r in cases {
        let mut out = Vec::new();
        r.encode(&mut out);
        assert_eq!(ResOperand::decode(&out, 0), Ok((r, out.len())));
    }
}

#[test]
fn decode_at_offset_after_other_data() {
    let c = CellRef { register: Register::FP, offset: 17 };
    let mut out = vec![0xffu8, 0xee];
    c.encode(&mut out);
    assert_eq!(CellRef::decode(&out, 2), Ok((c, out.len())));
}
