use casm_operand::{
    ap_cell_ref, BinOpOperand, CellRef, DerefOrImmediate, FieldElement, Operation, Register,
    ResOperand,
};

#[test]
fn register_renders_ap_and_fp() {
    assert_eq!(Register::AP.render(), "ap");
    assert_eq!(Register::FP.render(), "fp");
}

#[test]
fn operation_renders_add_and_mul() {
    assert_eq!(Operation::Add.render(), "+");
    assert_eq!(Operation::Mul.render(), "*");
}

#[test]
fn cell_ref_renders_bracketed_sum() {
    let c = CellRef { register: Register::AP, offset: 7 };
    assert_eq!(c.render(), "[ap + 7]");
    assert_eq!(c.render(), format!("[{} + {}]", c.register.render(), 7));
}

#[test]
fn cell_ref_negative_offset_scenario() {
    let c = CellRef { register: Register::FP, offset: -3 };
    assert_eq!(c.render(), "[fp + -3]");
}

#[test]
fn cell_ref_extreme_offsets() {
    let min = CellRef { register: Register::AP, offset: i16::MIN };
    assert_eq!(min.render(), "[ap + -32768]");
    let max = CellRef { register: Register::FP, offset: i16::MAX };
    assert_eq!(max.render(), "[fp + 32767]");
}

#[test]
fn double_deref_scenario() {
    let r = ResOperand::DoubleDeref(CellRef { register: Register::AP, offset: 5 }, 2);
    assert_eq!(r.render(), "[[ap + 5] + 2]");
}

#[test]
fn bin_op_scenario() {
    let b = BinOpOperand {
        op: Operation::Add,
        a: CellRef { register: Register::AP, offset: 0 },
        b: DerefOrImmediate::Immediate(FieldElement::from_u64(7)),
    };
    assert_eq!(b.render(), "[ap + 0] + 7");
    assert_eq!(ResOperand::BinOp(b).render(), "[ap + 0] + 7");
}

#[test]
fn bin_op_mul_with_deref_rhs() {
    let b = BinOpOperand {
        op: Operation::Mul,
        a: CellRef { register: Register::FP, offset: -1 },
        b: DerefOrImmediate::Deref(CellRef { register: Register::AP, offset: 4 }),
    };
    assert_eq!(b.render(), "[fp + -1] * [ap + 4]");
}

#[test]
fn immediate_renders_decimal_not_hex() {
    let d = DerefOrImmediate::Immediate(FieldElement::from_u64(42));
    assert_eq!(d.render(), "42");
    let r = ResOperand::from(FieldElement::from_u64(42));
    assert_eq!(r.render(), "42");
}

#[test]
fn immediate_renders_zero() {
    assert_eq!(FieldElement::from_u64(0).render(), "0");
}

#[test]
fn immediate_renders_negative() {
    assert_eq!(FieldElement::from_i64(-5).render(), "-5");
    assert_eq!(FieldElement::from_i64(i64::MIN).render(), "-9223372036854775808");
}

#[test]
fn immediate_renders_full_precision() {
    assert_eq!(FieldElement::from_u64(u64::MAX).render(), "18446744073709551615");
    let beyond = FieldElement { negative: false, limbs: vec![0, 0, 1] };
    assert_eq!(beyond.render(), "18446744073709551616");
}

#[test]
fn res_operand_delegates_to_variants() {
    let c = CellRef { register: Register::AP, offset: 11 };
    assert_eq!(ResOperand::Deref(c).render(), "[ap + 11]");
    assert_eq!(DerefOrImmediate::Deref(c).render(), "[ap + 11]");
}

#[test]
fn ap_cell_ref_scenario() {
    let c = ap_cell_ref(10);
    assert_eq!(c, CellRef { register: Register::AP, offset: 10 });
}
