use casm_operand::{
    ap_cell_ref, CellRef, DerefOrImmediate, FieldElement, Register, ResOperand,
};

#[test]
fn deref_into_res_operand_keeps_payload() {
    let c = CellRef { register: Register::FP, offset: 12 };
    let d = DerefOrImmediate::Deref(c);
    match ResOperand::from(d) {
        ResOperand::Deref(back) => assert_eq!(back, c),
        other => panic!("expected a deref, got {:?}", other),
    }
}

#[test]
fn immediate_into_res_operand_keeps_payload() {
    let d = DerefOrImmediate::Immediate(FieldElement::from_u64(42));
    match ResOperand::from(d) {
        ResOperand::Immediate(back) => assert_eq!(back, FieldElement::from_u64(42)),
        other => panic!("expected an immediate, got {:?}", other),
    }
}

#[test]
fn cell_ref_into_deref_or_immediate() {
    let c = ap_cell_ref(-4);
    assert_eq!(DerefOrImmediate::from(c), DerefOrImmediate::Deref(c));
}

#[test]
fn cell_ref_conversion_idempotent() {
    let c = CellRef { register: Register::AP, offset: 3 };
    let via_doi = ResOperand::from(DerefOrImmediate::from(c));
    assert_eq!(via_doi, ResOperand::Deref(c));
}

#[test]
fn field_element_into_both_immediates() {
    let f = FieldElement::from_i64(-1);
    assert_eq!(
        DerefOrImmediate::from(f.clone()),
        DerefOrImmediate::Immediate(FieldElement::from_i64(-1))
    );
    assert_eq!(ResOperand::from(f), ResOperand::Immediate(FieldElement::from_i64(-1)));
}

#[test]
fn from_u64_and_from_i64_agree() {
    assert_eq!(FieldElement::from_u64(7), FieldElement::from_i64(7));
    assert_eq!(FieldElement::from_u64(0), FieldElement::from_i64(0));
    assert_ne!(FieldElement::from_i64(-7), FieldElement::from_u64(7));
}

#[test]
fn structural_equality() {
    let a = ResOperand::DoubleDeref(CellRef { register: Register::AP, offset: 1 }, 2);
    let b = ResOperand::DoubleDeref(CellRef { register: Register::AP, offset: 1 }, 2);
    assert_eq!(a, b);
    let c = ResOperand::DoubleDeref(CellRef { register: Register::AP, offset: 1 }, 3);
    assert_ne!(a, c);
}
