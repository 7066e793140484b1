pub mod codec;
pub mod felt;
pub mod operand;

pub use codec::DecodeError;
pub use felt::{FeltView, FieldElement};
pub use operand::{
    ap_cell_ref, BinOpOperand, BinOpView, CellRef, DerefOrImmediate, DoiView, Operation, Register,
    ResOpView, ResOperand,
};
