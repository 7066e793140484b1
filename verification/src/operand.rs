//! The operand model: the closed set of operand shapes of the instruction
//! set, their canonical textual rendering, and the lossless conversions
//! between related shapes.

use vstd::prelude::*;

use crate::felt::{decimal_chars, decimal_digit_char, decimal_digits, FeltView, FieldElement};

verus! {

use vstd::std_specs::cmp::PartialEqSpec;
use vstd::std_specs::convert::FromSpec;
use vstd::string::StringExecFns;

/// A base register usable in an address computation.
#[derive(Copy, Clone, Debug, Hash, PartialEq, Eq, Structural)]
pub enum Register {
    AP,
    FP,
}

/// A direct memory address of the form `[register + offset]`.
#[derive(Copy, Clone, Debug, PartialEq, Eq, Structural)]
pub struct CellRef {
    pub register: Register,
    pub offset: i16,
}

/// Returns an allocation-pointer cell reference with the given offset.
pub fn ap_cell_ref(offset: i16) -> (r: CellRef)
    ensures
        r == (CellRef { register: Register::AP, offset }),
{
    CellRef { register: Register::AP, offset }
}

/// An operand that is either a memory reference or a literal constant.
#[derive(Clone, Debug)]
pub enum DerefOrImmediate {
    Deref(CellRef),
    Immediate(FieldElement),
}

/// A binary arithmetic operator usable in operand expressions.
#[derive(Clone, Debug, PartialEq, Eq, Structural)]
pub enum Operation {
    Add,
    Mul,
}

/// An expression `a op b` where `a` is a direct cell reference and `b` is a
/// reference-or-immediate; expressions do not nest any deeper.
#[derive(Clone, Debug)]
pub struct BinOpOperand {
    pub op: Operation,
    pub a: CellRef,
    pub b: DerefOrImmediate,
}

/// The generalized right-hand-side operand of an instruction.
#[derive(Clone, Debug)]
pub enum ResOperand {
    Deref(CellRef),
    DoubleDeref(CellRef, i16),
    Immediate(FieldElement),
    BinOp(BinOpOperand),
}

/// The mathematical content of a `DerefOrImmediate`.
pub enum DoiView {
    Deref(CellRef),
    Immediate(FeltView),
}

/// The mathematical content of a `BinOpOperand`.
pub struct BinOpView {
    pub op: Operation,
    pub a: CellRef,
    pub b: DoiView,
}

/// The mathematical content of a `ResOperand`.
pub enum ResOpView {
    Deref(CellRef),
    DoubleDeref(CellRef, i16),
    Immediate(FeltView),
    BinOp(BinOpView),
}

impl View for DerefOrImmediate {
    type V = DoiView;

    open spec fn view(&self) -> DoiView {
        match self {
            DerefOrImmediate::Deref(c) => DoiView::Deref(*c),
            DerefOrImmediate::Immediate(f) => DoiView::Immediate(f@),
        }
    }
}

impl View for BinOpOperand {
    type V = BinOpView;

    open spec fn view(&self) -> BinOpView {
        BinOpView { op: self.op, a: self.a, b: self.b@ }
    }
}

impl View for ResOperand {
    type V = ResOpView;

    open spec fn view(&self) -> ResOpView {
        match self {
            ResOperand::Deref(c) => ResOpView::Deref(*c),
            ResOperand::DoubleDeref(c, off) => ResOpView::DoubleDeref(*c, *off),
            ResOperand::Immediate(f) => ResOpView::Immediate(f@),
            ResOperand::BinOp(b) => ResOpView::BinOp(b@),
        }
    }
}

impl PartialEq for DerefOrImmediate {
    fn eq(&self, other: &DerefOrImmediate) -> (r: bool) {
        match (self, other) {
            (DerefOrImmediate::Deref(x), DerefOrImmediate::Deref(y)) => x == y,
            (DerefOrImmediate::Immediate(f), DerefOrImmediate::Immediate(g)) => f == g,
            _ => false,
        }
    }
}

impl Eq for DerefOrImmediate {

}

impl vstd::std_specs::cmp::PartialEqSpecImpl for DerefOrImmediate {
    open spec fn obeys_eq_spec() -> bool {
        true
    }

    open spec fn eq_spec(&self, other: &DerefOrImmediate) -> bool {
        match (self, other) {
            (DerefOrImmediate::Deref(x), DerefOrImmediate::Deref(y)) => x == y,
            (DerefOrImmediate::Immediate(f), DerefOrImmediate::Immediate(g)) => PartialEqSpec::eq_spec(f, g),
            _ => false,
        }
    }
}

impl PartialEq for BinOpOperand {
    fn eq(&self, other: &BinOpOperand) -> (r: bool) {
        self.op == other.op && self.a == other.a && self.b == other.b
    }
}

impl Eq for BinOpOperand {

}

impl vstd::std_specs::cmp::PartialEqSpecImpl for BinOpOperand {
    open spec fn obeys_eq_spec() -> bool {
        true
    }

    open spec fn eq_spec(&self, other: &BinOpOperand) -> bool {
        self.op == other.op && self.a == other.a && PartialEqSpec::eq_spec(&self.b, &other.b)
    }
}

impl PartialEq for ResOperand {
    fn eq(&self, other: &ResOperand) -> (r: bool) {
        match (self, other) {
            (ResOperand::Deref(x), ResOperand::Deref(y)) => x == y,
            (ResOperand::DoubleDeref(x, i), ResOperand::DoubleDeref(y, j)) => x == y && i == j,
            (ResOperand::Immediate(f), ResOperand::Immediate(g)) => f == g,
            (ResOperand::BinOp(a), ResOperand::BinOp(b)) => a == b,
            _ => false,
        }
    }
}

impl Eq for ResOperand {

}

impl vstd::std_specs::cmp::PartialEqSpecImpl for ResOperand {
    open spec fn obeys_eq_spec() -> bool {
        true
    }

    open spec fn eq_spec(&self, other: &ResOperand) -> bool {
        match (self, other) {
            (ResOperand::Deref(x), ResOperand::Deref(y)) => x == y,
            (ResOperand::DoubleDeref(x, i), ResOperand::DoubleDeref(y, j)) => x == y && i == j,
            (ResOperand::Immediate(f), ResOperand::Immediate(g)) => PartialEqSpec::eq_spec(f, g),
            (ResOperand::BinOp(a), ResOperand::BinOp(b)) => PartialEqSpec::eq_spec(a, b),
            _ => false,
        }
    }
}

/// The one-character string for a decimal digit.
fn digit_str(d: u32) -> (r: &'static str)
    requires
        d < 10,
    ensures
        r@ == seq![decimal_digit_char(d as nat)],
{
    let s: &'static str = if d == 0 {
        "0"
    } else if d == 1 {
        "1"
    } else if d == 2 {
        "2"
    } else if d == 3 {
        "3"
    } else if d == 4 {
        "4"
    } else if d == 5 {
        "5"
    } else if d == 6 {
        "6"
    } else if d == 7 {
        "7"
    } else if d == 8 {
        "8"
    } else {
        "9"
    };
    proof {
        reveal_strlit("0");
        reveal_strlit("1");
        reveal_strlit("2");
        reveal_strlit("3");
        reveal_strlit("4");
        reveal_strlit("5");
        reveal_strlit("6");
        reveal_strlit("7");
        reveal_strlit("8");
        reveal_strlit("9");
        assert(s@ =~= seq![decimal_digit_char(d as nat)]);
    }
    s
}

/// The decimal digits of `n0`, most significant first.
fn decimal_u32(n0: u32) -> (r: String)
    ensures
        r@ == decimal_digits(n0 as nat),
{
    let mut n: u32 = n0;
    let mut tail = String::new();
    proof {
        assert(decimal_digits(n0 as nat) =~= decimal_digits(n0 as nat) + Seq::<char>::empty());
    }
    while n >= 10
        invariant
            decimal_digits(n0 as nat) == decimal_digits(n as nat) + tail@,
        decreases n,
    {
        let ghost prev_n = n as nat;
        let ghost prev_tail = tail@;
        let dstr = digit_str(n % 10);
        let mut piece = String::from_str(dstr);
        piece.append(tail.as_str());
        tail = piece;
        n = n / 10;
        proof {
            assert(decimal_digits(prev_n) == decimal_digits(n as nat).push(
                decimal_digit_char(prev_n % 10),
            ));
            assert(decimal_digits(n as nat).push(decimal_digit_char(prev_n % 10)) + prev_tail
                =~= decimal_digits(n as nat) + tail@);
        }
    }
    let mut r = String::from_str(digit_str(n));
    r.append(tail.as_str());
    proof {
        assert(decimal_digits(n as nat) =~= seq![decimal_digit_char(n as nat)]);
        assert(r@ =~= decimal_digits(n0 as nat));
    }
    r
}

/// The canonical decimal rendering of a 16-bit signed offset.
fn i16_to_decimal(x: i16) -> (r: String)
    ensures
        r@ == decimal_chars(x as int),
{
    if x < 0 {
        let mag: u32 = (-(x as i32)) as u32;
        let digits = decimal_u32(mag);
        let mut r = String::from_str("-");
        r.append(digits.as_str());
        proof {
            reveal_strlit("-");
            assert(r@ =~= decimal_chars(x as int));
        }
        r
    } else {
        decimal_u32(x as u32)
    }
}

impl Register {
    /// The canonical rendering: `ap` or `fp`.
    pub open spec fn render_spec(self) -> Seq<char> {
        match self {
            Register::AP => "ap"@,
            Register::FP => "fp"@,
        }
    }

    /// Renders the register name.
    pub fn render(&self) -> (r: String)
        ensures
            r@ == self.render_spec(),
    {
        match self {
            Register::AP => String::from_str("ap"),
            Register::FP => String::from_str("fp"),
        }
    }
}

/// Two registers that render alike are the same register.
pub proof fn lemma_register_render_injective(r1: Register, r2: Register)
    ensures
        r1.render_spec() == r2.render_spec() ==> r1 == r2,
{
    reveal_strlit("ap");
    reveal_strlit("fp");
    assert("ap"@[0] == 'a' && "fp"@[0] == 'f');
}

impl CellRef {
    /// The canonical rendering: `[<register> + <offset>]`.
    pub open spec fn render_spec(self) -> Seq<char> {
        "["@ + self.register.render_spec() + " + "@ + decimal_chars(self.offset as int) + "]"@
    }

    /// Renders the cell reference.
    pub fn render(&self) -> (r: String)
        ensures
            r@ == self.render_spec(),
    {
        let mut s = String::from_str("[");
        let reg = self.register.render();
        s.append(reg.as_str());
        s.append(" + ");
        let off = i16_to_decimal(self.offset);
        s.append(off.as_str());
        s.append("]");
        proof {
            assert(s@ =~= self.render_spec());
        }
        s
    }
}

impl Operation {
    /// The canonical rendering: `+` or `*`.
    pub open spec fn render_spec(self) -> Seq<char> {
        match self {
            Operation::Add => "+"@,
            Operation::Mul => "*"@,
        }
    }

    /// Renders the operator.
    pub fn render(&self) -> (r: String)
        ensures
            r@ == self.render_spec(),
    {
        match self {
            Operation::Add => String::from_str("+"),
            Operation::Mul => String::from_str("*"),
        }
    }
}

impl DerefOrImmediate {
    /// The canonical rendering: the contained cell reference, or the
    /// decimal value of the contained immediate.
    pub open spec fn render_spec(self) -> Seq<char> {
        match self {
            DerefOrImmediate::Deref(c) => c.render_spec(),
            DerefOrImmediate::Immediate(f) => decimal_chars(f@.value()),
        }
    }

    /// Renders the operand.
    pub fn render(&self) -> (r: String)
        ensures
            r@ == self.render_spec(),
    {
        match self {
            DerefOrImmediate::Deref(c) => c.render(),
            DerefOrImmediate::Immediate(f) => f.render(),
        }
    }
}

impl BinOpOperand {
    /// The canonical rendering: `<a> <op> <b>` with single spaces.
    pub open spec fn render_spec(self) -> Seq<char> {
        self.a.render_spec() + " "@ + self.op.render_spec() + " "@ + self.b.render_spec()
    }

    /// Renders the expression.
    pub fn render(&self) -> (r: String)
        ensures
            r@ == self.render_spec(),
    {
        let mut s = self.a.render();
        s.append(" ");
        let op = self.op.render();
        s.append(op.as_str());
        s.append(" ");
        let b = self.b.render();
        s.append(b.as_str());
        proof {
            assert(s@ =~= self.render_spec());
        }
        s
    }
}

impl ResOperand {
    /// The canonical rendering: the contained variant's own rendering,
    /// except a double dereference, whose outer brackets wrap the inner
    /// cell's rendering and the second offset.
    pub open spec fn render_spec(self) -> Seq<char> {
        match self {
            ResOperand::Deref(c) => c.render_spec(),
            ResOperand::DoubleDeref(c, off) => "["@ + c.render_spec() + " + "@ + decimal_chars(
                off as int,
            ) + "]"@,
            ResOperand::Immediate(f) => decimal_chars(f@.value()),
            ResOperand::BinOp(b) => b.render_spec(),
        }
    }

    /// Renders the operand.
    pub fn render(&self) -> (r: String)
        ensures
            r@ == self.render_spec(),
    {
        match self {
            ResOperand::Deref(c) => c.render(),
            ResOperand::DoubleDeref(c, off) => {
                let mut s = String::from_str("[");
                let inner = c.render();
                s.append(inner.as_str());
                s.append(" + ");
                let o = i16_to_decimal(*off);
                s.append(o.as_str());
                s.append("]");
                proof {
                    assert(s@ =~= self.render_spec());
                }
                s
            },
            ResOperand::Immediate(f) => f.render(),
            ResOperand::BinOp(b) => b.render(),
        }
    }
}

impl From<CellRef> for DerefOrImmediate {
    fn from(x: CellRef) -> (r: DerefOrImmediate) {
        DerefOrImmediate::Deref(x)
    }
}

impl vstd::std_specs::convert::FromSpecImpl<CellRef> for DerefOrImmediate {
    open spec fn obeys_from_spec() -> bool {
        true
    }

    open spec fn from_spec(x: CellRef) -> DerefOrImmediate {
        DerefOrImmediate::Deref(x)
    }
}

impl From<FieldElement> for DerefOrImmediate {
    fn from(x: FieldElement) -> (r: DerefOrImmediate) {
        DerefOrImmediate::Immediate(x)
    }
}

impl vstd::std_specs::convert::FromSpecImpl<FieldElement> for DerefOrImmediate {
    open spec fn obeys_from_spec() -> bool {
        true
    }

    open spec fn from_spec(x: FieldElement) -> DerefOrImmediate {
        DerefOrImmediate::Immediate(x)
    }
}

impl From<DerefOrImmediate> for ResOperand {
    fn from(x: DerefOrImmediate) -> (r: ResOperand) {
        match x {
            DerefOrImmediate::Deref(c) => ResOperand::Deref(c),
            DerefOrImmediate::Immediate(f) => ResOperand::Immediate(f),
        }
    }
}

impl vstd::std_specs::convert::FromSpecImpl<DerefOrImmediate> for ResOperand {
    open spec fn obeys_from_spec() -> bool {
        true
    }

    open spec fn from_spec(x: DerefOrImmediate) -> ResOperand {
        match x {
            DerefOrImmediate::Deref(c) => ResOperand::Deref(c),
            DerefOrImmediate::Immediate(f) => ResOperand::Immediate(f),
        }
    }
}

impl From<FieldElement> for ResOperand {
    fn from(x: FieldElement) -> (r: ResOperand) {
        ResOperand::Immediate(x)
    }
}

impl vstd::std_specs::convert::FromSpecImpl<FieldElement> for ResOperand {
    open spec fn obeys_from_spec() -> bool {
        true
    }

    open spec fn from_spec(x: FieldElement) -> ResOperand {
        ResOperand::Immediate(x)
    }
}

/// Converting a `DerefOrImmediate` into a `ResOperand` keeps the payload
/// exactly: a `Deref` becomes `ResOperand::Deref` of the same cell and an
/// `Immediate` becomes `ResOperand::Immediate` of the same value, so the
/// original can be recovered by pattern matching.
pub proof fn lemma_deref_or_immediate_into_res_lossless(d: DerefOrImmediate)
    ensures
        d matches DerefOrImmediate::Deref(c) ==> <ResOperand as FromSpec<
            DerefOrImmediate,
        >>::from_spec(d) == ResOperand::Deref(c),
        d matches DerefOrImmediate::Immediate(f) ==> <ResOperand as FromSpec<
            DerefOrImmediate,
        >>::from_spec(d) == ResOperand::Immediate(f),
{
}

/// Converting a `CellRef` into a `DerefOrImmediate` and then into a
/// `ResOperand` equals converting the cell directly into `ResOperand::Deref`.
pub proof fn lemma_cell_ref_conversion_idempotent(c: CellRef)
    ensures
        <ResOperand as FromSpec<DerefOrImmediate>>::from_spec(
            <DerefOrImmediate as FromSpec<CellRef>>::from_spec(c),
        ) == ResOperand::Deref(c),
{
}

} // verus!
