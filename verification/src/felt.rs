//! Arbitrary-precision field-element immediates.
//!
//! An immediate is held as a sign together with a little-endian sequence of
//! base-2^32 digits ("limbs").  The canonical form has no leading zero limb
//! and never marks zero as negative, so each integer has exactly one
//! canonical representation.

use vstd::prelude::*;

verus! {

use vstd::std_specs::cmp::PartialEqSpec;

/// The natural number denoted by a little-endian sequence of base-2^32 digits.
pub open spec fn limbs_value(limbs: Seq<u32>) -> nat
    decreases limbs.len(),
{
    if limbs.len() == 0 {
        0
    } else {
        limbs[0] as nat + 0x1_0000_0000 * limbs_value(limbs.skip(1))
    }
}

/// The integer denoted by a sign and a little-endian magnitude.
pub open spec fn signed_value(negative: bool, limbs: Seq<u32>) -> int {
    if negative {
        -(limbs_value(limbs) as int)
    } else {
        limbs_value(limbs) as int
    }
}

/// Canonical form: no leading zero limb, and zero is never negative.
pub open spec fn canonical_limbs(negative: bool, limbs: Seq<u32>) -> bool {
    &&& (limbs.len() > 0 ==> limbs.last() != 0)
    &&& (negative ==> limbs.len() > 0)
}

/// The mathematical content of a `FieldElement`: its sign and digits.
pub struct FeltView {
    pub negative: bool,
    pub limbs: Seq<u32>,
}

impl FeltView {
    /// The integer this immediate denotes.
    pub open spec fn value(self) -> int {
        signed_value(self.negative, self.limbs)
    }

    /// Canonical form of the representation.
    pub open spec fn wf(self) -> bool {
        canonical_limbs(self.negative, self.limbs)
    }
}

/// An arbitrary-precision integer immediate: a value in the virtual
/// machine's finite field, stored exactly as a sign and base-2^32 digits.
#[derive(Clone, Debug)]
pub struct FieldElement {
    /// Whether the denoted integer is negative.
    pub negative: bool,
    /// Little-endian base-2^32 digits of the magnitude.
    pub limbs: Vec<u32>,
}

impl View for FieldElement {
    type V = FeltView;

    open spec fn view(&self) -> FeltView {
        FeltView { negative: self.negative, limbs: self.limbs@ }
    }
}

impl PartialEq for FieldElement {
    fn eq(&self, other: &FieldElement) -> (r: bool) {
        let same = self.negative == other.negative && self.limbs == other.limbs;
        proof {
            if self.limbs.eq_spec(&other.limbs) {
                assert(self.limbs@ =~= other.limbs@);
            }
        }
        same
    }
}

impl Eq for FieldElement {

}

impl vstd::std_specs::cmp::PartialEqSpecImpl for FieldElement {
    open spec fn obeys_eq_spec() -> bool {
        true
    }

    open spec fn eq_spec(&self, other: &FieldElement) -> bool {
        self.negative == other.negative && self.limbs@ == other.limbs@
    }
}

impl FieldElement {
    /// Canonical form of the representation.
    pub open spec fn wf(self) -> bool {
        self@.wf()
    }

    /// Builds the immediate denoting the given non-negative integer.
    pub fn from_u64(x: u64) -> (r: FieldElement)
        ensures
            r.wf(),
            r@.value() == x as int,
    {
        let lo: u32 = (x & 0xffff_ffff) as u32;
        let hi: u32 = (x >> 32) as u32;
        let mut limbs: Vec<u32> = Vec::new();
        if hi != 0 {
            limbs.push(lo);
            limbs.push(hi);
        } else if lo != 0 {
            limbs.push(lo);
        }
        proof {
            assert(x == (x & 0xffff_ffff) as u32 + 0x1_0000_0000 * ((x >> 32) as u32))
                by (bit_vector);
            assert((x >> 32) as u32 == 0 && (x & 0xffff_ffff) as u32 == 0 ==> x == 0)
                by (bit_vector);
            lemma_limbs_value_two(lo, hi);
            lemma_limbs_value_one(lo);
            if hi != 0 {
                assert(limbs@ =~= seq![lo, hi]);
            } else if lo != 0 {
                assert(limbs@ =~= seq![lo]);
            } else {
                assert(limbs@ =~= Seq::<u32>::empty());
            }
        }
        FieldElement { negative: false, limbs }
    }

    /// Builds the immediate denoting the given integer, of either sign.
    pub fn from_i64(x: i64) -> (r: FieldElement)
        ensures
            r.wf(),
            r@.value() == x as int,
    {
        if x < 0 {
            let mag: u64 = (-(x as i128)) as u64;
            let f = FieldElement::from_u64(mag);
            proof {
                if f.limbs@.len() == 0 {
                    assert(limbs_value(f.limbs@) == 0);
                }
            }
            FieldElement { negative: true, limbs: f.limbs }
        } else {
            FieldElement::from_u64(x as u64)
        }
    }

    /// The canonical decimal rendering of the denoted integer.
    pub fn render(&self) -> (r: String)
        ensures
            r@ == decimal_chars(self@.value()),
    {
        big_decimal(self.negative, &self.limbs)
    }

    /// The hexadecimal rendering of the denoted integer, as ASCII bytes:
    /// the form the structured serialization stores beside the raw value.
    pub fn hex_bytes(&self) -> (r: Vec<u8>)
        ensures
            r@ == ascii_bytes(hex_chars(self@.value())),
    {
        big_hex_bytes(self.negative, &self.limbs)
    }
}

/// The character for one decimal digit.
pub open spec fn decimal_digit_char(d: nat) -> char {
    if d == 0 {
        '0'
    } else if d == 1 {
        '1'
    } else if d == 2 {
        '2'
    } else if d == 3 {
        '3'
    } else if d == 4 {
        '4'
    } else if d == 5 {
        '5'
    } else if d == 6 {
        '6'
    } else if d == 7 {
        '7'
    } else if d == 8 {
        '8'
    } else {
        '9'
    }
}

/// The base-10 digits of a natural number, most significant first,
/// with no leading zeros (`0` is the single digit `0`).
pub open spec fn decimal_digits(n: nat) -> Seq<char>
    decreases n,
{
    if n < 10 {
        seq![decimal_digit_char(n)]
    } else {
        decimal_digits(n / 10).push(decimal_digit_char(n % 10))
    }
}

/// The canonical decimal rendering of an integer: base-10 digits with a
/// leading `-` for negative values.
pub open spec fn decimal_chars(v: int) -> Seq<char> {
    if v < 0 {
        seq!['-'] + decimal_digits((-v) as nat)
    } else {
        decimal_digits(v as nat)
    }
}

/// The character for one lowercase hexadecimal digit.
pub open spec fn hex_digit_char(d: nat) -> char {
    if d == 0 {
        '0'
    } else if d == 1 {
        '1'
    } else if d == 2 {
        '2'
    } else if d == 3 {
        '3'
    } else if d == 4 {
        '4'
    } else if d == 5 {
        '5'
    } else if d == 6 {
        '6'
    } else if d == 7 {
        '7'
    } else if d == 8 {
        '8'
    } else if d == 9 {
        '9'
    } else if d == 10 {
        'a'
    } else if d == 11 {
        'b'
    } else if d == 12 {
        'c'
    } else if d == 13 {
        'd'
    } else if d == 14 {
        'e'
    } else {
        'f'
    }
}

/// The base-16 digits of a natural number, most significant first,
/// with no leading zeros (`0` is the single digit `0`).
pub open spec fn hex_digits(n: nat) -> Seq<char>
    decreases n,
{
    if n < 16 {
        seq![hex_digit_char(n)]
    } else {
        hex_digits(n / 16).push(hex_digit_char(n % 16))
    }
}

/// The hexadecimal rendering of an integer: `-` for negative values,
/// then `0x` and the lowercase base-16 digits of the magnitude.
pub open spec fn hex_chars(v: int) -> Seq<char> {
    if v < 0 {
        seq!['-', '0', 'x'] + hex_digits((-v) as nat)
    } else {
        seq!['0', 'x'] + hex_digits(v as nat)
    }
}

/// The bytes of an ASCII character sequence.
pub open spec fn ascii_bytes(s: Seq<char>) -> Seq<u8> {
    s.map(|i: int, c: char| c as u8)
}

/// The numeric value of one hexadecimal digit character.
pub open spec fn hex_digit_val(c: char) -> nat {
    if c == '0' {
        0
    } else if c == '1' {
        1
    } else if c == '2' {
        2
    } else if c == '3' {
        3
    } else if c == '4' {
        4
    } else if c == '5' {
        5
    } else if c == '6' {
        6
    } else if c == '7' {
        7
    } else if c == '8' {
        8
    } else if c == '9' {
        9
    } else if c == 'a' {
        10
    } else if c == 'b' {
        11
    } else if c == 'c' {
        12
    } else if c == 'd' {
        13
    } else if c == 'e' {
        14
    } else {
        15
    }
}

/// The natural number denoted by a sequence of base-16 digit characters.
pub open spec fn hex_digits_val(s: Seq<char>) -> nat
    decreases s.len(),
{
    if s.len() == 0 {
        0
    } else {
        hex_digits_val(s.drop_last()) * 16 + hex_digit_val(s.last())
    }
}

/// The integer denoted by a hexadecimal rendering: an optional leading `-`,
/// then `0x` and base-16 digits.
pub open spec fn hex_chars_val(s: Seq<char>) -> int {
    if s.len() > 0 && s[0] == '-' {
        -(hex_digits_val(s.skip(3)) as int)
    } else {
        hex_digits_val(s.skip(2)) as int
    }
}

/// Reading the base-16 digits of `n` back as a number yields `n`.
pub proof fn lemma_hex_digits_val(n: nat)
    ensures
        hex_digits_val(hex_digits(n)) == n,
    decreases n,
{
    if n < 16 {
        assert(seq![hex_digit_char(n)].drop_last() =~= Seq::<char>::empty());
        assert(hex_digits_val(Seq::<char>::empty()) == 0);
    } else {
        lemma_hex_digits_val(n / 16);
        assert(hex_digits(n).drop_last() =~= hex_digits(n / 16));
        assert(n / 16 * 16 + n % 16 == n) by (nonlinear_arith);
    }
}

/// The value denoted by the hexadecimal rendering of `v` is `v` itself.
pub proof fn lemma_hex_chars_val(v: int)
    ensures
        hex_chars_val(hex_chars(v)) == v,
{
    if v < 0 {
        assert(hex_chars(v).skip(3) =~= hex_digits((-v) as nat));
        lemma_hex_digits_val((-v) as nat);
    } else {
        assert(hex_chars(v)[0] == '0');
        assert(hex_chars(v).skip(2) =~= hex_digits(v as nat));
        lemma_hex_digits_val(v as nat);
    }
}

/// In the structured serialization an immediate's hexadecimal field holds
/// the rendering of the same integer as its raw value field: the value the
/// hexadecimal characters denote is the stored value itself.
pub proof fn lemma_hex_field_denotes_value(v: FeltView)
    ensures
        hex_chars_val(hex_chars(v.value())) == v.value(),
{
    lemma_hex_chars_val(v.value());
}

/// Relies on `num_bigint::BigInt`'s `Display` impl: the base-10 digits of
/// the magnitude preceded by `-` for negative values.  `BigUint::new` takes
/// little-endian base-2^32 digits, and `BigInt::from_biguint` normalises a
/// zero magnitude to an unsigned zero.
#[verifier::external_body]
pub(crate) fn big_decimal(negative: bool, limbs: &Vec<u32>) -> (r: String)
    ensures
        r@ == decimal_chars(signed_value(negative, limbs@)),
{
    let sign = if negative { num_bigint::Sign::Minus } else { num_bigint::Sign::Plus };
    let n = num_bigint::BigInt::from_biguint(sign, num_bigint::BigUint::new(limbs.clone()));
    n.to_string()
}

/// Relies on `num_bigint`'s `LowerHex` impl for `BigUint` and on
/// `BigInt::sign`: the result is `-`, for a strictly negative value, then
/// `0x` and the lowercase base-16 digits of the magnitude, as ASCII bytes.
/// `BigInt::from_biguint` normalises a zero magnitude to an unsigned zero.
#[verifier::external_body]
pub(crate) fn big_hex_bytes(negative: bool, limbs: &Vec<u32>) -> (r: Vec<u8>)
    ensures
        r@ == ascii_bytes(hex_chars(signed_value(negative, limbs@))),
{
    let sign = if negative { num_bigint::Sign::Minus } else { num_bigint::Sign::Plus };
    let n = num_bigint::BigInt::from_biguint(sign, num_bigint::BigUint::new(limbs.clone()));
    let minus = if n.sign() == num_bigint::Sign::Minus { "-" } else { "" };
    format!("{}{:#x}", minus, n.magnitude()).into_bytes()
}

/// The value of a single-limb magnitude is that limb.
proof fn lemma_limbs_value_one(a: u32)
    ensures
        limbs_value(seq![a]) == a,
{
    assert(seq![a].skip(1) =~= Seq::<u32>::empty());
    assert(limbs_value(Seq::<u32>::empty()) == 0);
}

/// The value of a two-limb magnitude.
proof fn lemma_limbs_value_two(a: u32, b: u32)
    ensures
        limbs_value(seq![a, b]) == a + 0x1_0000_0000 * b,
{
    assert(seq![a, b].skip(1) =~= seq![b]);
    lemma_limbs_value_one(b);
}

} // verus!
