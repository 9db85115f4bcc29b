//! Elements of the base field of the Pallas curve, held by their canonical
//! byte representation, and the arithmetic the circuit needs on them.

use ff::{Field, PrimeField};
use pasta_curves::Fp;
use vstd::prelude::*;
use vstd::std_specs::cmp::PartialEqSpecImpl;

verus! {

/// The prime `p` of the field.
pub open spec fn modulus() -> nat {
    0x40000000000000000000000000000000224698fc094cf91b992d30ed00000001nat
}

/// The number that a sequence of bytes spells, least significant byte first.
pub open spec fn le_value(bytes: Seq<u8>) -> nat
    decreases bytes.len(),
{
    if bytes.len() == 0 {
        0
    } else {
        bytes[0] as nat + 256 * le_value(bytes.drop_first())
    }
}

/// `256` to the power `n`.
pub open spec fn pow256(n: nat) -> nat
    decreases n,
{
    if n == 0 {
        1
    } else {
        256 * pow256((n - 1) as nat)
    }
}

/// Sum of two residues.
pub open spec fn field_add(a: nat, b: nat) -> nat {
    (a + b) % modulus()
}

/// Difference of two residues.
pub open spec fn field_sub(a: nat, b: nat) -> nat {
    ((a - b) % (modulus() as int)) as nat
}

/// Product of two residues.
pub open spec fn field_mul(a: nat, b: nat) -> nat {
    (a * b) % modulus()
}

/// Two residues differ by a multiple of the modulus only if they are equal.
pub proof fn lemma_field_sub_zero(a: nat, b: nat)
    requires
        a < modulus(),
        b < modulus(),
    ensures
        field_sub(a, b) == 0 <==> a == b,
{
    let p = modulus() as int;
    if a >= b {
        vstd::arithmetic::div_mod::lemma_small_mod((a - b) as nat, modulus());
    } else {
        vstd::arithmetic::div_mod::lemma_mod_add_multiples_vanish(a - b, p);
        vstd::arithmetic::div_mod::lemma_small_mod((a - b + p) as nat, modulus());
    }
}

/// A sequence of bytes spells a number below `256` to its length.
pub proof fn lemma_le_value_bound(bytes: Seq<u8>)
    ensures
        le_value(bytes) < pow256(bytes.len()),
    decreases bytes.len(),
{
    if bytes.len() > 0 {
        lemma_le_value_bound(bytes.drop_first());
    }
}

/// Appending a byte adds it at the weight of its position.
pub proof fn lemma_le_value_push(bytes: Seq<u8>, b: u8)
    ensures
        le_value(bytes.push(b)) == le_value(bytes) + b * pow256(bytes.len()),
    decreases bytes.len(),
{
    let pushed = bytes.push(b);
    if bytes.len() == 0 {
        assert(le_value(pushed) == b as nat + 256 * le_value(pushed.drop_first()));
        assert(b * pow256(0) == b) by (nonlinear_arith)
            requires
                pow256(0) == 1,
        ;
    } else {
        let rest = bytes.drop_first();
        assert(pushed.drop_first() =~= rest.push(b));
        lemma_le_value_push(rest, b);
        assert(256 * (b * pow256(rest.len())) == b * pow256(bytes.len())) by (nonlinear_arith)
            requires
                pow256(bytes.len()) == 256 * pow256(rest.len()),
        ;
    }
}

/// Two byte sequences of one length that spell the same number are equal.
pub proof fn lemma_le_value_injective(x: Seq<u8>, y: Seq<u8>)
    requires
        x.len() == y.len(),
        le_value(x) == le_value(y),
    ensures
        x == y,
    decreases x.len(),
{
    if x.len() > 0 {
        lemma_le_value_injective(x.drop_first(), y.drop_first());
        assert(x =~= seq![x[0]] + x.drop_first());
    }
}

/// A sequence of zero bytes spells zero.
pub proof fn lemma_le_value_zeros(bytes: Seq<u8>)
    requires
        forall|i: int| 0 <= i < bytes.len() ==> bytes[i] == 0,
    ensures
        le_value(bytes) == 0,
    decreases bytes.len(),
{
    if bytes.len() > 0 {
        lemma_le_value_zeros(bytes.drop_first());
    }
}

/// The bytes above position `n` being zero, only the first `n` bytes count.
pub proof fn lemma_le_value_low_part(bytes: Seq<u8>, n: int)
    requires
        0 <= n <= bytes.len(),
        forall|i: int| n <= i < bytes.len() ==> bytes[i] == 0,
    ensures
        le_value(bytes) == le_value(bytes.take(n)),
    decreases n,
{
    if n == 0 {
        lemma_le_value_zeros(bytes);
    } else {
        lemma_le_value_low_part(bytes.drop_first(), n - 1);
        assert(bytes.take(n).drop_first() =~= bytes.drop_first().take(n - 1));
    }
}

/// A sequence of bytes spells what its first `n` bytes spell, and the rest
/// at the weight of position `n`.
pub proof fn lemma_le_value_split(bytes: Seq<u8>, n: int)
    requires
        0 <= n <= bytes.len(),
    ensures
        le_value(bytes) == le_value(bytes.take(n)) + pow256(n as nat) * le_value(bytes.skip(n)),
    decreases n,
{
    if n == 0 {
        assert(bytes.skip(0) =~= bytes);
        assert(1 * le_value(bytes) == le_value(bytes));
    } else {
        let rest = bytes.drop_first();
        lemma_le_value_split(rest, n - 1);
        assert(bytes.take(n).drop_first() =~= rest.take(n - 1));
        assert(bytes.skip(n) =~= rest.skip(n - 1));
        let high = le_value(bytes.skip(n));
        assert(256 * (pow256((n - 1) as nat) * high) == pow256(n as nat) * high)
            by (nonlinear_arith)
            requires
                pow256(n as nat) == 256 * pow256((n - 1) as nat),
        ;
    }
}

/// The `n` low bytes of `v`, least significant first.
pub open spec fn le_bytes(v: nat, n: nat) -> Seq<u8> {
    Seq::new(n, |i: int| ((v / pow256(i as nat)) % 256) as u8)
}

/// Powers of `256` are positive and grow with the exponent.
pub proof fn lemma_pow256_increases(m: nat, n: nat)
    requires
        m <= n,
    ensures
        0 < pow256(m) <= pow256(n),
    decreases n,
{
    if n > 0 {
        if m < n {
            lemma_pow256_increases(m, (n - 1) as nat);
        } else {
            lemma_pow256_increases((m - 1) as nat, (n - 1) as nat);
        }
    }
}

/// The `n` low bytes of `v` spell `v` modulo `256` to the `n`.
pub proof fn lemma_le_value_le_bytes(v: nat, n: nat)
    ensures
        le_value(le_bytes(v, n)) == v % pow256(n),
    decreases n,
{
    if n > 0 {
        let m = (n - 1) as nat;
        let digit = ((v / pow256(m)) % 256) as u8;
        lemma_pow256_increases(0, m);
        lemma_le_value_le_bytes(v, m);
        assert(le_bytes(v, n) =~= le_bytes(v, m).push(digit));
        lemma_le_value_push(le_bytes(v, m), digit);
        vstd::arithmetic::div_mod::lemma_mod_breakdown(v as int, pow256(m) as int, 256);
        assert(digit * pow256(m) == pow256(m) * ((v / pow256(m)) % 256)) by (nonlinear_arith)
            requires
                digit == (v / pow256(m)) % 256,
        ;
        assert(pow256(m) * 256 == pow256(n)) by (nonlinear_arith)
            requires
                pow256(n) == 256 * pow256(m),
        ;
    }
}

/// `256` to the power `8`, and a bound for `256` to the power `31`.
pub proof fn lemma_pow256_values()
    ensures
        pow256(8) == 0x1_0000_0000_0000_0000,
        pow256(31) < modulus(),
{
    reveal_with_fuel(pow256, 32);
}

/// An element of the field, as the 32 bytes of its canonical representation:
/// the number below the modulus that it stands for, least significant byte first.
#[derive(Clone, Copy, Debug, Hash)]
pub struct FieldElement {
    bytes: [u8; 32],
}

impl View for FieldElement {
    type V = Seq<u8>;

    closed spec fn view(&self) -> Seq<u8> {
        self.bytes@
    }
}

impl PartialEq for FieldElement {
    fn eq(&self, other: &Self) -> (r: bool) {
        let mut i: usize = 0;
        while i < 32
            invariant
                i <= 32,
                forall|j: int| 0 <= j < i ==> self.bytes[j] == other.bytes[j],
            decreases 32 - i,
        {
            if self.bytes[i] != other.bytes[i] {
                return false;
            }
            i += 1;
        }
        assert(self.bytes =~= other.bytes);
        true
    }
}

impl PartialEqSpecImpl for FieldElement {
    open spec fn obeys_eq_spec() -> bool {
        true
    }

    open spec fn eq_spec(&self, other: &Self) -> bool {
        *self == *other
    }
}

impl Eq for FieldElement {

}

impl FieldElement {
    /// The residue that the element stands for.
    pub open spec fn value(&self) -> nat {
        le_value(self@)
    }

    /// The representation is below the modulus. It holds of every element
    /// that executable code can reach.
    #[verifier::type_invariant]
    pub open spec fn is_canonical(self) -> bool {
        self.value() < modulus()
    }

    /// Elements are equal exactly when their representations are, and exactly
    /// when they stand for the same residue.
    pub proof fn lemma_equality(self, other: Self)
        ensures
            (self == other) <==> (self@ == other@),
            (self == other) <==> (self.value() == other.value()),
    {
        if self@ == other@ {
            assert(self.bytes =~= other.bytes);
        }
        if self.value() == other.value() {
            lemma_le_value_injective(self@, other@);
        }
    }

    /// The element that stands for the residue `v`.
    pub open spec fn of_value(v: nat) -> FieldElement {
        choose|e: FieldElement| e.value() == v
    }

    /// There is an element that stands for one.
    pub proof fn lemma_one_exists()
        ensures
            FieldElement::of_value(1).value() == 1,
    {
        let zeros: [u8; 32] = vstd::array::spec_array_fill_for_copy_type::<u8, 32>(0u8);
        let bytes: [u8; 32] = vstd::array::spec_array_update(zeros, 0, 1u8);
        let one = FieldElement { bytes };
        lemma_le_value_zeros(one@.drop_first());
        assert(one.value() == 1);
    }

    /// An element is the one that stands for its residue.
    pub proof fn lemma_of_value(self)
        ensures
            FieldElement::of_value(self.value()) == self,
    {
        let chosen = FieldElement::of_value(self.value());
        chosen.lemma_equality(self);
    }

    /// The additive identity.
    pub fn zero() -> (r: Self)
        ensures
            r.value() == 0,
            r == FieldElement::of_value(0),
    {
        let bytes = [0u8; 32];
        proof {
            lemma_le_value_zeros(bytes@);
        }
        let r = FieldElement { bytes };
        proof {
            r.lemma_of_value();
        }
        r
    }

    /// The multiplicative identity.
    pub fn one() -> (r: Self)
        ensures
            r.value() == 1,
            r == FieldElement::of_value(1),
    {
        let mut bytes = [0u8; 32];
        bytes[0] = 1;
        proof {
            lemma_le_value_zeros(bytes@.drop_first());
        }
        let r = FieldElement { bytes };
        proof {
            r.lemma_of_value();
        }
        r
    }

    /// The element that stands for a 64-bit number.
    pub fn from_u64(v: u64) -> (r: Self)
        ensures
            r.value() == v,
            r@ == le_bytes(v as nat, 32),
    {
        let low = u64_to_le_bytes(v);
        let mut bytes = [0u8; 32];
        let mut i: usize = 0;
        while i < 8
            invariant
                i <= 8,
                low@ == le_bytes(v as nat, 8),
                forall|j: int| 0 <= j < i ==> bytes[j] == low[j],
                forall|j: int| i <= j < 32 ==> bytes[j] == 0,
            decreases 8 - i,
        {
            bytes[i] = low[i];
            i += 1;
        }
        proof {
            lemma_pow256_values();
            assert forall|j: int| 8 <= j < 32 implies le_bytes(v as nat, 32)[j] == 0 by {
                lemma_pow256_increases(8, j as nat);
                vstd::arithmetic::div_mod::lemma_basic_div(v as int, pow256(j as nat) as int);
            }
            assert(bytes@ =~= le_bytes(v as nat, 32));
            lemma_le_value_le_bytes(v as nat, 32);
            lemma_pow256_increases(8, 32);
            vstd::arithmetic::div_mod::lemma_small_mod(v as nat, pow256(32));
        }
        FieldElement { bytes }
    }

    /// The low 64 bits of the residue.
    pub fn low_u64(&self) -> (r: u64)
        ensures
            r == self.value() % 0x1_0000_0000_0000_0000,
    {
        let mut low: u64 = 0;
        let mut i: usize = 8;
        while i > 0
            invariant
                i <= 8,
                low == le_value(self.bytes@.subrange(i as int, 8)),
            decreases i,
        {
            proof {
                let longer = self.bytes@.subrange(i - 1, 8);
                assert(longer.drop_first() =~= self.bytes@.subrange(i as int, 8));
                lemma_le_value_bound(longer);
                lemma_pow256_increases(longer.len(), 8);
                lemma_pow256_values();
            }
            i -= 1;
            low = low * 256 + self.bytes[i] as u64;
        }
        proof {
            lemma_le_value_split(self@, 8);
            lemma_le_value_bound(self@.take(8));
            lemma_pow256_values();
            let high = le_value(self@.skip(8));
            assert(high * pow256(8) == pow256(8) * high) by (nonlinear_arith);
            vstd::arithmetic::div_mod::lemma_fundamental_div_mod_converse(
                self.value() as int,
                pow256(8) as int,
                le_value(self@.skip(8)) as int,
                low as int,
            );
        }
        low
    }

    /// The bytes of the canonical representation.
    pub fn to_repr(&self) -> (r: [u8; 32])
        ensures
            r@ == self@,
    {
        self.bytes
    }

    /// The element with the given representation, if it is canonical.
    pub fn from_repr(repr: [u8; 32]) -> (r: Option<Self>)
        ensures
            r is Some <==> le_value(repr@) < modulus(),
            r is Some ==> r->0@ == repr@,
    {
        fp_from_repr(repr)
    }
}

/// The eight bytes of a 64-bit number, least significant first.
pub fn u64_to_le_bytes(v: u64) -> (r: [u8; 8])
    ensures
        r@ == le_bytes(v as nat, 8),
{
    let mut bytes = [0u8; 8];
    let mut rest: u64 = v;
    let mut i: usize = 0;
    assert((v as nat) / pow256(0) == v) by {
        assert(pow256(0) == 1);
    }
    while i < 8
        invariant
            i <= 8,
            rest == (v as nat) / pow256(i as nat),
            forall|j: int| 0 <= j < i ==> bytes[j] == le_bytes(v as nat, 8)[j],
        decreases 8 - i,
    {
        proof {
            lemma_pow256_increases(0, i as nat);
            vstd::arithmetic::div_mod::lemma_div_denominator(
                v as int,
                pow256(i as nat) as int,
                256,
            );
            assert(pow256(i as nat) * 256 == pow256((i + 1) as nat)) by (nonlinear_arith)
                requires
                    pow256((i + 1) as nat) == 256 * pow256(i as nat),
            ;
        }
        bytes[i] = (rest % 256) as u8;
        rest = rest / 256;
        i += 1;
    }
    bytes
}

/// `PrimeField::from_repr` of `pasta_curves::Fp`, its result read back with
/// `to_repr`. Trusted: the bytes are accepted exactly when the number they
/// spell, least significant byte first, is below the modulus, and an accepted
/// element has those bytes as its representation.
#[verifier::external_body]
pub(crate) fn fp_from_repr(repr: [u8; 32]) -> (r: Option<FieldElement>)
    ensures
        r is Some <==> le_value(repr@) < modulus(),
        r is Some ==> r->0@ == repr@,
{
    match Fp::from_repr(repr).into_option() {
        Some(x) => Some(FieldElement { bytes: x.to_repr() }),
        None => None,
    }
}

/// `+` of `pasta_curves::Fp`. Trusted: the sum is taken modulo the modulus.
/// The operands are canonical, as every element is, so their conversion does
/// not fail.
#[verifier::external_body]
pub(crate) fn fp_add(a: &FieldElement, b: &FieldElement) -> (r: FieldElement)
    ensures
        r.value() == field_add(a.value(), b.value()),
{
    let x = Fp::from_repr(a.bytes).unwrap();
    let y = Fp::from_repr(b.bytes).unwrap();
    FieldElement { bytes: (x + y).to_repr() }
}

/// `-` of `pasta_curves::Fp`. Trusted: the difference is taken modulo the
/// modulus. The operands are canonical, as every element is, so their
/// conversion does not fail.
#[verifier::external_body]
pub(crate) fn fp_sub(a: &FieldElement, b: &FieldElement) -> (r: FieldElement)
    ensures
        r.value() == field_sub(a.value(), b.value()),
{
    let x = Fp::from_repr(a.bytes).unwrap();
    let y = Fp::from_repr(b.bytes).unwrap();
    FieldElement { bytes: (x - y).to_repr() }
}

/// `Field::invert` of `pasta_curves::Fp`. Trusted: zero has no inverse, and
/// every other element has one, whose product with the element is one. The
/// operand is canonical, as every element is, so its conversion does not
/// fail.
#[verifier::external_body]
pub(crate) fn fp_invert(a: &FieldElement) -> (r: Option<FieldElement>)
    ensures
        r is Some <==> a.value() != 0,
        r is Some ==> field_mul(a.value(), r->0.value()) == 1,
{
    match Fp::from_repr(a.bytes).unwrap().invert().into_option() {
        Some(y) => Some(FieldElement { bytes: y.to_repr() }),
        None => None,
    }
}

} // verus!
