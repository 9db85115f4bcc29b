//! Witness assignment: one row for each pair of an element of the first set
//! and an element of the second, the first set outermost, with the running
//! sum of the matches carried from row to row, and the public output bound
//! to the last sum, or to zero where there is no pair.

use crate::circuit::PsiCircuit;
use crate::config::{ComparisonRow, PsiConfig};
use crate::field::{field_mul, field_sub, modulus, FieldElement};
use crate::MAX_SET_SIZE;
use vstd::prelude::*;

verus! {

/// Whether pair number `k` is a match. Pair `k` holds element `k / len(b)`
/// of `a` and element `k % len(b)` of `b`.
pub open spec fn pair_matches(a: Seq<FieldElement>, b: Seq<FieldElement>, k: int) -> bool {
    a[k / (b.len() as int)] == b[k % (b.len() as int)]
}

/// The number of matches among the first `n` pairs.
pub open spec fn matches_before(a: Seq<FieldElement>, b: Seq<FieldElement>, n: nat) -> nat
    decreases n,
{
    if n == 0 {
        0
    } else {
        matches_before(a, b, (n - 1) as nat) + if pair_matches(a, b, n - 1) {
            1nat
        } else {
            0nat
        }
    }
}

/// The number of matches among all pairs.
pub open spec fn matching_pairs(a: Seq<FieldElement>, b: Seq<FieldElement>) -> nat {
    matches_before(a, b, a.len() * b.len())
}

/// The row that compares `a` with `b` where the matches so far, this row
/// included, number `sum`: the match bit says whether the two are equal, the
/// helper cell inverts their difference or is zero, the match gate is on, and
/// the running-sum gate is on unless the row is the first.
pub open spec fn is_comparison_row(
    row: ComparisonRow,
    a: FieldElement,
    b: FieldElement,
    sum: nat,
    first: bool,
) -> bool {
    &&& row.set_a == a
    &&& row.set_b == b
    &&& row.match_bit.value() == (if a == b {
        1nat
    } else {
        0nat
    })
    &&& row.diff_inv.is_canonical()
    &&& a == b ==> row.diff_inv.value() == 0
    &&& a != b ==> field_mul(field_sub(a.value(), b.value()), row.diff_inv.value()) == 1
    &&& row.sum.value() == sum
    &&& row.q_equality
    &&& row.q_sum == !first
}

/// The first rows of the assignment for `a` and `b`, however many there are.
pub open spec fn is_witness_prefix(
    rows: Seq<ComparisonRow>,
    a: Seq<FieldElement>,
    b: Seq<FieldElement>,
) -> bool {
    forall|k: int|
        0 <= k < rows.len() ==> is_comparison_row(
            #[trigger] rows[k],
            a[k / (b.len() as int)],
            b[k % (b.len() as int)],
            matches_before(a, b, (k + 1) as nat),
            k == 0,
        )
}

/// The assignment for `a` and `b`: a row for every pair, in order.
pub open spec fn is_witness(
    rows: Seq<ComparisonRow>,
    a: Seq<FieldElement>,
    b: Seq<FieldElement>,
) -> bool {
    &&& rows.len() == a.len() * b.len()
    &&& is_witness_prefix(rows, a, b)
}

/// An equality constraint between a cell of the running-sum column and a
/// cell of the instance column.
#[derive(Clone, Copy, Debug, PartialEq, Eq, Structural)]
pub struct OutputBinding {
    /// The row of the running sum.
    pub sum_row: usize,
    /// The row of the instance column.
    pub instance_row: usize,
}

/// A cell of the running-sum column that is tied to a constant: an equality
/// constraint between the cell and a cell of the constants column that is
/// fixed to the value.
#[derive(Clone, Copy, Debug, PartialEq, Eq)]
pub struct ConstantCell {
    /// The row of the running sum.
    pub sum_row: usize,
    /// The constant.
    pub value: FieldElement,
}

/// The rows of an instance, and the binding of its intersection size to the
/// public output.
#[derive(Debug)]
pub struct Synthesis {
    /// The rows, in order.
    pub rows: Vec<ComparisonRow>,
    /// Where there is no row, the running-sum cell of row zero, tied to the
    /// constant zero; none where there is a row.
    pub constant: Option<ConstantCell>,
    /// The running-sum cell that is equated with row zero of the instance
    /// column: that of the last row, or the constant cell where there is no
    /// row.
    pub output: OutputBinding,
}

impl Synthesis {
    /// The running-sum cell that the public output is bound to.
    pub open spec fn bound_cell(&self) -> FieldElement {
        match self.constant {
            Some(cell) => cell.value,
            None => self.rows@[self.output.sum_row as int].sum,
        }
    }
}

/// What synthesis gives for `a` and `b`: the assignment, and the public
/// output bound to the last running sum, or to a cell that is tied to zero
/// where a set is empty and there is no row.
pub open spec fn is_synthesis(
    synthesis: Synthesis,
    a: Seq<FieldElement>,
    b: Seq<FieldElement>,
) -> bool {
    &&& is_witness(synthesis.rows@, a, b)
    &&& synthesis.output.instance_row == 0
    &&& if synthesis.rows@.len() > 0 {
        &&& synthesis.constant is None
        &&& synthesis.output.sum_row == synthesis.rows@.len() - 1
    } else {
        &&& synthesis.constant matches Some(cell)
        &&& cell.sum_row == 0
        &&& cell.value.value() == 0
        &&& synthesis.output.sum_row == 0
    }
}

/// At most `n` of the first `n` pairs match.
pub proof fn lemma_matches_before_bound(a: Seq<FieldElement>, b: Seq<FieldElement>, n: nat)
    ensures
        matches_before(a, b, n) <= n,
    decreases n,
{
    if n > 0 {
        lemma_matches_before_bound(a, b, (n - 1) as nat);
    }
}

impl PsiCircuit {
    /// Assigns the rows of the instance and binds the public output to the
    /// last running sum. Where a set is empty there is no row: the public
    /// output is then bound to a cell that is tied to the constant zero, the
    /// intersection size of such an instance.
    pub fn synthesize(&self, config: &PsiConfig) -> (synthesis: Synthesis)
        ensures
            is_synthesis(synthesis, self@.set_a, self@.set_b),
    {
        let set_a = self.set_a();
        let set_b = self.set_b();
        let width = set_b.len();
        let mut rows: Vec<ComparisonRow> = Vec::new();
        let mut sum_cell: Option<FieldElement> = None;
        let mut row: usize = 0;
        let mut i: usize = 0;
        while i < set_a.len()
            invariant
                i <= set_a@.len() <= MAX_SET_SIZE,
                width == set_b@.len() <= MAX_SET_SIZE,
                row == i * width,
                rows@.len() == row,
                is_witness_prefix(rows@, set_a@, set_b@),
                sum_cell == (if row == 0 {
                    None
                } else {
                    Some(rows@[row - 1].sum)
                }),
            decreases set_a@.len() - i,
        {
            let mut j: usize = 0;
            while j < width
                invariant
                    i < set_a@.len() <= MAX_SET_SIZE,
                    j <= width,
                    width == set_b@.len() <= MAX_SET_SIZE,
                    row == i * width + j,
                    rows@.len() == row,
                    is_witness_prefix(rows@, set_a@, set_b@),
                    sum_cell == (if row == 0 {
                        None
                    } else {
                        Some(rows@[row - 1].sum)
                    }),
                decreases width - j,
            {
                proof {
                    assert(i * width <= 31 * 32) by (nonlinear_arith)
                        requires
                            i <= 31,
                            width <= 32,
                    ;
                    vstd::arithmetic::div_mod::lemma_fundamental_div_mod_converse(
                        row as int,
                        width as int,
                        i as int,
                        j as int,
                    );
                    lemma_matches_before_bound(set_a@, set_b@, row as nat);
                }
                let cells = config.assign_comparison(set_a[i], set_b[j], sum_cell, row);
                let helper = cells.diff_inv;
                proof {
                    use_type_invariant(&helper);
                    let before = matches_before(set_a@, set_b@, row as nat);
                    let bit = cells.match_bit.value();
                    assert(pair_matches(set_a@, set_b@, row as int) == (set_a@[i as int]
                        == set_b@[j as int]));
                    vstd::arithmetic::div_mod::lemma_small_mod(before + bit, modulus());
                }
                rows.push(cells);
                sum_cell = Some(cells.sum);
                row += 1;
                j += 1;
            }
            proof {
                assert((i + 1) * width == i * width + width) by (nonlinear_arith);
            }
            i += 1;
        }
        if rows.len() > 0 {
            let output = OutputBinding { sum_row: rows.len() - 1, instance_row: 0 };
            Synthesis { rows, constant: None, output }
        } else {
            let zero = ConstantCell { sum_row: 0, value: FieldElement::zero() };
            let output = OutputBinding { sum_row: 0, instance_row: 0 };
            Synthesis { rows, constant: Some(zero), output }
        }
    }
}

} // verus!
