//! The shape of the intersection circuit: its columns and selectors, the
//! match gate and the running-sum gate, and the values of one row.
//!
//! Each row compares one element of the first set with one element of the
//! second. Its match bit is one where they are equal and zero where they are
//! not, and its running sum adds the match bit to the sum of the row before.

use crate::constraint::{
    AdviceColumn, Column, ConstraintSystem, Expression, FixedColumn, InstanceColumn, Rotation,
    Selector, Table,
};
use crate::field::{
    field_add, field_mul, field_sub, fp_add, fp_invert, fp_sub, lemma_field_sub_zero, FieldElement,
};
use vstd::prelude::*;

verus! {

/// The columns and selectors of the circuit.
#[derive(Clone, Copy, Debug, PartialEq, Eq, Structural)]
pub struct PsiConfig {
    /// The element of the first set.
    pub set_a: AdviceColumn,
    /// The element of the second set.
    pub set_b: AdviceColumn,
    /// One if the two elements match, zero otherwise.
    pub match_bit: AdviceColumn,
    /// The running sum of the match bits.
    pub sum: AdviceColumn,
    /// The inverse of the difference of the two elements, or zero where
    /// they are equal.
    pub diff_inv: AdviceColumn,
    /// Switches the match gate on.
    pub q_equality: Selector,
    /// Switches the running-sum gate on.
    pub q_sum: Selector,
    /// The public intersection size.
    pub instance: InstanceColumn,
    /// The constants that cells are tied to: the zero that stands for the
    /// intersection size where a set is empty.
    pub constants: FixedColumn,
}

/// The values of one row.
#[derive(Clone, Copy, Debug, PartialEq, Eq)]
pub struct ComparisonRow {
    pub set_a: FieldElement,
    pub set_b: FieldElement,
    pub match_bit: FieldElement,
    pub sum: FieldElement,
    pub diff_inv: FieldElement,
    pub q_equality: bool,
    pub q_sum: bool,
}

/// What the match gate asks of the cells of a row: that the match bit `m`
/// is zero or one, that the difference of `a` and `b` times `h` is `1 - m`,
/// and that `m` times the difference is zero.
///
/// Where `a` and `b` are equal the second relation leaves only `m = 1`.
/// Where they differ the third leaves only `m = 0`, and the second is then
/// met by the inverse of the difference alone.
pub open spec fn match_relation(a: nat, b: nat, m: nat, h: nat) -> bool {
    &&& field_mul(m, field_sub(m, 1)) == 0
    &&& field_sub(field_mul(field_sub(a, b), h), field_sub(1, m)) == 0
    &&& field_mul(m, field_sub(a, b)) == 0
}

/// What the running-sum gate asks: the sum of a row is the sum of the row
/// before plus the match bit.
pub open spec fn sum_relation(previous: nat, current: nat, m: nat) -> bool {
    field_sub(field_sub(current, previous), m) == 0
}

impl PsiConfig {
    /// No two of the witness columns are the same, nor the two selectors.
    pub open spec fn wf(self) -> bool {
        &&& self.set_a.index != self.set_b.index
        &&& self.set_a.index != self.match_bit.index
        &&& self.set_a.index != self.sum.index
        &&& self.set_a.index != self.diff_inv.index
        &&& self.set_b.index != self.match_bit.index
        &&& self.set_b.index != self.sum.index
        &&& self.set_b.index != self.diff_inv.index
        &&& self.match_bit.index != self.sum.index
        &&& self.match_bit.index != self.diff_inv.index
        &&& self.sum.index != self.diff_inv.index
        &&& self.q_equality.index != self.q_sum.index
    }

    /// The configuration whose columns and selectors are the next free ones
    /// of a constraint system.
    pub open spec fn allocated_in(meta: ConstraintSystem) -> PsiConfig {
        PsiConfig {
            set_a: AdviceColumn { index: meta.num_advice_columns },
            set_b: AdviceColumn { index: (meta.num_advice_columns + 1) as usize },
            match_bit: AdviceColumn { index: (meta.num_advice_columns + 2) as usize },
            sum: AdviceColumn { index: (meta.num_advice_columns + 3) as usize },
            diff_inv: AdviceColumn { index: (meta.num_advice_columns + 4) as usize },
            q_equality: Selector { index: meta.num_selectors },
            q_sum: Selector { index: (meta.num_selectors + 1) as usize },
            instance: InstanceColumn { index: meta.num_instance_columns },
            constants: FixedColumn { index: meta.num_fixed_columns },
        }
    }

    /// The columns whose cells may be bound by equality constraints.
    pub open spec fn equality_columns(self) -> Seq<Column> {
        seq![
            Column::Advice(self.set_a),
            Column::Advice(self.set_b),
            Column::Advice(self.match_bit),
            Column::Advice(self.sum),
            Column::Instance(self.instance),
        ]
    }

    /// `q_equality * (m * (m - 1))`: the match bit is zero or one.
    pub open spec fn boolean_poly(self) -> Expression {
        let m = Expression::Advice(self.match_bit, Rotation::Cur);
        Expression::spec_times(
            Expression::Selector(self.q_equality),
            Expression::spec_times(m, Expression::spec_minus(m, Expression::spec_one())),
        )
    }

    /// `q_equality * ((a - b) * h - (1 - m))`: the match bit is one where
    /// the elements are equal, and `h` inverts their difference where it is
    /// zero.
    pub open spec fn inverse_poly(self) -> Expression {
        let a = Expression::Advice(self.set_a, Rotation::Cur);
        let b = Expression::Advice(self.set_b, Rotation::Cur);
        let m = Expression::Advice(self.match_bit, Rotation::Cur);
        let h = Expression::Advice(self.diff_inv, Rotation::Cur);
        Expression::spec_times(
            Expression::Selector(self.q_equality),
            Expression::spec_minus(
                Expression::spec_times(Expression::spec_minus(a, b), h),
                Expression::spec_minus(Expression::spec_one(), m),
            ),
        )
    }

    /// `q_equality * (m * (a - b))`: the match bit is zero where the
    /// elements differ.
    pub open spec fn exclusion_poly(self) -> Expression {
        let a = Expression::Advice(self.set_a, Rotation::Cur);
        let b = Expression::Advice(self.set_b, Rotation::Cur);
        let m = Expression::Advice(self.match_bit, Rotation::Cur);
        Expression::spec_times(
            Expression::Selector(self.q_equality),
            Expression::spec_times(m, Expression::spec_minus(a, b)),
        )
    }

    /// `q_sum * (sum - sum_prev - m)`: the running sum grows by the match
    /// bit.
    pub open spec fn sum_poly(self) -> Expression {
        let current = Expression::Advice(self.sum, Rotation::Cur);
        let previous = Expression::Advice(self.sum, Rotation::Prev);
        let m = Expression::Advice(self.match_bit, Rotation::Cur);
        Expression::spec_times(
            Expression::Selector(self.q_sum),
            Expression::spec_minus(Expression::spec_minus(current, previous), m),
        )
    }

    /// The polynomials of the match gate.
    pub open spec fn equality_polys(self) -> Seq<Expression> {
        seq![self.boolean_poly(), self.inverse_poly(), self.exclusion_poly()]
    }

    /// The polynomials of the running-sum gate.
    pub open spec fn sum_polys(self) -> Seq<Expression> {
        seq![self.sum_poly()]
    }

    /// The constraint system holds the two gates of this configuration at
    /// positions `at` and `at + 1`.
    pub open spec fn installed_at(self, meta: ConstraintSystem, at: int) -> bool {
        &&& 0 <= at
        &&& at + 2 <= meta.gates@.len()
        &&& meta.gates@[at].name@ == "equality check"@
        &&& meta.gates@[at].polys@ == self.equality_polys()
        &&& meta.gates@[at + 1].name@ == "sum accumulator"@
        &&& meta.gates@[at + 1].polys@ == self.sum_polys()
    }

    /// The cells of a row that the match gate reads: the two elements, the
    /// match bit and the helper cell.
    pub open spec fn match_cells(self, table: Table, row: int) -> (nat, nat, nat, nat) {
        (
            table.advice_at(self.set_a.index as int, row),
            table.advice_at(self.set_b.index as int, row),
            table.advice_at(self.match_bit.index as int, row),
            table.advice_at(self.diff_inv.index as int, row),
        )
    }

    /// The match gate holds on a row exactly when its selector is off there,
    /// or the cells of the row stand in the match relation.
    pub proof fn lemma_equality_gate_meaning(self, table: Table, row: int)
        ensures
            (forall|k: int|
                0 <= k < 3 ==> (#[trigger] self.equality_polys()[k]).eval(table, row) == 0) <==> (
            table.selector_at(self.q_equality.index as int, row) ==> {
                let (a, b, m, h) = self.match_cells(table, row);
                match_relation(a, b, m, h)
            }),
    {
        let cell_a = Expression::Advice(self.set_a, Rotation::Cur);
        let cell_b = Expression::Advice(self.set_b, Rotation::Cur);
        let cell_m = Expression::Advice(self.match_bit, Rotation::Cur);
        let cell_h = Expression::Advice(self.diff_inv, Rotation::Cur);
        let one = Expression::spec_one();
        let q = self.q_equality;
        reveal_with_fuel(Expression::eval, 2);
        Expression::lemma_eval_one(table, row);

        let m_less_one = Expression::spec_minus(cell_m, one);
        Expression::lemma_eval_minus(cell_m, one, table, row);
        let boolean = Expression::spec_times(cell_m, m_less_one);
        Expression::lemma_eval_selected(q, boolean, table, row);

        let difference = Expression::spec_minus(cell_a, cell_b);
        Expression::lemma_eval_minus(cell_a, cell_b, table, row);
        let product = Expression::spec_times(difference, cell_h);
        let one_less_m = Expression::spec_minus(one, cell_m);
        Expression::lemma_eval_minus(one, cell_m, table, row);
        let inverse = Expression::spec_minus(product, one_less_m);
        Expression::lemma_eval_minus(product, one_less_m, table, row);
        Expression::lemma_eval_selected(q, inverse, table, row);

        let exclusion = Expression::spec_times(cell_m, difference);
        Expression::lemma_eval_selected(q, exclusion, table, row);

        let selector = Expression::Selector(q);
        assert(self.equality_polys()[0] == Expression::spec_times(selector, boolean));
        assert(self.equality_polys()[1] == Expression::spec_times(selector, inverse));
        assert(self.equality_polys()[2] == Expression::spec_times(selector, exclusion));
    }

    /// The running-sum gate holds on a row exactly when its selector is off
    /// there, or the sum of the row is the sum of the row before plus the
    /// match bit.
    pub proof fn lemma_sum_gate_meaning(self, table: Table, row: int)
        ensures
            self.sum_poly().eval(table, row) == 0 <==> (table.selector_at(
                self.q_sum.index as int,
                row,
            ) ==> sum_relation(
                table.advice_at(self.sum.index as int, row - 1),
                table.advice_at(self.sum.index as int, row),
                table.advice_at(self.match_bit.index as int, row),
            )),
    {
        let current = Expression::Advice(self.sum, Rotation::Cur);
        let previous = Expression::Advice(self.sum, Rotation::Prev);
        let cell_m = Expression::Advice(self.match_bit, Rotation::Cur);
        let growth = Expression::spec_minus(current, previous);
        Expression::lemma_eval_minus(current, previous, table, row);
        let rest = Expression::spec_minus(growth, cell_m);
        Expression::lemma_eval_minus(growth, cell_m, table, row);
        Expression::lemma_eval_selected(self.q_sum, rest, table, row);
    }

    fn equality_gate(&self) -> (polys: Vec<Expression>)
        ensures
            polys@ == self.equality_polys(),
    {
        let mut polys: Vec<Expression> = Vec::new();
        polys.push(
            Expression::times(
                Expression::Selector(self.q_equality),
                Expression::times(
                    Expression::Advice(self.match_bit, Rotation::Cur),
                    Expression::minus(
                        Expression::Advice(self.match_bit, Rotation::Cur),
                        Expression::one(),
                    ),
                ),
            ),
        );
        polys.push(
            Expression::times(
                Expression::Selector(self.q_equality),
                Expression::minus(
                    Expression::times(
                        Expression::minus(
                            Expression::Advice(self.set_a, Rotation::Cur),
                            Expression::Advice(self.set_b, Rotation::Cur),
                        ),
                        Expression::Advice(self.diff_inv, Rotation::Cur),
                    ),
                    Expression::minus(
                        Expression::one(),
                        Expression::Advice(self.match_bit, Rotation::Cur),
                    ),
                ),
            ),
        );
        polys.push(
            Expression::times(
                Expression::Selector(self.q_equality),
                Expression::times(
                    Expression::Advice(self.match_bit, Rotation::Cur),
                    Expression::minus(
                        Expression::Advice(self.set_a, Rotation::Cur),
                        Expression::Advice(self.set_b, Rotation::Cur),
                    ),
                ),
            ),
        );
        polys
    }

    fn sum_gate(&self) -> (polys: Vec<Expression>)
        ensures
            polys@ == self.sum_polys(),
    {
        let mut polys: Vec<Expression> = Vec::new();
        polys.push(
            Expression::times(
                Expression::Selector(self.q_sum),
                Expression::minus(
                    Expression::minus(
                        Expression::Advice(self.sum, Rotation::Cur),
                        Expression::Advice(self.sum, Rotation::Prev),
                    ),
                    Expression::Advice(self.match_bit, Rotation::Cur),
                ),
            ),
        );
        polys
    }

    /// Declares the circuit in a constraint system: five witness columns,
    /// one public column, one fixed column for constants, two selectors,
    /// and the two gates.
    pub fn configure(meta: &mut ConstraintSystem) -> (config: PsiConfig)
        requires
            old(meta).num_advice_columns <= usize::MAX - 5,
            old(meta).num_instance_columns < usize::MAX,
            old(meta).num_fixed_columns < usize::MAX,
            old(meta).num_selectors <= usize::MAX - 2,
        ensures
            config == PsiConfig::allocated_in(*old(meta)),
            config.wf(),
            final(meta).num_advice_columns == old(meta).num_advice_columns + 5,
            final(meta).num_instance_columns == old(meta).num_instance_columns + 1,
            final(meta).num_fixed_columns == old(meta).num_fixed_columns + 1,
            final(meta).num_selectors == old(meta).num_selectors + 2,
            final(meta).equality@ == old(meta).equality@ + config.equality_columns(),
            final(meta).constants@ == old(meta).constants@.push(config.constants),
            final(meta).gates@.len() == old(meta).gates@.len() + 2,
            final(meta).gates@.take(old(meta).gates@.len() as int) == old(meta).gates@,
            config.installed_at(*final(meta), old(meta).gates@.len() as int),
    {
        let set_a = meta.advice_column();
        let set_b = meta.advice_column();
        let match_bit = meta.advice_column();
        let sum = meta.advice_column();
        let diff_inv = meta.advice_column();
        let instance = meta.instance_column();
        let constants = meta.fixed_column();

        meta.enable_equality(Column::Advice(set_a));
        meta.enable_equality(Column::Advice(set_b));
        meta.enable_equality(Column::Advice(match_bit));
        meta.enable_equality(Column::Advice(sum));
        meta.enable_equality(Column::Instance(instance));
        meta.enable_constant(constants);

        let q_equality = meta.selector();
        let q_sum = meta.selector();

        let config = PsiConfig {
            set_a,
            set_b,
            match_bit,
            sum,
            diff_inv,
            q_equality,
            q_sum,
            instance,
            constants,
        };

        meta.create_gate("equality check", config.equality_gate());
        meta.create_gate("sum accumulator", config.sum_gate());

        config
    }

    /// The values of the row that compares `a_val` with `b_val`. The match
    /// gate is switched on; the running-sum gate is switched on for every
    /// row but the first, whose sum is its own match bit.
    pub fn assign_comparison(
        &self,
        a_val: FieldElement,
        b_val: FieldElement,
        prev_sum: Option<FieldElement>,
        offset: usize,
    ) -> (row: ComparisonRow)
        ensures
            row.set_a == a_val,
            row.set_b == b_val,
            row.match_bit.value() == (if a_val == b_val {
                1nat
            } else {
                0nat
            }),
            a_val == b_val ==> row.diff_inv.value() == 0,
            a_val != b_val ==> field_mul(
                field_sub(a_val.value(), b_val.value()),
                row.diff_inv.value(),
            ) == 1,
            row.sum.value() == (match prev_sum {
                Some(previous) => field_add(previous.value(), row.match_bit.value()),
                None => row.match_bit.value(),
            }),
            row.q_equality,
            row.q_sum == (offset > 0),
    {
        let is_equal = a_val == b_val;
        let match_bit = if is_equal {
            FieldElement::one()
        } else {
            FieldElement::zero()
        };
        let difference = fp_sub(&a_val, &b_val);
        proof {
            use_type_invariant(&a_val);
            use_type_invariant(&b_val);
            a_val.lemma_equality(b_val);
            lemma_field_sub_zero(a_val.value(), b_val.value());
        }
        let diff_inv = match fp_invert(&difference) {
            Some(inverse) => inverse,
            None => FieldElement::zero(),
        };
        let sum = match prev_sum {
            Some(previous) => fp_add(&previous, &match_bit),
            None => match_bit,
        };
        ComparisonRow {
            set_a: a_val,
            set_b: b_val,
            match_bit,
            sum,
            diff_inv,
            q_equality: true,
            q_sum: offset > 0,
        }
    }
}

} // verus!
