//! A constraint system over a table of field elements: columns, selectors
//! and gates, each gate a list of polynomials that must vanish on every row.
//!
//! The types here describe a circuit's shape as plain data. A proof backend
//! is handed the description and builds its own structures from it.

use crate::field::{field_add, field_mul, field_sub, modulus, FieldElement};
use vstd::prelude::*;

verus! {

/// The row that a query reads, relative to the row a gate is checked on.
#[derive(Clone, Copy, Debug, PartialEq, Eq, Structural)]
pub enum Rotation {
    /// The row before.
    Prev,
    /// The row itself.
    Cur,
}

impl Rotation {
    /// The distance to the row read.
    pub open spec fn offset(self) -> int {
        match self {
            Rotation::Prev => -1,
            Rotation::Cur => 0,
        }
    }
}

/// A column of witness values.
#[derive(Clone, Copy, Debug, PartialEq, Eq, Structural)]
pub struct AdviceColumn {
    pub index: usize,
}

/// A column of public values.
#[derive(Clone, Copy, Debug, PartialEq, Eq, Structural)]
pub struct InstanceColumn {
    pub index: usize,
}

/// A column of values that are fixed with the circuit.
#[derive(Clone, Copy, Debug, PartialEq, Eq, Structural)]
pub struct FixedColumn {
    pub index: usize,
}

/// A per-row flag that switches a gate on.
#[derive(Clone, Copy, Debug, PartialEq, Eq, Structural)]
pub struct Selector {
    pub index: usize,
}

/// A column of either kind.
#[derive(Clone, Copy, Debug, PartialEq, Eq, Structural)]
pub enum Column {
    Advice(AdviceColumn),
    Instance(InstanceColumn),
}

/// A polynomial over the cells of a row and of its neighbours.
#[derive(Debug)]
pub enum Expression {
    /// A fixed field element.
    Constant(FieldElement),
    /// One where the selector is set on the row, zero elsewhere.
    Selector(Selector),
    /// The cell of a witness column at a relative row.
    Advice(AdviceColumn, Rotation),
    /// The additive inverse.
    Negated(Box<Expression>),
    /// The sum.
    Sum(Box<Expression>, Box<Expression>),
    /// The product.
    Product(Box<Expression>, Box<Expression>),
}

/// The values that a constraint system is checked against: for each witness
/// column its cells, and for each selector its flags, row by row.
pub struct Table {
    /// The number of rows.
    pub rows: nat,
    /// The witness cells, by column and then by row.
    pub advice: Seq<Seq<nat>>,
    /// The selector flags, by selector and then by row.
    pub selectors: Seq<Seq<bool>>,
}

impl Table {
    /// The residue in a witness cell. A cell outside the table reads as
    /// zero.
    pub open spec fn advice_at(self, column: int, row: int) -> nat {
        if 0 <= column < self.advice.len() && 0 <= row < self.advice[column].len() {
            self.advice[column][row] % modulus()
        } else {
            0
        }
    }

    /// Whether a selector is set on a row. Outside the table none is.
    pub open spec fn selector_at(self, selector: int, row: int) -> bool {
        0 <= selector < self.selectors.len() && 0 <= row < self.selectors[selector].len()
            && self.selectors[selector][row]
    }
}

impl Expression {
    /// The residue that the polynomial takes on a row of a table.
    pub open spec fn eval(self, table: Table, row: int) -> nat
        decreases self,
    {
        match self {
            Expression::Constant(c) => c.value() % modulus(),
            Expression::Selector(s) => if table.selector_at(s.index as int, row) {
                1
            } else {
                0
            },
            Expression::Advice(column, rotation) => table.advice_at(
                column.index as int,
                row + rotation.offset(),
            ),
            Expression::Negated(e) => field_sub(0, e.eval(table, row)),
            Expression::Sum(a, b) => field_add(a.eval(table, row), b.eval(table, row)),
            Expression::Product(a, b) => field_mul(a.eval(table, row), b.eval(table, row)),
        }
    }

    /// The difference `a - b`, as the sum of `a` and the negated `b`.
    pub open spec fn spec_minus(a: Expression, b: Expression) -> Expression {
        Expression::Sum(Box::new(a), Box::new(Expression::Negated(Box::new(b))))
    }

    /// The product `a * b`.
    pub open spec fn spec_times(a: Expression, b: Expression) -> Expression {
        Expression::Product(Box::new(a), Box::new(b))
    }

    /// The constant one.
    pub open spec fn spec_one() -> Expression {
        Expression::Constant(FieldElement::of_value(1))
    }

    /// A polynomial evaluates to a residue.
    pub proof fn lemma_eval_bound(self, table: Table, row: int)
        ensures
            self.eval(table, row) < modulus(),
        decreases self,
    {
        match self {
            Expression::Negated(e) => {
                e.lemma_eval_bound(table, row);
            },
            Expression::Sum(a, b) => {
                a.lemma_eval_bound(table, row);
                b.lemma_eval_bound(table, row);
            },
            Expression::Product(a, b) => {
                a.lemma_eval_bound(table, row);
                b.lemma_eval_bound(table, row);
            },
            _ => {},
        }
    }

    /// A difference evaluates to the difference of the residues.
    pub proof fn lemma_eval_minus(a: Expression, b: Expression, table: Table, row: int)
        ensures
            Expression::spec_minus(a, b).eval(table, row) == field_sub(
                a.eval(table, row),
                b.eval(table, row),
            ),
    {
        let x = a.eval(table, row) as int;
        let y = b.eval(table, row) as int;
        reveal_with_fuel(Expression::eval, 3);
        vstd::arithmetic::div_mod::lemma_add_mod_noop_right(x, -y, modulus() as int);
    }

    /// A polynomial under a selector evaluates to itself where the selector
    /// is set, and to zero elsewhere.
    pub proof fn lemma_eval_selected(s: Selector, e: Expression, table: Table, row: int)
        ensures
            Expression::spec_times(Expression::Selector(s), e).eval(table, row) == (
            if table.selector_at(s.index as int, row) {
                e.eval(table, row)
            } else {
                0
            }),
    {
        let x = e.eval(table, row);
        e.lemma_eval_bound(table, row);
        reveal_with_fuel(Expression::eval, 2);
        if table.selector_at(s.index as int, row) {
            assert(1 * x == x);
            vstd::arithmetic::div_mod::lemma_small_mod(x, modulus());
        } else {
            assert(0 * x == 0);
        }
    }

    /// The constant one evaluates to one.
    pub proof fn lemma_eval_one(table: Table, row: int)
        ensures
            Expression::spec_one().eval(table, row) == 1,
    {
        FieldElement::lemma_one_exists();
    }

    /// The difference `a - b`.
    pub fn minus(a: Expression, b: Expression) -> (r: Expression)
        ensures
            r == Expression::spec_minus(a, b),
    {
        Expression::Sum(Box::new(a), Box::new(Expression::Negated(Box::new(b))))
    }

    /// The product `a * b`.
    pub fn times(a: Expression, b: Expression) -> (r: Expression)
        ensures
            r == Expression::spec_times(a, b),
    {
        Expression::Product(Box::new(a), Box::new(b))
    }

    /// The constant one.
    pub fn one() -> (r: Expression)
        ensures
            r == Expression::spec_one(),
    {
        Expression::Constant(FieldElement::one())
    }
}

/// A named list of polynomials. It holds on a row where each of them
/// evaluates to zero.
#[derive(Debug)]
pub struct Gate {
    pub name: &'static str,
    pub polys: Vec<Expression>,
}

impl Gate {
    /// Every polynomial vanishes on the row.
    pub open spec fn holds_at(&self, table: Table, row: int) -> bool {
        forall|k: int|
            0 <= k < self.polys@.len() ==> (#[trigger] self.polys@[k]).eval(table, row) == 0
    }
}

/// The shape of a circuit: how many columns and selectors it has, which
/// columns may take part in equality constraints, which fixed columns hold
/// the constants that cells are tied to, and its gates.
#[derive(Debug)]
pub struct ConstraintSystem {
    pub num_advice_columns: usize,
    pub num_instance_columns: usize,
    pub num_fixed_columns: usize,
    pub num_selectors: usize,
    pub equality: Vec<Column>,
    pub constants: Vec<FixedColumn>,
    pub gates: Vec<Gate>,
}

impl ConstraintSystem {
    /// Gate number `g` holds on the row.
    pub open spec fn gate_holds_at(&self, table: Table, g: int, row: int) -> bool {
        self.gates@[g].holds_at(table, row)
    }

    /// Every gate holds on every row of the table.
    pub open spec fn satisfied_by(&self, table: Table) -> bool {
        forall|g: int, row: int|
            0 <= g < self.gates@.len() && 0 <= row < table.rows ==> #[trigger] self.gate_holds_at(
                table,
                g,
                row,
            )
    }

    /// A constraint system with no column, selector or gate.
    pub fn new() -> (r: Self)
        ensures
            r.num_advice_columns == 0,
            r.num_instance_columns == 0,
            r.num_fixed_columns == 0,
            r.num_selectors == 0,
            r.equality@.len() == 0,
            r.constants@.len() == 0,
            r.gates@.len() == 0,
    {
        ConstraintSystem {
            num_advice_columns: 0,
            num_instance_columns: 0,
            num_fixed_columns: 0,
            num_selectors: 0,
            equality: Vec::new(),
            constants: Vec::new(),
            gates: Vec::new(),
        }
    }

    /// Allocates the next witness column.
    pub fn advice_column(&mut self) -> (column: AdviceColumn)
        requires
            old(self).num_advice_columns < usize::MAX,
        ensures
            column.index == old(self).num_advice_columns,
            *final(self) == (ConstraintSystem {
                num_advice_columns: (old(self).num_advice_columns + 1) as usize,
                ..*old(self)
            }),
    {
        let column = AdviceColumn { index: self.num_advice_columns };
        self.num_advice_columns = self.num_advice_columns + 1;
        column
    }

    /// Allocates the next public column.
    pub fn instance_column(&mut self) -> (column: InstanceColumn)
        requires
            old(self).num_instance_columns < usize::MAX,
        ensures
            column.index == old(self).num_instance_columns,
            *final(self) == (ConstraintSystem {
                num_instance_columns: (old(self).num_instance_columns + 1) as usize,
                ..*old(self)
            }),
    {
        let column = InstanceColumn { index: self.num_instance_columns };
        self.num_instance_columns = self.num_instance_columns + 1;
        column
    }

    /// Allocates the next fixed column.
    pub fn fixed_column(&mut self) -> (column: FixedColumn)
        requires
            old(self).num_fixed_columns < usize::MAX,
        ensures
            column.index == old(self).num_fixed_columns,
            *final(self) == (ConstraintSystem {
                num_fixed_columns: (old(self).num_fixed_columns + 1) as usize,
                ..*old(self)
            }),
    {
        let column = FixedColumn { index: self.num_fixed_columns };
        self.num_fixed_columns = self.num_fixed_columns + 1;
        column
    }

    /// Allocates the next selector.
    pub fn selector(&mut self) -> (selector: Selector)
        requires
            old(self).num_selectors < usize::MAX,
        ensures
            selector.index == old(self).num_selectors,
            *final(self) == (ConstraintSystem {
                num_selectors: (old(self).num_selectors + 1) as usize,
                ..*old(self)
            }),
    {
        let selector = Selector { index: self.num_selectors };
        self.num_selectors = self.num_selectors + 1;
        selector
    }

    /// Lets the cells of a column take part in equality constraints.
    pub fn enable_equality(&mut self, column: Column)
        ensures
            final(self).equality@ == old(self).equality@.push(column),
            final(self).num_advice_columns == old(self).num_advice_columns,
            final(self).num_instance_columns == old(self).num_instance_columns,
            final(self).num_fixed_columns == old(self).num_fixed_columns,
            final(self).num_selectors == old(self).num_selectors,
            final(self).constants == old(self).constants,
            final(self).gates == old(self).gates,
    {
        self.equality.push(column);
    }

    /// Lets a fixed column hold the constants that cells are tied to.
    pub fn enable_constant(&mut self, column: FixedColumn)
        ensures
            final(self).constants@ == old(self).constants@.push(column),
            final(self).num_advice_columns == old(self).num_advice_columns,
            final(self).num_instance_columns == old(self).num_instance_columns,
            final(self).num_fixed_columns == old(self).num_fixed_columns,
            final(self).num_selectors == old(self).num_selectors,
            final(self).equality == old(self).equality,
            final(self).gates == old(self).gates,
    {
        self.constants.push(column);
    }

    /// Adds a gate. A gate has at least one polynomial.
    pub fn create_gate(&mut self, name: &'static str, polys: Vec<Expression>)
        requires
            polys@.len() > 0,
        ensures
            final(self).gates@ == old(self).gates@.push(Gate { name, polys }),
            final(self).num_advice_columns == old(self).num_advice_columns,
            final(self).num_instance_columns == old(self).num_instance_columns,
            final(self).num_fixed_columns == old(self).num_fixed_columns,
            final(self).num_selectors == old(self).num_selectors,
            final(self).equality == old(self).equality,
            final(self).constants == old(self).constants,
    {
        self.gates.push(Gate { name, polys });
    }
}

} // verus!
