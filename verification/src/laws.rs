//! What holds of the assignment as a whole: it meets the gates, it is
//! determined by the two sets, and the cell that the public output is bound
//! to holds the number of matching pairs, which is the intersection count
//! wherever no element of the first set occurs twice in the second, and zero
//! wherever a set is empty.

use crate::circuit::intersection_count;
use crate::config::{match_relation, sum_relation, ComparisonRow, PsiConfig};
use crate::constraint::{ConstraintSystem, Table};
use crate::field::{
    field_add, field_mul, field_sub, lemma_field_sub_zero, modulus, FieldElement,
};
use crate::synthesis::{
    is_comparison_row, is_synthesis, is_witness, lemma_matches_before_bound, matches_before,
    matching_pairs, pair_matches, Synthesis,
};
use vstd::arithmetic::div_mod::{
    lemma_fundamental_div_mod_converse, lemma_mul_mod_noop_general, lemma_small_mod,
};
use vstd::math::max;
use vstd::prelude::*;

verus! {

impl PsiConfig {
    /// One more than the largest index of a witness column.
    pub open spec fn advice_width(self) -> nat {
        (max(
            max(
                max(max(self.set_a.index as int, self.set_b.index as int), self.match_bit.index as int),
                self.sum.index as int,
            ),
            self.diff_inv.index as int,
        ) + 1) as nat
    }

    /// One more than the larger index of the two selectors.
    pub open spec fn selector_width(self) -> nat {
        (max(self.q_equality.index as int, self.q_sum.index as int) + 1) as nat
    }

    /// What a row holds in a witness column.
    pub open spec fn cell(self, row: ComparisonRow, column: int) -> nat {
        if column == self.set_a.index {
            row.set_a.value()
        } else if column == self.set_b.index {
            row.set_b.value()
        } else if column == self.match_bit.index {
            row.match_bit.value()
        } else if column == self.sum.index {
            row.sum.value()
        } else if column == self.diff_inv.index {
            row.diff_inv.value()
        } else {
            0
        }
    }

    /// Whether a row sets a selector.
    pub open spec fn flag(self, row: ComparisonRow, selector: int) -> bool {
        if selector == self.q_equality.index {
            row.q_equality
        } else if selector == self.q_sum.index {
            row.q_sum
        } else {
            false
        }
    }

    /// The rows laid out in the columns of the configuration. Cells of
    /// other columns are zero.
    pub open spec fn table(self, rows: Seq<ComparisonRow>) -> Table {
        Table {
            rows: rows.len(),
            advice: Seq::new(
                self.advice_width(),
                |column: int| Seq::new(rows.len(), |row: int| self.cell(rows[row], column)),
            ),
            selectors: Seq::new(
                self.selector_width(),
                |selector: int| Seq::new(rows.len(), |row: int| self.flag(rows[row], selector)),
            ),
        }
    }
}

/// The true match bit, with the inverse of the difference or zero beside
/// it, stands in the match relation.
pub proof fn lemma_true_bit_meets_relation(a: nat, b: nat, m: nat, h: nat)
    requires
        a < modulus(),
        b < modulus(),
        m == (if a == b {
            1nat
        } else {
            0nat
        }),
        a == b ==> h == 0,
        a != b ==> field_mul(field_sub(a, b), h) == 1,
    ensures
        match_relation(a, b, m, h),
{
    lemma_field_sub_zero(a, b);
}

/// An element has at most one inverse.
pub proof fn lemma_inverse_unique(d: nat, h: nat, k: nat)
    requires
        h < modulus(),
        k < modulus(),
        field_mul(d, h) == 1,
        field_mul(d, k) == 1,
    ensures
        h == k,
{
    let p = modulus() as int;
    lemma_mul_mod_noop_general(h as int, (d * k) as int, p);
    lemma_mul_mod_noop_general(k as int, (d * h) as int, p);
    assert(h * (d * k) == k * (d * h)) by (nonlinear_arith);
    lemma_small_mod(h, modulus());
    lemma_small_mod(k, modulus());
}

/// The match relation leaves only the true match bit. Where the elements
/// differ this rests on their difference having an inverse, as every
/// non-zero element of a field has.
pub proof fn lemma_relation_forces_true_bit(a: nat, b: nat, m: nat, h: nat, inverse: nat)
    requires
        a < modulus(),
        b < modulus(),
        m < modulus(),
        match_relation(a, b, m, h),
        a != b ==> field_mul(field_sub(a, b), inverse) == 1,
    ensures
        m == (if a == b {
            1nat
        } else {
            0nat
        }),
{
    let p = modulus() as int;
    let d = field_sub(a, b);
    lemma_field_sub_zero(a, b);
    if a == b {
        let rest = field_sub(1, m);
        lemma_field_sub_zero(0, rest);
        lemma_field_sub_zero(1, m);
    } else {
        lemma_mul_mod_noop_general((m * d) as int, inverse as int, p);
        lemma_mul_mod_noop_general(m as int, (d * inverse) as int, p);
        assert((m * d) * inverse == m * (d * inverse)) by (nonlinear_arith);
        lemma_small_mod(m, modulus());
    }
}

/// Pair number `k` lies within the two sets.
pub proof fn lemma_pair_in_range(width: nat, height: nat, k: int)
    requires
        0 <= k < height * width,
    ensures
        width > 0,
        0 <= k / (width as int) < height,
        0 <= k % (width as int) < width,
{
    if width == 0 {
        assert(height * width == 0) by (nonlinear_arith)
            requires
                width == 0,
        ;
    }
    let w = width as int;
    let q = k / w;
    vstd::arithmetic::div_mod::lemma_fundamental_div_mod(k, w);
    vstd::arithmetic::div_mod::lemma_mod_bound(k, w);
    if q >= height {
        assert(w * q >= w * height) by (nonlinear_arith)
            requires
                q >= height,
                w > 0,
        ;
        assert(w * height == height * width) by (nonlinear_arith)
            requires
                w == width,
        ;
    }
    if q < 0 {
        assert(w * q <= -w) by (nonlinear_arith)
            requires
                q <= -1,
                w > 0,
        ;
    }
}

/// The assignment meets the two gates of the configuration on every row.
pub proof fn lemma_witness_meets_gates(
    config: PsiConfig,
    meta: ConstraintSystem,
    at: int,
    rows: Seq<ComparisonRow>,
    a: Seq<FieldElement>,
    b: Seq<FieldElement>,
)
    requires
        config.wf(),
        config.installed_at(meta, at),
        is_witness(rows, a, b),
        a.len() * b.len() < modulus(),
        forall|i: int| 0 <= i < a.len() ==> (#[trigger] a[i]).is_canonical(),
        forall|j: int| 0 <= j < b.len() ==> (#[trigger] b[j]).is_canonical(),
    ensures
        forall|row: int|
            0 <= row < rows.len() ==> #[trigger] meta.gate_holds_at(config.table(rows), at, row),
        forall|row: int|
            0 <= row < rows.len() ==> #[trigger] meta.gate_holds_at(
                config.table(rows),
                at + 1,
                row,
            ),
{
    let table = config.table(rows);
    assert forall|row: int| 0 <= row < rows.len() implies #[trigger] meta.gate_holds_at(
        table,
        at,
        row,
    ) by {
        lemma_row_meets_gates(config, rows, a, b, row);
        config.lemma_equality_gate_meaning(table, row);
    }
    assert forall|row: int| 0 <= row < rows.len() implies #[trigger] meta.gate_holds_at(
        table,
        at + 1,
        row,
    ) by {
        lemma_row_meets_gates(config, rows, a, b, row);
        config.lemma_sum_gate_meaning(table, row);
    }
}

/// The cells of a row of the assignment stand in the match relation, and
/// its running sum continues the one before.
proof fn lemma_row_meets_gates(
    config: PsiConfig,
    rows: Seq<ComparisonRow>,
    a: Seq<FieldElement>,
    b: Seq<FieldElement>,
    row: int,
)
    requires
        config.wf(),
        is_witness(rows, a, b),
        a.len() * b.len() < modulus(),
        forall|i: int| 0 <= i < a.len() ==> (#[trigger] a[i]).is_canonical(),
        forall|j: int| 0 <= j < b.len() ==> (#[trigger] b[j]).is_canonical(),
        0 <= row < rows.len(),
    ensures
        ({
            let (x, y, m, h) = config.match_cells(config.table(rows), row);
            match_relation(x, y, m, h)
        }),
        config.table(rows).selector_at(config.q_equality.index as int, row),
        config.table(rows).selector_at(config.q_sum.index as int, row) == (row > 0),
        row > 0 ==> sum_relation(
            config.table(rows).advice_at(config.sum.index as int, row - 1),
            config.table(rows).advice_at(config.sum.index as int, row),
            config.table(rows).advice_at(config.match_bit.index as int, row),
        ),
{
    let p = modulus();
    lemma_pair_in_range(b.len(), a.len(), row);
    let x = a[row / (b.len() as int)];
    let y = b[row % (b.len() as int)];
    let cells = rows[row];
    x.lemma_equality(y);
    lemma_matches_before_bound(a, b, (row + 1) as nat);
    lemma_small_mod(x.value(), p);
    lemma_small_mod(y.value(), p);
    lemma_small_mod(cells.match_bit.value(), p);
    lemma_small_mod(cells.diff_inv.value(), p);
    lemma_small_mod(cells.sum.value(), p);
    lemma_true_bit_meets_relation(
        x.value(),
        y.value(),
        cells.match_bit.value(),
        cells.diff_inv.value(),
    );
    if row > 0 {
        let before = rows[row - 1];
        lemma_matches_before_bound(a, b, row as nat);
        lemma_small_mod(before.sum.value(), p);
        let bit = cells.match_bit.value();
        lemma_small_mod(bit, p);
    }
}

/// A constraint system that holds the two gates of the configuration and
/// no other is satisfied by the assignment.
pub proof fn lemma_witness_satisfies_system(
    config: PsiConfig,
    meta: ConstraintSystem,
    rows: Seq<ComparisonRow>,
    a: Seq<FieldElement>,
    b: Seq<FieldElement>,
)
    requires
        config.wf(),
        config.installed_at(meta, 0),
        meta.gates@.len() == 2,
        is_witness(rows, a, b),
        a.len() * b.len() < modulus(),
        forall|i: int| 0 <= i < a.len() ==> (#[trigger] a[i]).is_canonical(),
        forall|j: int| 0 <= j < b.len() ==> (#[trigger] b[j]).is_canonical(),
    ensures
        meta.satisfied_by(config.table(rows)),
{
    lemma_witness_meets_gates(config, meta, 0, rows, a, b);
}

/// The two sets determine the assignment: two assignments for the same
/// sets are equal row by row and cell by cell.
pub proof fn lemma_witness_unique(
    a: Seq<FieldElement>,
    b: Seq<FieldElement>,
    first: Seq<ComparisonRow>,
    second: Seq<ComparisonRow>,
)
    requires
        is_witness(first, a, b),
        is_witness(second, a, b),
    ensures
        first == second,
{
    assert forall|k: int| 0 <= k < first.len() implies first[k] == second[k] by {
        let x = a[k / (b.len() as int)];
        let y = b[k % (b.len() as int)];
        let r = first[k];
        let s = second[k];
        r.match_bit.lemma_equality(s.match_bit);
        r.sum.lemma_equality(s.sum);
        r.diff_inv.lemma_equality(s.diff_inv);
        if x != y {
            lemma_inverse_unique(
                field_sub(x.value(), y.value()),
                r.diff_inv.value(),
                s.diff_inv.value(),
            );
        }
    }
}

/// The cell that the public output is bound to holds the number of
/// matching pairs, so a public output is met by it exactly when it stands
/// for that number. Where a set is empty the cell is the one tied to zero,
/// and there is no pair.
pub proof fn lemma_output_is_matching_pairs(
    synthesis: Synthesis,
    a: Seq<FieldElement>,
    b: Seq<FieldElement>,
    public: FieldElement,
)
    requires
        is_synthesis(synthesis, a, b),
    ensures
        synthesis.bound_cell().value() == matching_pairs(a, b),
        synthesis.bound_cell() == public <==> public.value() == matching_pairs(a, b),
{
    let rows = synthesis.rows@;
    if rows.len() > 0 {
        let last = rows.len() - 1;
        assert(is_comparison_row(
            rows[last],
            a[last / (b.len() as int)],
            b[last % (b.len() as int)],
            matches_before(a, b, (last + 1) as nat),
            last == 0,
        ));
    }
    synthesis.bound_cell().lemma_equality(public);
}

/// Two syntheses for the same sets are equal: in their rows, in the cell
/// they tie to a constant, and in the binding of the public output.
pub proof fn lemma_synthesis_unique(
    a: Seq<FieldElement>,
    b: Seq<FieldElement>,
    first: Synthesis,
    second: Synthesis,
)
    requires
        is_synthesis(first, a, b),
        is_synthesis(second, a, b),
    ensures
        first.rows@ == second.rows@,
        first.constant == second.constant,
        first.output == second.output,
{
    lemma_witness_unique(a, b, first.rows@, second.rows@);
    if first.rows@.len() == 0 {
        first.constant->0.value.lemma_equality(second.constant->0.value);
    }
}

/// The number of positions below `n` at which `b` holds `x`.
pub open spec fn occurrences_before(x: FieldElement, b: Seq<FieldElement>, n: nat) -> nat
    decreases n,
{
    if n == 0 {
        0
    } else {
        occurrences_before(x, b, (n - 1) as nat) + if b[n - 1] == x {
            1nat
        } else {
            0nat
        }
    }
}

/// The matches of the first `i` elements of `a` and of the first `j`
/// partners of the next are those of the first `i` elements, and the
/// occurrences of the next among the first `j` elements of `b`.
proof fn lemma_matches_by_rows(a: Seq<FieldElement>, b: Seq<FieldElement>, i: nat, j: nat)
    requires
        i < a.len(),
        j <= b.len(),
    ensures
        matches_before(a, b, i * b.len() + j) == matches_before(a, b, i * b.len())
            + occurrences_before(a[i as int], b, j),
    decreases j,
{
    if j > 0 {
        lemma_matches_by_rows(a, b, i, (j - 1) as nat);
        let k = i * b.len() + j - 1;
        lemma_fundamental_div_mod_converse(k, b.len() as int, i as int, j - 1);
    }
}

/// An element that occurs in `b` occurs there at least once, and one that
/// does not, not at all.
proof fn lemma_occurrences(x: FieldElement, b: Seq<FieldElement>, n: nat)
    requires
        n <= b.len(),
    ensures
        b.take(n as int).contains(x) <==> occurrences_before(x, b, n) >= 1,
    decreases n,
{
    let prefix = b.take(n as int);
    if n > 0 {
        lemma_occurrences(x, b, (n - 1) as nat);
        let shorter = b.take(n - 1);
        if b[n - 1] == x {
            assert(prefix[n - 1] == x);
        } else if shorter.contains(x) {
            let at = choose|at: int| 0 <= at < shorter.len() && shorter[at] == x;
            assert(prefix[at] == x);
        } else if prefix.contains(x) {
            let at = choose|at: int| 0 <= at < prefix.len() && prefix[at] == x;
            assert(shorter[at] == x);
        }
    }
}

/// An element that does not occur twice in `b` occurs there at most once.
proof fn lemma_occurrences_at_most_one(x: FieldElement, b: Seq<FieldElement>, n: nat)
    requires
        n <= b.len(),
        forall|j: int, k: int| 0 <= j < k < b.len() ==> !(b[j] == x && b[k] == x),
    ensures
        occurrences_before(x, b, n) <= 1,
    decreases n,
{
    if n > 0 {
        lemma_occurrences_at_most_one(x, b, (n - 1) as nat);
        if b[n - 1] == x && occurrences_before(x, b, (n - 1) as nat) >= 1 {
            lemma_occurrences(x, b, (n - 1) as nat);
            let shorter = b.take(n - 1);
            let at = choose|at: int| 0 <= at < shorter.len() && shorter[at] == x;
            assert(b[at] == x);
        }
    }
}

/// There are at least as many matching pairs as positions of the first set
/// that count for the intersection.
pub proof fn lemma_count_at_most_pairs(a: Seq<FieldElement>, b: Seq<FieldElement>)
    ensures
        intersection_count(a, b) <= matching_pairs(a, b),
{
    lemma_count_against_pairs(a, b, a.len());
    assert(a.take(a.len() as int) =~= a);
}

/// The count and the matches of the first `i` elements of `a`.
proof fn lemma_count_against_pairs(a: Seq<FieldElement>, b: Seq<FieldElement>, i: nat)
    requires
        i <= a.len(),
    ensures
        intersection_count(a.take(i as int), b) <= matches_before(a, b, i * b.len()),
        (forall|n: int, j: int, k: int|
            0 <= n < a.len() && 0 <= j < k < b.len() ==> !(b[j] == a[n] && b[k] == a[n]))
            ==> intersection_count(a.take(i as int), b) == matches_before(a, b, i * b.len()),
    decreases i,
{
    if i > 0 {
        let before = (i - 1) as nat;
        lemma_count_against_pairs(a, b, before);
        let x = a[i - 1];
        let prefix = a.take(i as int);
        assert(prefix.drop_last() =~= a.take(i - 1));
        lemma_matches_by_rows(a, b, before, b.len());
        assert(before * b.len() + b.len() == i * b.len()) by (nonlinear_arith)
            requires
                before + 1 == i,
        ;
        lemma_occurrences(x, b, b.len());
        assert(b.take(b.len() as int) =~= b);
        if forall|n: int, j: int, k: int|
            0 <= n < a.len() && 0 <= j < k < b.len() ==> !(b[j] == a[n] && b[k] == a[n]) {
            lemma_occurrences_at_most_one(x, b, b.len());
        }
    }
}

/// No element of `a` occurs twice in `b`.
pub open spec fn partners_unique(a: Seq<FieldElement>, b: Seq<FieldElement>) -> bool {
    forall|n: int, j: int, k: int|
        0 <= n < a.len() && 0 <= j < k < b.len() ==> !(b[j] == a[n] && b[k] == a[n])
}

/// Where no element of the first set occurs twice in the second, the
/// matching pairs number as many as the intersection count.
pub proof fn lemma_matching_pairs_is_count(a: Seq<FieldElement>, b: Seq<FieldElement>)
    requires
        partners_unique(a, b),
    ensures
        matching_pairs(a, b) == intersection_count(a, b),
{
    lemma_count_against_pairs(a, b, a.len());
    assert(a.take(a.len() as int) =~= a);
}

/// Where no element of the first set occurs twice in the second, the cell
/// that the public output is bound to holds the intersection count, and
/// meets a public output exactly when the output stands for that count: the
/// true count is bound, and no other.
pub proof fn lemma_output_is_count(
    synthesis: Synthesis,
    a: Seq<FieldElement>,
    b: Seq<FieldElement>,
    public: FieldElement,
)
    requires
        is_synthesis(synthesis, a, b),
        partners_unique(a, b),
    ensures
        synthesis.bound_cell().value() == intersection_count(a, b),
        synthesis.bound_cell() == public <==> public.value() == intersection_count(a, b),
{
    lemma_output_is_matching_pairs(synthesis, a, b, public);
    lemma_matching_pairs_is_count(a, b);
}

/// Where a set is empty the intersection count is zero, and zero is what
/// the public output is bound to: no other declared size is met.
pub proof fn lemma_empty_set_binds_zero(
    synthesis: Synthesis,
    a: Seq<FieldElement>,
    b: Seq<FieldElement>,
    public: FieldElement,
)
    requires
        is_synthesis(synthesis, a, b),
        a.len() == 0 || b.len() == 0,
    ensures
        intersection_count(a, b) == 0,
        synthesis.rows@.len() == 0,
        synthesis.bound_cell().value() == 0,
        synthesis.bound_cell() == public <==> public.value() == 0,
{
    assert(a.len() * b.len() == 0) by (nonlinear_arith)
        requires
            a.len() == 0 || b.len() == 0,
    ;
    assert(partners_unique(a, b));
    lemma_output_is_count(synthesis, a, b, public);
}

/// A sum that meets the running-sum relation is the sum before plus the
/// match bit.
pub proof fn lemma_sum_relation_forces_sum(previous: nat, current: nat, m: nat)
    requires
        previous < modulus(),
        current < modulus(),
        m < modulus(),
        sum_relation(previous, current, m),
    ensures
        current == field_add(previous, m),
{
    let p = modulus() as int;
    let growth = field_sub(current, previous);
    lemma_field_sub_zero(growth, m);
    let q = (current - previous) / p;
    vstd::arithmetic::div_mod::lemma_fundamental_div_mod(current - previous, p);
    vstd::arithmetic::div_mod::lemma_mod_multiples_vanish(-q, current as int, p);
    assert(p * (-q) + current == previous + m) by (nonlinear_arith)
        requires
            current - previous == p * q + m,
    ;
    lemma_small_mod(current, modulus());
}

/// On row `k` the table holds the pair of that row in its two element
/// columns, with the match gate on and, after the first row, the
/// running-sum gate on.
pub open spec fn table_compares(
    config: PsiConfig,
    table: Table,
    a: Seq<FieldElement>,
    b: Seq<FieldElement>,
    k: int,
) -> bool {
    &&& table.advice_at(config.set_a.index as int, k) == a[k / (b.len() as int)].value()
    &&& table.advice_at(config.set_b.index as int, k) == b[k % (b.len() as int)].value()
    &&& table.selector_at(config.q_equality.index as int, k)
    &&& k > 0 ==> table.selector_at(config.q_sum.index as int, k)
}

/// On row `k` every polynomial of the two gates vanishes.
pub open spec fn table_meets_gates(config: PsiConfig, table: Table, k: int) -> bool {
    &&& config.boolean_poly().eval(table, k) == 0
    &&& config.inverse_poly().eval(table, k) == 0
    &&& config.exclusion_poly().eval(table, k) == 0
    &&& config.sum_poly().eval(table, k) == 0
}

/// On row `k` the match bit and the running sum of the table are those of
/// the assignment.
pub open spec fn table_agrees(
    config: PsiConfig,
    table: Table,
    rows: Seq<ComparisonRow>,
    k: int,
) -> bool {
    &&& table.advice_at(config.match_bit.index as int, k) == rows[k].match_bit.value()
    &&& table.advice_at(config.sum.index as int, k) == rows[k].sum.value()
}

/// The gates leave no choice. Take any table that holds the pairs of the
/// two sets in its element columns, switches the gates on as the
/// assignment does, starts its running sum with its first match bit, and
/// meets the gates on every row: whatever its helper cells hold, its match
/// bits and running sums are those of the assignment, row by row.
///
/// The first running sum is no gate's business; the table is taken to start
/// it as the assignment does.
pub proof fn lemma_gates_force_witness(
    config: PsiConfig,
    table: Table,
    rows: Seq<ComparisonRow>,
    a: Seq<FieldElement>,
    b: Seq<FieldElement>,
    k: int,
)
    requires
        is_witness(rows, a, b),
        a.len() * b.len() < modulus(),
        forall|i: int| 0 <= i < a.len() ==> (#[trigger] a[i]).is_canonical(),
        forall|j: int| 0 <= j < b.len() ==> (#[trigger] b[j]).is_canonical(),
        forall|n: int| 0 <= n < rows.len() ==> #[trigger] table_compares(config, table, a, b, n),
        forall|n: int| 0 <= n < rows.len() ==> #[trigger] table_meets_gates(config, table, n),
        rows.len() > 0 ==> table.advice_at(config.sum.index as int, 0) == table.advice_at(
            config.match_bit.index as int,
            0,
        ),
        0 <= k < rows.len(),
    ensures
        table_agrees(config, table, rows, k),
    decreases k,
{
    let p = modulus();
    lemma_pair_in_range(b.len(), a.len(), k);
    let x = a[k / (b.len() as int)];
    let y = b[k % (b.len() as int)];
    let cells = rows[k];
    assert(is_comparison_row(cells, x, y, matches_before(a, b, (k + 1) as nat), k == 0));
    assert(table_compares(config, table, a, b, k));
    assert(table_meets_gates(config, table, k));
    x.lemma_equality(y);

    let m = table.advice_at(config.match_bit.index as int, k);
    let h = table.advice_at(config.diff_inv.index as int, k);
    config.lemma_equality_gate_meaning(table, k);
    lemma_relation_forces_true_bit(x.value(), y.value(), m, h, cells.diff_inv.value());

    let sum = table.advice_at(config.sum.index as int, k);
    lemma_matches_before_bound(a, b, (k + 1) as nat);
    if k > 0 {
        lemma_gates_force_witness(config, table, rows, a, b, k - 1);
        let previous = table.advice_at(config.sum.index as int, k - 1);
        lemma_pair_in_range(b.len(), a.len(), k - 1);
        assert(is_comparison_row(
            rows[k - 1],
            a[(k - 1) / (b.len() as int)],
            b[(k - 1) % (b.len() as int)],
            matches_before(a, b, k as nat),
            k - 1 == 0,
        ));
        lemma_matches_before_bound(a, b, k as nat);
        config.lemma_sum_gate_meaning(table, k);
        lemma_sum_relation_forces_sum(previous, sum, m);
        lemma_small_mod(previous + m, p);
    }
}

} // verus!
