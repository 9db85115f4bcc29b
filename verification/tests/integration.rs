use ff::PrimeField;
use halo2_proofs::circuit::{Layouter, SimpleFloorPlanner, Value};
use halo2_proofs::dev::MockProver;
use halo2_proofs::plonk;
use halo2_proofs::poly;
use pasta_curves::Fp;
use halo2_proofs::plonk::{create_proof, keygen_pk, keygen_vk, verify_proof, SingleVerifier};
use halo2_proofs::poly::commitment::Params;
use halo2_proofs::transcript::{Blake2bRead, Blake2bWrite, Challenge255};
use pasta_curves::EqAffine;
use rand::rngs::OsRng;
use zk_psi_verifier::{
    hash_to_field, Column, ComparisonRow, ConstraintSystem, Expression, FieldElement, PsiCircuit,
    PsiConfig, Rotation,
};

fn to_fp(element: &FieldElement) -> Fp {
    Fp::from_repr(element.to_repr()).unwrap()
}

/// The columns that the backend allocated for the library's description.
#[derive(Clone)]
struct Layout {
    config: PsiConfig,
    advice: Vec<plonk::Column<plonk::Advice>>,
    instance: Vec<plonk::Column<plonk::Instance>>,
    selectors: Vec<plonk::Selector>,
}

fn convert(
    expression: &Expression,
    cells: &mut plonk::VirtualCells<'_, Fp>,
    advice: &[plonk::Column<plonk::Advice>],
    selectors: &[plonk::Selector],
) -> plonk::Expression<Fp> {
    match expression {
        Expression::Constant(c) => plonk::Expression::Constant(to_fp(c)),
        Expression::Selector(s) => cells.query_selector(selectors[s.index]),
        Expression::Advice(column, rotation) => cells.query_advice(
            advice[column.index],
            match rotation {
                Rotation::Prev => poly::Rotation::prev(),
                Rotation::Cur => poly::Rotation::cur(),
            },
        ),
        Expression::Negated(e) => -convert(e, cells, advice, selectors),
        Expression::Sum(a, b) => {
            convert(a, cells, advice, selectors) + convert(b, cells, advice, selectors)
        }
        Expression::Product(a, b) => {
            convert(a, cells, advice, selectors) * convert(b, cells, advice, selectors)
        }
    }
}

fn install(meta: &mut plonk::ConstraintSystem<Fp>) -> Layout {
    let mut model = ConstraintSystem::new();
    let config = PsiConfig::configure(&mut model);
    let advice: Vec<_> = (0..model.num_advice_columns).map(|_| meta.advice_column()).collect();
    let instance: Vec<_> =
        (0..model.num_instance_columns).map(|_| meta.instance_column()).collect();
    for column in &model.equality {
        match column {
            Column::Advice(c) => meta.enable_equality(advice[c.index]),
            Column::Instance(c) => meta.enable_equality(instance[c.index]),
        }
    }
    let fixed: Vec<_> = (0..model.num_fixed_columns).map(|_| meta.fixed_column()).collect();
    for column in &model.constants {
        meta.enable_constant(fixed[column.index]);
    }
    let selectors: Vec<_> = (0..model.num_selectors).map(|_| meta.selector()).collect();
    for gate in &model.gates {
        meta.create_gate(gate.name, |cells| {
            let mut polys = Vec::new();
            for poly in &gate.polys {
                polys.push(convert(poly, cells, &advice, &selectors));
            }
            polys
        });
    }
    Layout { config, advice, instance, selectors }
}

/// The library's rows, handed to the backend; `tamper` may change them on
/// the way.
struct Witness {
    circuit: PsiCircuit,
    tamper: fn(&mut Vec<ComparisonRow>),
}

fn untouched(_rows: &mut Vec<ComparisonRow>) {}

impl plonk::Circuit<Fp> for Witness {
    type Config = Layout;
    type FloorPlanner = SimpleFloorPlanner;

    fn without_witnesses(&self) -> Self {
        Witness { circuit: PsiCircuit::default(), tamper: self.tamper }
    }

    fn configure(meta: &mut plonk::ConstraintSystem<Fp>) -> Layout {
        install(meta)
    }

    fn synthesize(
        &self,
        layout: Layout,
        mut layouter: impl Layouter<Fp>,
    ) -> Result<(), plonk::Error> {
        let synthesis = self.circuit.synthesize(&layout.config);
        let mut rows = synthesis.rows;
        (self.tamper)(&mut rows);
        let config = layout.config;
        let sums = layouter.assign_region(
            || "comparisons",
            |mut region| {
                let mut sums = Vec::new();
                for (offset, row) in rows.iter().enumerate() {
                    if row.q_equality {
                        layout.selectors[config.q_equality.index].enable(&mut region, offset)?;
                    }
                    if row.q_sum {
                        layout.selectors[config.q_sum.index].enable(&mut region, offset)?;
                    }
                    let cells = [
                        (config.set_a, row.set_a),
                        (config.set_b, row.set_b),
                        (config.match_bit, row.match_bit),
                        (config.diff_inv, row.diff_inv),
                    ];
                    for (column, value) in cells {
                        region.assign_advice(
                            || "cell",
                            layout.advice[column.index],
                            offset,
                            || Value::known(to_fp(&value)),
                        )?;
                    }
                    sums.push(region.assign_advice(
                        || "sum",
                        layout.advice[config.sum.index],
                        offset,
                        || Value::known(to_fp(&row.sum)),
                    )?);
                }
                if let Some(cell) = synthesis.constant {
                    sums.push(region.assign_advice_from_constant(
                        || "zero",
                        layout.advice[config.sum.index],
                        cell.sum_row,
                        to_fp(&cell.value),
                    )?);
                }
                Ok(sums)
            },
        )?;
        layouter.constrain_instance(
            sums[synthesis.output.sum_row].cell(),
            layout.instance[config.instance.index],
            synthesis.output.instance_row,
        )?;
        Ok(())
    }
}

/// Whether the backend accepts the library's witness for the two sets
/// against the declared size.
fn accepted(k: u32, set_a: Vec<FieldElement>, set_b: Vec<FieldElement>, declared: u64) -> bool {
    accepted_after(k, set_a, set_b, declared, untouched)
}

fn accepted_after(
    k: u32,
    set_a: Vec<FieldElement>,
    set_b: Vec<FieldElement>,
    declared: u64,
    tamper: fn(&mut Vec<ComparisonRow>),
) -> bool {
    let circuit = PsiCircuit::new(set_a, set_b, declared).unwrap();
    let public_inputs = vec![to_fp(&FieldElement::from_u64(declared))];
    let witness = Witness { circuit, tamper };
    let prover = MockProver::run(k, &witness, vec![public_inputs]).unwrap();
    prover.verify().is_ok()
}

/// Derives keys for the shape of the instance and proves it against the
/// declared size. None where no proof comes out.
fn prove(
    k: u32,
    set_a: Vec<FieldElement>,
    set_b: Vec<FieldElement>,
    declared: u64,
) -> Option<(Params<EqAffine>, plonk::VerifyingKey<EqAffine>, Vec<u8>)> {
    let circuit = PsiCircuit::new(set_a, set_b, declared).unwrap();
    let params = Params::<EqAffine>::new(k);
    let shape = Witness { circuit: circuit.clone(), tamper: untouched };
    let vk = keygen_vk(&params, &shape).expect("Setup failed");
    let pk = keygen_pk(&params, vk.clone(), &shape).expect("Setup failed");

    let public_inputs = vec![to_fp(&FieldElement::from_u64(declared))];
    let mut transcript = Blake2bWrite::<_, _, Challenge255<_>>::init(vec![]);
    create_proof(
        &params,
        &pk,
        &[Witness { circuit, tamper: untouched }],
        &[&[&public_inputs[..]]],
        OsRng,
        &mut transcript,
    )
    .ok()?;
    let proof = transcript.finalize();
    assert!(!proof.is_empty(), "Proof should not be empty");
    Some((params, vk, proof))
}

/// Whether the proof is accepted against the public inputs.
fn verifies(
    params: &Params<EqAffine>,
    vk: &plonk::VerifyingKey<EqAffine>,
    proof: &[u8],
    public_inputs: &[Fp],
) -> bool {
    let strategy = SingleVerifier::new(params);
    let mut reader = Blake2bRead::<_, _, Challenge255<_>>::init(proof);
    verify_proof(params, vk, strategy, &[&[public_inputs]], &mut reader).is_ok()
}

/// Proves the instance against the declared size and verifies the proof
/// against that size. False where no proof comes out or the proof is
/// refused.
fn proof_verifies(
    k: u32,
    set_a: Vec<FieldElement>,
    set_b: Vec<FieldElement>,
    declared: u64,
) -> bool {
    match prove(k, set_a, set_b, declared) {
        Some((params, vk, proof)) => {
            verifies(&params, &vk, &proof, &[to_fp(&FieldElement::from_u64(declared))])
        }
        None => false,
    }
}

#[test]
fn lib_test_full_proof_verification_flow() {
    let set_a = vec![hash_to_field(1), hash_to_field(2)];
    let set_b = vec![hash_to_field(2), hash_to_field(3)];

    let circuit = PsiCircuit::new(set_a.clone(), set_b.clone(), 0).unwrap();
    let intersection_size = circuit.compute_intersection_size();
    assert_eq!(intersection_size, 1);

    let k = 10;
    assert!(accepted(k, set_a.clone(), set_b.clone(), intersection_size));
    assert!(proof_verifies(6, set_a, set_b, intersection_size));
}

#[test]
fn integration_test_full_proof_verification_flow() {
    let set_a = vec![hash_to_field(1), hash_to_field(2), hash_to_field(3), hash_to_field(4)];
    let set_b = vec![hash_to_field(2), hash_to_field(3), hash_to_field(5), hash_to_field(6)];

    let circuit = PsiCircuit::new(set_a.clone(), set_b.clone(), 0).unwrap();
    let intersection_size = circuit.compute_intersection_size();
    assert_eq!(intersection_size, 2, "Intersection should be {{2, 3}}");

    let k = 10;
    assert!(accepted(k, set_a.clone(), set_b.clone(), intersection_size), "Proof verification failed");
    assert!(proof_verifies(6, set_a, set_b, intersection_size), "Proof verification failed");
}

#[test]
fn test_empty_intersection() {
    let set_a = vec![hash_to_field(1), hash_to_field(2)];
    let set_b = vec![hash_to_field(3), hash_to_field(4)];

    let circuit = PsiCircuit::new(set_a.clone(), set_b.clone(), 0).unwrap();
    let intersection_size = circuit.compute_intersection_size();
    assert_eq!(intersection_size, 0);

    let k = 10;
    assert!(accepted(k, set_a.clone(), set_b.clone(), intersection_size), "Proof verification failed");
    assert!(proof_verifies(6, set_a, set_b, intersection_size), "Proof verification failed");
}

#[test]
fn test_full_intersection() {
    let set_a = vec![hash_to_field(1), hash_to_field(2), hash_to_field(3)];
    let set_b = set_a.clone();

    let circuit = PsiCircuit::new(set_a.clone(), set_b.clone(), 0).unwrap();
    let intersection_size = circuit.compute_intersection_size();
    assert_eq!(intersection_size, 3);

    let k = 10;
    assert!(accepted(k, set_a.clone(), set_b.clone(), intersection_size), "Proof verification failed");
    assert!(proof_verifies(6, set_a, set_b, intersection_size), "Proof verification failed");
}

#[test]
fn test_invalid_proof_fails() {
    let set_a = vec![hash_to_field(1), hash_to_field(2)];
    let set_b = vec![hash_to_field(2), hash_to_field(3)];

    // Actual intersection is 1, but we claim it's 0
    let claimed_intersection = 0u64;

    let k = 10;
    assert!(
        !accepted(k, set_a.clone(), set_b.clone(), claimed_intersection),
        "Invalid proof should not verify"
    );
    assert!(
        !proof_verifies(6, set_a.clone(), set_b.clone(), claimed_intersection),
        "Invalid proof should not verify"
    );
    assert!(proof_verifies(6, set_a, set_b, 1));
}

#[test]
fn test_large_sets() {
    let set_a: Vec<FieldElement> = (1..=16).map(hash_to_field).collect();
    let set_b: Vec<FieldElement> = (10..=25).map(hash_to_field).collect();

    let circuit = PsiCircuit::new(set_a.clone(), set_b.clone(), 0).unwrap();
    let intersection_size = circuit.compute_intersection_size();
    assert_eq!(intersection_size, 7, "Intersection should be {{10..=16}}");

    let k = 12;
    assert!(accepted(k, set_a.clone(), set_b.clone(), intersection_size), "Proof verification failed");
    assert!(proof_verifies(9, set_a, set_b, intersection_size), "Proof verification failed");
}

#[test]
fn test_single_element_sets() {
    let set_a = vec![hash_to_field(42)];
    let set_b = vec![hash_to_field(42)];

    let circuit = PsiCircuit::new(set_a.clone(), set_b.clone(), 0).unwrap();
    let intersection_size = circuit.compute_intersection_size();
    assert_eq!(intersection_size, 1);

    let k = 10;
    assert!(accepted(k, set_a.clone(), set_b.clone(), intersection_size), "Proof verification failed");
    assert!(proof_verifies(6, set_a, set_b, intersection_size), "Proof verification failed");
}

#[test]
fn every_false_count_is_refused() {
    let set_a = vec![hash_to_field(1), hash_to_field(2), hash_to_field(3), hash_to_field(4)];
    let set_b = vec![hash_to_field(2), hash_to_field(3), hash_to_field(5), hash_to_field(6)];
    for declared in 0..=5u64 {
        assert_eq!(accepted(6, set_a.clone(), set_b.clone(), declared), declared == 2);
    }
}

#[test]
fn sets_of_the_largest_size_fit() {
    let set_a: Vec<FieldElement> = (0..32).map(hash_to_field).collect();
    let set_b: Vec<FieldElement> = (16..48).map(hash_to_field).collect();
    assert!(accepted(11, set_a.clone(), set_b.clone(), 16));
    assert!(!accepted(11, set_a, set_b, 15));
}

#[test]
fn empty_set_binds_zero() {
    // No row: the public output is bound to a cell that is tied to zero.
    assert!(accepted(4, vec![], vec![hash_to_field(1)], 0));
    assert!(accepted(4, vec![hash_to_field(1)], vec![], 0));
    assert!(accepted(4, vec![], vec![], 0));
    assert!(!accepted(4, vec![], vec![hash_to_field(1)], 7));
    assert!(!accepted(4, vec![hash_to_field(1)], vec![], 1));
    assert!(!accepted(4, vec![], vec![], 1));
}

#[test]
fn empty_set_proves_zero_and_nothing_else() {
    assert!(proof_verifies(4, vec![], vec![hash_to_field(1)], 0));
    assert!(!proof_verifies(4, vec![], vec![hash_to_field(1)], 7));
    assert!(proof_verifies(4, vec![hash_to_field(1)], vec![], 0));
    assert!(!proof_verifies(4, vec![hash_to_field(1)], vec![], 1));
}

#[test]
fn repeated_partner_counts_each_pair() {
    // One element against two copies of itself: the count is one, the rows
    // hold two matches, and the bound output is the number of matching rows.
    let set_a = vec![hash_to_field(1)];
    let set_b = vec![hash_to_field(1), hash_to_field(1)];
    let circuit = PsiCircuit::new(set_a.clone(), set_b.clone(), 0).unwrap();
    assert_eq!(circuit.compute_intersection_size(), 1);
    assert!(accepted(4, set_a.clone(), set_b.clone(), 2));
    assert!(!accepted(4, set_a, set_b, 1));
}

fn claim_match_on_first_row(rows: &mut Vec<ComparisonRow>) {
    rows[0].match_bit = FieldElement::one();
    let mut previous = FieldElement::zero();
    for (index, row) in rows.iter_mut().enumerate() {
        let bit = to_fp(&row.match_bit);
        let sum = if index == 0 { bit } else { to_fp(&previous) + bit };
        row.sum = FieldElement::from_repr(sum.to_repr()).unwrap();
        previous = row.sum;
    }
}

fn deny_match_on_second_row(rows: &mut Vec<ComparisonRow>) {
    rows[1].match_bit = FieldElement::zero();
    let mut previous = FieldElement::zero();
    for (index, row) in rows.iter_mut().enumerate() {
        let bit = to_fp(&row.match_bit);
        let sum = if index == 0 { bit } else { to_fp(&previous) + bit };
        row.sum = FieldElement::from_repr(sum.to_repr()).unwrap();
        previous = row.sum;
    }
}

fn skip_a_step_of_the_sum(rows: &mut Vec<ComparisonRow>) {
    let last = rows.len() - 1;
    rows[last].sum = FieldElement::from_u64(0);
}

#[test]
fn match_gate_refuses_a_false_match() {
    // Row 0 compares 1 with 2; claiming a match there would let 2 pass.
    let set_a = vec![hash_to_field(1), hash_to_field(2)];
    let set_b = vec![hash_to_field(2), hash_to_field(3)];
    assert!(!accepted_after(5, set_a, set_b, 2, claim_match_on_first_row));
}

#[test]
fn match_gate_refuses_a_denied_match() {
    // Pairs in order: (1,1) (1,2) (2,1) (2,2)... here row 1 compares 2 with 2.
    let set_a = vec![hash_to_field(2)];
    let set_b = vec![hash_to_field(1), hash_to_field(2)];
    assert!(accepted(5, set_a.clone(), set_b.clone(), 1));
    assert!(!accepted_after(5, set_a, set_b, 0, deny_match_on_second_row));
}

#[test]
fn sum_gate_refuses_a_broken_chain() {
    let set_a = vec![hash_to_field(1), hash_to_field(2)];
    let set_b = vec![hash_to_field(1), hash_to_field(2)];
    assert!(accepted(5, set_a.clone(), set_b.clone(), 2));
    assert!(!accepted_after(5, set_a, set_b, 0, skip_a_step_of_the_sum));
}


#[test]
fn test_serialization_deserialization() {
    let k = 10;
    assert!(accepted(
        k,
        vec![hash_to_field(1), hash_to_field(2)],
        vec![hash_to_field(2), hash_to_field(3)],
        1
    ));

    // What has a byte form goes through it: the size parameter and the
    // public inputs. The keys are derived from the size parameter.
    let size: u32 = 6;
    let size_bytes = bincode::serialize(&size).unwrap();
    let size_recovered: u32 = bincode::deserialize(&size_bytes).unwrap();
    assert_eq!(size_recovered, size);

    let set_a = vec![hash_to_field(1), hash_to_field(2)];
    let set_b = vec![hash_to_field(2), hash_to_field(3)];
    let public_inputs = vec![Fp::from(1u64)];
    let public_bytes = bincode::serialize(&public_inputs).unwrap();
    let public_recovered: Vec<Fp> = bincode::deserialize(&public_bytes).unwrap();
    assert_eq!(public_recovered, public_inputs);
    assert_eq!(
        FieldElement::from_repr(public_recovered[0].to_repr()).unwrap(),
        FieldElement::from_u64(1)
    );

    let (params, vk, proof) = prove(size_recovered, set_a, set_b, 1).unwrap();
    assert!(verifies(&params, &vk, &proof, &public_recovered));
}

#[test]
fn test_proof_portability() {
    let k = 10;
    let set_a = vec![hash_to_field(10), hash_to_field(20), hash_to_field(30)];
    let set_b = vec![hash_to_field(20), hash_to_field(30), hash_to_field(40)];
    assert!(accepted(k, set_a.clone(), set_b.clone(), 2));

    let public_inputs = vec![Fp::from(2u64)];

    // Generate proof
    let (params, vk, proof) = prove(6, set_a, set_b, 2).unwrap();

    // Serialize and deserialize proof
    let proof_copy = proof.clone();

    // Verify both
    assert!(verifies(&params, &vk, &proof, &public_inputs));
    assert!(verifies(&params, &vk, &proof_copy, &public_inputs));
    // The proof is bound to its public input.
    assert!(!verifies(&params, &vk, &proof, &[Fp::from(3u64)]));
}
