//! A circuit instance, two sets and a declared intersection size, and the
//! count that the declared size is held against.

use crate::field::FieldElement;
use crate::MAX_SET_SIZE;
use vstd::prelude::*;

verus! {

/// Why an instance could not be built.
#[derive(Clone, Copy, Debug, PartialEq, Eq, Structural)]
pub enum ConstructionError {
    /// The first set has more than `MAX_SET_SIZE` elements.
    SetATooLarge,
    /// The second set has more than `MAX_SET_SIZE` elements.
    SetBTooLarge,
}

impl ConstructionError {
    /// The error in words.
    pub fn message(&self) -> (text: &'static str)
        ensures
            text@ == (match *self {
                ConstructionError::SetATooLarge => "Set A exceeds maximum size"@,
                ConstructionError::SetBTooLarge => "Set B exceeds maximum size"@,
            }),
    {
        match self {
            ConstructionError::SetATooLarge => "Set A exceeds maximum size",
            ConstructionError::SetBTooLarge => "Set B exceeds maximum size",
        }
    }
}

/// How many positions of `a` hold an element that occurs somewhere in `b`.
/// An element of `a` counts once however often `b` repeats it, and an
/// element that `a` repeats counts at each of its positions.
pub open spec fn intersection_count(a: Seq<FieldElement>, b: Seq<FieldElement>) -> nat
    decreases a.len(),
{
    if a.len() == 0 {
        0
    } else {
        intersection_count(a.drop_last(), b) + if b.contains(a.last()) {
            1nat
        } else {
            0nat
        }
    }
}

/// What an instance holds.
pub struct PsiCircuitView {
    pub set_a: Seq<FieldElement>,
    pub set_b: Seq<FieldElement>,
    pub intersection_size: u64,
}

/// Two sets of field elements, each of at most `MAX_SET_SIZE` elements, and
/// the intersection size that is declared for them.
#[derive(Debug)]
pub struct PsiCircuit {
    set_a: Vec<FieldElement>,
    set_b: Vec<FieldElement>,
    intersection_size: u64,
}

impl View for PsiCircuit {
    type V = PsiCircuitView;

    closed spec fn view(&self) -> PsiCircuitView {
        PsiCircuitView {
            set_a: self.set_a@,
            set_b: self.set_b@,
            intersection_size: self.intersection_size,
        }
    }
}

impl PsiCircuit {
    /// Neither set is larger than `MAX_SET_SIZE`. It holds of every instance
    /// that executable code can reach.
    #[verifier::type_invariant]
    pub open spec fn wf(self) -> bool {
        &&& self@.set_a.len() <= MAX_SET_SIZE
        &&& self@.set_b.len() <= MAX_SET_SIZE
    }

    /// Builds an instance, or says which set is too large. The first set is
    /// looked at first.
    pub fn new(set_a: Vec<FieldElement>, set_b: Vec<FieldElement>, intersection_size: u64) -> (r:
        Result<PsiCircuit, ConstructionError>)
        ensures
            match r {
                Ok(circuit) => {
                    &&& set_a@.len() <= MAX_SET_SIZE
                    &&& set_b@.len() <= MAX_SET_SIZE
                    &&& circuit@ == (PsiCircuitView {
                        set_a: set_a@,
                        set_b: set_b@,
                        intersection_size,
                    })
                },
                Err(ConstructionError::SetATooLarge) => set_a@.len() > MAX_SET_SIZE,
                Err(ConstructionError::SetBTooLarge) => {
                    &&& set_a@.len() <= MAX_SET_SIZE
                    &&& set_b@.len() > MAX_SET_SIZE
                },
            },
    {
        if set_a.len() > MAX_SET_SIZE {
            return Err(ConstructionError::SetATooLarge);
        }
        if set_b.len() > MAX_SET_SIZE {
            return Err(ConstructionError::SetBTooLarge);
        }
        Ok(PsiCircuit { set_a, set_b, intersection_size })
    }

    /// The first set.
    pub fn set_a(&self) -> (set: &Vec<FieldElement>)
        ensures
            set@ == self@.set_a,
            set@.len() <= MAX_SET_SIZE,
    {
        proof {
            use_type_invariant(self);
        }
        &self.set_a
    }

    /// The second set.
    pub fn set_b(&self) -> (set: &Vec<FieldElement>)
        ensures
            set@ == self@.set_b,
            set@.len() <= MAX_SET_SIZE,
    {
        proof {
            use_type_invariant(self);
        }
        &self.set_b
    }

    /// The declared intersection size.
    pub fn intersection_size(&self) -> (size: u64)
        ensures
            size == self@.intersection_size,
    {
        self.intersection_size
    }

    /// Counts the elements of the first set that occur in the second.
    pub fn compute_intersection_size(&self) -> (count: u64)
        ensures
            count == intersection_count(self@.set_a, self@.set_b),
    {
        let mut count: u64 = 0;
        let mut i: usize = 0;
        while i < self.set_a.len()
            invariant
                i <= self.set_a.len(),
                count == intersection_count(self.set_a@.take(i as int), self.set_b@),
                count <= i,
            decreases self.set_a.len() - i,
        {
            let mut found = false;
            let mut j: usize = 0;
            while j < self.set_b.len()
                invariant_except_break
                    !found,
                invariant
                    i < self.set_a.len(),
                    j <= self.set_b.len(),
                    forall|k: int| 0 <= k < j ==> self.set_b@[k] != self.set_a@[i as int],
                ensures
                    found <==> self.set_b@.contains(self.set_a@[i as int]),
                decreases self.set_b.len() - j,
            {
                if self.set_a[i] == self.set_b[j] {
                    found = true;
                    break ;
                }
                j += 1;
            }
            proof {
                let prefix = self.set_a@.take(i + 1);
                assert(prefix.drop_last() =~= self.set_a@.take(i as int));
            }
            if found {
                count += 1;
            }
            i += 1;
        }
        assert(self.set_a@.take(i as int) =~= self.set_a@);
        count
    }
}

impl Clone for PsiCircuit {
    /// An independent copy of the instance.
    fn clone(&self) -> (r: PsiCircuit)
        ensures
            r@ == self@,
    {
        proof {
            use_type_invariant(self);
        }
        let set_a = self.set_a.clone();
        let set_b = self.set_b.clone();
        PsiCircuit { set_a, set_b, intersection_size: self.intersection_size }
    }
}

impl Default for PsiCircuit {
    /// The empty instance: no elements, and a declared size of zero.
    fn default() -> (r: PsiCircuit)
        ensures
            r@ == (PsiCircuitView {
                set_a: Seq::<FieldElement>::empty(),
                set_b: Seq::<FieldElement>::empty(),
                intersection_size: 0,
            }),
    {
        PsiCircuit { set_a: Vec::new(), set_b: Vec::new(), intersection_size: 0 }
    }
}

/// Where every element of `a` occurs in `b`, every position of `a` counts.
pub proof fn lemma_intersection_count_all(a: Seq<FieldElement>, b: Seq<FieldElement>)
    requires
        forall|i: int| 0 <= i < a.len() ==> b.contains(#[trigger] a[i]),
    ensures
        intersection_count(a, b) == a.len(),
    decreases a.len(),
{
    if a.len() > 0 {
        lemma_intersection_count_all(a.drop_last(), b);
    }
}

/// A set held against itself counts each of its positions: the count is
/// its length, whether or not it repeats an element.
pub proof fn lemma_intersection_count_self(a: Seq<FieldElement>)
    ensures
        intersection_count(a, a) == a.len(),
{
    lemma_intersection_count_all(a, a);
}

} // verus!
