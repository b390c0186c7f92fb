//! Building a set of amount assignments whose blinding factors are adjusted
//! against the inputs' blinding factors.
use crate::amount::{self, BlindingFactor};
use crate::assignment::{Assignment, PedersenStrategy};
use crate::assignments::{
    insert_sorted, spec_collect_set, spec_sorted, AssignmentsVariant, AssignmentsVariantV,
};
use crate::bytes32::Bytes32;
use crate::crypto::{
    be_nat, blind_sum, curve_order, lemma_be_bytes_len32, lemma_be_nat_zeros, random_scalar,
    scalar_add, scalar_neg, spec_blind_sum, spec_scalar_add, spec_scalar_neg, zero_scalar,
};
use crate::seal;
use vstd::prelude::*;

verus! {

/// Whether a blinding factor reads below the group order.
pub open spec fn spec_valid_blinding(b: BlindingFactor) -> bool {
    be_nat(b.spec_bytes()) < curve_order()
}

/// The keys on the input side of the blinding sum: the inputs' blinding
/// factors, or a single zero key where there are no inputs.
pub open spec fn spec_input_keys(inputs: Seq<amount::Revealed>) -> Seq<Seq<u8>> {
    if inputs.len() == 0 {
        seq![Seq::new(32, |i: int| 0u8)]
    } else {
        inputs.map_values(|r: amount::Revealed| r.blinding.spec_bytes())
    }
}

/// The keys on the output side of the blinding sum.
pub open spec fn spec_output_keys(blindings: Seq<BlindingFactor>) -> Seq<Seq<u8>> {
    blindings.map_values(|b: BlindingFactor| b.spec_bytes())
}

/// The output whose blinding factor takes the correction: our last
/// allocation, or their last one where we have none.
pub open spec fn spec_corrected_index(n_ours: nat, n_theirs: nat) -> int {
    if n_ours > 0 {
        n_ours - 1
    } else {
        n_theirs - 1
    }
}

/// The assignments of the allocations, in order: ours with revealed seals,
/// then theirs with concealed seals, each amount with the blinding factor at
/// its position.
pub open spec fn spec_allocations(
    ours: Seq<(seal::Revealed, u64)>,
    theirs: Seq<(seal::Confidential, u64)>,
    blindings: Seq<BlindingFactor>,
) -> Seq<Assignment<PedersenStrategy>> {
    Seq::new(
        ours.len(),
        |i: int|
            Assignment::Revealed {
                seal_definition: ours[i].0,
                assigned_state: amount::Revealed { amount: ours[i].1, blinding: blindings[i] },
            },
    ) + Seq::new(
        theirs.len(),
        |j: int|
            Assignment::ConfidentialSeal {
                seal_definition: theirs[j].0,
                assigned_state: amount::Revealed {
                    amount: theirs[j].1,
                    blinding: blindings[ours.len() + j],
                },
            },
    )
}

/// The blinding factor of the corrected output after the correction: the
/// negated blinding sum of the inputs minus the outputs, added to it.
/// `None` where the secp256k1 arithmetic refuses a step.
pub open spec fn spec_corrected_blinding(
    inputs: Seq<amount::Revealed>,
    n_ours: nat,
    n_theirs: nat,
    blindings: Seq<BlindingFactor>,
) -> Option<BlindingFactor> {
    match spec_blind_sum(spec_input_keys(inputs), spec_output_keys(blindings)) {
        None => None,
        Some(sum) => match spec_scalar_neg(sum) {
            None => None,
            Some(correction) => match spec_scalar_add(
                blindings[spec_corrected_index(n_ours, n_theirs)].spec_bytes(),
                correction,
            ) {
                None => None,
                Some(adjusted) => Some(Bytes32::spec_from_bytes(adjusted)),
            },
        },
    }
}

/// The set that `zero_balanced` builds from the given output blinding
/// factors: none without allocations; otherwise the allocations as
/// assignments, with the corrected blinding factor in place of the given one
/// at the corrected output. `None` where the secp256k1 arithmetic refuses a step.
pub open spec fn spec_zero_balanced(
    inputs: Seq<amount::Revealed>,
    ours: Seq<(seal::Revealed, u64)>,
    theirs: Seq<(seal::Confidential, u64)>,
    blindings: Seq<BlindingFactor>,
) -> Option<AssignmentsVariantV> {
    if ours.len() == 0 && theirs.len() == 0 {
        None
    } else {
        match spec_corrected_blinding(inputs, ours.len(), theirs.len(), blindings) {
            None => None,
            Some(adjusted) => Some(
                AssignmentsVariantV::PedersenBased(
                    spec_collect_set(
                        spec_allocations(
                            ours,
                            theirs,
                            blindings.update(spec_corrected_index(ours.len(), theirs.len()), adjusted),
                        ),
                    ),
                ),
            ),
        }
    }
}

fn input_keys(inputs: &Vec<amount::Revealed>) -> (keys: Vec<Vec<u8>>)
    ensures
        keys@.map_values(|k: Vec<u8>| k@) == spec_input_keys(inputs@),
{
    let mut keys: Vec<Vec<u8>> = Vec::new();
    if inputs.len() == 0 {
        keys.push(zero_scalar());
        assert(keys@.map_values(|k: Vec<u8>| k@) =~= spec_input_keys(inputs@));
        return keys;
    }
    let mut i: usize = 0;
    while i < inputs.len()
        invariant
            i <= inputs@.len(),
            keys@.len() == i,
            forall|j: int| 0 <= j < i ==> (#[trigger] keys@[j])@ == inputs@[j].blinding.spec_bytes(),
        decreases inputs@.len() - i,
    {
        keys.push(inputs[i].blinding.to_bytes());
        i = i + 1;
    }
    assert(keys@.map_values(|k: Vec<u8>| k@) =~= spec_input_keys(inputs@));
    keys
}

fn output_keys(blindings: &Vec<BlindingFactor>) -> (keys: Vec<Vec<u8>>)
    ensures
        keys@.map_values(|k: Vec<u8>| k@) == spec_output_keys(blindings@),
{
    let mut keys: Vec<Vec<u8>> = Vec::new();
    let mut i: usize = 0;
    while i < blindings.len()
        invariant
            i <= blindings@.len(),
            keys@.len() == i,
            forall|j: int| 0 <= j < i ==> (#[trigger] keys@[j])@ == blindings@[j].spec_bytes(),
        decreases blindings@.len() - i,
    {
        keys.push(blindings[i].to_bytes());
        i = i + 1;
    }
    assert(keys@.map_values(|k: Vec<u8>| k@) =~= spec_output_keys(blindings@));
    keys
}

impl AssignmentsVariant {
    /// Builds amount assignments for our allocations (with revealed seals)
    /// and theirs (with concealed seals) under the given output blinding
    /// factors, one per allocation in that order, after adding to the last
    /// of them the negation of the blinding sum of the inputs minus the
    /// outputs. Returns `None` if both allocation vectors are empty, and
    /// where the secp256k1 arithmetic refuses a step.
    pub fn zero_balanced_with_blindings(
        inputs: &Vec<amount::Revealed>,
        allocations_ours: &Vec<(seal::Revealed, u64)>,
        allocations_theirs: &Vec<(seal::Confidential, u64)>,
        blindings: &Vec<BlindingFactor>,
    ) -> (r: Option<AssignmentsVariant>)
        requires
            blindings@.len() == allocations_ours@.len() + allocations_theirs@.len(),
            forall|i: int| 0 <= i < inputs@.len() ==> spec_valid_blinding(#[trigger] inputs@[i].blinding),
            forall|i: int| 0 <= i < blindings@.len() ==> spec_valid_blinding(#[trigger] blindings@[i]),
        ensures
            match r {
                Some(v) => spec_zero_balanced(inputs@, allocations_ours@, allocations_theirs@, blindings@)
                    == Some(v@),
                None => spec_zero_balanced(
                    inputs@,
                    allocations_ours@,
                    allocations_theirs@,
                    blindings@,
                ) is None,
            },
            r matches Some(v) ==> v.wf() && v is PedersenBased,
    {
        let n_ours = allocations_ours.len();
        let n_theirs = allocations_theirs.len();
        if n_ours == 0 && n_theirs == 0 {
            return None;
        }
        let in_keys = input_keys(inputs);
        let out_keys = output_keys(blindings);
        proof {
            lemma_be_nat_zeros(32);
            let ik = in_keys@.map_values(|k: Vec<u8>| k@);
            let ok = out_keys@.map_values(|k: Vec<u8>| k@);
            assert forall|i: int| 0 <= i < ik.len() implies (#[trigger] ik[i]).len() == 32
                && be_nat(ik[i]) < curve_order() by {
                if inputs@.len() > 0 {
                    inputs@[i].blinding.lemma_bytes_len();
                }
            }
            assert forall|i: int| 0 <= i < ok.len() implies (#[trigger] ok[i]).len() == 32
                && be_nat(ok[i]) < curve_order() by {
                blindings@[i].lemma_bytes_len();
            }
        }
        let sum = match blind_sum(&in_keys, &out_keys) {
            Some(s) => s,
            None => {
                return None;
            },
        };
        proof {
            lemma_be_bytes_len32();
        }
        let correction = match scalar_neg(sum.as_slice()) {
            Some(c) => c,
            None => {
                return None;
            },
        };
        let k: usize = if n_ours > 0 {
            n_ours - 1
        } else {
            n_theirs - 1
        };
        let target = blindings[k].to_bytes();
        let adjusted = match scalar_add(target.as_slice(), correction.as_slice()) {
            Some(a) => a,
            None => {
                return None;
            },
        };
        let adjusted = Bytes32::from_bytes(adjusted.as_slice());
        let ghost final_blindings = blindings@.update(k as int, adjusted);
        let ghost allocations = spec_allocations(
            allocations_ours@,
            allocations_theirs@,
            final_blindings,
        );
        let mut items: Vec<Assignment<PedersenStrategy>> = Vec::new();
        let mut i: usize = 0;
        while i < n_ours
            invariant
                n_ours == allocations_ours@.len(),
                n_theirs == allocations_theirs@.len(),
                blindings@.len() == n_ours + n_theirs,
                k < n_ours + n_theirs,
                final_blindings == blindings@.update(k as int, adjusted),
                allocations == spec_allocations(
                    allocations_ours@,
                    allocations_theirs@,
                    final_blindings,
                ),
                i <= n_ours,
                items@ == spec_collect_set(allocations.take(i as int)),
                spec_sorted(items@),
            decreases n_ours - i,
        {
            let (seal_definition, amount) = allocations_ours[i];
            let blinding = if i == k {
                adjusted
            } else {
                blindings[i]
            };
            let a = Assignment::Revealed {
                seal_definition,
                assigned_state: amount::Revealed { amount, blinding },
            };
            assert(a == allocations[i as int]);
            assert(allocations.take(i + 1).drop_last() =~= allocations.take(i as int));
            insert_sorted(&mut items, a);
            i = i + 1;
        }
        let total = blindings.len();
        let mut j: usize = 0;
        while j < n_theirs
            invariant
                total == n_ours + n_theirs,
                n_ours == allocations_ours@.len(),
                n_theirs == allocations_theirs@.len(),
                blindings@.len() == n_ours + n_theirs,
                k < n_ours + n_theirs,
                final_blindings == blindings@.update(k as int, adjusted),
                allocations == spec_allocations(
                    allocations_ours@,
                    allocations_theirs@,
                    final_blindings,
                ),
                j <= n_theirs,
                items@ == spec_collect_set(allocations.take(n_ours + j)),
                spec_sorted(items@),
            decreases n_theirs - j,
        {
            let (seal_definition, amount) = allocations_theirs[j];
            let blinding = if n_ours + j == k {
                adjusted
            } else {
                blindings[n_ours + j]
            };
            let a = Assignment::ConfidentialSeal {
                seal_definition,
                assigned_state: amount::Revealed { amount, blinding },
            };
            assert(a == allocations[n_ours + j]);
            assert(allocations.take(n_ours + j + 1).drop_last() =~= allocations.take(n_ours + j));
            insert_sorted(&mut items, a);
            j = j + 1;
        }
        assert(allocations.take(n_ours + n_theirs) =~= allocations);
        Some(AssignmentsVariant::PedersenBased(items))
    }

    /// Builds amount assignments for our allocations (with revealed seals)
    /// and theirs (with concealed seals), each under a fresh random blinding
    /// factor, after adding to the last of them the negation of the blinding
    /// sum of the inputs minus the outputs. Returns `None` if both
    /// allocation vectors are empty, and where the secp256k1 arithmetic
    /// refuses a step.
    pub fn zero_balanced(
        inputs: Vec<amount::Revealed>,
        allocations_ours: Vec<(seal::Revealed, u64)>,
        allocations_theirs: Vec<(seal::Confidential, u64)>,
    ) -> (r: Option<AssignmentsVariant>)
        requires
            forall|i: int| 0 <= i < inputs@.len() ==> spec_valid_blinding(#[trigger] inputs@[i].blinding),
            allocations_ours@.len() + allocations_theirs@.len() <= usize::MAX,
        ensures
            allocations_ours@.len() == 0 && allocations_theirs@.len() == 0 ==> r is None,
            r matches Some(v) ==> v.wf() && v is PedersenBased,
            exists|blindings: Seq<BlindingFactor>|
                {
                    &&& blindings.len() == allocations_ours@.len() + allocations_theirs@.len()
                    &&& forall|i: int|
                        0 <= i < blindings.len() ==> 0 < be_nat((#[trigger] blindings[i]).spec_bytes())
                            < curve_order()
                    &&& match r {
                        Some(v) => spec_zero_balanced(
                            inputs@,
                            allocations_ours@,
                            allocations_theirs@,
                            blindings,
                        ) == Some(v@),
                        None => spec_zero_balanced(
                            inputs@,
                            allocations_ours@,
                            allocations_theirs@,
                            blindings,
                        ) is None,
                    }
                },
    {
        let n = allocations_ours.len() + allocations_theirs.len();
        let mut blindings: Vec<BlindingFactor> = Vec::new();
        let mut i: usize = 0;
        while i < n
            invariant
                i <= n,
                blindings@.len() == i,
                forall|j: int|
                    0 <= j < i ==> 0 < be_nat((#[trigger] blindings@[j]).spec_bytes()) < curve_order(),
            decreases n - i,
        {
            let key = random_scalar();
            proof {
                Bytes32::lemma_bytes_of_from_bytes(key@);
            }
            blindings.push(Bytes32::from_bytes(key.as_slice()));
            i = i + 1;
        }
        let r = AssignmentsVariant::zero_balanced_with_blindings(
            &inputs,
            &allocations_ours,
            &allocations_theirs,
            &blindings,
        );
        r
    }
}

} // verus!
