//! What holds of assignments and of sets of them across operations.
use crate::assignment::{Assignment, PedersenStrategy, RevealedState, StateTypes};
use crate::assignments::{
    lemma_collect_set, lemma_collect_set_of_sorted, lemma_decode_any_set, lemma_decode_set,
    lemma_sorted_unique, spec_all_states, spec_known_states, spec_sorted, spec_all_seals, spec_known_seals, spec_collect_set, spec_conceal_count,
    spec_conceal_except_each, spec_conceal_except_set, spec_decode_set, spec_set_encoding,
    AssignmentsVariantV,
};
use crate::amount;
use crate::balancing::{
    spec_allocations, spec_corrected_blinding, spec_corrected_index, spec_zero_balanced,
};
use crate::balancing::{spec_input_keys, spec_output_keys};
use crate::bytes32::Bytes32;
use crate::crypto::{
    be_bytes, be_nat, be_sum, curve_order, lemma_be_bytes_len32, lemma_be_nat_be_bytes32,
    lemma_be_sum_update,
};
use crate::data;
use vstd::arithmetic::div_mod::{
    lemma_add_mod_noop, lemma_add_mod_noop_right, lemma_mod_add_multiples_vanish,
    lemma_sub_mod_noop_right,
};
use crate::encoding::{lemma_skip_prefix, ErrorV, StrictEncoding};
use crate::schema::StateType;
use crate::seal;
use vstd::prelude::*;

verus! {

/// Every revealed seal of a set is among its concealed seals, concealed, and
/// there are no more revealed seals than assignments.
pub proof fn law_known_seals_among_all_seals<S: StateTypes>(items: Seq<Assignment<S>>)
    ensures
        spec_known_seals(items).len() <= items.len(),
        forall|j: int|
            0 <= j < spec_known_seals(items).len() ==> spec_all_seals(items).contains(
                (#[trigger] spec_known_seals(items)[j]).spec_conceal(),
            ),
    decreases items.len(),
{
    if items.len() > 0 {
        let init = items.drop_last();
        law_known_seals_among_all_seals(init);
        let known = spec_known_seals(items);
        assert forall|j: int| 0 <= j < known.len() implies spec_all_seals(items).contains(
            (#[trigger] known[j]).spec_conceal(),
        ) by {
            if j < spec_known_seals(init).len() {
                let i = choose|i: int|
                    0 <= i < spec_all_seals(init).len() && spec_all_seals(init)[i]
                        == spec_known_seals(init)[j].spec_conceal();
                assert(spec_all_seals(items)[i] == spec_all_seals(init)[i]);
            } else {
                let last = items.len() - 1;
                assert(spec_all_seals(items)[last] == items[last].spec_seal_definition_confidential());
            }
        }
    }
}

/// Concealing an assignment twice gives what concealing it once gives.
pub proof fn law_conceal_idempotent<S: StateTypes>(a: Assignment<S>)
    ensures
        a.spec_conceal().spec_conceal() == a.spec_conceal(),
{
}

/// Concealing an assignment keeps its seal as it is (revealed or not), keeps
/// its concealed seal and its concealed state, and leaves no state revealed.
pub proof fn law_conceal_keeps_commitments<S: StateTypes>(a: Assignment<S>)
    ensures
        a.spec_conceal().spec_seal_definition() == a.spec_seal_definition(),
        a.spec_conceal().spec_seal_definition_confidential() == a.spec_seal_definition_confidential(),
        a.spec_conceal().spec_assigned_state_confidential() == a.spec_assigned_state_confidential(),
        a.spec_conceal().spec_assigned_state() is None,
{
}

/// Where an assignment reveals its seal, the concealed seal is the
/// concealment of it; where it reveals its state, the concealed state is the
/// concealment of it.
pub proof fn law_revealed_parts_agree<S: StateTypes>(a: Assignment<S>)
    ensures
        a.spec_seal_definition() matches Some(s) ==> a.spec_seal_definition_confidential()
            == s.spec_conceal(),
        a.spec_assigned_state() matches Some(st) ==> a.spec_assigned_state_confidential()
            == st.spec_concealed(),
{
}

/// Concealing all but some seals conceals an assignment exactly when its
/// concealed seal is not among them, and counts one exactly when that
/// changed the assignment.
pub proof fn law_conceal_except<S: StateTypes>(a: Assignment<S>, seals: Seq<seal::Confidential>)
    ensures
        a.spec_conceal_except(seals).0 == (if seals.contains(a.spec_seal_definition_confidential()) {
            a
        } else {
            a.spec_conceal()
        }),
        (a.spec_conceal_except(seals).1 == 1) == (a.spec_conceal_except(seals).0 != a),
        a.spec_conceal_except(seals).1 <= 1,
{
}

/// With no seals to keep, concealing all but them is concealing.
pub proof fn law_conceal_except_none_kept<S: StateTypes>(a: Assignment<S>)
    ensures
        a.spec_conceal_except(Seq::empty()).0 == a.spec_conceal(),
{
}

/// Concealing all but the same seals a second time changes nothing and
/// counts nothing.
pub proof fn law_conceal_except_idempotent<S: StateTypes>(
    a: Assignment<S>,
    seals: Seq<seal::Confidential>,
)
    ensures
        a.spec_conceal_except(seals).0.spec_conceal_except(seals) == (
            a.spec_conceal_except(seals).0,
            0usize,
        ),
{
}

/// In a set, concealing all but some seals keeps the concealed seals: the
/// same seals occur before and after.
pub proof fn law_set_conceal_except_keeps_seals<S: StateTypes>(
    items: Seq<Assignment<S>>,
    seals: Seq<seal::Confidential>,
)
    ensures
        spec_all_seals(spec_conceal_except_set(items, seals)).to_set() == spec_all_seals(
            items,
        ).to_set(),
{
    let each = spec_conceal_except_each(items, seals);
    let after = spec_conceal_except_set(items, seals);
    assert forall|x: seal::Confidential|
        spec_all_seals(after).contains(x) implies spec_all_seals(items).contains(x) by {
        let i = choose|i: int| 0 <= i < spec_all_seals(after).len() && spec_all_seals(after)[i] == x;
        lemma_collect_set(each);
        assert(after.contains(after[i]));
        let j = choose|j: int| 0 <= j < each.len() && each[j] == after[i];
        assert(spec_all_seals(items)[j] == x);
    }
    assert forall|x: seal::Confidential|
        spec_all_seals(items).contains(x) implies spec_all_seals(after).contains(x) by {
        let j = choose|j: int| 0 <= j < spec_all_seals(items).len() && spec_all_seals(items)[j] == x;
        assert(each.contains(each[j]));
        lemma_collect_set(each);
        assert(after.contains(each[j]));
        let i = choose|i: int| 0 <= i < after.len() && after[i] == each[j];
        assert(spec_all_seals(after)[i] == x);
    }
    assert(spec_all_seals(after).to_set() =~= spec_all_seals(items).to_set());
}

proof fn lemma_count_zero<S: StateTypes>(items: Seq<Assignment<S>>, seals: Seq<seal::Confidential>)
    requires
        forall|i: int| 0 <= i < items.len() ==> (#[trigger] items[i]).spec_conceal_except(seals).1 == 0,
    ensures
        spec_conceal_count(items, seals) == 0,
    decreases items.len(),
{
    if items.len() > 0 {
        let init = items.drop_last();
        assert forall|i: int| 0 <= i < init.len() implies (#[trigger] init[i]).spec_conceal_except(seals).1
            == 0 by {
            assert(init[i] == items[i]);
        }
        lemma_count_zero(init, seals);
        assert(items.last() == items[items.len() - 1]);
    }
}

/// In a set, concealing all but some seals gives a set in ascending order
/// with no assignment twice, no larger than before, having concealed at most one assignment per
/// assignment; doing it a second time with the same seals changes nothing
/// and counts nothing.
pub proof fn law_set_conceal_except<S: StateTypes>(
    items: Seq<Assignment<S>>,
    seals: Seq<seal::Confidential>,
)
    ensures
        spec_sorted(spec_conceal_except_set(items, seals)),
        spec_conceal_except_set(items, seals).no_duplicates(),
        spec_conceal_except_set(items, seals).len() <= items.len(),
        spec_conceal_count(items, seals) <= items.len(),
        spec_conceal_except_set(spec_conceal_except_set(items, seals), seals)
            == spec_conceal_except_set(items, seals),
        spec_conceal_count(spec_conceal_except_set(items, seals), seals) == 0,
    decreases items.len(),
{
    let each = spec_conceal_except_each(items, seals);
    let after = spec_conceal_except_set(items, seals);
    lemma_collect_set(each);
    if items.len() > 0 {
        law_set_conceal_except(items.drop_last(), seals);
        law_conceal_except(items.last(), seals);
    }
    // Every assignment of the result is already concealed as far as `seals` asks.
    assert forall|i: int| 0 <= i < after.len() implies (#[trigger] after[i]).spec_conceal_except(
        seals,
    ) == (after[i], 0usize) by {
        assert(after.contains(after[i]));
        let j = choose|j: int| 0 <= j < each.len() && each[j] == after[i];
        law_conceal_except_idempotent(items[j], seals);
    }
    let again = spec_conceal_except_each(after, seals);
    assert(again =~= after);
    lemma_collect_set_of_sorted(after);
    lemma_count_zero(after, seals);
}

/// Decoding a one-byte kind followed by the encoding of a set reads the set
/// after the byte.
proof fn lemma_after_kind<S: StateTypes>(
    t: StateType,
    items: Seq<Assignment<S>>,
    rest: Seq<u8>,
)
    requires
        spec_sorted(items),
        items.len() <= u16::MAX,
    ensures
        StateType::spec_decode(t.spec_encode() + spec_set_encoding(items) + rest) == Ok::<
            (StateType, nat),
            ErrorV,
        >((t, 1nat)),
        (t.spec_encode() + spec_set_encoding(items) + rest).skip(1) == spec_set_encoding(items)
            + rest,
        spec_decode_set::<S>(spec_set_encoding(items) + rest) == Ok::<
            (Seq<Assignment<S>>, nat),
            ErrorV,
        >((items, spec_set_encoding(items).len())),
{
    let body = spec_set_encoding(items);
    assert(t.spec_encode() + body + rest =~= t.spec_encode() + (body + rest));
    t.lemma_decode_encode(body + rest);
    lemma_skip_prefix(t.spec_encode(), body + rest);
    lemma_decode_set(items, rest);
}

/// Decoding the strict encoding of a set of assignments, whatever follows
/// it, gives the set back and consumes exactly the encoding, where the
/// assignments are in ascending order and their number fits a `u16`.
#[verifier::spinoff_prover]
pub proof fn law_encoding_roundtrip(v: AssignmentsVariantV, rest: Seq<u8>)
    requires
        v.wf(),
        v.len() <= u16::MAX,
    ensures
        AssignmentsVariantV::spec_decode(v.spec_encode() + rest) == Ok::<
            (AssignmentsVariantV, nat),
            ErrorV,
        >((v, v.spec_encode().len())),
{
    match v {
        AssignmentsVariantV::Declarative(items) => {
            lemma_after_kind(StateType::Void, items, rest);
        },
        AssignmentsVariantV::PedersenBased(items) => {
            let t = StateType::Homomorphic;
            let tag = data::EncodingTag::U64;
            let body = spec_set_encoding(items);
            let s = v.spec_encode() + rest;
            assert(s =~= t.spec_encode() + (tag.spec_encode() + (body + rest)));
            t.lemma_decode_encode(tag.spec_encode() + (body + rest));
            lemma_skip_prefix(t.spec_encode(), tag.spec_encode() + (body + rest));
            tag.lemma_decode_encode(body + rest);
            assert(s.skip(2) =~= body + rest);
            lemma_decode_set(items, rest);
        },
        AssignmentsVariantV::HashBased(items) => {
            lemma_after_kind(StateType::Hashed, items, rest);
        },
    }
}

/// A decoded set is in ascending order and holds no assignment twice,
/// whatever order the encoding listed them in.
pub proof fn law_decoded_sets_are_sets(s: Seq<u8>)
    ensures
        AssignmentsVariantV::spec_decode(s) matches Ok((v, _)) ==> v.wf(),
{
    lemma_decoded_set_distinct::<crate::assignment::VoidStrategy>(s.skip(1));
    lemma_decoded_set_distinct::<crate::assignment::PedersenStrategy>(s.skip(2));
    lemma_decoded_set_distinct::<crate::assignment::HashStrategy>(s.skip(1));
}

proof fn lemma_decoded_set_distinct<S: StateTypes>(s: Seq<u8>)
    ensures
        spec_decode_set::<S>(s) matches Ok((items, _)) ==> spec_sorted(items),
{
    match crate::encoding::spec_read_u16(s) {
        Ok((count, _)) => match crate::assignments::spec_decode_items::<S>(s.skip(2), count as nat) {
            Ok((decoded, _)) => {
                lemma_collect_set(decoded);
            },
            Err(_) => {},
        },
        Err(_) => {},
    }
}

/// Where `zero_balanced` builds a set, it carries amounts, is in ascending
/// order with no assignment twice, holds no more assignments than allocations, and holds
/// exactly the allocations: ours with revealed seals and theirs with
/// concealed ones, each with its amount and its blinding factor, the
/// corrected one in place of the given one at the corrected output.
pub proof fn law_zero_balanced_allocations(
    inputs: Seq<amount::Revealed>,
    ours: Seq<(seal::Revealed, u64)>,
    theirs: Seq<(seal::Confidential, u64)>,
    blindings: Seq<amount::BlindingFactor>,
)
    ensures
        spec_zero_balanced(inputs, ours, theirs, blindings) matches Some(v) ==> {
            let k = spec_corrected_index(ours.len(), theirs.len());
            let adjusted = spec_corrected_blinding(inputs, ours.len(), theirs.len(), blindings);
            let allocations = spec_allocations(ours, theirs, blindings.update(k, adjusted.unwrap()));
            &&& adjusted is Some
            &&& v matches AssignmentsVariantV::PedersenBased(items)
            &&& spec_sorted(items)
            &&& items.no_duplicates()
            &&& items.len() <= ours.len() + theirs.len()
            &&& forall|a: Assignment<crate::assignment::PedersenStrategy>|
                items.contains(a) <==> #[trigger] allocations.contains(a)
        },
{
    if let Some(AssignmentsVariantV::PedersenBased(items)) = spec_zero_balanced(
        inputs,
        ours,
        theirs,
        blindings,
    ) {
        let k = spec_corrected_index(ours.len(), theirs.len());
        let adjusted = spec_corrected_blinding(inputs, ours.len(), theirs.len(), blindings).unwrap();
        let allocations = spec_allocations(ours, theirs, blindings.update(k, adjusted));
        lemma_collect_set(allocations);
    }
}

/// The corrected blinding factor reads as the given one plus the outputs'
/// blinding factors minus the inputs' (a single zero key where there are no
/// inputs), modulo the group order. So the outputs' blinding factors after
/// the correction total twice the outputs' minus the inputs'.
pub proof fn law_zero_balanced_correction(
    inputs: Seq<amount::Revealed>,
    n_ours: nat,
    n_theirs: nat,
    blindings: Seq<amount::BlindingFactor>,
)
    requires
        0 <= spec_corrected_index(n_ours, n_theirs) < blindings.len(),
    ensures
        spec_corrected_blinding(inputs, n_ours, n_theirs, blindings) matches Some(adjusted) ==> {
            let k = spec_corrected_index(n_ours, n_theirs);
            let n = curve_order() as int;
            let total_in = be_sum(spec_input_keys(inputs));
            let total_out = be_sum(spec_output_keys(blindings));
            &&& be_nat(adjusted.spec_bytes()) == (be_nat(blindings[k].spec_bytes()) + total_out
                - total_in) % n
            &&& be_sum(spec_output_keys(blindings.update(k, adjusted))) % n == (2 * total_out
                - total_in) % n
        },
{
    if let Some(adjusted) = spec_corrected_blinding(inputs, n_ours, n_theirs, blindings) {
        let k = spec_corrected_index(n_ours, n_theirs);
        let n = curve_order() as int;
        let total_in = be_sum(spec_input_keys(inputs));
        let total_out = be_sum(spec_output_keys(blindings));
        let bk = be_nat(blindings[k].spec_bytes()) as int;
        let d = (total_in - total_out) % n;
        lemma_be_bytes_len32();
        lemma_be_nat_be_bytes32(d as nat);
        let c = ((curve_order() - d) as nat) % curve_order();
        lemma_be_nat_be_bytes32(c);
        let s = (be_nat(blindings[k].spec_bytes()) % curve_order() + c) % curve_order();
        lemma_be_nat_be_bytes32(s);
        Bytes32::lemma_bytes_of_from_bytes(be_bytes(s, 32));
        assert(be_nat(adjusted.spec_bytes()) == s);
        lemma_add_mod_noop(bk, n - d, n);
        lemma_mod_add_multiples_vanish(bk - d, n);
        lemma_sub_mod_noop_right(bk, total_in - total_out, n);
        assert(s == (bk + total_out - total_in) % n);
        let keys = spec_output_keys(blindings);
        assert(spec_output_keys(blindings.update(k, adjusted)) =~= keys.update(
            k,
            adjusted.spec_bytes(),
        ));
        lemma_be_sum_update(keys, k, adjusted.spec_bytes());
        lemma_add_mod_noop_right(total_out - bk, bk + total_out - total_in, n);
    }
}


/// The set made from items depends only on which items there are, not on
/// their order or on repeated items; so it has one encoding.
pub proof fn law_sets_are_canonical<S: StateTypes>(a: Seq<Assignment<S>>, b: Seq<Assignment<S>>)
    requires
        forall|x: Assignment<S>| a.contains(x) <==> b.contains(x),
    ensures
        spec_collect_set(a) == spec_collect_set(b),
        spec_set_encoding(spec_collect_set(a)) == spec_set_encoding(spec_collect_set(b)),
{
    lemma_collect_set(a);
    lemma_collect_set(b);
    lemma_sorted_unique(spec_collect_set(a), spec_collect_set(b));
}

/// Decoding a count and that many assignments, listed in any order and
/// with any repetitions, gives the set of them in ascending order.
pub proof fn law_decoding_sorts<S: StateTypes>(items: Seq<Assignment<S>>, rest: Seq<u8>)
    requires
        items.len() <= u16::MAX,
    ensures
        spec_decode_set::<S>(spec_set_encoding(items) + rest) == Ok::<(Seq<Assignment<S>>, nat), ErrorV>(
            (spec_collect_set(items), spec_set_encoding(items).len()),
        ),
        spec_sorted(spec_collect_set(items)),
        forall|x: Assignment<S>| #[trigger] spec_collect_set(items).contains(x) <==> items.contains(x),
{
    lemma_decode_any_set(items, rest);
    lemma_collect_set(items);
}

/// The positions of the assignments that reveal their seal, in order.
pub open spec fn spec_seal_positions<S: StateTypes>(items: Seq<Assignment<S>>) -> Seq<int>
    decreases items.len(),
{
    if items.len() == 0 {
        Seq::empty()
    } else if items.last().spec_seal_definition() is Some {
        spec_seal_positions(items.drop_last()).push(items.len() - 1)
    } else {
        spec_seal_positions(items.drop_last())
    }
}

/// The positions of the assignments that reveal their state, in order.
pub open spec fn spec_state_positions<S: StateTypes>(items: Seq<Assignment<S>>) -> Seq<int>
    decreases items.len(),
{
    if items.len() == 0 {
        Seq::empty()
    } else if items.last().spec_assigned_state() is Some {
        spec_state_positions(items.drop_last()).push(items.len() - 1)
    } else {
        spec_state_positions(items.drop_last())
    }
}

/// The revealed seals are the seals of exactly the assignments that reveal
/// their seal, in the set's order; concealed, each is the concealed seal at
/// its assignment's place, so they occur among all concealed seals in the
/// same order.
pub proof fn law_known_seals_in_order<S: StateTypes>(items: Seq<Assignment<S>>)
    ensures
        spec_seal_positions(items).len() == spec_known_seals(items).len(),
        spec_known_seals(items).len() <= items.len(),
        forall|j: int|
            0 <= j < spec_seal_positions(items).len() ==> {
                let p = #[trigger] spec_seal_positions(items)[j];
                &&& 0 <= p < items.len()
                &&& items[p].spec_seal_definition() == Some(spec_known_seals(items)[j])
                &&& spec_all_seals(items)[p] == spec_known_seals(items)[j].spec_conceal()
            },
        forall|j: int, k: int|
            0 <= j < k < spec_seal_positions(items).len() ==> #[trigger] spec_seal_positions(items)[j]
                < #[trigger] spec_seal_positions(items)[k],
        forall|i: int|
            0 <= i < items.len() && (#[trigger] items[i]).spec_seal_definition() is Some
                ==> spec_seal_positions(items).contains(i),
    decreases items.len(),
{
    if items.len() > 0 {
        let init = items.drop_last();
        law_known_seals_in_order(init);
        let p = spec_seal_positions(items);
        let p0 = spec_seal_positions(init);
        let n = items.len() - 1;
        assert forall|j: int| 0 <= j < p.len() implies {
            let q = #[trigger] p[j];
            &&& 0 <= q < items.len()
            &&& items[q].spec_seal_definition() == Some(spec_known_seals(items)[j])
            &&& spec_all_seals(items)[q] == spec_known_seals(items)[j].spec_conceal()
        } by {
            if j < p0.len() {
                assert(p[j] == p0[j]);
                assert(items[p0[j]] == init[p0[j]]);
                assert(spec_all_seals(init)[p0[j]] == init[p0[j]].spec_seal_definition_confidential());
            }
            law_revealed_parts_agree(items[p[j]]);
        }
        assert forall|i: int|
            0 <= i < items.len() && (#[trigger] items[i]).spec_seal_definition() is Some implies p.contains(
            i,
        ) by {
            if i < n {
                assert(init[i] == items[i]);
                assert(p0.contains(i));
                let j = choose|j: int| 0 <= j < p0.len() && p0[j] == i;
                assert(p[j] == i);
            } else {
                assert(items.last() == items[i]);
                assert(p[p.len() - 1] == i);
            }
        }
    }
}

/// The revealed states are the states of exactly the assignments that
/// reveal their state, in the set's order; concealed, each is the concealed
/// state at its assignment's place, so they occur among all concealed
/// states in the same order, and there is one concealed state for each
/// assignment.
pub proof fn law_known_states_in_order<S: StateTypes>(items: Seq<Assignment<S>>)
    ensures
        spec_state_positions(items).len() == spec_known_states(items).len(),
        spec_known_states(items).len() <= items.len(),
        spec_all_states(items).len() == items.len(),
        forall|j: int|
            0 <= j < spec_state_positions(items).len() ==> {
                let p = #[trigger] spec_state_positions(items)[j];
                &&& 0 <= p < items.len()
                &&& items[p].spec_assigned_state() == Some(spec_known_states(items)[j])
                &&& spec_all_states(items)[p] == spec_known_states(items)[j].spec_concealed()
            },
        forall|j: int, k: int|
            0 <= j < k < spec_state_positions(items).len() ==> #[trigger] spec_state_positions(items)[j]
                < #[trigger] spec_state_positions(items)[k],
        forall|i: int|
            0 <= i < items.len() && (#[trigger] items[i]).spec_assigned_state() is Some
                ==> spec_state_positions(items).contains(i),
    decreases items.len(),
{
    if items.len() > 0 {
        let init = items.drop_last();
        law_known_states_in_order(init);
        let p = spec_state_positions(items);
        let p0 = spec_state_positions(init);
        let n = items.len() - 1;
        assert forall|j: int| 0 <= j < p.len() implies {
            let q = #[trigger] p[j];
            &&& 0 <= q < items.len()
            &&& items[q].spec_assigned_state() == Some(spec_known_states(items)[j])
            &&& spec_all_states(items)[q] == spec_known_states(items)[j].spec_concealed()
        } by {
            if j < p0.len() {
                assert(p[j] == p0[j]);
                assert(items[p0[j]] == init[p0[j]]);
                assert(spec_all_states(init)[p0[j]] == init[p0[j]].spec_assigned_state_confidential());
            }
            law_revealed_parts_agree(items[p[j]]);
        }
        assert forall|i: int|
            0 <= i < items.len() && (#[trigger] items[i]).spec_assigned_state() is Some implies p.contains(
            i,
        ) by {
            if i < n {
                assert(init[i] == items[i]);
                assert(p0.contains(i));
                let j = choose|j: int| 0 <= j < p0.len() && p0[j] == i;
                assert(p[j] == i);
            } else {
                assert(items.last() == items[i]);
                assert(p[p.len() - 1] == i);
            }
        }
    }
}

/// A seal is among the revealed seals exactly when some assignment reveals it.
proof fn lemma_known_seals_contains<S: StateTypes>(items: Seq<Assignment<S>>, x: seal::Revealed)
    ensures
        spec_known_seals(items).contains(x) <==> exists|i: int|
            0 <= i < items.len() && (#[trigger] items[i]).spec_seal_definition() == Some(x),
{
    law_known_seals_in_order(items);
    let p = spec_seal_positions(items);
    if spec_known_seals(items).contains(x) {
        let j = choose|j: int| 0 <= j < spec_known_seals(items).len() && spec_known_seals(items)[j] == x;
        assert(items[p[j]].spec_seal_definition() == Some(x));
    }
    if exists|i: int| 0 <= i < items.len() && (#[trigger] items[i]).spec_seal_definition() == Some(x) {
        let i = choose|i: int| 0 <= i < items.len() && (#[trigger] items[i]).spec_seal_definition() == Some(x);
        assert(p.contains(i));
        let j = choose|j: int| 0 <= j < p.len() && p[j] == i;
        assert(items[p[j]].spec_seal_definition() == Some(spec_known_seals(items)[j]));
        assert(spec_known_seals(items)[j] == x);
    }
}

/// In a set, concealing all but some seals reveals and hides no seal and
/// keeps every commitment to state: the same revealed seals and the same
/// concealed states occur before and after.
pub proof fn law_set_conceal_except_keeps_revealed<S: StateTypes>(
    items: Seq<Assignment<S>>,
    seals: Seq<seal::Confidential>,
)
    ensures
        spec_known_seals(spec_conceal_except_set(items, seals)).to_set() == spec_known_seals(
            items,
        ).to_set(),
        spec_all_states(spec_conceal_except_set(items, seals)).to_set() == spec_all_states(
            items,
        ).to_set(),
{
    let each = spec_conceal_except_each(items, seals);
    let after = spec_conceal_except_set(items, seals);
    lemma_collect_set(each);
    assert forall|i: int| 0 <= i < each.len() implies {
        &&& (#[trigger] each[i]).spec_seal_definition() == items[i].spec_seal_definition()
        &&& each[i].spec_assigned_state_confidential() == items[i].spec_assigned_state_confidential()
    } by {
        law_conceal_except(items[i], seals);
        law_conceal_keeps_commitments(items[i]);
    }
    assert forall|x: seal::Revealed| spec_known_seals(after).contains(x) <==> spec_known_seals(
        items,
    ).contains(x) by {
        lemma_known_seals_contains(after, x);
        lemma_known_seals_contains(items, x);
        if spec_known_seals(after).contains(x) {
            let i = choose|i: int| 0 <= i < after.len() && (#[trigger] after[i]).spec_seal_definition() == Some(x);
            assert(after.contains(after[i]));
            let k = choose|k: int| 0 <= k < each.len() && each[k] == after[i];
            assert(items[k].spec_seal_definition() == Some(x));
        }
        if spec_known_seals(items).contains(x) {
            let k = choose|k: int| 0 <= k < items.len() && (#[trigger] items[k]).spec_seal_definition() == Some(x);
            assert(each.contains(each[k]));
            assert(after.contains(each[k]));
            let i = choose|i: int| 0 <= i < after.len() && after[i] == each[k];
            assert(after[i].spec_seal_definition() == Some(x));
        }
    }
    assert forall|y: S::Confidential| spec_all_states(after).contains(y) <==> spec_all_states(
        items,
    ).contains(y) by {
        if spec_all_states(after).contains(y) {
            let i = choose|i: int| 0 <= i < spec_all_states(after).len() && spec_all_states(after)[i] == y;
            assert(after.contains(after[i]));
            let k = choose|k: int| 0 <= k < each.len() && each[k] == after[i];
            assert(spec_all_states(items)[k] == y);
        }
        if spec_all_states(items).contains(y) {
            let k = choose|k: int| 0 <= k < spec_all_states(items).len() && spec_all_states(items)[k] == y;
            assert(each.contains(each[k]));
            assert(after.contains(each[k]));
            let i = choose|i: int| 0 <= i < after.len() && after[i] == each[k];
            assert(spec_all_states(after)[i] == y);
        }
    }
    assert(spec_known_seals(after).to_set() =~= spec_known_seals(items).to_set());
    assert(spec_all_states(after).to_set() =~= spec_all_states(items).to_set());
}

/// What an amount assignment says besides its blinding factor: its revealed
/// seal, its concealed seal where the seal is not revealed, and its amount
/// where the amount is revealed.
pub open spec fn spec_unblinded(a: Assignment<PedersenStrategy>) -> (
    Option<seal::Revealed>,
    Option<seal::Confidential>,
    Option<u64>,
) {
    match a {
        Assignment::Revealed { seal_definition, assigned_state } => (
            Some(seal_definition),
            None,
            Some(assigned_state.amount),
        ),
        Assignment::ConfidentialSeal { seal_definition, assigned_state } => (
            None,
            Some(seal_definition),
            Some(assigned_state.amount),
        ),
        Assignment::Confidential { seal_definition, .. } => (None, Some(seal_definition), None),
        Assignment::ConfidentialAmount { seal_definition, .. } => (Some(seal_definition), None, None),
    }
}

/// What the assignments say besides their blinding factors.
pub open spec fn spec_unblinded_set(items: Seq<Assignment<PedersenStrategy>>) -> Set<
    (Option<seal::Revealed>, Option<seal::Confidential>, Option<u64>),
> {
    items.map_values(|a: Assignment<PedersenStrategy>| spec_unblinded(a)).to_set()
}

proof fn lemma_unblinded_allocations(
    ours: Seq<(seal::Revealed, u64)>,
    theirs: Seq<(seal::Confidential, u64)>,
    b1: Seq<amount::BlindingFactor>,
    b2: Seq<amount::BlindingFactor>,
    items: Seq<Assignment<PedersenStrategy>>,
)
    requires
        forall|a: Assignment<PedersenStrategy>|
            items.contains(a) <==> #[trigger] spec_allocations(ours, theirs, b1).contains(a),
    ensures
        spec_unblinded_set(items) == spec_unblinded_set(spec_allocations(ours, theirs, b2)),
{
    let l1 = spec_allocations(ours, theirs, b1);
    let l2 = spec_allocations(ours, theirs, b2);
    assert forall|k: int| 0 <= k < l1.len() implies spec_unblinded(#[trigger] l1[k]) == spec_unblinded(
        l2[k],
    ) by {
        if k >= ours.len() {
            assert(l1[k] == Seq::new(
                theirs.len(),
                |j: int|
                    Assignment::<PedersenStrategy>::ConfidentialSeal {
                        seal_definition: theirs[j].0,
                        assigned_state: amount::Revealed {
                            amount: theirs[j].1,
                            blinding: b1[ours.len() + j],
                        },
                    },
            )[k - ours.len()]);
        }
    }
    let u = spec_unblinded_set(items);
    let u2 = spec_unblinded_set(l2);
    let m = items.map_values(|a: Assignment<PedersenStrategy>| spec_unblinded(a));
    let m2 = l2.map_values(|a: Assignment<PedersenStrategy>| spec_unblinded(a));
    assert forall|t| u.contains(t) <==> u2.contains(t) by {
        if u.contains(t) {
            let i = choose|i: int| 0 <= i < m.len() && m[i] == t;
            assert(items.contains(items[i]));
            assert(l1.contains(items[i]));
            let k = choose|k: int| 0 <= k < l1.len() && l1[k] == items[i];
            assert(m2[k] == t);
        }
        if u2.contains(t) {
            let k = choose|k: int| 0 <= k < m2.len() && m2[k] == t;
            assert(l1.contains(l1[k]));
            assert(items.contains(l1[k]));
            let i = choose|i: int| 0 <= i < items.len() && items[i] == l1[k];
            assert(m[i] == t);
        }
    }
    assert(u =~= u2);
}

/// Two calls of `zero_balanced` on the same allocations, whatever blinding
/// factors they draw, agree on the seals and amounts they assign and differ
/// at most in blinding factors; without allocations both build nothing.
pub proof fn law_zero_balanced_blindings_agree(
    inputs: Seq<amount::Revealed>,
    ours: Seq<(seal::Revealed, u64)>,
    theirs: Seq<(seal::Confidential, u64)>,
    b1: Seq<amount::BlindingFactor>,
    b2: Seq<amount::BlindingFactor>,
)
    requires
        b1.len() == ours.len() + theirs.len(),
        b2.len() == ours.len() + theirs.len(),
    ensures
        ours.len() == 0 && theirs.len() == 0 ==> spec_zero_balanced(inputs, ours, theirs, b1) is None
            && spec_zero_balanced(inputs, ours, theirs, b2) is None,
        spec_zero_balanced(inputs, ours, theirs, b1) matches Some(
            AssignmentsVariantV::PedersenBased(items1),
        ) ==> spec_zero_balanced(inputs, ours, theirs, b2) matches Some(
            AssignmentsVariantV::PedersenBased(items2),
        ) ==> spec_unblinded_set(items1) == spec_unblinded_set(items2),
{
    law_zero_balanced_allocations(inputs, ours, theirs, b1);
    law_zero_balanced_allocations(inputs, ours, theirs, b2);
    if let Some(AssignmentsVariantV::PedersenBased(items1)) = spec_zero_balanced(inputs, ours, theirs, b1) {
        if let Some(AssignmentsVariantV::PedersenBased(items2)) = spec_zero_balanced(inputs, ours, theirs, b2) {
            let k = spec_corrected_index(ours.len(), theirs.len());
            let f1 = b1.update(k, spec_corrected_blinding(inputs, ours.len(), theirs.len(), b1).unwrap());
            let f2 = b2.update(k, spec_corrected_blinding(inputs, ours.len(), theirs.len(), b2).unwrap());
            lemma_unblinded_allocations(ours, theirs, f1, f2, items1);
            lemma_unblinded_allocations(ours, theirs, f2, f2, items2);
        }
    }
}


/// The sum of the numbers that the inputs' blinding factors read as.
pub open spec fn spec_input_total(inputs: Seq<amount::Revealed>) -> int
    decreases inputs.len(),
{
    if inputs.len() == 0 {
        0
    } else {
        spec_input_total(inputs.drop_last()) + be_nat(inputs.last().blinding.spec_bytes())
    }
}

/// The sum of the numbers that the blinding factors read as.
pub open spec fn spec_blinding_total(blindings: Seq<amount::BlindingFactor>) -> int
    decreases blindings.len(),
{
    if blindings.len() == 0 {
        0
    } else {
        spec_blinding_total(blindings.drop_last()) + be_nat(blindings.last().spec_bytes())
    }
}

proof fn lemma_sum_input_keys(keys: Seq<Seq<u8>>, inputs: Seq<amount::Revealed>)
    requires
        keys.len() == inputs.len(),
        forall|i: int| 0 <= i < keys.len() ==> keys[i] == (#[trigger] inputs[i]).blinding.spec_bytes(),
    ensures
        be_sum(keys) == spec_input_total(inputs),
    decreases keys.len(),
{
    if keys.len() > 0 {
        let (k0, i0) = (keys.drop_last(), inputs.drop_last());
        assert forall|i: int| 0 <= i < k0.len() implies k0[i] == (#[trigger] i0[i]).blinding.spec_bytes() by {
            assert(k0[i] == keys[i] && i0[i] == inputs[i]);
        }
        lemma_sum_input_keys(k0, i0);
        assert(keys.last() == keys[keys.len() - 1] && inputs.last() == inputs[inputs.len() - 1]);
    }
}

proof fn lemma_sum_output_keys(keys: Seq<Seq<u8>>, blindings: Seq<amount::BlindingFactor>)
    requires
        keys.len() == blindings.len(),
        forall|i: int| 0 <= i < keys.len() ==> keys[i] == (#[trigger] blindings[i]).spec_bytes(),
    ensures
        be_sum(keys) == spec_blinding_total(blindings),
    decreases keys.len(),
{
    if keys.len() > 0 {
        let (k0, b0) = (keys.drop_last(), blindings.drop_last());
        assert forall|i: int| 0 <= i < k0.len() implies k0[i] == (#[trigger] b0[i]).spec_bytes() by {
            assert(k0[i] == keys[i] && b0[i] == blindings[i]);
        }
        lemma_sum_output_keys(k0, b0);
        assert(keys.last() == keys[keys.len() - 1] && blindings.last() == blindings[blindings.len() - 1]);
    }
}

/// The blinding sum counts the blinding factor of every input (nothing
/// where there are none) and of every output.
proof fn lemma_key_totals(inputs: Seq<amount::Revealed>, blindings: Seq<amount::BlindingFactor>)
    ensures
        be_sum(spec_input_keys(inputs)) == spec_input_total(inputs),
        be_sum(spec_output_keys(blindings)) == spec_blinding_total(blindings),
{
    if inputs.len() == 0 {
        let keys = spec_input_keys(inputs);
        crate::crypto::lemma_be_nat_zeros(32);
        assert(keys.len() == 1);
        assert(keys.drop_last() =~= Seq::<Seq<u8>>::empty());
        assert(be_sum(keys.drop_last()) == 0);
        assert(keys.last() == Seq::new(32, |i: int| 0u8));
        assert(be_sum(keys) == be_sum(keys.drop_last()) + be_nat(keys.last()));
    } else {
        let keys = spec_input_keys(inputs);
        assert(keys.len() == inputs.len());
        assert forall|i: int| 0 <= i < keys.len() implies keys[i] == (#[trigger] inputs[i]).blinding.spec_bytes() by {
        }
        lemma_sum_input_keys(keys, inputs);
    }
    lemma_sum_output_keys(spec_output_keys(blindings), blindings);
}

/// The corrected blinding factor reads as the given one plus the blinding
/// factors of all outputs minus those of all inputs, modulo the group
/// order; so after the correction the outputs' blinding factors total twice
/// the outputs' minus the inputs'.
pub proof fn law_zero_balanced_correction_over_inputs(
    inputs: Seq<amount::Revealed>,
    n_ours: nat,
    n_theirs: nat,
    blindings: Seq<amount::BlindingFactor>,
)
    requires
        0 <= spec_corrected_index(n_ours, n_theirs) < blindings.len(),
    ensures
        spec_corrected_blinding(inputs, n_ours, n_theirs, blindings) matches Some(adjusted) ==> {
            let k = spec_corrected_index(n_ours, n_theirs);
            let n = curve_order() as int;
            &&& be_nat(adjusted.spec_bytes()) == (be_nat(blindings[k].spec_bytes())
                + spec_blinding_total(blindings) - spec_input_total(inputs)) % n
            &&& spec_blinding_total(blindings.update(k, adjusted)) % n == (2 * spec_blinding_total(
                blindings,
            ) - spec_input_total(inputs)) % n
        },
{
    law_zero_balanced_correction(inputs, n_ours, n_theirs, blindings);
    lemma_key_totals(inputs, blindings);
    if let Some(adjusted) = spec_corrected_blinding(inputs, n_ours, n_theirs, blindings) {
        let k = spec_corrected_index(n_ours, n_theirs);
        lemma_key_totals(inputs, blindings.update(k, adjusted));
    }
}


/// Where `zero_balanced` builds a set, it holds exactly these assignments:
/// for each of our allocations, its revealed seal with its amount under its
/// own blinding factor; for each of theirs, its concealed seal with its
/// amount under its own blinding factor (ours first, then theirs, one
/// factor each); except that the last of ours, or where we have none the
/// last of theirs, carries the corrected blinding factor.
pub proof fn law_zero_balanced_items(
    inputs: Seq<amount::Revealed>,
    ours: Seq<(seal::Revealed, u64)>,
    theirs: Seq<(seal::Confidential, u64)>,
    blindings: Seq<amount::BlindingFactor>,
)
    requires
        blindings.len() == ours.len() + theirs.len(),
    ensures
        spec_zero_balanced(inputs, ours, theirs, blindings) matches Some(
            AssignmentsVariantV::PedersenBased(items),
        ) ==> {
            let adjusted = spec_corrected_blinding(inputs, ours.len(), theirs.len(), blindings).unwrap();
            &&& forall|i: int|
                0 <= i < ours.len() ==> items.contains(
                    (Assignment::<PedersenStrategy>::Revealed {
                        seal_definition: (#[trigger] ours[i]).0,
                        assigned_state: amount::Revealed {
                            amount: ours[i].1,
                            blinding: if i == ours.len() - 1 {
                                adjusted
                            } else {
                                blindings[i]
                            },
                        },
                    }),
                )
            &&& forall|j: int|
                0 <= j < theirs.len() ==> items.contains(
                    (Assignment::<PedersenStrategy>::ConfidentialSeal {
                        seal_definition: (#[trigger] theirs[j]).0,
                        assigned_state: amount::Revealed {
                            amount: theirs[j].1,
                            blinding: if ours.len() == 0 && j == theirs.len() - 1 {
                                adjusted
                            } else {
                                blindings[ours.len() + j]
                            },
                        },
                    }),
                )
            &&& forall|a: Assignment<PedersenStrategy>| #[trigger]
                items.contains(a) ==> (exists|i: int|
                    0 <= i < ours.len() && a == (Assignment::<PedersenStrategy>::Revealed {
                        seal_definition: (#[trigger] ours[i]).0,
                        assigned_state: amount::Revealed {
                            amount: ours[i].1,
                            blinding: if i == ours.len() - 1 {
                                adjusted
                            } else {
                                blindings[i]
                            },
                        },
                    })) || (exists|j: int|
                    0 <= j < theirs.len() && a == (Assignment::<PedersenStrategy>::ConfidentialSeal {
                        seal_definition: (#[trigger] theirs[j]).0,
                        assigned_state: amount::Revealed {
                            amount: theirs[j].1,
                            blinding: if ours.len() == 0 && j == theirs.len() - 1 {
                                adjusted
                            } else {
                                blindings[ours.len() + j]
                            },
                        },
                    }))
        },
{
    law_zero_balanced_allocations(inputs, ours, theirs, blindings);
    if let Some(AssignmentsVariantV::PedersenBased(items)) = spec_zero_balanced(
        inputs,
        ours,
        theirs,
        blindings,
    ) {
        let k = spec_corrected_index(ours.len(), theirs.len());
        let adjusted = spec_corrected_blinding(inputs, ours.len(), theirs.len(), blindings).unwrap();
        let fb = blindings.update(k, adjusted);
        let allocations = spec_allocations(ours, theirs, fb);
        assert forall|i: int| 0 <= i < ours.len() implies items.contains(
            (Assignment::<PedersenStrategy>::Revealed {
                seal_definition: (#[trigger] ours[i]).0,
                assigned_state: amount::Revealed {
                    amount: ours[i].1,
                    blinding: if i == ours.len() - 1 {
                        adjusted
                    } else {
                        blindings[i]
                    },
                },
            }),
        ) by {
            assert(allocations.contains(allocations[i]));
        }
        assert forall|j: int| 0 <= j < theirs.len() implies items.contains(
            (Assignment::<PedersenStrategy>::ConfidentialSeal {
                seal_definition: (#[trigger] theirs[j]).0,
                assigned_state: amount::Revealed {
                    amount: theirs[j].1,
                    blinding: if ours.len() == 0 && j == theirs.len() - 1 {
                        adjusted
                    } else {
                        blindings[ours.len() + j]
                    },
                },
            }),
        ) by {
            assert(allocations.contains(allocations[ours.len() + j]));
        }
        assert forall|a: Assignment<PedersenStrategy>| #[trigger] items.contains(a) implies (exists|i: int|
            0 <= i < ours.len() && a == (Assignment::<PedersenStrategy>::Revealed {
                seal_definition: (#[trigger] ours[i]).0,
                assigned_state: amount::Revealed {
                    amount: ours[i].1,
                    blinding: if i == ours.len() - 1 {
                        adjusted
                    } else {
                        blindings[i]
                    },
                },
            })) || (exists|j: int|
            0 <= j < theirs.len() && a == (Assignment::<PedersenStrategy>::ConfidentialSeal {
                seal_definition: (#[trigger] theirs[j]).0,
                assigned_state: amount::Revealed {
                    amount: theirs[j].1,
                    blinding: if ours.len() == 0 && j == theirs.len() - 1 {
                        adjusted
                    } else {
                        blindings[ours.len() + j]
                    },
                },
            })) by {
            assert(allocations.contains(a));
            let m = choose|m: int| 0 <= m < allocations.len() && allocations[m] == a;
            if m < ours.len() {
                assert(ours[m] == ours[m]);
            } else {
                let j = m - ours.len();
                assert(theirs[j] == theirs[j]);
            }
        }
    }
}

} // verus!
