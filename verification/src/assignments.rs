//! Sets of assignments of one kind of state, and the queries, concealment
//! and encoding of such a set.
//!
//! A set is held as a `Vec` in ascending order with no item twice, the
//! order of `Assignment::spec_precedes`; every operation that adds an item
//! puts it in its place, unless it is already present.
use crate::amount;
use crate::assignment::{Assignment, HashStrategy, PedersenStrategy, StateTypes, VoidStrategy};
use crate::data;
use crate::encoding::{
    lemma_read_u16, lemma_skip_prefix, lemma_skip_skip, read_u16, spec_read_u16,
    write_u16, Error, ErrorV, StrictEncoding,
};
use crate::schema::StateType;
use crate::seal;
use vstd::bytes::spec_u16_to_le_bytes;
use vstd::prelude::*;

verus! {

/// Assignments of one kind of state, by the kind.
#[derive(Clone, Debug)]
pub enum AssignmentsVariant {
    Declarative(Vec<Assignment<VoidStrategy>>),
    PedersenBased(Vec<Assignment<PedersenStrategy>>),
    HashBased(Vec<Assignment<HashStrategy>>),
}

/// Whether every assignment comes before those after it: the items are in
/// ascending order, and none occurs twice.
pub open spec fn spec_sorted<S: StateTypes>(s: Seq<Assignment<S>>) -> bool {
    forall|i: int, j: int| 0 <= i < j < s.len() ==> (#[trigger] s[i]).spec_precedes(#[trigger] s[j])
}

/// How many items of `s` come before `a`.
pub open spec fn spec_count_below<S: StateTypes>(s: Seq<Assignment<S>>, a: Assignment<S>) -> nat
    decreases s.len(),
{
    if s.len() == 0 {
        0
    } else {
        spec_count_below(s.drop_last(), a) + if s.last().spec_precedes(a) {
            1nat
        } else {
            0nat
        }
    }
}

/// `s` with `a` added in its place unless it is already there.
pub open spec fn spec_insert_sorted<S: StateTypes>(s: Seq<Assignment<S>>, a: Assignment<S>) -> Seq<
    Assignment<S>,
> {
    if s.contains(a) {
        s
    } else {
        s.insert(spec_count_below(s, a) as int, a)
    }
}

/// The set of the items: each item once, in ascending order.
pub open spec fn spec_collect_set<S: StateTypes>(items: Seq<Assignment<S>>) -> Seq<Assignment<S>>
    decreases items.len(),
{
    if items.len() == 0 {
        Seq::empty()
    } else {
        spec_insert_sorted(spec_collect_set(items.drop_last()), items.last())
    }
}

/// Sorted items hold no item twice.
pub proof fn lemma_sorted_no_duplicates<S: StateTypes>(s: Seq<Assignment<S>>)
    requires
        spec_sorted(s),
    ensures
        s.no_duplicates(),
{
    assert forall|i: int, j: int| 0 <= i < s.len() && 0 <= j < s.len() && i != j implies s[i]
        != s[j] by {
        s[i].lemma_precedes_irreflexive();
        if i < j {
            assert(s[i].spec_precedes(s[j]));
        } else {
            assert(s[j].spec_precedes(s[i]));
        }
    }
}

/// In sorted items, those that come before `a` are the first
/// `spec_count_below` of them.
pub proof fn lemma_count_below<S: StateTypes>(s: Seq<Assignment<S>>, a: Assignment<S>)
    requires
        spec_sorted(s),
    ensures
        spec_count_below(s, a) <= s.len(),
        forall|j: int|
            0 <= j < s.len() ==> (j < spec_count_below(s, a) <==> (#[trigger] s[j]).spec_precedes(a)),
    decreases s.len(),
{
    if s.len() > 0 {
        let init = s.drop_last();
        let last = s.last();
        assert(spec_sorted(init)) by {
            assert forall|i: int, j: int| 0 <= i < j < init.len() implies (#[trigger] init[i]).spec_precedes(
                #[trigger] init[j],
            ) by {
                assert(s[i].spec_precedes(s[j]));
            }
        }
        lemma_count_below(init, a);
        let k0 = spec_count_below(init, a);
        if last.spec_precedes(a) {
            assert forall|j: int| 0 <= j < init.len() implies (#[trigger] init[j]).spec_precedes(a) by {
                assert(s[j].spec_precedes(s[s.len() - 1]));
                init[j].lemma_precedes_transitive(last, a);
            }
            if k0 < init.len() {
                assert(init[k0 as int].spec_precedes(a));
            }
        }
        assert forall|j: int|
            0 <= j < s.len() implies (j < spec_count_below(s, a) <==> (#[trigger] s[j]).spec_precedes(a)) by {
            if j < init.len() {
                assert(s[j] == init[j]);
            } else {
                assert(s[j] == last);
            }
        }
    }
}

/// Adding an item to sorted items keeps them sorted, and adds exactly it.
pub proof fn lemma_insert_sorted<S: StateTypes>(s: Seq<Assignment<S>>, a: Assignment<S>)
    requires
        spec_sorted(s),
    ensures
        spec_sorted(spec_insert_sorted(s, a)),
        forall|x: Assignment<S>| #[trigger]
            spec_insert_sorted(s, a).contains(x) <==> (s.contains(x) || x == a),
        spec_insert_sorted(s, a).len() <= s.len() + 1,
{
    if !s.contains(a) {
        lemma_count_below(s, a);
        let k = spec_count_below(s, a) as int;
        let r = s.insert(k, a);
        assert forall|i: int, j: int| 0 <= i < j < r.len() implies (#[trigger] r[i]).spec_precedes(
            #[trigger] r[j],
        ) by {
            if j < k {
                assert(s[i].spec_precedes(s[j]));
            } else if j == k {
                assert(s[i].spec_precedes(a));
            } else if i < k {
                assert(s[i].spec_precedes(s[j - 1]));
            } else if i == k {
                assert(!s[j - 1].spec_precedes(a));
                assert(s[j - 1] != a);
                a.lemma_precedes_total(s[j - 1]);
            } else {
                assert(s[i - 1].spec_precedes(s[j - 1]));
            }
        }
        assert forall|x: Assignment<S>| #[trigger] r.contains(x) <==> (s.contains(x) || x == a) by {
            if r.contains(x) {
                let i = choose|i: int| 0 <= i < r.len() && r[i] == x;
                if i < k {
                    assert(s[i] == x);
                } else if i > k {
                    assert(s[i - 1] == x);
                }
            }
            if s.contains(x) {
                let i = choose|i: int| 0 <= i < s.len() && s[i] == x;
                if i < k {
                    assert(r[i] == x);
                } else {
                    assert(r[i + 1] == x);
                }
            }
            if x == a {
                assert(r[k] == x);
            }
        }
    }
}

/// The set made from items is sorted, holds exactly the items, and is no
/// longer than they are.
pub proof fn lemma_collect_set<S: StateTypes>(items: Seq<Assignment<S>>)
    ensures
        spec_sorted(spec_collect_set(items)),
        spec_collect_set(items).no_duplicates(),
        forall|x: Assignment<S>| #[trigger]
            spec_collect_set(items).contains(x) <==> items.contains(x),
        spec_collect_set(items).len() <= items.len(),
    decreases items.len(),
{
    if items.len() > 0 {
        let init = items.drop_last();
        lemma_collect_set(init);
        lemma_insert_sorted(spec_collect_set(init), items.last());
        assert forall|x: Assignment<S>| #[trigger]
            spec_collect_set(items).contains(x) <==> items.contains(x) by {
            if init.contains(x) {
                let i = choose|i: int| 0 <= i < init.len() && init[i] == x;
                assert(items[i] == x);
            }
            if items.contains(x) {
                let i = choose|i: int| 0 <= i < items.len() && items[i] == x;
                if i < init.len() {
                    assert(init[i] == x);
                }
            }
            assert(items[items.len() - 1] == items.last());
        }
    } else {
        assert(spec_collect_set(items) =~= Seq::<Assignment<S>>::empty());
    }
    lemma_sorted_no_duplicates(spec_collect_set(items));
}

/// Two sorted sequences with the same items are equal.
pub proof fn lemma_sorted_unique<S: StateTypes>(r1: Seq<Assignment<S>>, r2: Seq<Assignment<S>>)
    requires
        spec_sorted(r1),
        spec_sorted(r2),
        forall|x: Assignment<S>| r1.contains(x) <==> r2.contains(x),
    ensures
        r1 == r2,
    decreases r1.len(),
{
    if r1.len() == 0 {
        if r2.len() > 0 {
            assert(r2.contains(r2[0]));
        }
        assert(r1 =~= r2);
    } else {
        assert(r1.contains(r1[0]));
        let j = choose|j: int| 0 <= j < r2.len() && r2[j] == r1[0];
        assert(r2.contains(r2[0]));
        let i = choose|i: int| 0 <= i < r1.len() && r1[i] == r2[0];
        if i > 0 && j > 0 {
            assert(r1[0].spec_precedes(r1[i]));
            assert(r2[0].spec_precedes(r2[j]));
            r1[0].lemma_precedes_transitive(r2[0], r1[0]);
            r1[0].lemma_precedes_irreflexive();
        }
        assert(r1[0] == r2[0]);
        let t1 = r1.drop_first();
        let t2 = r2.drop_first();
        assert forall|x: Assignment<S>| t1.contains(x) <==> t2.contains(x) by {
            if t1.contains(x) {
                let k = choose|k: int| 0 <= k < t1.len() && t1[k] == x;
                assert(r1[0].spec_precedes(r1[k + 1]));
                r1[0].lemma_precedes_irreflexive();
                assert(r1.contains(x));
                let m = choose|m: int| 0 <= m < r2.len() && r2[m] == x;
                assert(m != 0);
                assert(t2[m - 1] == x);
            }
            if t2.contains(x) {
                let k = choose|k: int| 0 <= k < t2.len() && t2[k] == x;
                assert(r2[0].spec_precedes(r2[k + 1]));
                r2[0].lemma_precedes_irreflexive();
                assert(r2.contains(x));
                let m = choose|m: int| 0 <= m < r1.len() && r1[m] == x;
                assert(m != 0);
                assert(t1[m - 1] == x);
            }
        }
        assert(spec_sorted(t1)) by {
            assert forall|a: int, b: int| 0 <= a < b < t1.len() implies (#[trigger] t1[a]).spec_precedes(
                #[trigger] t1[b],
            ) by {
                assert(r1[a + 1].spec_precedes(r1[b + 1]));
            }
        }
        assert(spec_sorted(t2)) by {
            assert forall|a: int, b: int| 0 <= a < b < t2.len() implies (#[trigger] t2[a]).spec_precedes(
                #[trigger] t2[b],
            ) by {
                assert(r2[a + 1].spec_precedes(r2[b + 1]));
            }
        }
        lemma_sorted_unique(t1, t2);
        assert(r1 =~= seq![r1[0]] + t1);
        assert(r2 =~= seq![r2[0]] + t2);
    }
}

/// Sorted items make themselves as a set.
pub proof fn lemma_collect_set_of_sorted<S: StateTypes>(items: Seq<Assignment<S>>)
    requires
        spec_sorted(items),
    ensures
        spec_collect_set(items) == items,
{
    lemma_collect_set(items);
    lemma_sorted_unique(spec_collect_set(items), items);
}

/// The revealed seals of the assignments that reveal their seal, in order.
pub open spec fn spec_known_seals<S: StateTypes>(items: Seq<Assignment<S>>) -> Seq<seal::Revealed>
    decreases items.len(),
{
    if items.len() == 0 {
        Seq::empty()
    } else {
        match items.last().spec_seal_definition() {
            Some(s) => spec_known_seals(items.drop_last()).push(s),
            None => spec_known_seals(items.drop_last()),
        }
    }
}

/// The revealed states of the assignments that reveal their state, in order.
pub open spec fn spec_known_states<S: StateTypes>(items: Seq<Assignment<S>>) -> Seq<S::Revealed>
    decreases items.len(),
{
    if items.len() == 0 {
        Seq::empty()
    } else {
        match items.last().spec_assigned_state() {
            Some(s) => spec_known_states(items.drop_last()).push(s),
            None => spec_known_states(items.drop_last()),
        }
    }
}

/// The concealed seals of all assignments, in order.
pub open spec fn spec_all_seals<S: StateTypes>(items: Seq<Assignment<S>>) -> Seq<seal::Confidential> {
    items.map_values(|a: Assignment<S>| a.spec_seal_definition_confidential())
}

/// The concealed states of all assignments, in order.
pub open spec fn spec_all_states<S: StateTypes>(items: Seq<Assignment<S>>) -> Seq<S::Confidential> {
    items.map_values(|a: Assignment<S>| a.spec_assigned_state_confidential())
}

/// Whether every assignment's state is concealed or can be concealed.
pub open spec fn spec_all_concealable<S: StateTypes>(items: Seq<Assignment<S>>) -> bool {
    forall|i: int| 0 <= i < items.len() ==> (#[trigger] items[i]).spec_state_concealable()
}

/// Whether `conceal_except` can run on every assignment.
pub open spec fn spec_all_can_conceal_except<S: StateTypes>(
    items: Seq<Assignment<S>>,
    seals: Seq<seal::Confidential>,
) -> bool {
    forall|i: int| 0 <= i < items.len() ==> (#[trigger] items[i]).spec_can_conceal_except(seals)
}

/// Each assignment after `conceal_except`, in order.
pub open spec fn spec_conceal_except_each<S: StateTypes>(
    items: Seq<Assignment<S>>,
    seals: Seq<seal::Confidential>,
) -> Seq<Assignment<S>> {
    items.map_values(|a: Assignment<S>| a.spec_conceal_except(seals).0)
}

/// How many assignments `conceal_except` conceals.
pub open spec fn spec_conceal_count<S: StateTypes>(
    items: Seq<Assignment<S>>,
    seals: Seq<seal::Confidential>,
) -> nat
    decreases items.len(),
{
    if items.len() == 0 {
        0
    } else {
        spec_conceal_count(items.drop_last(), seals) + items.last().spec_conceal_except(seals).1 as nat
    }
}

/// The set of assignments after `conceal_except`: the concealed items, with
/// those that became equal merged, in ascending order.
pub open spec fn spec_conceal_except_set<S: StateTypes>(
    items: Seq<Assignment<S>>,
    seals: Seq<seal::Confidential>,
) -> Seq<Assignment<S>> {
    spec_collect_set(spec_conceal_except_each(items, seals))
}

/// Adds `a` to the set in its place unless it is already there.
pub fn insert_sorted<S: StateTypes>(set: &mut Vec<Assignment<S>>, a: Assignment<S>)
    requires
        spec_sorted(old(set)@),
    ensures
        final(set)@ == spec_insert_sorted(old(set)@, a),
        spec_sorted(final(set)@),
{
    proof {
        lemma_insert_sorted(set@, a);
        lemma_count_below(set@, a);
    }
    let mut i: usize = 0;
    while i < set.len() && set[i].precedes(&a)
        invariant
            i <= set@.len(),
            forall|j: int| 0 <= j < i ==> (#[trigger] set@[j]).spec_precedes(a),
        decreases set@.len() - i,
    {
        i = i + 1;
    }
    let ghost k = spec_count_below(set@, a) as int;
    assert(k == i) by {
        if k < i {
            assert(set@[k].spec_precedes(a));
        }
        if k > i {
            assert(set@[i as int].spec_precedes(a));
        }
    }
    if i < set.len() && set[i].same_as(&a) {
        assert(set@.contains(a));
        return;
    }
    assert(!set@.contains(a)) by {
        a.lemma_precedes_irreflexive();
        if set@.contains(a) {
            let j = choose|j: int| 0 <= j < set@.len() && set@[j] == a;
            if j < i {
                assert(set@[j].spec_precedes(a));
            } else if j > i {
                assert(set@[i as int].spec_precedes(set@[j]));
            }
        }
    }
    set.insert(i, a);
}

fn known_seals_of<'a, S: StateTypes>(items: &'a Vec<Assignment<S>>) -> (r: Vec<&'a seal::Revealed>)
    ensures
        r@.len() == spec_known_seals(items@).len(),
        forall|i: int| 0 <= i < r@.len() ==> *r@[i] == spec_known_seals(items@)[i],
{
    let mut r: Vec<&'a seal::Revealed> = Vec::new();
    let mut i: usize = 0;
    while i < items.len()
        invariant
            i <= items@.len(),
            r@.len() == spec_known_seals(items@.take(i as int)).len(),
            forall|j: int| 0 <= j < r@.len() ==> *r@[j] == spec_known_seals(items@.take(i as int))[j],
        decreases items@.len() - i,
    {
        assert(items@.take(i + 1).drop_last() =~= items@.take(i as int));
        match items[i].seal_definition() {
            Some(s) => {
                r.push(s);
            },
            None => {},
        }
        i = i + 1;
    }
    assert(items@.take(items@.len() as int) =~= items@);
    r
}

fn known_states_of<'a, S: StateTypes>(items: &'a Vec<Assignment<S>>) -> (r: Vec<&'a S::Revealed>)
    ensures
        r@.len() == spec_known_states(items@).len(),
        forall|i: int| 0 <= i < r@.len() ==> *r@[i] == spec_known_states(items@)[i],
{
    let mut r: Vec<&'a S::Revealed> = Vec::new();
    let mut i: usize = 0;
    while i < items.len()
        invariant
            i <= items@.len(),
            r@.len() == spec_known_states(items@.take(i as int)).len(),
            forall|j: int| 0 <= j < r@.len() ==> *r@[j] == spec_known_states(items@.take(i as int))[j],
        decreases items@.len() - i,
    {
        assert(items@.take(i + 1).drop_last() =~= items@.take(i as int));
        match items[i].assigned_state() {
            Some(s) => {
                r.push(s);
            },
            None => {},
        }
        i = i + 1;
    }
    assert(items@.take(items@.len() as int) =~= items@);
    r
}

fn all_seals_of<S: StateTypes>(items: &Vec<Assignment<S>>) -> (r: Vec<seal::Confidential>)
    ensures
        r@ == spec_all_seals(items@),
{
    let mut r: Vec<seal::Confidential> = Vec::new();
    let mut i: usize = 0;
    while i < items.len()
        invariant
            i <= items@.len(),
            r@ =~= spec_all_seals(items@.take(i as int)),
        decreases items@.len() - i,
    {
        r.push(items[i].seal_definition_confidential());
        i = i + 1;
        assert(r@ =~= spec_all_seals(items@.take(i as int)));
    }
    assert(items@.take(items@.len() as int) =~= items@);
    r
}

fn all_states_of<S: StateTypes>(items: &Vec<Assignment<S>>) -> (r: Vec<S::Confidential>)
    requires
        spec_all_concealable(items@),
    ensures
        r@ == spec_all_states(items@),
{
    let mut r: Vec<S::Confidential> = Vec::new();
    let mut i: usize = 0;
    while i < items.len()
        invariant
            i <= items@.len(),
            spec_all_concealable(items@),
            r@ =~= spec_all_states(items@.take(i as int)),
        decreases items@.len() - i,
    {
        r.push(items[i].assigned_state_confidential());
        i = i + 1;
        assert(r@ =~= spec_all_states(items@.take(i as int)));
    }
    assert(items@.take(items@.len() as int) =~= items@);
    r
}

fn all_concealable<S: StateTypes>(items: &Vec<Assignment<S>>) -> (b: bool)
    ensures
        b == spec_all_concealable(items@),
{
    let mut i: usize = 0;
    while i < items.len()
        invariant
            i <= items@.len(),
            forall|j: int| 0 <= j < i ==> (#[trigger] items@[j]).spec_state_concealable(),
        decreases items@.len() - i,
    {
        if !items[i].is_state_concealable() {
            return false;
        }
        i = i + 1;
    }
    true
}

fn all_can_conceal_except<S: StateTypes>(
    items: &Vec<Assignment<S>>,
    seals: &Vec<seal::Confidential>,
) -> (b: bool)
    ensures
        b == spec_all_can_conceal_except(items@, seals@),
{
    let mut i: usize = 0;
    while i < items.len()
        invariant
            i <= items@.len(),
            forall|j: int| 0 <= j < i ==> (#[trigger] items@[j]).spec_can_conceal_except(seals@),
        decreases items@.len() - i,
    {
        if !items[i].can_conceal_except(seals) {
            return false;
        }
        i = i + 1;
    }
    true
}

fn conceal_except_items<S: StateTypes>(
    items: &mut Vec<Assignment<S>>,
    seals: &Vec<seal::Confidential>,
) -> (count: usize)
    requires
        spec_all_can_conceal_except(old(items)@, seals@),
    ensures
        final(items)@ == spec_conceal_except_set(old(items)@, seals@),
        spec_sorted(final(items)@),
        count == spec_conceal_count(old(items)@, seals@),
{
    let ghost each = spec_conceal_except_each(items@, seals@);
    let mut out: Vec<Assignment<S>> = Vec::new();
    let mut count: usize = 0;
    let mut i: usize = 0;
    while i < items.len()
        invariant
            i <= items@.len(),
            each == spec_conceal_except_each(items@, seals@),
            spec_all_can_conceal_except(items@, seals@),
            out@ == spec_collect_set(each.take(i as int)),
            spec_sorted(out@),
            count == spec_conceal_count(items@.take(i as int), seals@),
            count <= i,
        decreases items@.len() - i,
    {
        assert(items@.take(i + 1).drop_last() =~= items@.take(i as int));
        assert(each.take(i + 1).drop_last() =~= each.take(i as int));
        let mut a = items[i];
        assert(a.spec_can_conceal_except(seals@));
        let c = a.conceal_except(seals);
        insert_sorted(&mut out, a);
        count = count + c;
        i = i + 1;
    }
    assert(items@.take(items@.len() as int) =~= items@);
    assert(each.take(items@.len() as int) =~= each);
    *items = out;
    count
}

/// The encodings of the items, one after the other.
pub open spec fn spec_items_encoding<S: StateTypes>(items: Seq<Assignment<S>>) -> Seq<u8>
    decreases items.len(),
{
    if items.len() == 0 {
        Seq::empty()
    } else {
        items[0].spec_encode() + spec_items_encoding(items.drop_first())
    }
}

/// The encoding of a set: its item count as a `u16`, then its items.
pub open spec fn spec_set_encoding<S: StateTypes>(items: Seq<Assignment<S>>) -> Seq<u8> {
    spec_u16_to_le_bytes(items.len() as u16) + spec_items_encoding(items)
}

/// Decoding `n` items one after the other.
pub open spec fn spec_decode_items<S: StateTypes>(s: Seq<u8>, n: nat) -> Result<
    (Seq<Assignment<S>>, nat),
    ErrorV,
>
    decreases n,
{
    if n == 0 {
        Ok((Seq::empty(), 0))
    } else {
        match Assignment::<S>::spec_decode(s) {
            Err(e) => Err(e),
            Ok((a, k)) => match spec_decode_items::<S>(s.skip(k as int), (n - 1) as nat) {
                Err(e) => Err(e),
                Ok((rest, m)) => Ok((seq![a] + rest, k + m)),
            },
        }
    }
}

/// Decoding a set: the item count, then the items, each added unless it is
/// already there.
pub open spec fn spec_decode_set<S: StateTypes>(s: Seq<u8>) -> Result<
    (Seq<Assignment<S>>, nat),
    ErrorV,
> {
    match spec_read_u16(s) {
        Err(e) => Err(e),
        Ok((count, _)) => match spec_decode_items::<S>(s.skip(2), count as nat) {
            Err(e) => Err(e),
            Ok((items, m)) => Ok((spec_collect_set(items), 2 + m)),
        },
    }
}

pub proof fn lemma_items_encoding_push<S: StateTypes>(items: Seq<Assignment<S>>, a: Assignment<S>)
    ensures
        spec_items_encoding(items.push(a)) == spec_items_encoding(items) + a.spec_encode(),
    decreases items.len(),
{
    if items.len() == 0 {
        let s = items.push(a);
        assert(s[0] == a);
        assert(s.drop_first() =~= Seq::<Assignment<S>>::empty());
        assert(spec_items_encoding(s.drop_first()) == Seq::<u8>::empty());
        assert(spec_items_encoding(items) == Seq::<u8>::empty());
        assert(spec_items_encoding(s) =~= spec_items_encoding(items) + a.spec_encode());
    } else {
        assert(items.push(a).drop_first() =~= items.drop_first().push(a));
        lemma_items_encoding_push(items.drop_first(), a);
        assert(spec_items_encoding(items.push(a)) =~= spec_items_encoding(items) + a.spec_encode());
    }
}

/// Decoding the encodings of items gives the items back.
pub proof fn lemma_decode_items<S: StateTypes>(items: Seq<Assignment<S>>, rest: Seq<u8>)
    ensures
        spec_decode_items::<S>(spec_items_encoding(items) + rest, items.len()) == Ok::<
            (Seq<Assignment<S>>, nat),
            ErrorV,
        >((items, spec_items_encoding(items).len())),
    decreases items.len(),
{
    if items.len() == 0 {
        assert(items =~= Seq::<Assignment<S>>::empty());
    } else {
        let a = items[0];
        let tail = items.drop_first();
        let ea = a.spec_encode();
        let et = spec_items_encoding(tail);
        assert(spec_items_encoding(items) + rest =~= ea + (et + rest));
        a.lemma_decode_encode(et + rest);
        lemma_skip_prefix(ea, et + rest);
        lemma_decode_items(tail, rest);
        assert(seq![a] + tail =~= items);
    }
}

/// Decoding a count and items, in whatever order and with whatever
/// repetitions, gives the set of the items.
pub proof fn lemma_decode_any_set<S: StateTypes>(items: Seq<Assignment<S>>, rest: Seq<u8>)
    requires
        items.len() <= u16::MAX,
    ensures
        spec_decode_set::<S>(spec_set_encoding(items) + rest) == Ok::<(Seq<Assignment<S>>, nat), ErrorV>(
            (spec_collect_set(items), spec_set_encoding(items).len()),
        ),
{
    let count = items.len() as u16;
    let body = spec_items_encoding(items);
    assert(spec_set_encoding(items) + rest =~= spec_u16_to_le_bytes(count) + (body + rest));
    lemma_read_u16(count, body + rest);
    lemma_skip_prefix(spec_u16_to_le_bytes(count), body + rest);
    lemma_decode_items(items, rest);
}

/// Decoding the encoding of a set gives the set back.
pub proof fn lemma_decode_set<S: StateTypes>(items: Seq<Assignment<S>>, rest: Seq<u8>)
    requires
        spec_sorted(items),
        items.len() <= u16::MAX,
    ensures
        spec_decode_set::<S>(spec_set_encoding(items) + rest) == Ok::<(Seq<Assignment<S>>, nat), ErrorV>(
            (items, spec_set_encoding(items).len()),
        ),
{
    lemma_decode_any_set(items, rest);
    lemma_collect_set_of_sorted(items);
}

/// Writes the encoding of the set, or fails where it holds more items than a
/// `u16` counts, writing nothing.
fn encode_set<S: StateTypes>(items: &Vec<Assignment<S>>, out: &mut Vec<u8>) -> (r: Result<
    usize,
    Error,
>)
    ensures
        items@.len() <= u16::MAX ==> r == Ok::<usize, Error>(spec_set_encoding(items@).len() as usize)
            && final(out)@ == old(out)@ + spec_set_encoding(items@),
        items@.len() > u16::MAX ==> r == Err::<usize, Error>(Error::ExceedMaxItems(items@.len() as usize))
            && final(out)@ == old(out)@,
{
    let n = items.len();
    if n > 65535 {
        return Err(Error::ExceedMaxItems(n));
    }
    let ghost start = out@;
    let before = out.len();
    write_u16(out, n as u16);
    let mut i: usize = 0;
    while i < n
        invariant
            n == items@.len(),
            i <= n,
            out@ == start + spec_u16_to_le_bytes(n as u16) + spec_items_encoding(items@.take(i as int)),
        decreases n - i,
    {
        proof {
            assert(items@.take(i + 1) =~= items@.take(i as int).push(items@[i as int]));
            lemma_items_encoding_push(items@.take(i as int), items@[i as int]);
        }
        items[i].strict_encode(out);
        i = i + 1;
        assert(out@ =~= start + spec_u16_to_le_bytes(n as u16) + spec_items_encoding(items@.take(i as int)));
    }
    assert(items@.take(n as int) =~= items@);
    assert(out@ =~= start + spec_set_encoding(items@));
    Ok(out.len() - before)
}

/// Reads a set from `data` at `pos`.
fn decode_set<S: StateTypes>(data: &[u8], pos: usize) -> (r: Result<(Vec<Assignment<S>>, usize), Error>)
    requires
        pos <= data@.len(),
    ensures
        match r {
            Ok((v, n)) => spec_decode_set::<S>(data@.skip(pos as int)) == Ok::<
                (Seq<Assignment<S>>, nat),
                ErrorV,
            >((v@, n as nat)) && pos + n <= data@.len() && spec_sorted(v@),
            Err(e) => spec_decode_set::<S>(data@.skip(pos as int)) == Err::<
                (Seq<Assignment<S>>, nat),
                ErrorV,
            >(e@),
        },
{
    let len = data.len();
    let count = match read_u16(data, pos) {
        Err(e) => {
            return Err(e);
        },
        Ok((c, _)) => c,
    };
    proof {
        lemma_skip_skip(data@, pos as int, 2);
    }
    let ghost s0 = data@.skip(pos + 2);
    let ghost mut items: Seq<Assignment<S>> = Seq::empty();
    let mut set: Vec<Assignment<S>> = Vec::new();
    let mut cur: usize = pos + 2;
    let mut i: u16 = 0;
    while i < count
        invariant
            pos + 2 <= cur <= len,
            len == data@.len(),
            s0 == data@.skip(pos + 2),
            data@.skip(pos as int).skip(2) == s0,
            spec_read_u16(data@.skip(pos as int)) == Ok::<(u16, nat), ErrorV>((count, 2nat)),
            i <= count,
            items.len() == i,
            set@ == spec_collect_set(items),
            spec_sorted(set@),
            spec_decode_items::<S>(s0, count as nat) == match spec_decode_items::<S>(
                data@.skip(cur as int),
                (count - i) as nat,
            ) {
                Ok((rest, m)) => Ok((items + rest, ((cur - pos - 2) + m) as nat)),
                Err(e) => Err(e),
            },
        decreases count - i,
    {
        match Assignment::<S>::strict_decode(data, cur) {
            Err(e) => {
                assert(spec_decode_items::<S>(data@.skip(cur as int), (count - i) as nat) == Err::<
                    (Seq<Assignment<S>>, nat),
                    ErrorV,
                >(e@));
                return Err(e);
            },
            Ok((a, k)) => {
                proof {
                    lemma_skip_skip(data@, cur as int, k as int);
                    let tail = spec_decode_items::<S>(data@.skip(cur + k), (count - i - 1) as nat);
                    match tail {
                        Ok((rest, m)) => {
                            assert(items + (seq![a] + rest) =~= items.push(a) + rest);
                        },
                        Err(_) => {},
                    }
                    assert(items.push(a).drop_last() =~= items);
                }
                insert_sorted(&mut set, a);
                proof {
                    items = items.push(a);
                }
                cur = cur + k;
                i = i + 1;
            },
        }
    }
    assert(items + Seq::<Assignment<S>>::empty() =~= items);
    Ok((set, cur - pos))
}

/// The mathematical value of a set of assignments: the kind and the items.
pub enum AssignmentsVariantV {
    Declarative(Seq<Assignment<VoidStrategy>>),
    PedersenBased(Seq<Assignment<PedersenStrategy>>),
    HashBased(Seq<Assignment<HashStrategy>>),
}

impl View for AssignmentsVariant {
    type V = AssignmentsVariantV;

    open spec fn view(&self) -> AssignmentsVariantV {
        match self {
            AssignmentsVariant::Declarative(s) => AssignmentsVariantV::Declarative(s@),
            AssignmentsVariant::PedersenBased(s) => AssignmentsVariantV::PedersenBased(s@),
            AssignmentsVariant::HashBased(s) => AssignmentsVariantV::HashBased(s@),
        }
    }
}

impl AssignmentsVariantV {
    /// The assignments are in ascending order, with none twice.
    pub open spec fn wf(self) -> bool {
        match self {
            AssignmentsVariantV::Declarative(s) => spec_sorted(s),
            AssignmentsVariantV::PedersenBased(s) => spec_sorted(s),
            AssignmentsVariantV::HashBased(s) => spec_sorted(s),
        }
    }

    /// The tags that precede the set in the encoding.
    pub open spec fn spec_prefix(self) -> Seq<u8> {
        match self {
            AssignmentsVariantV::Declarative(_) => StateType::Void.spec_encode(),
            AssignmentsVariantV::PedersenBased(_) => StateType::Homomorphic.spec_encode()
                + data::EncodingTag::U64.spec_encode(),
            AssignmentsVariantV::HashBased(_) => StateType::Hashed.spec_encode(),
        }
    }

    /// The number of assignments.
    pub open spec fn len(self) -> nat {
        match self {
            AssignmentsVariantV::Declarative(s) => s.len(),
            AssignmentsVariantV::PedersenBased(s) => s.len(),
            AssignmentsVariantV::HashBased(s) => s.len(),
        }
    }

    /// The encoding, where the number of assignments fits a `u16`.
    pub open spec fn spec_encode(self) -> Seq<u8> {
        self.spec_prefix() + match self {
            AssignmentsVariantV::Declarative(s) => spec_set_encoding(s),
            AssignmentsVariantV::PedersenBased(s) => spec_set_encoding(s),
            AssignmentsVariantV::HashBased(s) => spec_set_encoding(s),
        }
    }

    /// What decoding reads from the start of `s`.
    pub open spec fn spec_decode(s: Seq<u8>) -> Result<(AssignmentsVariantV, nat), ErrorV> {
        match StateType::spec_decode(s) {
            Err(e) => Err(e),
            Ok((state_type, _)) => match state_type {
                StateType::Void => match spec_decode_set::<VoidStrategy>(s.skip(1)) {
                    Err(e) => Err(e),
                    Ok((items, n)) => Ok((AssignmentsVariantV::Declarative(items), 1 + n)),
                },
                StateType::Homomorphic => match data::EncodingTag::spec_decode(s.skip(1)) {
                    Err(e) => Err(e),
                    Ok((tag, _)) => if tag == data::EncodingTag::U64 {
                        match spec_decode_set::<PedersenStrategy>(s.skip(2)) {
                            Err(e) => Err(e),
                            Ok((items, n)) => Ok((AssignmentsVariantV::PedersenBased(items), 2 + n)),
                        }
                    } else {
                        Err(
                            ErrorV::UnsupportedDataStructure(
                                "We support only homomorphic commitments to U64 data"@,
                            ),
                        )
                    },
                },
                StateType::Hashed => match spec_decode_set::<HashStrategy>(s.skip(1)) {
                    Err(e) => Err(e),
                    Ok((items, n)) => Ok((AssignmentsVariantV::HashBased(items), 1 + n)),
                },
            },
        }
    }
}

impl AssignmentsVariant {
    /// Writes the strict encoding: the kind of state (for amounts followed by
    /// the `U64` encoding tag), the number of assignments as a `u16`, and the
    /// assignments. Fails where there are more assignments than a `u16`
    /// counts, after the kind has been written.
    pub fn strict_encode(&self, out: &mut Vec<u8>) -> (r: Result<usize, Error>)
        ensures
            self@.len() <= u16::MAX ==> r == Ok::<usize, Error>(self@.spec_encode().len() as usize)
                && final(out)@ == old(out)@ + self@.spec_encode(),
            self@.len() > u16::MAX ==> r == Err::<usize, Error>(
                Error::ExceedMaxItems(self@.len() as usize),
            ) && final(out)@ == old(out)@ + self@.spec_prefix(),
    {
        let ghost start = out@;
        let before = out.len();
        let res = match self {
            AssignmentsVariant::Declarative(s) => {
                StateType::Void.strict_encode(out);
                encode_set(s, out)
            },
            AssignmentsVariant::PedersenBased(s) => {
                StateType::Homomorphic.strict_encode(out);
                data::EncodingTag::U64.strict_encode(out);
                encode_set(s, out)
            },
            AssignmentsVariant::HashBased(s) => {
                StateType::Hashed.strict_encode(out);
                encode_set(s, out)
            },
        };
        match res {
            Ok(_) => {
                assert(out@ =~= start + self@.spec_encode());
                Ok(out.len() - before)
            },
            Err(e) => {
                assert(out@ =~= start + self@.spec_prefix());
                Err(e)
            },
        }
    }

    /// Reads a set of assignments from `data` at `pos`, and returns it with
    /// the number of bytes read.
    pub fn strict_decode(data: &[u8], pos: usize) -> (r: Result<(AssignmentsVariant, usize), Error>)
        requires
            pos <= data@.len(),
        ensures
            match r {
                Ok((v, n)) => AssignmentsVariantV::spec_decode(data@.skip(pos as int)) == Ok::<
                    (AssignmentsVariantV, nat),
                    ErrorV,
                >((v@, n as nat)) && pos + n <= data@.len() && v.wf(),
                Err(e) => AssignmentsVariantV::spec_decode(data@.skip(pos as int)) == Err::<
                    (AssignmentsVariantV, nat),
                    ErrorV,
                >(e@),
            },
    {
        let len = data.len();
        let state_type = match StateType::strict_decode(data, pos) {
            Err(e) => {
                return Err(e);
            },
            Ok((t, _)) => t,
        };
        proof {
            lemma_skip_skip(data@, pos as int, 1);
        }
        match state_type {
            StateType::Void => match decode_set::<VoidStrategy>(data, pos + 1) {
                Err(e) => Err(e),
                Ok((items, n)) => Ok((AssignmentsVariant::Declarative(items), 1 + n)),
            },
            StateType::Homomorphic => {
                let tag = match data::EncodingTag::strict_decode(data, pos + 1) {
                    Err(e) => {
                        return Err(e);
                    },
                    Ok((t, _)) => t,
                };
                proof {
                    lemma_skip_skip(data@, pos as int, 2);
                    lemma_skip_skip(data@, pos + 1, 1);
                }
                match tag {
                    data::EncodingTag::U64 => match decode_set::<PedersenStrategy>(data, pos + 2) {
                        Err(e) => Err(e),
                        Ok((items, n)) => Ok((AssignmentsVariant::PedersenBased(items), 2 + n)),
                    },
                    _ => Err(
                        Error::UnsupportedDataStructure(
                            "We support only homomorphic commitments to U64 data".to_owned(),
                        ),
                    ),
                }
            },
            StateType::Hashed => match decode_set::<HashStrategy>(data, pos + 1) {
                Err(e) => Err(e),
                Ok((items, n)) => Ok((AssignmentsVariant::HashBased(items), 1 + n)),
            },
        }
    }

    /// The number of assignments.
    pub open spec fn spec_len(&self) -> nat {
        match self {
            AssignmentsVariant::Declarative(s) => s@.len(),
            AssignmentsVariant::PedersenBased(s) => s@.len(),
            AssignmentsVariant::HashBased(s) => s@.len(),
        }
    }

    /// The assignments are in ascending order, with none twice.
    pub open spec fn wf(&self) -> bool {
        self@.wf()
    }

    /// The concealed seals of all assignments, in the order of the set.
    pub open spec fn spec_all_seals(&self) -> Seq<seal::Confidential> {
        match self {
            AssignmentsVariant::Declarative(s) => spec_all_seals(s@),
            AssignmentsVariant::PedersenBased(s) => spec_all_seals(s@),
            AssignmentsVariant::HashBased(s) => spec_all_seals(s@),
        }
    }

    /// The revealed seals, in the order of the set.
    pub open spec fn spec_known_seals(&self) -> Seq<seal::Revealed> {
        match self {
            AssignmentsVariant::Declarative(s) => spec_known_seals(s@),
            AssignmentsVariant::PedersenBased(s) => spec_known_seals(s@),
            AssignmentsVariant::HashBased(s) => spec_known_seals(s@),
        }
    }

    /// Whether `conceal_except` can run on every assignment.
    pub open spec fn spec_can_conceal_except(&self, seals: Seq<seal::Confidential>) -> bool {
        match self {
            AssignmentsVariant::Declarative(s) => spec_all_can_conceal_except(s@, seals),
            AssignmentsVariant::PedersenBased(s) => spec_all_can_conceal_except(s@, seals),
            AssignmentsVariant::HashBased(s) => spec_all_can_conceal_except(s@, seals),
        }
    }

    /// Whether the assignments declare rights without state.
    pub fn is_declarative(&self) -> (b: bool)
        ensures
            b == (self is Declarative),
    {
        match self {
            AssignmentsVariant::Declarative(_) => true,
            _ => false,
        }
    }

    /// Whether the assignments carry hashed data.
    pub fn is_hash_based(&self) -> (b: bool)
        ensures
            b == (self is HashBased),
    {
        match self {
            AssignmentsVariant::HashBased(_) => true,
            _ => false,
        }
    }

    /// Whether the assignments carry amounts under Pedersen commitments.
    pub fn is_pederse_based(&self) -> (b: bool)
        ensures
            b == (self is PedersenBased),
    {
        match self {
            AssignmentsVariant::PedersenBased(_) => true,
            _ => false,
        }
    }

    /// The revealed seal definitions of the assignments that reveal their
    /// seal, in the order of the set.
    pub fn known_seals(&self) -> (r: Vec<&seal::Revealed>)
        ensures
            r@.len() == self.spec_known_seals().len(),
            forall|i: int| 0 <= i < r@.len() ==> *r@[i] == self.spec_known_seals()[i],
    {
        match self {
            AssignmentsVariant::Declarative(s) => known_seals_of(s),
            AssignmentsVariant::PedersenBased(s) => known_seals_of(s),
            AssignmentsVariant::HashBased(s) => known_seals_of(s),
        }
    }

    /// The concealed seal definitions of all assignments, in the order of the set.
    pub fn all_seals(&self) -> (r: Vec<seal::Confidential>)
        ensures
            r@ == self.spec_all_seals(),
    {
        match self {
            AssignmentsVariant::Declarative(s) => all_seals_of(s),
            AssignmentsVariant::PedersenBased(s) => all_seals_of(s),
            AssignmentsVariant::HashBased(s) => all_seals_of(s),
        }
    }

    /// The revealed amounts, in the order of the set; empty unless the assignments carry amounts.
    pub fn known_state_homomorphic(&self) -> (r: Vec<&amount::Revealed>)
        ensures
            match self {
                AssignmentsVariant::PedersenBased(s) => r@.len() == spec_known_states(s@).len()
                    && forall|i: int| 0 <= i < r@.len() ==> *r@[i] == spec_known_states(s@)[i],
                _ => r@.len() == 0,
            },
    {
        match self {
            AssignmentsVariant::Declarative(_) => Vec::new(),
            AssignmentsVariant::PedersenBased(s) => known_states_of(s),
            AssignmentsVariant::HashBased(_) => Vec::new(),
        }
    }

    /// The revealed data, in the order of the set; empty unless the assignments carry data.
    pub fn known_state_data(&self) -> (r: Vec<&data::Revealed>)
        ensures
            match self {
                AssignmentsVariant::HashBased(s) => r@.len() == spec_known_states(s@).len()
                    && forall|i: int| 0 <= i < r@.len() ==> *r@[i] == spec_known_states(s@)[i],
                _ => r@.len() == 0,
            },
    {
        match self {
            AssignmentsVariant::Declarative(_) => Vec::new(),
            AssignmentsVariant::PedersenBased(_) => Vec::new(),
            AssignmentsVariant::HashBased(s) => known_states_of(s),
        }
    }

    /// The Pedersen commitments to the amounts of all assignments, in the order of the set;
    /// empty unless the assignments carry amounts.
    pub fn all_state_pedersen(&self) -> (r: Vec<amount::Confidential>)
        requires
            self matches AssignmentsVariant::PedersenBased(s) ==> spec_all_concealable(s@),
        ensures
            match self {
                AssignmentsVariant::PedersenBased(s) => r@ == spec_all_states(s@),
                _ => r@.len() == 0,
            },
    {
        match self {
            AssignmentsVariant::Declarative(_) => Vec::new(),
            AssignmentsVariant::PedersenBased(s) => all_states_of(s),
            AssignmentsVariant::HashBased(_) => Vec::new(),
        }
    }

    /// As `all_state_pedersen`, or `None` where the amount of some assignment
    /// has no commitment.
    pub fn try_all_state_pedersen(&self) -> (r: Option<Vec<amount::Confidential>>)
        ensures
            match self {
                AssignmentsVariant::PedersenBased(s) => if spec_all_concealable(s@) {
                    r matches Some(v) && v@ == spec_all_states(s@)
                } else {
                    r is None
                },
                _ => r matches Some(v) && v@.len() == 0,
            },
    {
        match self {
            AssignmentsVariant::PedersenBased(s) => {
                if all_concealable(s) {
                    Some(self.all_state_pedersen())
                } else {
                    None
                }
            },
            _ => Some(self.all_state_pedersen()),
        }
    }

    /// The hashes of the data of all assignments, in the order of the set; empty unless the
    /// assignments carry data.
    pub fn all_state_hashed(&self) -> (r: Vec<data::Confidential>)
        ensures
            match self {
                AssignmentsVariant::HashBased(s) => r@ == spec_all_states(s@),
                _ => r@.len() == 0,
            },
    {
        match self {
            AssignmentsVariant::Declarative(_) => Vec::new(),
            AssignmentsVariant::PedersenBased(_) => Vec::new(),
            AssignmentsVariant::HashBased(s) => all_states_of(s),
        }
    }

    /// The number of assignments.
    pub fn len(&self) -> (n: usize)
        ensures
            n == self.spec_len(),
    {
        match self {
            AssignmentsVariant::Declarative(set) => set.len(),
            AssignmentsVariant::PedersenBased(set) => set.len(),
            AssignmentsVariant::HashBased(set) => set.len(),
        }
    }

    /// Conceals the state of every assignment whose concealed seal is not
    /// among `seals`, merging assignments that become equal, and returns how
    /// many assignments it concealed.
    pub fn conceal_except(&mut self, seals: &Vec<seal::Confidential>) -> (count: usize)
        requires
            old(self).spec_can_conceal_except(seals@),
        ensures
            match (*old(self), *final(self)) {
                (AssignmentsVariant::Declarative(s0), AssignmentsVariant::Declarative(s1)) => s1@
                    == spec_conceal_except_set(s0@, seals@) && count == spec_conceal_count(
                    s0@,
                    seals@,
                ),
                (AssignmentsVariant::PedersenBased(s0), AssignmentsVariant::PedersenBased(s1)) => s1@
                    == spec_conceal_except_set(s0@, seals@) && count == spec_conceal_count(
                    s0@,
                    seals@,
                ),
                (AssignmentsVariant::HashBased(s0), AssignmentsVariant::HashBased(s1)) => s1@
                    == spec_conceal_except_set(s0@, seals@) && count == spec_conceal_count(
                    s0@,
                    seals@,
                ),
                _ => false,
            },
            final(self).wf(),
    {
        match self {
            AssignmentsVariant::Declarative(s) => conceal_except_items(s, seals),
            AssignmentsVariant::PedersenBased(s) => conceal_except_items(s, seals),
            AssignmentsVariant::HashBased(s) => conceal_except_items(s, seals),
        }
    }

    /// Whether `conceal_except` can run with these seals.
    pub fn can_conceal_except(&self, seals: &Vec<seal::Confidential>) -> (b: bool)
        ensures
            b == self.spec_can_conceal_except(seals@),
    {
        match self {
            AssignmentsVariant::Declarative(s) => all_can_conceal_except(s, seals),
            AssignmentsVariant::PedersenBased(s) => all_can_conceal_except(s, seals),
            AssignmentsVariant::HashBased(s) => all_can_conceal_except(s, seals),
        }
    }
}

} // verus!
