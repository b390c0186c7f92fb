//! Assignments of state to single-use seals, and their partial or full
//! concealment.
use crate::amount;
use crate::data;
use crate::encoding::{
    decode_pair, lemma_decode_pair, lemma_read_u8, lemma_skip_prefix, lemma_skip_skip, read_u8,
    spec_decode_pair, spec_read_u8, write_u8, Error, ErrorV, StrictEncoding,
};
use crate::order::{
    key_equal, key_less, lemma_key_less_irreflexive, lemma_key_less_total,
    lemma_key_less_transitive, spec_key_less, SortKey,
};
use crate::seal;
use vstd::prelude::*;

verus! {

/// Concealed state of some kind.
pub trait ConfidentialState: StrictEncoding + SortKey + Copy + core::fmt::Debug {
    /// Decides equality.
    fn same_as(&self, other: &Self) -> (b: bool)
        ensures
            b == (*self == *other),
    ;
}

/// Revealed state of some kind, which conceals into `C`.
pub trait RevealedState<C>: StrictEncoding + SortKey + Copy + core::fmt::Debug {
    /// Whether the state can be concealed.
    spec fn spec_can_conceal(&self) -> bool;

    /// The concealed state.
    spec fn spec_concealed(&self) -> C;

    /// Conceals the state, or `None` where it cannot be concealed.
    fn conceal_state(&self) -> (c: Option<C>)
        ensures
            c == (if self.spec_can_conceal() {
                Some(self.spec_concealed())
            } else {
                None::<C>
            }),
    ;

    /// Decides equality.
    fn same_as(&self, other: &Self) -> (b: bool)
        ensures
            b == (*self == *other),
    ;
}

/// A kind of state: the types of its concealed and revealed forms.
pub trait StateTypes: Copy + core::fmt::Debug {
    type Confidential: ConfidentialState;
    type Revealed: RevealedState<Self::Confidential>;
}

/// No state: assignments that only declare a right.
#[derive(Clone, Copy, Debug, PartialOrd, Ord, PartialEq, Eq)]
pub struct VoidStrategy;

/// Amounts under Pedersen commitments.
#[derive(Clone, Copy, Debug, PartialOrd, Ord, PartialEq, Eq)]
pub struct PedersenStrategy;

/// Data under hash commitments.
#[derive(Clone, Copy, Debug, PartialOrd, Ord, PartialEq, Eq)]
pub struct HashStrategy;

impl StateTypes for VoidStrategy {
    type Confidential = data::Void;
    type Revealed = data::Void;
}

impl StateTypes for PedersenStrategy {
    type Confidential = amount::Confidential;
    type Revealed = amount::Revealed;
}

impl StateTypes for HashStrategy {
    type Confidential = data::Confidential;
    type Revealed = data::Revealed;
}

impl ConfidentialState for data::Void {
    fn same_as(&self, other: &Self) -> (b: bool) {
        *self == *other
    }
}

impl ConfidentialState for data::Confidential {
    fn same_as(&self, other: &Self) -> (b: bool) {
        *self == *other
    }
}

impl ConfidentialState for amount::Confidential {
    fn same_as(&self, other: &Self) -> (b: bool) {
        *self == *other
    }
}

/// The empty state conceals into itself.
impl RevealedState<data::Void> for data::Void {
    open spec fn spec_can_conceal(&self) -> bool {
        true
    }

    open spec fn spec_concealed(&self) -> data::Void {
        data::Void
    }

    fn conceal_state(&self) -> (c: Option<data::Void>) {
        Some(data::Void)
    }

    fn same_as(&self, other: &Self) -> (b: bool) {
        *self == *other
    }
}

impl RevealedState<data::Confidential> for data::Revealed {
    open spec fn spec_can_conceal(&self) -> bool {
        true
    }

    open spec fn spec_concealed(&self) -> data::Confidential {
        data::Revealed::spec_conceal(*self)
    }

    fn conceal_state(&self) -> (c: Option<data::Confidential>) {
        Some(self.conceal())
    }

    fn same_as(&self, other: &Self) -> (b: bool) {
        *self == *other
    }
}

impl RevealedState<amount::Confidential> for amount::Revealed {
    open spec fn spec_can_conceal(&self) -> bool {
        amount::Revealed::spec_concealable(*self)
    }

    open spec fn spec_concealed(&self) -> amount::Confidential {
        amount::Revealed::spec_conceal(*self)
    }

    fn conceal_state(&self) -> (c: Option<amount::Confidential>) {
        self.try_conceal()
    }

    fn same_as(&self, other: &Self) -> (b: bool) {
        *self == *other
    }
}

/// State of some kind assigned to a single-use seal; the seal and the state
/// may each be revealed or concealed.
#[derive(Clone, Copy, Debug)]
#[allow(inconsistent_fields)]
pub enum Assignment<STATE: StateTypes> {
    Confidential { seal_definition: seal::Confidential, assigned_state: STATE::Confidential },
    Revealed { seal_definition: seal::Revealed, assigned_state: STATE::Revealed },
    ConfidentialSeal { seal_definition: seal::Confidential, assigned_state: STATE::Revealed },
    ConfidentialAmount { seal_definition: seal::Revealed, assigned_state: STATE::Confidential },
}

/// Whether `seals` holds `seal`.
pub fn contains_seal(seals: &Vec<seal::Confidential>, seal: &seal::Confidential) -> (b: bool)
    ensures
        b == seals@.contains(*seal),
{
    let mut i: usize = 0;
    while i < seals.len()
        invariant
            i <= seals@.len(),
            forall|j: int| 0 <= j < i ==> seals@[j] != *seal,
        decreases seals@.len() - i,
    {
        if seals[i] == *seal {
            assert(seals@[i as int] == *seal);
            return true;
        }
        i = i + 1;
    }
    false
}

impl<STATE: StateTypes> Assignment<STATE> {
    /// The concealed seal definition, whether or not the seal is revealed.
    pub open spec fn spec_seal_definition_confidential(self) -> seal::Confidential {
        match self {
            Assignment::Revealed { seal_definition, .. } => seal_definition.spec_conceal(),
            Assignment::ConfidentialAmount { seal_definition, .. } => seal_definition.spec_conceal(),
            Assignment::Confidential { seal_definition, .. } => seal_definition,
            Assignment::ConfidentialSeal { seal_definition, .. } => seal_definition,
        }
    }

    /// The revealed seal definition, where the seal is revealed.
    pub open spec fn spec_seal_definition(self) -> Option<seal::Revealed> {
        match self {
            Assignment::Revealed { seal_definition, .. } => Some(seal_definition),
            Assignment::ConfidentialAmount { seal_definition, .. } => Some(seal_definition),
            Assignment::Confidential { .. } => None,
            Assignment::ConfidentialSeal { .. } => None,
        }
    }

    /// The revealed state, where the state is revealed.
    pub open spec fn spec_assigned_state(self) -> Option<STATE::Revealed> {
        match self {
            Assignment::Revealed { assigned_state, .. } => Some(assigned_state),
            Assignment::ConfidentialSeal { assigned_state, .. } => Some(assigned_state),
            Assignment::Confidential { .. } => None,
            Assignment::ConfidentialAmount { .. } => None,
        }
    }

    /// Whether the state is concealed or can be concealed.
    pub open spec fn spec_state_concealable(self) -> bool {
        match self {
            Assignment::Revealed { assigned_state, .. } => assigned_state.spec_can_conceal(),
            Assignment::ConfidentialSeal { assigned_state, .. } => assigned_state.spec_can_conceal(),
            Assignment::Confidential { .. } => true,
            Assignment::ConfidentialAmount { .. } => true,
        }
    }

    /// The concealed state, whether or not the state is revealed.
    pub open spec fn spec_assigned_state_confidential(self) -> STATE::Confidential {
        match self {
            Assignment::Revealed { assigned_state, .. } => assigned_state.spec_concealed(),
            Assignment::ConfidentialSeal { assigned_state, .. } => assigned_state.spec_concealed(),
            Assignment::Confidential { assigned_state, .. } => assigned_state,
            Assignment::ConfidentialAmount { assigned_state, .. } => assigned_state,
        }
    }

    /// The assignment with its state concealed; the seal stays as it is.
    pub open spec fn spec_conceal(self) -> Self {
        match self {
            Assignment::Confidential { .. } => self,
            Assignment::ConfidentialAmount { .. } => self,
            Assignment::Revealed { seal_definition, assigned_state } => Assignment::ConfidentialAmount {
                seal_definition,
                assigned_state: assigned_state.spec_concealed(),
            },
            Assignment::ConfidentialSeal { seal_definition, assigned_state } => Assignment::Confidential {
                seal_definition,
                assigned_state: assigned_state.spec_concealed(),
            },
        }
    }

    /// Whether the state is revealed.
    pub open spec fn spec_has_revealed_state(self) -> bool {
        self.spec_assigned_state() is Some
    }

    /// The assignment with its state concealed unless its seal is among
    /// `seals`, and how many assignments that concealed (zero or one).
    pub open spec fn spec_conceal_except(self, seals: Seq<seal::Confidential>) -> (Self, usize) {
        if !self.spec_has_revealed_state() || seals.contains(
            self.spec_seal_definition_confidential(),
        ) {
            (self, 0)
        } else {
            (self.spec_conceal(), 1)
        }
    }

    /// Whether `conceal_except` can run: the seal is kept, or the state can
    /// be concealed.
    pub open spec fn spec_can_conceal_except(self, seals: Seq<seal::Confidential>) -> bool {
        seals.contains(self.spec_seal_definition_confidential()) || self.spec_state_concealable()
    }

    /// The tag that prefixes the encoding of the variant.
    pub open spec fn spec_tag(self) -> u8 {
        match self {
            Assignment::Confidential { .. } => 0,
            Assignment::Revealed { .. } => 1,
            Assignment::ConfidentialSeal { .. } => 2,
            Assignment::ConfidentialAmount { .. } => 3,
        }
    }

    /// The encoding of the fields, after the tag.
    pub open spec fn spec_fields_encoding(self) -> Seq<u8> {
        match self {
            Assignment::Confidential { seal_definition, assigned_state } => (
                seal_definition,
                assigned_state,
            ).spec_encode(),
            Assignment::Revealed { seal_definition, assigned_state } => (
                seal_definition,
                assigned_state,
            ).spec_encode(),
            Assignment::ConfidentialSeal { seal_definition, assigned_state } => (
                seal_definition,
                assigned_state,
            ).spec_encode(),
            Assignment::ConfidentialAmount { seal_definition, assigned_state } => (
                seal_definition,
                assigned_state,
            ).spec_encode(),
        }
    }

    /// The concealed seal definition: the seal as given where it is
    /// concealed, and its concealment where it is revealed.
    pub fn seal_definition_confidential(&self) -> (s: seal::Confidential)
        ensures
            s == self.spec_seal_definition_confidential(),
    {
        match self {
            Assignment::Revealed { seal_definition, .. } => seal_definition.conceal(),
            Assignment::ConfidentialAmount { seal_definition, .. } => seal_definition.conceal(),
            Assignment::Confidential { seal_definition, .. } => *seal_definition,
            Assignment::ConfidentialSeal { seal_definition, .. } => *seal_definition,
        }
    }

    /// The revealed seal definition, or `None` where the seal is concealed.
    pub fn seal_definition(&self) -> (s: Option<&seal::Revealed>)
        ensures
            match s {
                Some(r) => self.spec_seal_definition() == Some(*r),
                None => self.spec_seal_definition() is None,
            },
    {
        match self {
            Assignment::Revealed { seal_definition, .. } => Some(seal_definition),
            Assignment::ConfidentialAmount { seal_definition, .. } => Some(seal_definition),
            Assignment::Confidential { .. } => None,
            Assignment::ConfidentialSeal { .. } => None,
        }
    }

    /// The concealed state: the state as given where it is concealed, and
    /// its concealment where it is revealed.
    pub fn assigned_state_confidential(&self) -> (c: STATE::Confidential)
        requires
            self.spec_state_concealable(),
        ensures
            c == self.spec_assigned_state_confidential(),
    {
        match self {
            Assignment::Revealed { assigned_state, .. } => assigned_state.conceal_state().unwrap(),
            Assignment::ConfidentialSeal { assigned_state, .. } => assigned_state.conceal_state().unwrap(),
            Assignment::Confidential { assigned_state, .. } => *assigned_state,
            Assignment::ConfidentialAmount { assigned_state, .. } => *assigned_state,
        }
    }

    /// The concealed state, or `None` where the state is revealed and cannot
    /// be concealed.
    pub fn try_assigned_state_confidential(&self) -> (c: Option<STATE::Confidential>)
        ensures
            c == (if self.spec_state_concealable() {
                Some(self.spec_assigned_state_confidential())
            } else {
                None::<STATE::Confidential>
            }),
    {
        if self.is_state_concealable() {
            Some(self.assigned_state_confidential())
        } else {
            None
        }
    }

    /// The revealed state, or `None` where the state is concealed.
    pub fn assigned_state(&self) -> (s: Option<&STATE::Revealed>)
        ensures
            match s {
                Some(r) => self.spec_assigned_state() == Some(*r),
                None => self.spec_assigned_state() is None,
            },
    {
        match self {
            Assignment::Revealed { assigned_state, .. } => Some(assigned_state),
            Assignment::ConfidentialSeal { assigned_state, .. } => Some(assigned_state),
            Assignment::Confidential { .. } => None,
            Assignment::ConfidentialAmount { .. } => None,
        }
    }

    /// Whether the state is concealed or can be concealed.
    pub fn is_state_concealable(&self) -> (b: bool)
        ensures
            b == self.spec_state_concealable(),
    {
        match self {
            Assignment::Revealed { assigned_state, .. } => assigned_state.conceal_state().is_some(),
            Assignment::ConfidentialSeal { assigned_state, .. } => assigned_state.conceal_state().is_some(),
            Assignment::Confidential { .. } => true,
            Assignment::ConfidentialAmount { .. } => true,
        }
    }

    /// The assignment with its state concealed. A revealed seal stays
    /// revealed: `Revealed` becomes `ConfidentialAmount` and `ConfidentialSeal`
    /// becomes `Confidential`.
    pub fn conceal(&self) -> (c: Self)
        requires
            self.spec_state_concealable(),
        ensures
            c == self.spec_conceal(),
    {
        match self {
            Assignment::Confidential { .. } => *self,
            Assignment::ConfidentialAmount { .. } => *self,
            Assignment::Revealed { seal_definition, assigned_state } => Assignment::ConfidentialAmount {
                seal_definition: *seal_definition,
                assigned_state: assigned_state.conceal_state().unwrap(),
            },
            Assignment::ConfidentialSeal { seal_definition, assigned_state } => Assignment::Confidential {
                seal_definition: *seal_definition,
                assigned_state: assigned_state.conceal_state().unwrap(),
            },
        }
    }

    /// The assignment with its state concealed, or `None` where the state is
    /// revealed and cannot be concealed.
    pub fn try_conceal(&self) -> (c: Option<Self>)
        ensures
            c == (if self.spec_state_concealable() {
                Some(self.spec_conceal())
            } else {
                None::<Self>
            }),
    {
        if self.is_state_concealable() {
            Some(self.conceal())
        } else {
            None
        }
    }

    /// Conceals the state unless the concealed seal is among `seals`, and
    /// returns how many assignments that concealed: one where a revealed
    /// state was concealed, zero otherwise.
    pub fn conceal_except(&mut self, seals: &Vec<seal::Confidential>) -> (count: usize)
        requires
            old(self).spec_can_conceal_except(seals@),
        ensures
            (*final(self), count) == old(self).spec_conceal_except(seals@),
    {
        match self {
            Assignment::Confidential { .. } => 0,
            Assignment::ConfidentialAmount { .. } => 0,
            Assignment::ConfidentialSeal { seal_definition, assigned_state } => {
                if contains_seal(seals, seal_definition) {
                    0
                } else {
                    *self = Assignment::Confidential {
                        assigned_state: assigned_state.conceal_state().unwrap(),
                        seal_definition: *seal_definition,
                    };
                    1
                }
            },
            Assignment::Revealed { seal_definition, assigned_state } => {
                if contains_seal(seals, &seal_definition.conceal()) {
                    0
                } else {
                    *self = Assignment::ConfidentialAmount {
                        assigned_state: assigned_state.conceal_state().unwrap(),
                        seal_definition: *seal_definition,
                    };
                    1
                }
            },
        }
    }

    /// Whether `conceal_except` can run with these seals.
    pub fn can_conceal_except(&self, seals: &Vec<seal::Confidential>) -> (b: bool)
        ensures
            b == self.spec_can_conceal_except(seals@),
    {
        contains_seal(seals, &self.seal_definition_confidential()) || self.is_state_concealable()
    }

    /// Runs `conceal_except` where it can run, and returns its count; leaves
    /// the assignment as it is and returns `None` otherwise.
    pub fn try_conceal_except(&mut self, seals: &Vec<seal::Confidential>) -> (count: Option<usize>)
        ensures
            old(self).spec_can_conceal_except(seals@) ==> count == Some(
                old(self).spec_conceal_except(seals@).1,
            ) && *final(self) == old(self).spec_conceal_except(seals@).0,
            !old(self).spec_can_conceal_except(seals@) ==> count is None && *final(self) == *old(
                self,
            ),
    {
        if self.can_conceal_except(seals) {
            Some(self.conceal_except(seals))
        } else {
            None
        }
    }

    /// Decides equality.
    pub fn same_as(&self, other: &Self) -> (b: bool)
        ensures
            b == (*self == *other),
    {
        match (self, other) {
            (
                Assignment::Confidential { seal_definition: s1, assigned_state: a1 },
                Assignment::Confidential { seal_definition: s2, assigned_state: a2 },
            ) => *s1 == *s2 && a1.same_as(a2),
            (
                Assignment::Revealed { seal_definition: s1, assigned_state: a1 },
                Assignment::Revealed { seal_definition: s2, assigned_state: a2 },
            ) => *s1 == *s2 && a1.same_as(a2),
            (
                Assignment::ConfidentialSeal { seal_definition: s1, assigned_state: a1 },
                Assignment::ConfidentialSeal { seal_definition: s2, assigned_state: a2 },
            ) => *s1 == *s2 && a1.same_as(a2),
            (
                Assignment::ConfidentialAmount { seal_definition: s1, assigned_state: a1 },
                Assignment::ConfidentialAmount { seal_definition: s2, assigned_state: a2 },
            ) => *s1 == *s2 && a1.same_as(a2),
            _ => false,
        }
    }

    /// The sort key of the seal, revealed or concealed as it stands.
    pub open spec fn spec_seal_key(self) -> Seq<u64> {
        match self {
            Assignment::Confidential { seal_definition, .. } => seal_definition.spec_key(),
            Assignment::Revealed { seal_definition, .. } => seal_definition.spec_key(),
            Assignment::ConfidentialSeal { seal_definition, .. } => seal_definition.spec_key(),
            Assignment::ConfidentialAmount { seal_definition, .. } => seal_definition.spec_key(),
        }
    }

    /// The sort key of the state, revealed or concealed as it stands.
    pub open spec fn spec_state_key(self) -> Seq<u64> {
        match self {
            Assignment::Confidential { assigned_state, .. } => assigned_state.spec_key(),
            Assignment::Revealed { assigned_state, .. } => assigned_state.spec_key(),
            Assignment::ConfidentialSeal { assigned_state, .. } => assigned_state.spec_key(),
            Assignment::ConfidentialAmount { assigned_state, .. } => assigned_state.spec_key(),
        }
    }

    /// Whether `self` comes before `other`: by variant in the order of
    /// declaration, then by seal, then by state.
    pub open spec fn spec_precedes(self, other: Self) -> bool {
        ||| self.spec_tag() < other.spec_tag()
        ||| self.spec_tag() == other.spec_tag() && spec_key_less(
            self.spec_seal_key(),
            other.spec_seal_key(),
        )
        ||| self.spec_tag() == other.spec_tag() && self.spec_seal_key() == other.spec_seal_key()
            && spec_key_less(self.spec_state_key(), other.spec_state_key())
    }

    /// No assignment comes before itself.
    pub proof fn lemma_precedes_irreflexive(self)
        ensures
            !self.spec_precedes(self),
    {
        lemma_key_less_irreflexive(self.spec_seal_key());
        lemma_key_less_irreflexive(self.spec_state_key());
    }

    /// The order of assignments is transitive.
    pub proof fn lemma_precedes_transitive(self, b: Self, c: Self)
        requires
            self.spec_precedes(b),
            b.spec_precedes(c),
        ensures
            self.spec_precedes(c),
    {
        if self.spec_tag() == b.spec_tag() && b.spec_tag() == c.spec_tag() {
            lemma_key_less_irreflexive(b.spec_seal_key());
            if spec_key_less(self.spec_seal_key(), b.spec_seal_key()) && spec_key_less(
                b.spec_seal_key(),
                c.spec_seal_key(),
            ) {
                lemma_key_less_transitive(self.spec_seal_key(), b.spec_seal_key(), c.spec_seal_key());
            }
            if self.spec_seal_key() == b.spec_seal_key() && b.spec_seal_key() == c.spec_seal_key() {
                lemma_key_less_transitive(
                    self.spec_state_key(),
                    b.spec_state_key(),
                    c.spec_state_key(),
                );
            }
        }
    }

    /// Assignments with the same variant, seal key and state key are equal.
    pub proof fn lemma_keys_injective(self, other: Self)
        ensures
            self.spec_tag() == other.spec_tag() && self.spec_seal_key() == other.spec_seal_key()
                && self.spec_state_key() == other.spec_state_key() ==> self == other,
    {
        match (self, other) {
            (
                Assignment::Confidential { seal_definition: s1, assigned_state: a1 },
                Assignment::Confidential { seal_definition: s2, assigned_state: a2 },
            ) => {
                s1.lemma_key_injective(&s2);
                a1.lemma_key_injective(&a2);
            },
            (
                Assignment::Revealed { seal_definition: s1, assigned_state: a1 },
                Assignment::Revealed { seal_definition: s2, assigned_state: a2 },
            ) => {
                s1.lemma_key_injective(&s2);
                a1.lemma_key_injective(&a2);
            },
            (
                Assignment::ConfidentialSeal { seal_definition: s1, assigned_state: a1 },
                Assignment::ConfidentialSeal { seal_definition: s2, assigned_state: a2 },
            ) => {
                s1.lemma_key_injective(&s2);
                a1.lemma_key_injective(&a2);
            },
            (
                Assignment::ConfidentialAmount { seal_definition: s1, assigned_state: a1 },
                Assignment::ConfidentialAmount { seal_definition: s2, assigned_state: a2 },
            ) => {
                s1.lemma_key_injective(&s2);
                a1.lemma_key_injective(&a2);
            },
            _ => {},
        }
    }

    /// Of two different assignments, one comes before the other.
    pub proof fn lemma_precedes_total(self, other: Self)
        requires
            self != other,
        ensures
            self.spec_precedes(other) || other.spec_precedes(self),
    {
        self.lemma_keys_injective(other);
        if self.spec_tag() == other.spec_tag() {
            if self.spec_seal_key() != other.spec_seal_key() {
                lemma_key_less_total(self.spec_seal_key(), other.spec_seal_key());
            } else {
                lemma_key_less_total(self.spec_state_key(), other.spec_state_key());
            }
        }
    }

    fn tag(&self) -> (t: u8)
        ensures
            t == self.spec_tag(),
    {
        match self {
            Assignment::Confidential { .. } => 0,
            Assignment::Revealed { .. } => 1,
            Assignment::ConfidentialSeal { .. } => 2,
            Assignment::ConfidentialAmount { .. } => 3,
        }
    }

    fn seal_key(&self) -> (k: Vec<u64>)
        ensures
            k@ == self.spec_seal_key(),
    {
        match self {
            Assignment::Confidential { seal_definition, .. } => seal_definition.sort_key(),
            Assignment::Revealed { seal_definition, .. } => seal_definition.sort_key(),
            Assignment::ConfidentialSeal { seal_definition, .. } => seal_definition.sort_key(),
            Assignment::ConfidentialAmount { seal_definition, .. } => seal_definition.sort_key(),
        }
    }

    fn state_key(&self) -> (k: Vec<u64>)
        ensures
            k@ == self.spec_state_key(),
    {
        match self {
            Assignment::Confidential { assigned_state, .. } => assigned_state.sort_key(),
            Assignment::Revealed { assigned_state, .. } => assigned_state.sort_key(),
            Assignment::ConfidentialSeal { assigned_state, .. } => assigned_state.sort_key(),
            Assignment::ConfidentialAmount { assigned_state, .. } => assigned_state.sort_key(),
        }
    }

    /// Whether `self` comes before `other` in the order of sets.
    pub fn precedes(&self, other: &Self) -> (b: bool)
        ensures
            b == self.spec_precedes(*other),
    {
        let (t1, t2) = (self.tag(), other.tag());
        if t1 != t2 {
            return t1 < t2;
        }
        let (s1, s2) = (self.seal_key(), other.seal_key());
        if !key_equal(&s1, &s2) {
            return key_less(&s1, &s2);
        }
        proof {
            lemma_key_less_irreflexive(s1@);
        }
        key_less(&self.state_key(), &other.state_key())
    }
}

impl<STATE: StateTypes> PartialEq for Assignment<STATE> {
    fn eq(&self, other: &Self) -> (r: bool) {
        self.same_as(other)
    }
}

impl<STATE: StateTypes> vstd::std_specs::cmp::PartialEqSpecImpl for Assignment<STATE> {
    open spec fn obeys_eq_spec() -> bool {
        true
    }

    open spec fn eq_spec(&self, other: &Self) -> bool {
        *self == *other
    }
}

impl<STATE: StateTypes> Eq for Assignment<STATE> {}

impl<STATE: StateTypes> StrictEncoding for Assignment<STATE> {
    open spec fn spec_encode(&self) -> Seq<u8> {
        seq![self.spec_tag()] + self.spec_fields_encoding()
    }

    open spec fn spec_decode(s: Seq<u8>) -> Result<(Self, nat), ErrorV> {
        match spec_read_u8(s) {
            Err(e) => Err(e),
            Ok((tag, _)) => {
                let rest = s.skip(1);
                if tag == 0 {
                    match spec_decode_pair::<seal::Confidential, STATE::Confidential>(rest) {
                        Err(e) => Err(e),
                        Ok(((seal_definition, assigned_state), n)) => Ok(
                            (Assignment::Confidential { seal_definition, assigned_state }, 1 + n),
                        ),
                    }
                } else if tag == 1 {
                    match spec_decode_pair::<seal::Revealed, STATE::Revealed>(rest) {
                        Err(e) => Err(e),
                        Ok(((seal_definition, assigned_state), n)) => Ok(
                            (Assignment::Revealed { seal_definition, assigned_state }, 1 + n),
                        ),
                    }
                } else if tag == 2 {
                    match spec_decode_pair::<seal::Confidential, STATE::Revealed>(rest) {
                        Err(e) => Err(e),
                        Ok(((seal_definition, assigned_state), n)) => Ok(
                            (Assignment::ConfidentialSeal { seal_definition, assigned_state }, 1 + n),
                        ),
                    }
                } else if tag == 3 {
                    match spec_decode_pair::<seal::Revealed, STATE::Confidential>(rest) {
                        Err(e) => Err(e),
                        Ok(((seal_definition, assigned_state), n)) => Ok(
                            (
                                Assignment::ConfidentialAmount { seal_definition, assigned_state },
                                1 + n,
                            ),
                        ),
                    }
                } else {
                    Err(ErrorV::EnumValueNotKnown("Assignment"@, tag))
                }
            },
        }
    }

    fn strict_encode(&self, out: &mut Vec<u8>) -> (n: usize) {
        let ghost start = out@;
        let before = out.len();
        match self {
            Assignment::Confidential { seal_definition, assigned_state } => {
                write_u8(out, 0);
                (*seal_definition, *assigned_state).strict_encode(out);
            },
            Assignment::Revealed { seal_definition, assigned_state } => {
                write_u8(out, 1);
                (*seal_definition, *assigned_state).strict_encode(out);
            },
            Assignment::ConfidentialSeal { seal_definition, assigned_state } => {
                write_u8(out, 2);
                (*seal_definition, *assigned_state).strict_encode(out);
            },
            Assignment::ConfidentialAmount { seal_definition, assigned_state } => {
                write_u8(out, 3);
                (*seal_definition, *assigned_state).strict_encode(out);
            },
        }
        assert(out@ =~= start + self.spec_encode());
        out.len() - before
    }

    fn strict_decode(data: &[u8], pos: usize) -> (r: Result<(Self, usize), Error>) {
        let len = data.len();
        match read_u8(data, pos) {
            Err(e) => Err(e),
            Ok((tag, _)) => {
                proof {
                    lemma_skip_skip(data@, pos as int, 1);
                }
                if tag == 0 {
                    match decode_pair::<seal::Confidential, STATE::Confidential>(data, pos + 1) {
                        Err(e) => Err(e),
                        Ok(((seal_definition, assigned_state), n)) => Ok(
                            (Assignment::Confidential { seal_definition, assigned_state }, 1 + n),
                        ),
                    }
                } else if tag == 1 {
                    match decode_pair::<seal::Revealed, STATE::Revealed>(data, pos + 1) {
                        Err(e) => Err(e),
                        Ok(((seal_definition, assigned_state), n)) => Ok(
                            (Assignment::Revealed { seal_definition, assigned_state }, 1 + n),
                        ),
                    }
                } else if tag == 2 {
                    match decode_pair::<seal::Confidential, STATE::Revealed>(data, pos + 1) {
                        Err(e) => Err(e),
                        Ok(((seal_definition, assigned_state), n)) => Ok(
                            (Assignment::ConfidentialSeal { seal_definition, assigned_state }, 1 + n),
                        ),
                    }
                } else if tag == 3 {
                    match decode_pair::<seal::Revealed, STATE::Confidential>(data, pos + 1) {
                        Err(e) => Err(e),
                        Ok(((seal_definition, assigned_state), n)) => Ok(
                            (
                                Assignment::ConfidentialAmount { seal_definition, assigned_state },
                                1 + n,
                            ),
                        ),
                    }
                } else {
                    Err(Error::EnumValueNotKnown("Assignment".to_owned(), tag))
                }
            },
        }
    }

    proof fn lemma_decode_encode(&self, rest: Seq<u8>) {
        let tag = self.spec_tag();
        let fields = self.spec_fields_encoding();
        assert(self.spec_encode() + rest =~= seq![tag] + (fields + rest));
        lemma_read_u8(tag, fields + rest);
        lemma_skip_prefix(seq![tag], fields + rest);
        match *self {
            Assignment::Confidential { seal_definition, assigned_state } => {
                lemma_decode_pair(seal_definition, assigned_state, rest);
            },
            Assignment::Revealed { seal_definition, assigned_state } => {
                lemma_decode_pair(seal_definition, assigned_state, rest);
            },
            Assignment::ConfidentialSeal { seal_definition, assigned_state } => {
                lemma_decode_pair(seal_definition, assigned_state, rest);
            },
            Assignment::ConfidentialAmount { seal_definition, assigned_state } => {
                lemma_decode_pair(seal_definition, assigned_state, rest);
            },
        }
    }
}

} // verus!
