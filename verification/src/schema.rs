//! The kinds of state that a schema lets assignments carry.
use crate::encoding::{lemma_read_u8, read_u8, spec_read_u8, write_u8, Error, ErrorV, StrictEncoding};
use vstd::prelude::*;

verus! {

/// A kind of state.
#[derive(PartialEq, Eq, Structural, Clone, Copy, Debug)]
pub enum StateType {
    Void,
    Homomorphic,
    Hashed,
}

impl StateType {
    /// The byte that stands for the kind.
    pub open spec fn spec_value(self) -> u8 {
        match self {
            StateType::Void => 0,
            StateType::Homomorphic => 1,
            StateType::Hashed => 2,
        }
    }

    /// The kind that a byte stands for, if any.
    pub open spec fn spec_from_value(v: u8) -> Option<StateType> {
        if v == 0 {
            Some(StateType::Void)
        } else if v == 1 {
            Some(StateType::Homomorphic)
        } else if v == 2 {
            Some(StateType::Hashed)
        } else {
            None
        }
    }

    pub fn value(&self) -> (v: u8)
        ensures
            v == self.spec_value(),
    {
        match self {
            StateType::Void => 0,
            StateType::Homomorphic => 1,
            StateType::Hashed => 2,
        }
    }

    pub fn from_value(v: u8) -> (t: Option<StateType>)
        ensures
            t == StateType::spec_from_value(v),
    {
        if v == 0 {
            Some(StateType::Void)
        } else if v == 1 {
            Some(StateType::Homomorphic)
        } else if v == 2 {
            Some(StateType::Hashed)
        } else {
            None
        }
    }
}

impl StrictEncoding for StateType {
    open spec fn spec_encode(&self) -> Seq<u8> {
        seq![self.spec_value()]
    }

    open spec fn spec_decode(s: Seq<u8>) -> Result<(Self, nat), ErrorV> {
        match spec_read_u8(s) {
            Err(e) => Err(e),
            Ok((v, n)) => match StateType::spec_from_value(v) {
                Some(t) => Ok((t, n)),
                None => Err(ErrorV::EnumValueNotKnown("StateType"@, v)),
            },
        }
    }

    fn strict_encode(&self, out: &mut Vec<u8>) -> (n: usize) {
        write_u8(out, self.value());
        1
    }

    fn strict_decode(data: &[u8], pos: usize) -> (r: Result<(Self, usize), Error>) {
        match read_u8(data, pos) {
            Err(e) => Err(e),
            Ok((v, n)) => match StateType::from_value(v) {
                Some(t) => Ok((t, n)),
                None => Err(Error::EnumValueNotKnown("StateType".to_owned(), v)),
            },
        }
    }

    proof fn lemma_decode_encode(&self, rest: Seq<u8>) {
        lemma_read_u8(self.spec_value(), rest);
    }
}

} // verus!
