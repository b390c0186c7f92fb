//! Homomorphic state: amounts revealed with their blinding factors, and
//! concealed as Pedersen commitments.
use crate::bytes32::Bytes32;
use crate::crypto::{pedersen_commit, spec_pedersen_commit};
use crate::encoding::{
    decode_pair, lemma_decode_pair, spec_decode_pair, Error, ErrorV, StrictEncoding,
};
use vstd::prelude::*;

verus! {

/// A blinding factor: a secp256k1 scalar, thirty-two bytes read big-endian.
pub type BlindingFactor = Bytes32;

/// A serialised Pedersen commitment: thirty-three bytes.
#[derive(PartialEq, Eq, Structural, Clone, Copy, Debug)]
pub struct Commitment {
    pub prefix: u8,
    pub point: Bytes32,
}

/// A revealed amount with the blinding factor of its commitment.
#[derive(PartialEq, Eq, Structural, Clone, Copy, Debug)]
pub struct Revealed {
    pub amount: u64,
    pub blinding: BlindingFactor,
}

/// A concealed amount: the Pedersen commitment to it.
#[derive(PartialEq, Eq, Structural, Clone, Copy, Debug)]
pub struct Confidential {
    pub commitment: Commitment,
}

impl Commitment {
    /// The thirty-three bytes, in order.
    pub open spec fn spec_bytes(self) -> Seq<u8> {
        seq![self.prefix] + self.point.spec_bytes()
    }

    /// The commitment whose bytes are the thirty-three bytes of `s`.
    pub open spec fn spec_from_bytes(s: Seq<u8>) -> Commitment {
        Commitment { prefix: s[0], point: Bytes32::spec_from_bytes(s.subrange(1, 33)) }
    }

    pub fn from_bytes(bytes: &[u8]) -> (c: Commitment)
        requires
            bytes@.len() == 33,
        ensures
            c == Commitment::spec_from_bytes(bytes@),
    {
        let point = vstd::slice::slice_subrange(bytes, 1, 33);
        Commitment { prefix: bytes[0], point: Bytes32::from_bytes(point) }
    }
}

impl Revealed {
    /// The serialised commitment to the amount, where one exists.
    pub open spec fn spec_commitment(self) -> Option<Seq<u8>> {
        spec_pedersen_commit(self.amount, self.blinding.spec_bytes())
    }

    /// Whether the amount can be committed to under its blinding factor.
    pub open spec fn spec_concealable(self) -> bool {
        self.spec_commitment() is Some
    }

    /// The concealed amount.
    pub open spec fn spec_conceal(self) -> Confidential {
        Confidential { commitment: Commitment::spec_from_bytes(self.spec_commitment().unwrap()) }
    }

    /// Conceals the amount, or `None` where no commitment exists.
    pub fn try_conceal(&self) -> (c: Option<Confidential>)
        ensures
            c == (if self.spec_concealable() {
                Some(self.spec_conceal())
            } else {
                None::<Confidential>
            }),
            c is Some ==> self.spec_commitment().unwrap().len() == 33,
    {
        let blinding = self.blinding.to_bytes();
        match pedersen_commit(self.amount, blinding.as_slice()) {
            Some(bytes) => Some(Confidential { commitment: Commitment::from_bytes(bytes.as_slice()) }),
            None => None,
        }
    }
}

impl StrictEncoding for Commitment {
    open spec fn spec_encode(&self) -> Seq<u8> {
        (self.prefix, self.point).spec_encode()
    }

    open spec fn spec_decode(s: Seq<u8>) -> Result<(Self, nat), ErrorV> {
        match spec_decode_pair::<u8, Bytes32>(s) {
            Err(e) => Err(e),
            Ok(((prefix, point), n)) => Ok((Commitment { prefix, point }, n)),
        }
    }

    fn strict_encode(&self, out: &mut Vec<u8>) -> (n: usize) {
        (self.prefix, self.point).strict_encode(out)
    }

    fn strict_decode(data: &[u8], pos: usize) -> (r: Result<(Self, usize), Error>) {
        match decode_pair::<u8, Bytes32>(data, pos) {
            Err(e) => Err(e),
            Ok(((prefix, point), n)) => Ok((Commitment { prefix, point }, n)),
        }
    }

    proof fn lemma_decode_encode(&self, rest: Seq<u8>) {
        lemma_decode_pair(self.prefix, self.point, rest);
    }
}

impl StrictEncoding for Revealed {
    open spec fn spec_encode(&self) -> Seq<u8> {
        (self.amount, self.blinding).spec_encode()
    }

    open spec fn spec_decode(s: Seq<u8>) -> Result<(Self, nat), ErrorV> {
        match spec_decode_pair::<u64, Bytes32>(s) {
            Err(e) => Err(e),
            Ok(((amount, blinding), n)) => Ok((Revealed { amount, blinding }, n)),
        }
    }

    fn strict_encode(&self, out: &mut Vec<u8>) -> (n: usize) {
        (self.amount, self.blinding).strict_encode(out)
    }

    fn strict_decode(data: &[u8], pos: usize) -> (r: Result<(Self, usize), Error>) {
        match decode_pair::<u64, Bytes32>(data, pos) {
            Err(e) => Err(e),
            Ok(((amount, blinding), n)) => Ok((Revealed { amount, blinding }, n)),
        }
    }

    proof fn lemma_decode_encode(&self, rest: Seq<u8>) {
        lemma_decode_pair(self.amount, self.blinding, rest);
    }
}

impl StrictEncoding for Confidential {
    open spec fn spec_encode(&self) -> Seq<u8> {
        self.commitment.spec_encode()
    }

    open spec fn spec_decode(s: Seq<u8>) -> Result<(Self, nat), ErrorV> {
        match Commitment::spec_decode(s) {
            Err(e) => Err(e),
            Ok((commitment, n)) => Ok((Confidential { commitment }, n)),
        }
    }

    fn strict_encode(&self, out: &mut Vec<u8>) -> (n: usize) {
        self.commitment.strict_encode(out)
    }

    fn strict_decode(data: &[u8], pos: usize) -> (r: Result<(Self, usize), Error>) {
        match Commitment::strict_decode(data, pos) {
            Err(e) => Err(e),
            Ok((commitment, n)) => Ok((Confidential { commitment }, n)),
        }
    }

    proof fn lemma_decode_encode(&self, rest: Seq<u8>) {
        self.commitment.lemma_decode_encode(rest);
    }
}

} // verus!
