//! Thirty-two byte values: hash digests and secret scalars.
use crate::encoding::{write_u64, Error, ErrorV, StrictEncoding};
use vstd::bytes::{lemma_auto_spec_u64_to_from_le_bytes, spec_u64_from_le_bytes, spec_u64_to_le_bytes, u64_from_le_bytes};
use vstd::prelude::*;
use vstd::slice::slice_subrange;

verus! {

/// Thirty-two bytes, held as four little-endian 64-bit words so that
/// equality is structural.
#[derive(PartialEq, Eq, Structural, Clone, Copy, Debug)]
pub struct Bytes32 {
    pub w0: u64,
    pub w1: u64,
    pub w2: u64,
    pub w3: u64,
}

impl Bytes32 {
    /// The thirty-two bytes, in order.
    pub open spec fn spec_bytes(self) -> Seq<u8> {
        spec_u64_to_le_bytes(self.w0) + spec_u64_to_le_bytes(self.w1) + spec_u64_to_le_bytes(
            self.w2,
        ) + spec_u64_to_le_bytes(self.w3)
    }

    /// The value whose bytes are the thirty-two bytes of `s`.
    pub open spec fn spec_from_bytes(s: Seq<u8>) -> Bytes32 {
        Bytes32 {
            w0: spec_u64_from_le_bytes(s.subrange(0, 8)),
            w1: spec_u64_from_le_bytes(s.subrange(8, 16)),
            w2: spec_u64_from_le_bytes(s.subrange(16, 24)),
            w3: spec_u64_from_le_bytes(s.subrange(24, 32)),
        }
    }

    /// The all-zero value.
    pub open spec fn spec_zero() -> Bytes32 {
        Bytes32 { w0: 0, w1: 0, w2: 0, w3: 0 }
    }

    pub proof fn lemma_bytes_len(self)
        ensures
            self.spec_bytes().len() == 32,
    {
        lemma_auto_spec_u64_to_from_le_bytes();
        assert(spec_u64_to_le_bytes(self.w0).len() == 8);
        assert(spec_u64_to_le_bytes(self.w1).len() == 8);
        assert(spec_u64_to_le_bytes(self.w2).len() == 8);
        assert(spec_u64_to_le_bytes(self.w3).len() == 8);
    }

    /// Reading back the bytes of a value gives the value.
    pub proof fn lemma_from_bytes_of_bytes(self)
        ensures
            Bytes32::spec_from_bytes(self.spec_bytes()) == self,
    {
        lemma_auto_spec_u64_to_from_le_bytes();
        let b = self.spec_bytes();
        assert(spec_u64_to_le_bytes(self.w0).len() == 8);
        assert(spec_u64_to_le_bytes(self.w1).len() == 8);
        assert(spec_u64_to_le_bytes(self.w2).len() == 8);
        assert(spec_u64_to_le_bytes(self.w3).len() == 8);
        assert(b.subrange(0, 8) =~= spec_u64_to_le_bytes(self.w0));
        assert(b.subrange(8, 16) =~= spec_u64_to_le_bytes(self.w1));
        assert(b.subrange(16, 24) =~= spec_u64_to_le_bytes(self.w2));
        assert(b.subrange(24, 32) =~= spec_u64_to_le_bytes(self.w3));
    }

    /// The bytes of the value read from thirty-two bytes are those bytes.
    pub proof fn lemma_bytes_of_from_bytes(s: Seq<u8>)
        requires
            s.len() == 32,
        ensures
            Bytes32::spec_from_bytes(s).spec_bytes() == s,
    {
        lemma_auto_spec_u64_to_from_le_bytes();
        let b = Bytes32::spec_from_bytes(s);
        assert(spec_u64_to_le_bytes(spec_u64_from_le_bytes(s.subrange(0, 8))) == s.subrange(0, 8));
        assert(spec_u64_to_le_bytes(spec_u64_from_le_bytes(s.subrange(8, 16))) == s.subrange(8, 16));
        assert(spec_u64_to_le_bytes(spec_u64_from_le_bytes(s.subrange(16, 24))) == s.subrange(16, 24));
        assert(spec_u64_to_le_bytes(spec_u64_from_le_bytes(s.subrange(24, 32))) == s.subrange(24, 32));
        assert(b.spec_bytes() =~= s);
    }

    /// The all-zero value.
    pub fn zero() -> (r: Bytes32)
        ensures
            r == Bytes32::spec_zero(),
    {
        Bytes32 { w0: 0, w1: 0, w2: 0, w3: 0 }
    }

    /// The thirty-two bytes, in order.
    pub fn to_bytes(&self) -> (v: Vec<u8>)
        ensures
            v@ == self.spec_bytes(),
            v@.len() == 32,
    {
        let mut v: Vec<u8> = Vec::new();
        write_u64(&mut v, self.w0);
        write_u64(&mut v, self.w1);
        write_u64(&mut v, self.w2);
        write_u64(&mut v, self.w3);
        assert(v@ =~= self.spec_bytes());
        v
    }

    /// The value whose bytes are `bytes`.
    pub fn from_bytes(bytes: &[u8]) -> (r: Bytes32)
        requires
            bytes@.len() == 32,
        ensures
            r == Bytes32::spec_from_bytes(bytes@),
    {
        Bytes32 {
            w0: u64_from_le_bytes(slice_subrange(bytes, 0, 8)),
            w1: u64_from_le_bytes(slice_subrange(bytes, 8, 16)),
            w2: u64_from_le_bytes(slice_subrange(bytes, 16, 24)),
            w3: u64_from_le_bytes(slice_subrange(bytes, 24, 32)),
        }
    }
}

impl StrictEncoding for Bytes32 {
    open spec fn spec_encode(&self) -> Seq<u8> {
        self.spec_bytes()
    }

    open spec fn spec_decode(s: Seq<u8>) -> Result<(Self, nat), ErrorV> {
        if s.len() >= 32 {
            Ok((Bytes32::spec_from_bytes(s.take(32)), 32))
        } else {
            Err(ErrorV::UnexpectedEof)
        }
    }

    fn strict_encode(&self, out: &mut Vec<u8>) -> (n: usize) {
        proof {
            self.lemma_bytes_len();
        }
        let ghost start = out@;
        write_u64(out, self.w0);
        write_u64(out, self.w1);
        write_u64(out, self.w2);
        write_u64(out, self.w3);
        assert(out@ =~= start + self.spec_bytes());
        32
    }

    fn strict_decode(data: &[u8], pos: usize) -> (r: Result<(Self, usize), Error>) {
        if data.len() - pos >= 32 {
            let sub = slice_subrange(data, pos, pos + 32);
            assert(sub@ =~= data@.skip(pos as int).take(32));
            Ok((Bytes32::from_bytes(sub), 32))
        } else {
            Err(Error::UnexpectedEof)
        }
    }

    proof fn lemma_decode_encode(&self, rest: Seq<u8>) {
        self.lemma_bytes_len();
        self.lemma_from_bytes_of_bytes();
        assert((self.spec_bytes() + rest).take(32) =~= self.spec_bytes());
    }
}

} // verus!
