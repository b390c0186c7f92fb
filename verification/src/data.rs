//! Hashed and void state: revealed data values, their hashes, and the
//! empty state of declarative assignments.
use crate::bytes32::Bytes32;
use crate::crypto::{sha256, spec_sha256};
use crate::encoding::{
    lemma_read_u8, lemma_skip_prefix, lemma_skip_skip, read_u8, spec_read_u8, write_u8, Error,
    ErrorV, StrictEncoding,
};
use vstd::prelude::*;

verus! {

/// The empty state.
#[derive(PartialEq, Eq, Structural, Clone, Copy, Debug)]
pub struct Void;

/// The type of a revealed data value, which prefixes its encoding.
#[derive(PartialEq, Eq, Structural, Clone, Copy, Debug)]
pub enum EncodingTag {
    U8,
    U16,
    U32,
    U64,
}

/// A revealed data value.
#[derive(PartialEq, Eq, Structural, Clone, Copy, Debug)]
pub enum Revealed {
    U8(u8),
    U16(u16),
    U32(u32),
    U64(u64),
}

/// A concealed data value: the hash of its encoding.
#[derive(PartialEq, Eq, Structural, Clone, Copy, Debug)]
pub struct Confidential {
    pub hash: Bytes32,
}

impl EncodingTag {
    /// The byte that stands for the tag.
    pub open spec fn spec_value(self) -> u8 {
        match self {
            EncodingTag::U8 => 0,
            EncodingTag::U16 => 1,
            EncodingTag::U32 => 2,
            EncodingTag::U64 => 3,
        }
    }

    /// The tag that a byte stands for, if any.
    pub open spec fn spec_from_value(v: u8) -> Option<EncodingTag> {
        if v == 0 {
            Some(EncodingTag::U8)
        } else if v == 1 {
            Some(EncodingTag::U16)
        } else if v == 2 {
            Some(EncodingTag::U32)
        } else if v == 3 {
            Some(EncodingTag::U64)
        } else {
            None
        }
    }

    pub fn value(&self) -> (v: u8)
        ensures
            v == self.spec_value(),
    {
        match self {
            EncodingTag::U8 => 0,
            EncodingTag::U16 => 1,
            EncodingTag::U32 => 2,
            EncodingTag::U64 => 3,
        }
    }

    pub fn from_value(v: u8) -> (t: Option<EncodingTag>)
        ensures
            t == EncodingTag::spec_from_value(v),
    {
        if v == 0 {
            Some(EncodingTag::U8)
        } else if v == 1 {
            Some(EncodingTag::U16)
        } else if v == 2 {
            Some(EncodingTag::U32)
        } else if v == 3 {
            Some(EncodingTag::U64)
        } else {
            None
        }
    }
}

impl StrictEncoding for EncodingTag {
    open spec fn spec_encode(&self) -> Seq<u8> {
        seq![self.spec_value()]
    }

    open spec fn spec_decode(s: Seq<u8>) -> Result<(Self, nat), ErrorV> {
        match spec_read_u8(s) {
            Err(e) => Err(e),
            Ok((v, n)) => match EncodingTag::spec_from_value(v) {
                Some(t) => Ok((t, n)),
                None => Err(ErrorV::EnumValueNotKnown("EncodingTag"@, v)),
            },
        }
    }

    fn strict_encode(&self, out: &mut Vec<u8>) -> (n: usize) {
        write_u8(out, self.value());
        1
    }

    fn strict_decode(data: &[u8], pos: usize) -> (r: Result<(Self, usize), Error>) {
        match read_u8(data, pos) {
            Err(e) => Err(e),
            Ok((v, n)) => match EncodingTag::from_value(v) {
                Some(t) => Ok((t, n)),
                None => Err(Error::EnumValueNotKnown("EncodingTag".to_owned(), v)),
            },
        }
    }

    proof fn lemma_decode_encode(&self, rest: Seq<u8>) {
        lemma_read_u8(self.spec_value(), rest);
    }
}

impl Revealed {
    /// The tag that prefixes the value's encoding.
    pub open spec fn spec_tag(self) -> EncodingTag {
        match self {
            Revealed::U8(_) => EncodingTag::U8,
            Revealed::U16(_) => EncodingTag::U16,
            Revealed::U32(_) => EncodingTag::U32,
            Revealed::U64(_) => EncodingTag::U64,
        }
    }

    /// The encoding of the value without its tag.
    pub open spec fn spec_payload(self) -> Seq<u8> {
        match self {
            Revealed::U8(v) => v.spec_encode(),
            Revealed::U16(v) => v.spec_encode(),
            Revealed::U32(v) => v.spec_encode(),
            Revealed::U64(v) => v.spec_encode(),
        }
    }

    /// The concealed form of the value: the hash of its encoding.
    pub open spec fn spec_conceal(self) -> Confidential {
        Confidential { hash: Bytes32::spec_from_bytes(spec_sha256(self.spec_encode())) }
    }

    /// Conceals the value.
    pub fn conceal(&self) -> (c: Confidential)
        ensures
            c == self.spec_conceal(),
    {
        let mut bytes: Vec<u8> = Vec::new();
        self.strict_encode(&mut bytes);
        assert(bytes@ =~= self.spec_encode());
        let digest = sha256(bytes.as_slice());
        Confidential { hash: Bytes32::from_bytes(digest.as_slice()) }
    }
}

impl StrictEncoding for Revealed {
    open spec fn spec_encode(&self) -> Seq<u8> {
        self.spec_tag().spec_encode() + self.spec_payload()
    }

    open spec fn spec_decode(s: Seq<u8>) -> Result<(Self, nat), ErrorV> {
        match EncodingTag::spec_decode(s) {
            Err(e) => Err(e),
            Ok((tag, _)) => {
                let rest = s.skip(1);
                match tag {
                    EncodingTag::U8 => match u8::spec_decode(rest) {
                        Err(e) => Err(e),
                        Ok((v, n)) => Ok((Revealed::U8(v), 1 + n)),
                    },
                    EncodingTag::U16 => match u16::spec_decode(rest) {
                        Err(e) => Err(e),
                        Ok((v, n)) => Ok((Revealed::U16(v), 1 + n)),
                    },
                    EncodingTag::U32 => match u32::spec_decode(rest) {
                        Err(e) => Err(e),
                        Ok((v, n)) => Ok((Revealed::U32(v), 1 + n)),
                    },
                    EncodingTag::U64 => match u64::spec_decode(rest) {
                        Err(e) => Err(e),
                        Ok((v, n)) => Ok((Revealed::U64(v), 1 + n)),
                    },
                }
            },
        }
    }

    fn strict_encode(&self, out: &mut Vec<u8>) -> (n: usize) {
        let ghost start = out@;
        let before = out.len();
        match self {
            Revealed::U8(v) => {
                EncodingTag::U8.strict_encode(out);
                v.strict_encode(out);
            },
            Revealed::U16(v) => {
                EncodingTag::U16.strict_encode(out);
                v.strict_encode(out);
            },
            Revealed::U32(v) => {
                EncodingTag::U32.strict_encode(out);
                v.strict_encode(out);
            },
            Revealed::U64(v) => {
                EncodingTag::U64.strict_encode(out);
                v.strict_encode(out);
            },
        }
        assert(out@ =~= start + self.spec_encode());
        out.len() - before
    }

    fn strict_decode(data: &[u8], pos: usize) -> (r: Result<(Self, usize), Error>) {
        let len = data.len();
        match EncodingTag::strict_decode(data, pos) {
            Err(e) => Err(e),
            Ok((tag, _)) => {
                proof {
                    lemma_skip_skip(data@, pos as int, 1);
                }
                match tag {
                    EncodingTag::U8 => match u8::strict_decode(data, pos + 1) {
                        Err(e) => Err(e),
                        Ok((v, n)) => Ok((Revealed::U8(v), 1 + n)),
                    },
                    EncodingTag::U16 => match u16::strict_decode(data, pos + 1) {
                        Err(e) => Err(e),
                        Ok((v, n)) => Ok((Revealed::U16(v), 1 + n)),
                    },
                    EncodingTag::U32 => match u32::strict_decode(data, pos + 1) {
                        Err(e) => Err(e),
                        Ok((v, n)) => Ok((Revealed::U32(v), 1 + n)),
                    },
                    EncodingTag::U64 => match u64::strict_decode(data, pos + 1) {
                        Err(e) => Err(e),
                        Ok((v, n)) => Ok((Revealed::U64(v), 1 + n)),
                    },
                }
            },
        }
    }

    proof fn lemma_decode_encode(&self, rest: Seq<u8>) {
        let tag = self.spec_tag();
        let payload = self.spec_payload();
        assert(self.spec_encode() + rest =~= tag.spec_encode() + (payload + rest));
        tag.lemma_decode_encode(payload + rest);
        lemma_skip_prefix(tag.spec_encode(), payload + rest);
        match *self {
            Revealed::U8(v) => v.lemma_decode_encode(rest),
            Revealed::U16(v) => v.lemma_decode_encode(rest),
            Revealed::U32(v) => v.lemma_decode_encode(rest),
            Revealed::U64(v) => v.lemma_decode_encode(rest),
        }
    }
}

impl StrictEncoding for Confidential {
    open spec fn spec_encode(&self) -> Seq<u8> {
        self.hash.spec_encode()
    }

    open spec fn spec_decode(s: Seq<u8>) -> Result<(Self, nat), ErrorV> {
        match Bytes32::spec_decode(s) {
            Err(e) => Err(e),
            Ok((hash, n)) => Ok((Confidential { hash }, n)),
        }
    }

    fn strict_encode(&self, out: &mut Vec<u8>) -> (n: usize) {
        self.hash.strict_encode(out)
    }

    fn strict_decode(data: &[u8], pos: usize) -> (r: Result<(Self, usize), Error>) {
        match Bytes32::strict_decode(data, pos) {
            Err(e) => Err(e),
            Ok((hash, n)) => Ok((Confidential { hash }, n)),
        }
    }

    proof fn lemma_decode_encode(&self, rest: Seq<u8>) {
        self.hash.lemma_decode_encode(rest);
    }
}

/// The empty state has an empty encoding.
impl StrictEncoding for Void {
    open spec fn spec_encode(&self) -> Seq<u8> {
        Seq::empty()
    }

    open spec fn spec_decode(s: Seq<u8>) -> Result<(Self, nat), ErrorV> {
        Ok((Void, 0))
    }

    fn strict_encode(&self, out: &mut Vec<u8>) -> (n: usize) {
        assert(out@ =~= out@ + Seq::<u8>::empty());
        0
    }

    fn strict_decode(data: &[u8], pos: usize) -> (r: Result<(Self, usize), Error>) {
        Ok((Void, 0))
    }

    proof fn lemma_decode_encode(&self, rest: Seq<u8>) {
    }
}

} // verus!
