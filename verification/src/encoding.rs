//! Strict encoding: the deterministic binary format in which client-side
//! validated data is serialised and committed to.
//!
//! Integers are little-endian, enumerations are prefixed by a one-byte tag,
//! collections by a two-byte little-endian item count. Every type that takes
//! part in the format implements [`StrictEncoding`], whose contract ties the
//! executable encoder and decoder to a pair of spec functions and carries a
//! proof that decoding an encoding gives the value back.
use vstd::bytes::{
    lemma_auto_spec_u16_to_from_le_bytes, lemma_auto_spec_u32_to_from_le_bytes,
    lemma_auto_spec_u64_to_from_le_bytes, spec_u16_from_le_bytes, spec_u16_to_le_bytes,
    spec_u32_from_le_bytes, spec_u32_to_le_bytes, spec_u64_from_le_bytes, spec_u64_to_le_bytes,
    u16_from_le_bytes, u16_to_le_bytes, u32_from_le_bytes, u32_to_le_bytes, u64_from_le_bytes,
    u64_to_le_bytes,
};
use vstd::prelude::*;
use vstd::slice::slice_subrange;

verus! {

/// Errors of strict encoding and decoding.
#[derive(Debug, Clone, PartialEq, Eq)]
pub enum Error {
    /// The input ended before the value was complete.
    UnexpectedEof,
    /// An enumeration tag that names no variant: the enumeration's name and the tag.
    EnumValueNotKnown(String, u8),
    /// A well-formed value of a kind that this structure does not support.
    UnsupportedDataStructure(String),
    /// A collection holds more items than its two-byte count can express.
    ExceedMaxItems(usize),
}

/// The mathematical value of an [`Error`], with its strings as character sequences.
pub enum ErrorV {
    UnexpectedEof,
    EnumValueNotKnown(Seq<char>, u8),
    UnsupportedDataStructure(Seq<char>),
    ExceedMaxItems(usize),
}

impl View for Error {
    type V = ErrorV;

    open spec fn view(&self) -> ErrorV {
        match self {
            Error::UnexpectedEof => ErrorV::UnexpectedEof,
            Error::EnumValueNotKnown(name, v) => ErrorV::EnumValueNotKnown(name@, *v),
            Error::UnsupportedDataStructure(msg) => ErrorV::UnsupportedDataStructure(msg@),
            Error::ExceedMaxItems(n) => ErrorV::ExceedMaxItems(*n),
        }
    }
}

/// The mathematical value of a decoder's result: the value and how many
/// bytes it took, or the error.
pub open spec fn decoded<T>(r: Result<(T, usize), Error>) -> Result<(T, nat), ErrorV> {
    match r {
        Ok((v, n)) => Ok((v, n as nat)),
        Err(e) => Err(e@),
    }
}

/// A type with a strict encoding.
pub trait StrictEncoding: Sized {
    /// The bytes that encode `self`.
    spec fn spec_encode(&self) -> Seq<u8>;

    /// What decoding reads from the start of `s`: the value and the number of
    /// bytes it took, or the error.
    spec fn spec_decode(s: Seq<u8>) -> Result<(Self, nat), ErrorV>;

    /// Appends the encoding of `self` to `out` and returns its length.
    fn strict_encode(&self, out: &mut Vec<u8>) -> (n: usize)
        ensures
            final(out)@ == old(out)@ + self.spec_encode(),
            n == self.spec_encode().len(),
    ;

    /// Decodes a value from `data`, starting at `pos`.
    fn strict_decode(data: &[u8], pos: usize) -> (r: Result<(Self, usize), Error>)
        requires
            pos <= data@.len(),
        ensures
            decoded(r) == Self::spec_decode(data@.skip(pos as int)),
            r matches Ok((_, n)) ==> pos + n <= data@.len(),
    ;

    /// Decoding the encoding of a value, whatever follows it, gives the value
    /// back and consumes exactly the encoding.
    proof fn lemma_decode_encode(&self, rest: Seq<u8>)
        ensures
            Self::spec_decode(self.spec_encode() + rest) == Ok::<(Self, nat), ErrorV>(
                (*self, self.spec_encode().len()),
            ),
    ;
}

/// Reading one byte.
pub open spec fn spec_read_u8(s: Seq<u8>) -> Result<(u8, nat), ErrorV> {
    if s.len() >= 1 {
        Ok((s[0], 1))
    } else {
        Err(ErrorV::UnexpectedEof)
    }
}

/// Reading a little-endian `u16`.
pub open spec fn spec_read_u16(s: Seq<u8>) -> Result<(u16, nat), ErrorV> {
    if s.len() >= 2 {
        Ok((spec_u16_from_le_bytes(s.take(2)), 2))
    } else {
        Err(ErrorV::UnexpectedEof)
    }
}

/// Reading a little-endian `u32`.
pub open spec fn spec_read_u32(s: Seq<u8>) -> Result<(u32, nat), ErrorV> {
    if s.len() >= 4 {
        Ok((spec_u32_from_le_bytes(s.take(4)), 4))
    } else {
        Err(ErrorV::UnexpectedEof)
    }
}

/// Reading a little-endian `u64`.
pub open spec fn spec_read_u64(s: Seq<u8>) -> Result<(u64, nat), ErrorV> {
    if s.len() >= 8 {
        Ok((spec_u64_from_le_bytes(s.take(8)), 8))
    } else {
        Err(ErrorV::UnexpectedEof)
    }
}

pub fn read_u8(data: &[u8], pos: usize) -> (r: Result<(u8, usize), Error>)
    requires
        pos <= data@.len(),
    ensures
        decoded(r) == spec_read_u8(data@.skip(pos as int)),
        r matches Ok((_, n)) ==> pos + n <= data@.len(),
{
    if pos < data.len() {
        Ok((data[pos], 1))
    } else {
        Err(Error::UnexpectedEof)
    }
}

pub fn read_u16(data: &[u8], pos: usize) -> (r: Result<(u16, usize), Error>)
    requires
        pos <= data@.len(),
    ensures
        decoded(r) == spec_read_u16(data@.skip(pos as int)),
        r matches Ok((_, n)) ==> pos + n <= data@.len(),
{
    if data.len() - pos >= 2 {
        let sub = slice_subrange(data, pos, pos + 2);
        assert(sub@ =~= data@.skip(pos as int).take(2));
        Ok((u16_from_le_bytes(sub), 2))
    } else {
        Err(Error::UnexpectedEof)
    }
}

pub fn read_u32(data: &[u8], pos: usize) -> (r: Result<(u32, usize), Error>)
    requires
        pos <= data@.len(),
    ensures
        decoded(r) == spec_read_u32(data@.skip(pos as int)),
        r matches Ok((_, n)) ==> pos + n <= data@.len(),
{
    if data.len() - pos >= 4 {
        let sub = slice_subrange(data, pos, pos + 4);
        assert(sub@ =~= data@.skip(pos as int).take(4));
        Ok((u32_from_le_bytes(sub), 4))
    } else {
        Err(Error::UnexpectedEof)
    }
}

pub fn read_u64(data: &[u8], pos: usize) -> (r: Result<(u64, usize), Error>)
    requires
        pos <= data@.len(),
    ensures
        decoded(r) == spec_read_u64(data@.skip(pos as int)),
        r matches Ok((_, n)) ==> pos + n <= data@.len(),
{
    if data.len() - pos >= 8 {
        let sub = slice_subrange(data, pos, pos + 8);
        assert(sub@ =~= data@.skip(pos as int).take(8));
        Ok((u64_from_le_bytes(sub), 8))
    } else {
        Err(Error::UnexpectedEof)
    }
}

pub fn write_u8(out: &mut Vec<u8>, x: u8)
    ensures
        final(out)@ == old(out)@ + seq![x],
{
    out.push(x);
}

pub fn write_u16(out: &mut Vec<u8>, x: u16)
    ensures
        final(out)@ == old(out)@ + spec_u16_to_le_bytes(x),
        spec_u16_to_le_bytes(x).len() == 2,
{
    proof {
        lemma_auto_spec_u16_to_from_le_bytes();
    }
    let mut bytes = u16_to_le_bytes(x);
    out.append(&mut bytes);
}

pub fn write_u32(out: &mut Vec<u8>, x: u32)
    ensures
        final(out)@ == old(out)@ + spec_u32_to_le_bytes(x),
        spec_u32_to_le_bytes(x).len() == 4,
{
    proof {
        lemma_auto_spec_u32_to_from_le_bytes();
    }
    let mut bytes = u32_to_le_bytes(x);
    out.append(&mut bytes);
}

pub fn write_u64(out: &mut Vec<u8>, x: u64)
    ensures
        final(out)@ == old(out)@ + spec_u64_to_le_bytes(x),
        spec_u64_to_le_bytes(x).len() == 8,
{
    proof {
        lemma_auto_spec_u64_to_from_le_bytes();
    }
    let mut bytes = u64_to_le_bytes(x);
    out.append(&mut bytes);
}

pub proof fn lemma_read_u8(x: u8, rest: Seq<u8>)
    ensures
        spec_read_u8(seq![x] + rest) == Ok::<(u8, nat), ErrorV>((x, 1nat)),
{
    assert((seq![x] + rest)[0] == x);
}

pub proof fn lemma_read_u16(x: u16, rest: Seq<u8>)
    ensures
        spec_u16_to_le_bytes(x).len() == 2,
        spec_read_u16(spec_u16_to_le_bytes(x) + rest) == Ok::<(u16, nat), ErrorV>((x, 2nat)),
{
    lemma_auto_spec_u16_to_from_le_bytes();
    assert((spec_u16_to_le_bytes(x) + rest).take(2) =~= spec_u16_to_le_bytes(x));
}

pub proof fn lemma_read_u32(x: u32, rest: Seq<u8>)
    ensures
        spec_u32_to_le_bytes(x).len() == 4,
        spec_read_u32(spec_u32_to_le_bytes(x) + rest) == Ok::<(u32, nat), ErrorV>((x, 4nat)),
{
    lemma_auto_spec_u32_to_from_le_bytes();
    assert((spec_u32_to_le_bytes(x) + rest).take(4) =~= spec_u32_to_le_bytes(x));
}

pub proof fn lemma_read_u64(x: u64, rest: Seq<u8>)
    ensures
        spec_u64_to_le_bytes(x).len() == 8,
        spec_read_u64(spec_u64_to_le_bytes(x) + rest) == Ok::<(u64, nat), ErrorV>((x, 8nat)),
{
    lemma_auto_spec_u64_to_from_le_bytes();
    assert((spec_u64_to_le_bytes(x) + rest).take(8) =~= spec_u64_to_le_bytes(x));
}

/// Skipping twice is skipping the sum.
pub proof fn lemma_skip_skip(s: Seq<u8>, a: int, b: int)
    requires
        0 <= a,
        0 <= b,
        a + b <= s.len(),
    ensures
        s.skip(a).skip(b) == s.skip(a + b),
{
    assert(s.skip(a).skip(b) =~= s.skip(a + b));
}

/// Skipping a prefix of a concatenation.
pub proof fn lemma_skip_prefix(a: Seq<u8>, b: Seq<u8>)
    ensures
        (a + b).skip(a.len() as int) == b,
{
    assert((a + b).skip(a.len() as int) =~= b);
}

/// Decoding two values, one after the other.
pub open spec fn spec_decode_pair<A: StrictEncoding, B: StrictEncoding>(s: Seq<u8>) -> Result<
    ((A, B), nat),
    ErrorV,
> {
    match A::spec_decode(s) {
        Err(e) => Err(e),
        Ok((a, n)) => match B::spec_decode(s.skip(n as int)) {
            Err(e) => Err(e),
            Ok((b, m)) => Ok(((a, b), n + m)),
        },
    }
}

pub fn decode_pair<A: StrictEncoding, B: StrictEncoding>(data: &[u8], pos: usize) -> (r: Result<
    ((A, B), usize),
    Error,
>)
    requires
        pos <= data@.len(),
    ensures
        decoded(r) == spec_decode_pair::<A, B>(data@.skip(pos as int)),
        r matches Ok((_, n)) ==> pos + n <= data@.len(),
{
    let len = data.len();
    match A::strict_decode(data, pos) {
        Err(e) => Err(e),
        Ok((a, n)) => {
            assert(pos + n <= len);
            proof {
                lemma_skip_skip(data@, pos as int, n as int);
            }
            match B::strict_decode(data, pos + n) {
                Err(e) => Err(e),
                Ok((b, m)) => {
                    assert(pos + n + m <= len);
                    Ok(((a, b), n + m))
                },
            }
        },
    }
}

/// Decoding the encodings of two values, one after the other, gives both back.
pub proof fn lemma_decode_pair<A: StrictEncoding, B: StrictEncoding>(a: A, b: B, rest: Seq<u8>)
    ensures
        spec_decode_pair::<A, B>(a.spec_encode() + b.spec_encode() + rest) == Ok::<
            ((A, B), nat),
            ErrorV,
        >(((a, b), a.spec_encode().len() + b.spec_encode().len())),
{
    let ea = a.spec_encode();
    let eb = b.spec_encode();
    assert(ea + eb + rest =~= ea + (eb + rest));
    a.lemma_decode_encode(eb + rest);
    lemma_skip_prefix(ea, eb + rest);
    b.lemma_decode_encode(rest);
}

impl StrictEncoding for u8 {
    open spec fn spec_encode(&self) -> Seq<u8> {
        seq![*self]
    }

    open spec fn spec_decode(s: Seq<u8>) -> Result<(Self, nat), ErrorV> {
        spec_read_u8(s)
    }

    fn strict_encode(&self, out: &mut Vec<u8>) -> (n: usize) {
        write_u8(out, *self);
        1
    }

    fn strict_decode(data: &[u8], pos: usize) -> (r: Result<(Self, usize), Error>) {
        read_u8(data, pos)
    }

    proof fn lemma_decode_encode(&self, rest: Seq<u8>) {
        lemma_read_u8(*self, rest);
    }
}

impl StrictEncoding for u16 {
    open spec fn spec_encode(&self) -> Seq<u8> {
        spec_u16_to_le_bytes(*self)
    }

    open spec fn spec_decode(s: Seq<u8>) -> Result<(Self, nat), ErrorV> {
        spec_read_u16(s)
    }

    fn strict_encode(&self, out: &mut Vec<u8>) -> (n: usize) {
        write_u16(out, *self);
        2
    }

    fn strict_decode(data: &[u8], pos: usize) -> (r: Result<(Self, usize), Error>) {
        read_u16(data, pos)
    }

    proof fn lemma_decode_encode(&self, rest: Seq<u8>) {
        lemma_read_u16(*self, rest);
    }
}

impl StrictEncoding for u32 {
    open spec fn spec_encode(&self) -> Seq<u8> {
        spec_u32_to_le_bytes(*self)
    }

    open spec fn spec_decode(s: Seq<u8>) -> Result<(Self, nat), ErrorV> {
        spec_read_u32(s)
    }

    fn strict_encode(&self, out: &mut Vec<u8>) -> (n: usize) {
        write_u32(out, *self);
        4
    }

    fn strict_decode(data: &[u8], pos: usize) -> (r: Result<(Self, usize), Error>) {
        read_u32(data, pos)
    }

    proof fn lemma_decode_encode(&self, rest: Seq<u8>) {
        lemma_read_u32(*self, rest);
    }
}

impl StrictEncoding for u64 {
    open spec fn spec_encode(&self) -> Seq<u8> {
        spec_u64_to_le_bytes(*self)
    }

    open spec fn spec_decode(s: Seq<u8>) -> Result<(Self, nat), ErrorV> {
        spec_read_u64(s)
    }

    fn strict_encode(&self, out: &mut Vec<u8>) -> (n: usize) {
        write_u64(out, *self);
        8
    }

    fn strict_decode(data: &[u8], pos: usize) -> (r: Result<(Self, usize), Error>) {
        read_u64(data, pos)
    }

    proof fn lemma_decode_encode(&self, rest: Seq<u8>) {
        lemma_read_u64(*self, rest);
    }
}

/// A pair is encoded as its first component followed by its second.
impl<A: StrictEncoding, B: StrictEncoding> StrictEncoding for (A, B) {
    open spec fn spec_encode(&self) -> Seq<u8> {
        self.0.spec_encode() + self.1.spec_encode()
    }

    open spec fn spec_decode(s: Seq<u8>) -> Result<(Self, nat), ErrorV> {
        spec_decode_pair::<A, B>(s)
    }

    fn strict_encode(&self, out: &mut Vec<u8>) -> (n: usize) {
        let ghost start = out@;
        let before = out.len();
        self.0.strict_encode(out);
        self.1.strict_encode(out);
        assert(out@ =~= start + self.spec_encode());
        out.len() - before
    }

    fn strict_decode(data: &[u8], pos: usize) -> (r: Result<(Self, usize), Error>) {
        decode_pair::<A, B>(data, pos)
    }

    proof fn lemma_decode_encode(&self, rest: Seq<u8>) {
        assert(self.spec_encode() + rest =~= self.0.spec_encode() + self.1.spec_encode() + rest);
        lemma_decode_pair(self.0, self.1, rest);
    }
}

} // verus!
