//! Single-use seal definitions, revealed and concealed.
use crate::bytes32::Bytes32;
use crate::crypto::{sha256, spec_sha256};
use crate::encoding::{
    decode_pair, lemma_decode_pair, lemma_read_u8, lemma_skip_prefix, lemma_skip_skip,
    read_u8, spec_decode_pair, spec_read_u8, write_u8, Error, ErrorV, StrictEncoding,
};
use vstd::prelude::*;

verus! {

/// A concealed seal definition: the hash of the revealed outpoint.
#[derive(PartialEq, Eq, Structural, Clone, Copy, Debug)]
pub struct Confidential {
    pub hash: Bytes32,
}

/// A revealed seal definition: a transaction output, or an output of the
/// witness transaction itself, with the blinding factor that hides it.
#[derive(PartialEq, Eq, Structural, Clone, Copy, Debug)]
pub enum Revealed {
    TxOutpoint { txid: Bytes32, vout: u16, blinding: u64 },
    WitnessVout { vout: u16, blinding: u64 },
}

impl Revealed {
    /// The encoded outpoint that is hashed when the seal is concealed: the
    /// blinding factor, the transaction id (all zeros for the witness
    /// transaction) and the output number.
    pub open spec fn spec_outpoint_bytes(self) -> Seq<u8> {
        match self {
            Revealed::TxOutpoint { txid, vout, blinding } => blinding.spec_encode()
                + txid.spec_bytes() + vout.spec_encode(),
            Revealed::WitnessVout { vout, blinding } => blinding.spec_encode()
                + Bytes32::spec_zero().spec_bytes() + vout.spec_encode(),
        }
    }

    /// The concealed form of the seal.
    pub open spec fn spec_conceal(self) -> Confidential {
        Confidential { hash: Bytes32::spec_from_bytes(spec_sha256(self.spec_outpoint_bytes())) }
    }

    /// Conceals the seal definition.
    pub fn conceal(&self) -> (c: Confidential)
        ensures
            c == self.spec_conceal(),
    {
        let mut bytes: Vec<u8> = Vec::new();
        match self {
            Revealed::TxOutpoint { txid, vout, blinding } => {
                blinding.strict_encode(&mut bytes);
                txid.strict_encode(&mut bytes);
                vout.strict_encode(&mut bytes);
            },
            Revealed::WitnessVout { vout, blinding } => {
                blinding.strict_encode(&mut bytes);
                Bytes32::zero().strict_encode(&mut bytes);
                vout.strict_encode(&mut bytes);
            },
        }
        assert(bytes@ =~= self.spec_outpoint_bytes());
        let digest = sha256(bytes.as_slice());
        Confidential { hash: Bytes32::from_bytes(digest.as_slice()) }
    }
}

impl StrictEncoding for Confidential {
    open spec fn spec_encode(&self) -> Seq<u8> {
        self.hash.spec_encode()
    }

    open spec fn spec_decode(s: Seq<u8>) -> Result<(Self, nat), ErrorV> {
        match Bytes32::spec_decode(s) {
            Err(e) => Err(e),
            Ok((hash, n)) => Ok((Confidential { hash }, n)),
        }
    }

    fn strict_encode(&self, out: &mut Vec<u8>) -> (n: usize) {
        self.hash.strict_encode(out)
    }

    fn strict_decode(data: &[u8], pos: usize) -> (r: Result<(Self, usize), Error>) {
        match Bytes32::strict_decode(data, pos) {
            Err(e) => Err(e),
            Ok((hash, n)) => Ok((Confidential { hash }, n)),
        }
    }

    proof fn lemma_decode_encode(&self, rest: Seq<u8>) {
        self.hash.lemma_decode_encode(rest);
    }
}

impl StrictEncoding for Revealed {
    open spec fn spec_encode(&self) -> Seq<u8> {
        match *self {
            Revealed::TxOutpoint { txid, vout, blinding } => seq![0u8] + (txid, (vout, blinding)).spec_encode(),
            Revealed::WitnessVout { vout, blinding } => seq![1u8] + (vout, blinding).spec_encode(),
        }
    }

    open spec fn spec_decode(s: Seq<u8>) -> Result<(Self, nat), ErrorV> {
        match spec_read_u8(s) {
            Err(e) => Err(e),
            Ok((tag, _)) => if tag == 0 {
                match spec_decode_pair::<Bytes32, (u16, u64)>(s.skip(1)) {
                    Err(e) => Err(e),
                    Ok(((txid, (vout, blinding)), n)) => Ok(
                        (Revealed::TxOutpoint { txid, vout, blinding }, 1 + n),
                    ),
                }
            } else if tag == 1 {
                match spec_decode_pair::<u16, u64>(s.skip(1)) {
                    Err(e) => Err(e),
                    Ok(((vout, blinding), n)) => Ok((Revealed::WitnessVout { vout, blinding }, 1 + n)),
                }
            } else {
                Err(ErrorV::EnumValueNotKnown("seal::Revealed"@, tag))
            },
        }
    }

    fn strict_encode(&self, out: &mut Vec<u8>) -> (n: usize) {
        let ghost start = out@;
        let before = out.len();
        match self {
            Revealed::TxOutpoint { txid, vout, blinding } => {
                write_u8(out, 0);
                (*txid, (*vout, *blinding)).strict_encode(out);
            },
            Revealed::WitnessVout { vout, blinding } => {
                write_u8(out, 1);
                (*vout, *blinding).strict_encode(out);
            },
        }
        assert(out@ =~= start + self.spec_encode());
        out.len() - before
    }

    fn strict_decode(data: &[u8], pos: usize) -> (r: Result<(Self, usize), Error>) {
        let len = data.len();
        match read_u8(data, pos) {
            Err(e) => Err(e),
            Ok((tag, _)) => {
                proof {
                    lemma_skip_skip(data@, pos as int, 1);
                }
                if tag == 0 {
                    match decode_pair::<Bytes32, (u16, u64)>(data, pos + 1) {
                        Err(e) => Err(e),
                        Ok(((txid, (vout, blinding)), n)) => Ok(
                            (Revealed::TxOutpoint { txid, vout, blinding }, 1 + n),
                        ),
                    }
                } else if tag == 1 {
                    match decode_pair::<u16, u64>(data, pos + 1) {
                        Err(e) => Err(e),
                        Ok(((vout, blinding), n)) => Ok(
                            (Revealed::WitnessVout { vout, blinding }, 1 + n),
                        ),
                    }
                } else {
                    Err(Error::EnumValueNotKnown("seal::Revealed".to_owned(), tag))
                }
            },
        }
    }

    proof fn lemma_decode_encode(&self, rest: Seq<u8>) {
        match *self {
            Revealed::TxOutpoint { txid, vout, blinding } => {
                let body = (vout, blinding).spec_encode();
                assert(self.spec_encode() + rest =~= seq![0u8] + (txid.spec_encode() + body + rest));
                lemma_read_u8(0, txid.spec_encode() + body + rest);
                lemma_skip_prefix(seq![0u8], txid.spec_encode() + body + rest);
                lemma_decode_pair(txid, (vout, blinding), rest);
            },
            Revealed::WitnessVout { vout, blinding } => {
                assert(self.spec_encode() + rest =~= seq![1u8] + (vout.spec_encode()
                    + blinding.spec_encode() + rest));
                lemma_read_u8(1, vout.spec_encode() + blinding.spec_encode() + rest);
                lemma_skip_prefix(seq![1u8], vout.spec_encode() + blinding.spec_encode() + rest);
                lemma_decode_pair(vout, blinding, rest);
            },
        }
    }
}

} // verus!
