//! The optional partial BLS signature beside a vote.
//!
//! Its bytes carry their length, which must be that of a signature.

use vstd::prelude::*;

use crate::codec::put_bytes;
use crate::history_codec::{key_of, lemma_key_of, take_key_bytes};
use crate::wire::{enc_opt_bytes, opt_bytes_read_back, take_opt_bytes, take_optional_bytes};

verus! {

/// A replica's contribution to an aggregate BLS signature.
pub type BlsPartialSig = [u8; 96];

/// Why a partial signature could not be read.
#[derive(Clone, Copy, Debug, PartialEq, Eq, Structural)]
pub enum PartialError {
    /// The bytes are not those of an optional byte string.
    Unreadable,
    /// The byte string is not as long as a signature.
    WrongLength,
}

impl PartialError {
    /// What the operator gets to read.
    pub fn message(self) -> (r: &'static str)
        ensures
            r@ == match self {
                PartialError::Unreadable => "BLS partial cannot be read"@,
                PartialError::WrongLength => "BLS partial must be exactly 96 bytes"@,
            },
    {
        match self {
            PartialError::Unreadable => "BLS partial cannot be read",
            PartialError::WrongLength => "BLS partial must be exactly 96 bytes",
        }
    }
}

pub open spec fn enc_partial(o: Option<BlsPartialSig>) -> Seq<u8> {
    match o {
        Some(p) => enc_opt_bytes(Some(p@)),
        None => enc_opt_bytes(None),
    }
}

/// Reads an optional partial signature off the front of `s`.
pub open spec fn take_partial(s: Seq<u8>) -> Result<(Option<BlsPartialSig>, Seq<u8>), PartialError> {
    match take_opt_bytes(s) {
        None => Err(PartialError::Unreadable),
        Some((None, rest)) => Ok((None, rest)),
        Some((Some(b), rest)) => if b.len() == 96 {
            Ok((Some(key_of::<96>(b)), rest))
        } else {
            Err(PartialError::WrongLength)
        },
    }
}

/// A partial signature reads back as itself.
pub proof fn partial_reads_back(o: Option<BlsPartialSig>, tail: Seq<u8>)
    ensures
        take_partial(enc_partial(o) + tail) == Ok::<(Option<BlsPartialSig>, Seq<u8>), PartialError>((o, tail)),
{
    match o {
        Some(p) => {
            opt_bytes_read_back(Some(p@), tail);
            lemma_key_of::<96>(p);
        },
        None => {
            opt_bytes_read_back(None, tail);
        },
    }
}

/// Writes an optional partial signature.
pub fn serialize(opt: &Option<BlsPartialSig>, out: &mut Vec<u8>)
    ensures
        final(out)@ == old(out)@ + enc_partial(*opt),
{
    match opt {
        Some(p) => {
            out.push(1);
            put_bytes(out, p.as_slice());
        },
        None => {
            out.push(0);
        },
    }
    assert(out@ =~= old(out)@ + enc_partial(*opt));
}

/// Reads an optional partial signature; says also what stands behind it.
pub fn deserialize<'a>(s: &'a [u8]) -> (r: Result<(Option<BlsPartialSig>, &'a [u8]), PartialError>)
    ensures
        match r {
            Ok((o, rest)) => take_partial(s@) == Ok::<(Option<BlsPartialSig>, Seq<u8>), PartialError>((o, rest@)),
            Err(e) => take_partial(s@) == Err::<(Option<BlsPartialSig>, Seq<u8>), PartialError>(e),
        },
{
    match take_optional_bytes(s) {
        None => Err(PartialError::Unreadable),
        Some((None, rest)) => Ok((None, rest)),
        Some((Some(b), rest)) => {
            if b.len() != 96 {
                return Err(PartialError::WrongLength);
            }
            match take_key_bytes::<96>(b.as_slice()) {
                Some((k, _)) => {
                    assert(b@.take(96) =~= b@);
                    Ok((Some(k), rest))
                },
                None => Err(PartialError::Unreadable),
            }
        },
    }
}

} // verus!
