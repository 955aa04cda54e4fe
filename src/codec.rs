use crate::error::ProtocolError;
use vstd::prelude::*;

verus! {

/// A value with a wire form: `encode` appends its bytes to a buffer, `decode` reads one value
/// from a position in a buffer and reports how many bytes it took.
///
/// The wire form is described over the value's view: `encoding` is what `encode` writes, and
/// `parse` is what `decode` returns on a given byte sequence. Decoding only looks at the bytes
/// it consumes, so decoders of composite values chain without lookahead.
pub trait Codec: Sized + View {
    /// Whether `v` can be written (for instance: a length that fits its prefix).
    spec fn encodable(v: Self::V) -> bool;

    /// The bytes that `encode` writes for `v`.
    spec fn encoding(v: Self::V) -> Seq<u8>;

    /// What decoding the start of `s` gives: the value and the number of bytes it took, or
    /// the reason it fails.
    spec fn parse(s: Seq<u8>) -> Result<(Self::V, nat), ProtocolError>;

    /// A successful parse consumes at least one byte and no more than there are.
    proof fn lemma_parse_extent(s: Seq<u8>)
        ensures
            match Self::parse(s) {
                Ok((_, n)) => 0 < n <= s.len(),
                Err(_) => true,
            },
    ;

    /// Decoding what was encoded gives the value back, whatever follows it.
    proof fn lemma_round_trip(v: Self::V, rest: Seq<u8>)
        requires
            Self::encodable(v),
        ensures
            Self::parse(Self::encoding(v) + rest) == Ok::<(Self::V, nat), ProtocolError>(
                (v, Self::encoding(v).len()),
            ),
    ;

    /// Appends the wire form of `self` to `out`.
    fn encode(&self, out: &mut Vec<u8>)
        requires
            Self::encodable(self@),
        ensures
            final(out)@ == old(out)@ + Self::encoding(self@),
    ;

    /// Reads one value from `buf`, starting at `pos`; on success also returns the number of
    /// bytes consumed.
    fn decode(buf: &[u8], pos: usize) -> (r: Result<(Self, usize), ProtocolError>)
        requires
            pos <= buf@.len(),
        ensures
            decoded_as::<Self>(r, Self::parse(buf@.skip(pos as int))),
    ;
}

/// The executable result `r` of a decode agrees with the parse `p`.
pub open spec fn decoded_as<T: View>(
    r: Result<(T, usize), ProtocolError>,
    p: Result<(T::V, nat), ProtocolError>,
) -> bool {
    match p {
        Ok((v, n)) => match r {
            Ok((x, k)) => x@ == v && k == n,
            Err(_) => false,
        },
        Err(e) => r == Err::<(T, usize), ProtocolError>(e),
    }
}

} // verus!
