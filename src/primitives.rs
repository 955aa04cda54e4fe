use crate::codec::{decoded_as, Codec};
use crate::error::ProtocolError;
use crate::varint::{parse_uvarint, varint_encoding, UVarInt, VarInt};
use std::string::FromUtf8Error;
use vstd::prelude::*;
use vstd::utf8::{decode_utf8, encode_utf8, encode_utf8_decode_utf8, encode_utf8_valid_utf8, valid_utf8};

verus! {

/// A single raw byte.
#[derive(Debug, Clone, Copy, PartialEq, Eq, Structural)]
pub struct Byte(pub u8);

/// A string on the wire: its UTF-8 byte count as a UVarInt, then the bytes.
#[derive(Debug, Clone)]
pub struct StringProto(pub String);

/// An array on the wire: its element count as a UVarInt, then each element in order.
///
/// Decoding allocates as elements arrive, and each element takes at least one byte, so a
/// large declared count costs no memory beyond the bytes actually received.
pub struct PrefixedArray<T> {
    /// The element count.
    pub length: VarInt,
    /// The elements, in wire order.
    pub data: Vec<T>,
}

/// Declares std's `FromUtf8Error`, the error of `String::from_utf8`; its contents are not read.
#[verifier::external_type_specification]
#[verifier::external_body]
pub struct ExFromUtf8Error(FromUtf8Error);

/// Relies on `String::from_utf8`: it fails exactly on byte runs that are not UTF-8, and
/// otherwise returns the string whose UTF-8 form is those bytes.
#[verifier::external_body]
fn string_from_utf8(bytes: Vec<u8>) -> (r: Result<String, FromUtf8Error>)
    ensures
        match r {
            Ok(s) => valid_utf8(bytes@) && s@ == decode_utf8(bytes@),
            Err(_) => !valid_utf8(bytes@),
        },
{
    String::from_utf8(bytes)
}

impl View for Byte {
    type V = u8;

    open spec fn view(&self) -> u8 {
        self.0
    }
}

impl View for StringProto {
    type V = Seq<char>;

    open spec fn view(&self) -> Seq<char> {
        self.0@
    }
}

impl<T: View> View for PrefixedArray<T> {
    /// The declared count and the views of the elements.
    type V = (i32, Seq<T::V>);

    open spec fn view(&self) -> (i32, Seq<T::V>) {
        (self.length.0, self.data@.map_values(|x: T| x@))
    }
}

/// The string at the start of `s`: a UVarInt byte count, then that many bytes of UTF-8.
pub open spec fn parse_string(s: Seq<u8>) -> Result<(Seq<char>, nat), ProtocolError> {
    match parse_uvarint(s) {
        Ok((n, k)) => if k + n > s.len() {
            Err(ProtocolError::Io)
        } else if valid_utf8(s.subrange(k as int, k + n)) {
            Ok((decode_utf8(s.subrange(k as int, k + n)), (k + n) as nat))
        } else {
            Err(ProtocolError::Utf8)
        },
        Err(e) => Err(e),
    }
}

/// The wire form of a string: byte count, then the UTF-8 bytes.
pub open spec fn string_encoding(c: Seq<char>) -> Seq<u8> {
    varint_encoding(encode_utf8(c).len() as i32) + encode_utf8(c)
}

/// The encodings of `vs`, one after another.
pub open spec fn elems_encoding<T: Codec>(vs: Seq<T::V>) -> Seq<u8>
    decreases vs.len(),
{
    if vs.len() == 0 {
        Seq::empty()
    } else {
        elems_encoding::<T>(vs.drop_last()) + T::encoding(vs.last())
    }
}

/// `count` values of `T` read one after another from the start of `s`.
pub open spec fn parse_elems<T: Codec>(s: Seq<u8>, count: nat) -> Result<
    (Seq<T::V>, nat),
    ProtocolError,
>
    decreases count,
{
    if count == 0 {
        Ok((Seq::empty(), 0))
    } else {
        match T::parse(s) {
            Ok((v, n)) => match parse_elems::<T>(s.skip(n as int), (count - 1) as nat) {
                Ok((vs, m)) => Ok((seq![v] + vs, n + m)),
                Err(e) => Err(e),
            },
            Err(e) => Err(e),
        }
    }
}

/// The array at the start of `s`: a UVarInt count, then that many elements.
pub open spec fn parse_array<T: Codec>(s: Seq<u8>) -> Result<((i32, Seq<T::V>), nat), ProtocolError> {
    match parse_uvarint(s) {
        Ok((c, k)) => match parse_elems::<T>(s.skip(k as int), c as nat) {
            Ok((vs, m)) => Ok(((c as i32, vs), k + m)),
            Err(e) => Err(e),
        },
        Err(e) => Err(e),
    }
}

proof fn lemma_elems_extent<T: Codec>(s: Seq<u8>, count: nat)
    ensures
        match parse_elems::<T>(s, count) {
            Ok((vs, m)) => m <= s.len() && vs.len() == count,
            Err(_) => true,
        },
    decreases count,
{
    if count > 0 {
        T::lemma_parse_extent(s);
        if let Ok((v, n)) = T::parse(s) {
            lemma_elems_extent::<T>(s.skip(n as int), (count - 1) as nat);
        }
    }
}

proof fn lemma_elems_encoding_front<T: Codec>(vs: Seq<T::V>)
    requires
        vs.len() > 0,
    ensures
        elems_encoding::<T>(vs) == T::encoding(vs[0]) + elems_encoding::<T>(vs.drop_first()),
    decreases vs.len(),
{
    if vs.len() == 1 {
        assert(vs.drop_last() =~= Seq::<T::V>::empty());
        assert(vs.drop_first() =~= Seq::<T::V>::empty());
        assert(T::encoding(vs[0]) + Seq::<u8>::empty() =~= T::encoding(vs[0]));
        assert(Seq::<u8>::empty() + T::encoding(vs[0]) =~= T::encoding(vs[0]));
    } else {
        lemma_elems_encoding_front::<T>(vs.drop_last());
        assert(vs.drop_last().drop_first() =~= vs.drop_first().drop_last());
        assert(vs.drop_first().last() == vs.last());
        assert(elems_encoding::<T>(vs) =~= T::encoding(vs[0]) + elems_encoding::<T>(
            vs.drop_first(),
        ));
    }
}

/// Reading back the encodings of `vs` gives `vs`, whatever follows.
pub proof fn lemma_elems_round_trip<T: Codec>(vs: Seq<T::V>, rest: Seq<u8>)
    requires
        forall|i: int| 0 <= i < vs.len() ==> T::encodable(#[trigger] vs[i]),
    ensures
        parse_elems::<T>(elems_encoding::<T>(vs) + rest, vs.len()) == Ok::<
            (Seq<T::V>, nat),
            ProtocolError,
        >((vs, elems_encoding::<T>(vs).len())),
    decreases vs.len(),
{
    if vs.len() == 0 {
        assert(Seq::<T::V>::empty() =~= vs);
    } else {
        let tail = vs.drop_first();
        lemma_elems_encoding_front::<T>(vs);
        let s = elems_encoding::<T>(vs) + rest;
        let tail_bytes = elems_encoding::<T>(tail) + rest;
        assert(s =~= T::encoding(vs[0]) + tail_bytes);
        T::lemma_round_trip(vs[0], tail_bytes);
        assert(s.skip(T::encoding(vs[0]).len() as int) =~= tail_bytes);
        assert forall|i: int| 0 <= i < tail.len() implies T::encodable(#[trigger] tail[i]) by {
            assert(tail[i] == vs[i + 1]);
        }
        lemma_elems_round_trip::<T>(tail, rest);
        assert(seq![vs[0]] + tail =~= vs);
    }
}

/// Encoding then decoding any array of encodable elements, the empty one included, gives back
/// its count and elements in order.
pub proof fn lemma_array_round_trip<T: Codec>(vs: Seq<T::V>, rest: Seq<u8>)
    requires
        vs.len() <= i32::MAX,
        forall|i: int| 0 <= i < vs.len() ==> T::encodable(#[trigger] vs[i]),
    ensures
        PrefixedArray::<T>::parse(PrefixedArray::<T>::encoding((vs.len() as i32, vs)) + rest)
            == Ok::<((i32, Seq<T::V>), nat), ProtocolError>(
            (
                (vs.len() as i32, vs),
                PrefixedArray::<T>::encoding((vs.len() as i32, vs)).len(),
            ),
        ),
{
    let v = (vs.len() as i32, vs);
    PrefixedArray::<T>::lemma_round_trip(v, rest);
}

/// Encoding then decoding any string, the empty one included, gives back its characters.
pub proof fn lemma_string_round_trip(c: Seq<char>, rest: Seq<u8>)
    requires
        encode_utf8(c).len() <= i32::MAX,
    ensures
        parse_string(string_encoding(c) + rest) == Ok::<(Seq<char>, nat), ProtocolError>(
            (c, string_encoding(c).len()),
        ),
{
    let b = encode_utf8(c);
    let prefix = varint_encoding(b.len() as i32);
    let s = string_encoding(c) + rest;
    assert(s =~= prefix + (b + rest));
    UVarInt::lemma_round_trip(b.len() as u32, b + rest);
    assert(s.subrange(prefix.len() as int, (prefix.len() + b.len()) as int) =~= b);
    encode_utf8_valid_utf8(c);
    encode_utf8_decode_utf8(c);
}


/// Two values back to back: `A`'s wire form, then `B`'s.
impl<A: Codec, B: Codec> Codec for (A, B) {
    open spec fn encodable(v: (A::V, B::V)) -> bool {
        A::encodable(v.0) && B::encodable(v.1)
    }

    open spec fn encoding(v: (A::V, B::V)) -> Seq<u8> {
        A::encoding(v.0) + B::encoding(v.1)
    }

    open spec fn parse(s: Seq<u8>) -> Result<((A::V, B::V), nat), ProtocolError> {
        match A::parse(s) {
            Ok((a, n)) => match B::parse(s.skip(n as int)) {
                Ok((b, m)) => Ok(((a, b), n + m)),
                Err(e) => Err(e),
            },
            Err(e) => Err(e),
        }
    }

    proof fn lemma_parse_extent(s: Seq<u8>) {
        A::lemma_parse_extent(s);
        if let Ok((a, n)) = A::parse(s) {
            B::lemma_parse_extent(s.skip(n as int));
        }
    }

    proof fn lemma_round_trip(v: (A::V, B::V), rest: Seq<u8>) {
        let ea = A::encoding(v.0);
        let eb = B::encoding(v.1);
        assert(ea + eb + rest =~= ea + (eb + rest));
        A::lemma_round_trip(v.0, eb + rest);
        assert((ea + (eb + rest)).skip(ea.len() as int) =~= eb + rest);
        B::lemma_round_trip(v.1, rest);
    }

    fn encode(&self, out: &mut Vec<u8>) {
        let ghost start = out@;
        self.0.encode(out);
        self.1.encode(out);
        assert(out@ =~= start + (A::encoding(self.0@) + B::encoding(self.1@)));
    }

    fn decode(buf: &[u8], pos: usize) -> (r: Result<((A, B), usize), ProtocolError>) {
        let ghost s = buf@.skip(pos as int);
        let total = buf.len();
        let (a, n) = match A::decode(buf, pos) {
            Ok(x) => x,
            Err(e) => {
                return Err(e);
            },
        };
        proof {
            A::lemma_parse_extent(s);
            assert(buf@.skip((pos + n) as int) =~= s.skip(n as int));
            B::lemma_parse_extent(s.skip(n as int));
        }
        let (b, m) = match B::decode(buf, pos + n) {
            Ok(x) => x,
            Err(e) => {
                return Err(e);
            },
        };
        Ok(((a, b), n + m))
    }
}

impl Codec for Byte {
    open spec fn encodable(v: u8) -> bool {
        true
    }

    open spec fn encoding(v: u8) -> Seq<u8> {
        seq![v]
    }

    open spec fn parse(s: Seq<u8>) -> Result<(u8, nat), ProtocolError> {
        if s.len() == 0 {
            Err(ProtocolError::Io)
        } else {
            Ok((s[0], 1))
        }
    }

    proof fn lemma_parse_extent(s: Seq<u8>) {
    }

    proof fn lemma_round_trip(v: u8, rest: Seq<u8>) {
    }

    fn encode(&self, out: &mut Vec<u8>) {
        out.push(self.0);
    }

    fn decode(buf: &[u8], pos: usize) -> (r: Result<(Byte, usize), ProtocolError>) {
        if pos < buf.len() {
            Ok((Byte(buf[pos]), 1))
        } else {
            Err(ProtocolError::Io)
        }
    }
}

impl Codec for StringProto {
    /// The byte count must fit a UVarInt.
    open spec fn encodable(v: Seq<char>) -> bool {
        encode_utf8(v).len() <= i32::MAX
    }

    open spec fn encoding(v: Seq<char>) -> Seq<u8> {
        string_encoding(v)
    }

    open spec fn parse(s: Seq<u8>) -> Result<(Seq<char>, nat), ProtocolError> {
        parse_string(s)
    }

    proof fn lemma_parse_extent(s: Seq<u8>) {
        UVarInt::lemma_parse_extent(s);
    }

    proof fn lemma_round_trip(v: Seq<char>, rest: Seq<u8>) {
        lemma_string_round_trip(v, rest);
    }

    fn encode(&self, out: &mut Vec<u8>) {
        let bytes = self.0.as_str().as_bytes();
        let ghost start = out@;
        UVarInt(bytes.len() as u32).encode(out);
        let ghost mid = out@;
        let mut i: usize = 0;
        while i < bytes.len()
            invariant
                i <= bytes@.len(),
                bytes@ == encode_utf8(self.0@),
                out@ == mid + bytes@.take(i as int),
            decreases bytes@.len() - i,
        {
            out.push(bytes[i]);
            assert(bytes@.take(i as int + 1) =~= bytes@.take(i as int).push(bytes@[i as int]));
            i = i + 1;
        }
        assert(bytes@.take(i as int) =~= bytes@);
    }

    fn decode(buf: &[u8], pos: usize) -> (r: Result<(StringProto, usize), ProtocolError>) {
        let ghost s = buf@.skip(pos as int);
        let (count, k) = match UVarInt::decode(buf, pos) {
            Ok(x) => x,
            Err(e) => {
                return Err(e);
            },
        };
        proof {
            UVarInt::lemma_parse_extent(s);
        }
        let n = count.0 as usize;
        if n > buf.len() - pos - k {
            return Err(ProtocolError::Io);
        }
        let start = pos + k;
        let mut bytes: Vec<u8> = Vec::new();
        let mut j: usize = 0;
        while j < n
            invariant
                j <= n,
                start + n <= buf@.len(),
                bytes@ == buf@.subrange(start as int, start + j),
            decreases n - j,
        {
            bytes.push(buf[start + j]);
            assert(buf@.subrange(start as int, start + j + 1) =~= buf@.subrange(
                start as int,
                start + j,
            ).push(buf@[start + j]));
            j = j + 1;
        }
        assert(bytes@ =~= s.subrange(k as int, k + n));
        match string_from_utf8(bytes) {
            Ok(text) => Ok((StringProto(text), k + n)),
            Err(_) => Err(ProtocolError::Utf8),
        }
    }
}

impl<T: Codec> Codec for PrefixedArray<T> {
    /// The declared count is the element count, fits a UVarInt, and every element is encodable.
    open spec fn encodable(v: (i32, Seq<T::V>)) -> bool {
        &&& v.0 == v.1.len()
        &&& v.1.len() <= i32::MAX
        &&& forall|i: int| 0 <= i < v.1.len() ==> T::encodable(#[trigger] v.1[i])
    }

    open spec fn encoding(v: (i32, Seq<T::V>)) -> Seq<u8> {
        varint_encoding(v.1.len() as i32) + elems_encoding::<T>(v.1)
    }

    open spec fn parse(s: Seq<u8>) -> Result<((i32, Seq<T::V>), nat), ProtocolError> {
        parse_array::<T>(s)
    }

    proof fn lemma_parse_extent(s: Seq<u8>) {
        UVarInt::lemma_parse_extent(s);
        if let Ok((c, k)) = parse_uvarint(s) {
            lemma_elems_extent::<T>(s.skip(k as int), c as nat);
        }
    }

    proof fn lemma_round_trip(v: (i32, Seq<T::V>), rest: Seq<u8>) {
        let vs = v.1;
        let prefix = varint_encoding(vs.len() as i32);
        let body = elems_encoding::<T>(vs);
        let s = prefix + body + rest;
        assert(s =~= prefix + (body + rest));
        UVarInt::lemma_round_trip(vs.len() as u32, body + rest);
        assert(s.skip(prefix.len() as int) =~= body + rest);
        lemma_elems_round_trip::<T>(vs, rest);
    }

    fn encode(&self, out: &mut Vec<u8>) {
        let ghost vs = self@.1;
        UVarInt(self.data.len() as u32).encode(out);
        let ghost mid = out@;
        let mut i: usize = 0;
        while i < self.data.len()
            invariant
                i <= self.data@.len(),
                vs == self.data@.map_values(|x: T| x@),
                forall|j: int| 0 <= j < vs.len() ==> T::encodable(#[trigger] vs[j]),
                out@ == mid + elems_encoding::<T>(vs.take(i as int)),
            decreases self.data@.len() - i,
        {
            assert(T::encodable(vs[i as int]));
            self.data[i].encode(out);
            assert(vs.take(i as int + 1).drop_last() =~= vs.take(i as int));
            assert(out@ =~= mid + elems_encoding::<T>(vs.take(i as int + 1)));
            i = i + 1;
        }
        assert(vs.take(i as int) =~= vs);
    }

    fn decode(buf: &[u8], pos: usize) -> (r: Result<(PrefixedArray<T>, usize), ProtocolError>) {
        let ghost s = buf@.skip(pos as int);
        let (count, k) = match UVarInt::decode(buf, pos) {
            Ok(x) => x,
            Err(e) => {
                return Err(e);
            },
        };
        proof {
            UVarInt::lemma_parse_extent(s);
        }
        let ghost body = s.skip(k as int);
        let total = buf.len();
        let mut data: Vec<T> = Vec::new();
        let mut used: usize = 0;
        let mut i: u32 = 0;
        proof {
            assert(body.skip(0) =~= body);
            if let Ok((vs, m)) = parse_elems::<T>(body, count.0 as nat) {
                assert(data@.map_values(|x: T| x@) + vs =~= vs);
            }
        }
        while i < count.0
            invariant
                pos <= buf@.len(),
                s == buf@.skip(pos as int),
                k <= s.len(),
                body == s.skip(k as int),
                i <= count.0,
                used <= body.len(),
                pos + k + used <= buf@.len(),
                buf@.len() == total,
                parse_uvarint(s) == Ok::<(u32, nat), ProtocolError>((count.0, k as nat)),
                parse_elems::<T>(body, count.0 as nat) == match parse_elems::<T>(
                    body.skip(used as int),
                    (count.0 - i) as nat,
                ) {
                    Ok((vs, m)) => Ok::<(Seq<T::V>, nat), ProtocolError>(
                        (data@.map_values(|x: T| x@) + vs, (used + m) as nat),
                    ),
                    Err(e) => Err(e),
                },
            decreases count.0 - i,
        {
            let ghost here = body.skip(used as int);
            assert(buf@.skip((pos + k + used) as int) =~= here);
            let (item, n) = match T::decode(buf, pos + k + used) {
                Ok(x) => x,
                Err(e) => {
                    assert(parse_elems::<T>(here, (count.0 - i) as nat) == Err::<
                        (Seq<T::V>, nat),
                        ProtocolError,
                    >(e));
                    assert(parse_elems::<T>(body, count.0 as nat) == Err::<
                        (Seq<T::V>, nat),
                        ProtocolError,
                    >(e));
                    assert(parse_array::<T>(s) == Err::<((i32, Seq<T::V>), nat), ProtocolError>(e));
                    return Err(e);
                },
            };
            proof {
                T::lemma_parse_extent(here);
                assert(here.skip(n as int) =~= body.skip(used + n));
            }
            let ghost before = data@.map_values(|x: T| x@);
            data.push(item);
            assert(data@.map_values(|x: T| x@) =~= before.push(item@));
            proof {
                let tail = parse_elems::<T>(body.skip(used + n), (count.0 - i - 1) as nat);
                if let Ok((vs, m)) = tail {
                    assert(before + (seq![item@] + vs) =~= before.push(item@) + vs);
                }
            }
            used = used + n;
            i = i + 1;
        }
        assert(data@.map_values(|x: T| x@) + Seq::<T::V>::empty() =~= data@.map_values(
            |x: T| x@,
        ));
        Ok((PrefixedArray { length: VarInt(count.0 as i32), data }, k + used))
    }
}

} // verus!
