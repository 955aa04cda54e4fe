use crate::codec::Codec;
use crate::error::{ProtocolError, ProtocolViolation};
use vstd::prelude::*;

verus! {

/// Longest legal VarInt, in bytes.
pub const VARINT_LENGTH: usize = 5;

/// Longest legal VarLong, in bytes.
pub const VARLONG_LENGTH: usize = 10;

/// The number that a little-endian base-128 byte run stands for: the low seven bits of
/// byte `i` weigh `128^i`.
pub open spec fn seven_bit_value(s: Seq<u8>) -> nat
    decreases s.len(),
{
    if s.len() == 0 {
        0
    } else {
        (s[0] % 128) as nat + 128 * seven_bit_value(s.drop_first())
    }
}

/// The base-128 wire form of `u`: seven bits per byte, low group first, the high bit of each
/// byte set when more bytes follow.
pub open spec fn var_encoding(u: nat) -> Seq<u8>
    decreases u,
{
    if u < 128 {
        seq![u as u8]
    } else {
        seq![(u % 128 + 128) as u8] + var_encoding(u / 128)
    }
}

/// How many bytes the continuation chain at the start of `s` takes when at most `limit`
/// bytes are allowed: the stream may end first (`Io`), or the chain may run past the
/// limit (`too_long`).
pub open spec fn var_extent(s: Seq<u8>, limit: nat, too_long: ProtocolViolation) -> Result<
    nat,
    ProtocolError,
>
    decreases limit,
{
    if limit == 0 {
        Err(ProtocolError::ProtocolViolation(too_long))
    } else if s.len() == 0 {
        Err(ProtocolError::Io)
    } else if s[0] < 128 {
        Ok(1)
    } else {
        match var_extent(s.drop_first(), (limit - 1) as nat, too_long) {
            Ok(n) => Ok(n + 1),
            Err(e) => Err(e),
        }
    }
}

/// The unsigned number read from the start of `s` and its length in bytes.
pub open spec fn parse_var(s: Seq<u8>, limit: nat, too_long: ProtocolViolation) -> Result<
    (nat, nat),
    ProtocolError,
> {
    match var_extent(s, limit, too_long) {
        Ok(n) => Ok((seven_bit_value(s.take(n as int)), n)),
        Err(e) => Err(e),
    }
}

/// The 32-bit VarInt at the start of `s`: the payload bits taken modulo `2^32` as two's
/// complement.
pub open spec fn parse_varint(s: Seq<u8>) -> Result<(i32, nat), ProtocolError> {
    match parse_var(s, VARINT_LENGTH as nat, ProtocolViolation::VarIntTooLong) {
        Ok((u, n)) => Ok(((u as u32) as i32, n)),
        Err(e) => Err(e),
    }
}

/// The 64-bit VarLong at the start of `s`.
pub open spec fn parse_varlong(s: Seq<u8>) -> Result<(i64, nat), ProtocolError> {
    match parse_var(s, VARLONG_LENGTH as nat, ProtocolViolation::VarLongTooLong) {
        Ok((u, n)) => Ok(((u as u64) as i64, n)),
        Err(e) => Err(e),
    }
}

/// The non-negative VarInt at the start of `s`; a negative one is refused.
pub open spec fn parse_uvarint(s: Seq<u8>) -> Result<(u32, nat), ProtocolError> {
    match parse_varint(s) {
        Ok((v, n)) => if v < 0 {
            Err(ProtocolError::ProtocolViolation(ProtocolViolation::NegativeUnsigned))
        } else {
            Ok((v as u32, n))
        },
        Err(e) => Err(e),
    }
}

/// Wire form of a VarInt: its two's-complement bit pattern, base 128.
pub open spec fn varint_encoding(v: i32) -> Seq<u8> {
    var_encoding((v as u32) as nat)
}

/// Wire form of a VarLong.
pub open spec fn varlong_encoding(v: i64) -> Seq<u8> {
    var_encoding((v as u64) as nat)
}

/// `128^i`, the weight of the `i`-th seven-bit group.
pub open spec fn pow(base: int, i: nat) -> int
    decreases i,
{
    if i == 0 {
        1
    } else {
        base * pow(base, (i - 1) as nat)
    }
}

proof fn lemma_weight_monotone(i: nat, j: nat)
    requires
        i <= j,
    ensures
        1 <= pow(128, i) <= pow(128, j),
    decreases j,
{
    if i < j {
        lemma_weight_monotone(i, (j - 1) as nat);
    } else if i > 0 {
        lemma_weight_monotone((i - 1) as nat, (i - 1) as nat);
    }
}

/// The powers of 128 that bound five- and ten-byte chains.
proof fn lemma_weights()
    ensures
        pow(128, 0) == 1,
        pow(128, 5) == 0x8_0000_0000,
        pow(128, 9) == 0x8000_0000_0000_0000,
        pow(128, 10) == 0x40_0000_0000_0000_0000,
{
    assert(pow(128, 0) == 1);
    assert(pow(128, 1) == 0x80);
    assert(pow(128, 2) == 0x4000);
    assert(pow(128, 3) == 0x20_0000);
    assert(pow(128, 4) == 0x1000_0000);
    assert(pow(128, 5) == 0x8_0000_0000);
    assert(pow(128, 6) == 0x400_0000_0000);
    assert(pow(128, 7) == 0x2_0000_0000_0000);
    assert(pow(128, 8) == 0x100_0000_0000_0000);
    assert(pow(128, 9) == 0x8000_0000_0000_0000);
    assert(pow(128, 10) == 0x40_0000_0000_0000_0000);
}

proof fn lemma_value_push(t: Seq<u8>, b: u8)
    ensures
        seven_bit_value(t.push(b)) == seven_bit_value(t) + (b % 128) as nat * pow(
            128,
            t.len(),
        ),
    decreases t.len(),
{
    let tb = t.push(b);
    assert(seven_bit_value(tb) == (tb[0] % 128) as nat + 128 * seven_bit_value(tb.drop_first()));
    if t.len() == 0 {
        assert(tb.drop_first() =~= Seq::<u8>::empty());
        lemma_weights();
    } else {
        assert(tb.drop_first() =~= t.drop_first().push(b));
        lemma_value_push(t.drop_first(), b);
        let p = pow(128, (t.len() - 1) as nat);
        assert(pow(128, t.len()) == 128 * p);
        let x = (b % 128) as nat;
        assert(128 * (x * p) == x * (128 * p)) by (nonlinear_arith);
    }
}

proof fn lemma_value_bound(t: Seq<u8>)
    ensures
        seven_bit_value(t) < pow(128, t.len()),
    decreases t.len(),
{
    if t.len() == 0 {
        lemma_weights();
    } else {
        lemma_value_bound(t.drop_first());
        let p = pow(128, (t.len() - 1) as nat);
        assert(pow(128, t.len()) == 128 * p);
        let v = seven_bit_value(t.drop_first());
        let x = (t[0] % 128) as nat;
        assert(x + 128 * v < 128 * p) by (nonlinear_arith)
            requires
                v < p,
                x < 128,
        ;
    }
}

proof fn lemma_encoding_len(u: nat, k: nat)
    requires
        u < pow(128, k),
        k >= 1,
    ensures
        1 <= var_encoding(u).len() <= k,
    decreases u,
{
    lemma_weights();
    if u >= 128 {
        assert(var_encoding(u) == seq![(u % 128 + 128) as u8] + var_encoding(u / 128));
        assert(pow(128, k) == 128 * pow(128, (k - 1) as nat));
        assert(u / 128 < pow(128, (k - 1) as nat)) by (nonlinear_arith)
            requires
                u < 128 * pow(128, (k - 1) as nat),
        ;
        lemma_encoding_len(u / 128, (k - 1) as nat);
    }
}

/// Base-128 decoding inverts base-128 encoding, and the chain ends where the encoding does.
proof fn lemma_var_round_trip(u: nat, rest: Seq<u8>, limit: nat, too_long: ProtocolViolation)
    requires
        var_encoding(u).len() <= limit,
    ensures
        var_extent(var_encoding(u) + rest, limit, too_long) == Ok::<nat, ProtocolError>(
            var_encoding(u).len(),
        ),
        seven_bit_value(var_encoding(u)) == u,
    decreases u,
{
    let s = var_encoding(u) + rest;
    let e = var_encoding(u);
    assert(seven_bit_value(e) == (e[0] % 128) as nat + 128 * seven_bit_value(e.drop_first()));
    if u < 128 {
        assert(var_encoding(u).drop_first() =~= Seq::<u8>::empty());
        assert(var_encoding(u)[0] == u as u8);
    } else {
        assert(var_encoding(u) == seq![(u % 128 + 128) as u8] + var_encoding(u / 128));
        assert(var_encoding(u)[0] == (u % 128 + 128) as u8);
        assert(u == u % 128 + 128 * (u / 128));
        lemma_var_round_trip(u / 128, rest, (limit - 1) as nat, too_long);
        assert(s.drop_first() =~= var_encoding(u / 128) + rest);
        assert(var_encoding(u).drop_first() =~= var_encoding(u / 128));
    }
}

proof fn lemma_parse_var_round_trip(u: nat, rest: Seq<u8>, limit: nat, too_long: ProtocolViolation)
    requires
        var_encoding(u).len() <= limit,
    ensures
        parse_var(var_encoding(u) + rest, limit, too_long) == Ok::<(nat, nat), ProtocolError>(
            (u, var_encoding(u).len()),
        ),
{
    lemma_var_round_trip(u, rest, limit, too_long);
    let s = var_encoding(u) + rest;
    assert(s.take(var_encoding(u).len() as int) =~= var_encoding(u));
}

proof fn lemma_var_extent_bounds(s: Seq<u8>, limit: nat, too_long: ProtocolViolation)
    ensures
        match var_extent(s, limit, too_long) {
            Ok(n) => 0 < n <= s.len() && n <= limit,
            Err(_) => true,
        },
    decreases limit,
{
    if limit > 0 && s.len() > 0 && s[0] >= 128 {
        lemma_var_extent_bounds(s.drop_first(), (limit - 1) as nat, too_long);
    }
}

/// The VarInt round trip: decoding the encoding of any `i32` gives it back.
pub proof fn lemma_varint_round_trip(v: i32, rest: Seq<u8>)
    ensures
        parse_varint(varint_encoding(v) + rest) == Ok::<(i32, nat), ProtocolError>(
            (v, varint_encoding(v).len()),
        ),
{
    let u = (v as u32) as nat;
    lemma_weights();
    lemma_encoding_len(u, 5);
    lemma_parse_var_round_trip(u, rest, 5, ProtocolViolation::VarIntTooLong);
    assert(((v as u32) as i32) == v) by (bit_vector);
}

/// The VarLong round trip: decoding the encoding of any `i64` gives it back.
pub proof fn lemma_varlong_round_trip(v: i64, rest: Seq<u8>)
    ensures
        parse_varlong(varlong_encoding(v) + rest) == Ok::<(i64, nat), ProtocolError>(
            (v, varlong_encoding(v).len()),
        ),
{
    let u = (v as u64) as nat;
    lemma_weights();
    lemma_encoding_len(u, 10);
    lemma_parse_var_round_trip(u, rest, 10, ProtocolViolation::VarLongTooLong);
    assert(((v as u64) as i64) == v) by (bit_vector);
}

/// Appends the base-128 form of `u`.
fn write_var(u: u64, out: &mut Vec<u8>)
    ensures
        final(out)@ == old(out)@ + var_encoding(u as nat),
{
    let mut value: u64 = u;
    loop
        invariant
            out@ + var_encoding(value as nat) == old(out)@ + var_encoding(u as nat),
        decreases value,
    {
        let low = (value % 128) as u8;
        let rest = value / 128;
        proof {
            let e = var_encoding(value as nat);
            if value < 128 {
                assert(e == seq![value as u8]);
            } else {
                assert(e == seq![(value % 128 + 128) as u8] + var_encoding(rest as nat));
            }
        }
        if rest == 0 {
            out.push(low);
            return ;
        }
        let ghost before = out@;
        out.push(low + 128);
        assert(before + var_encoding(value as nat) =~= out@ + var_encoding(rest as nat));
        value = rest;
    }
}

/// Reads a base-128 number of at most `limit` bytes from `buf` at `pos`.
fn read_var(buf: &[u8], pos: usize, limit: usize, too_long: ProtocolViolation) -> (r: Result<
    (u128, usize),
    ProtocolError,
>)
    requires
        pos <= buf@.len(),
        1 <= limit <= VARLONG_LENGTH,
    ensures
        match parse_var(buf@.skip(pos as int), limit as nat, too_long) {
            Ok((u, n)) => r matches Ok((a, k)) && a == u && k == n && n <= limit,
            Err(e) => r == Err::<(u128, usize), ProtocolError>(e),
        },
{
    let ghost s = buf@.skip(pos as int);
    proof {
        lemma_var_extent_bounds(s, limit as nat, too_long);
    }
    let mut i: usize = 0;
    let mut acc: u128 = 0;
    let mut weight: u128 = 1;
    proof {
        assert(s.take(0) =~= Seq::<u8>::empty());
        lemma_weights();
        assert(s.skip(0) =~= s);
    }
    loop
        invariant
            s == buf@.skip(pos as int),
            pos <= buf@.len(),
            1 <= limit <= VARLONG_LENGTH,
            i < limit,
            i <= s.len(),
            acc as nat == seven_bit_value(s.take(i as int)),
            weight as int == pow(128, i as nat),
            var_extent(s, limit as nat, too_long) == match var_extent(
                s.skip(i as int),
                (limit - i) as nat,
                too_long,
            ) {
                Ok(n) => Ok::<nat, ProtocolError>((n + i) as nat),
                Err(e) => Err::<nat, ProtocolError>(e),
            },
            forall|j: int| 0 <= j < i ==> s[j] >= 128,
        decreases limit - i,
    {
        proof {
            lemma_weights();
            lemma_weight_monotone(i as nat, 9);
            lemma_value_bound(s.take(i as int));
        }
        if i >= buf.len() - pos {
            proof {
                assert(s.skip(i as int).len() == 0);
            }
            return Err(ProtocolError::Io);
        }
        let byte = buf[pos + i];
        let group = (byte % 128) as u128;
        proof {
            assert(s.skip(i as int)[0] == byte);
            assert(s.take(i as int + 1) =~= s.take(i as int).push(byte));
            lemma_value_push(s.take(i as int), byte);
            assert(group * weight <= 127 * 0x8000_0000_0000_0000) by (nonlinear_arith)
                requires
                    group < 128,
                    weight <= 0x8000_0000_0000_0000,
            ;
        }
        acc = acc + group * weight;
        if byte < 128 {
            proof {
                lemma_value_bound(s.take(i as int + 1));
                lemma_weight_monotone(i as nat + 1, 10);
                lemma_weights();
                assert(var_extent(s.skip(i as int), (limit - i) as nat, too_long) == Ok::<
                    nat,
                    ProtocolError,
                >(1));
            }
            return Ok((acc, i + 1));
        }
        if i + 1 >= limit {
            proof {
                assert(s.skip(i as int).drop_first() =~= s.skip(i as int + 1));
                assert(var_extent(s.skip(i as int + 1), 0, too_long) == Err::<nat, ProtocolError>(
                    ProtocolError::ProtocolViolation(too_long),
                ));
            }
            return Err(ProtocolError::ProtocolViolation(too_long));
        }
        proof {
            assert(s.skip(i as int).drop_first() =~= s.skip(i as int + 1));
            assert(pow(128, (i + 1) as nat) == 128 * pow(128, i as nat));
        }
        i = i + 1;
        weight = weight * 128;
    }
}

/// A signed 32-bit integer on the wire as a little-endian base-128 chain of one to five bytes.
#[derive(Debug, Clone, Copy, PartialEq, Eq, Structural)]
pub struct VarInt(pub i32);

/// A signed 64-bit integer on the wire as a little-endian base-128 chain of one to ten bytes.
#[derive(Debug, Clone, Copy, PartialEq, Eq, Structural)]
pub struct VarLong(pub i64);

/// A non-negative 32-bit integer on the wire as a VarInt; values read back negative are refused.
#[derive(Debug, Clone, Copy, PartialEq, Eq, Structural)]
pub struct UVarInt(pub u32);

impl View for VarInt {
    type V = i32;

    open spec fn view(&self) -> i32 {
        self.0
    }
}

impl View for VarLong {
    type V = i64;

    open spec fn view(&self) -> i64 {
        self.0
    }
}

impl View for UVarInt {
    type V = u32;

    open spec fn view(&self) -> u32 {
        self.0
    }
}

impl VarInt {
    /// The wrapped integer.
    pub fn deref(&self) -> (r: &i32)
        ensures
            *r == self.0,
    {
        &self.0
    }
}

impl VarLong {
    /// The wrapped integer.
    pub fn deref(&self) -> (r: &i64)
        ensures
            *r == self.0,
    {
        &self.0
    }
}

impl Codec for VarInt {
    open spec fn encodable(v: i32) -> bool {
        true
    }

    open spec fn encoding(v: i32) -> Seq<u8> {
        varint_encoding(v)
    }

    open spec fn parse(s: Seq<u8>) -> Result<(i32, nat), ProtocolError> {
        parse_varint(s)
    }

    proof fn lemma_parse_extent(s: Seq<u8>) {
        lemma_var_extent_bounds(s, VARINT_LENGTH as nat, ProtocolViolation::VarIntTooLong);
    }

    proof fn lemma_round_trip(v: i32, rest: Seq<u8>) {
        lemma_varint_round_trip(v, rest);
    }

    fn encode(&self, out: &mut Vec<u8>) {
        let ghost start = out@;
        let bits: u32 = #[verifier::truncate] (self.0 as u32);
        write_var(bits as u64, out);
        assert(out@ == start + var_encoding(bits as nat));
        assert(bits as nat == (self.0 as u32) as nat);
        assert(<VarInt as Codec>::encoding(self@) == varint_encoding(self.0));
    }

    fn decode(buf: &[u8], pos: usize) -> (r: Result<(VarInt, usize), ProtocolError>) {
        match read_var(buf, pos, VARINT_LENGTH, ProtocolViolation::VarIntTooLong) {
            Ok((u, n)) => Ok((VarInt(#[verifier::truncate] ((#[verifier::truncate] (u as u32)) as i32)), n)),
            Err(e) => Err(e),
        }
    }
}

impl Codec for VarLong {
    open spec fn encodable(v: i64) -> bool {
        true
    }

    open spec fn encoding(v: i64) -> Seq<u8> {
        varlong_encoding(v)
    }

    open spec fn parse(s: Seq<u8>) -> Result<(i64, nat), ProtocolError> {
        parse_varlong(s)
    }

    proof fn lemma_parse_extent(s: Seq<u8>) {
        lemma_var_extent_bounds(s, VARLONG_LENGTH as nat, ProtocolViolation::VarLongTooLong);
    }

    proof fn lemma_round_trip(v: i64, rest: Seq<u8>) {
        lemma_varlong_round_trip(v, rest);
    }

    fn encode(&self, out: &mut Vec<u8>) {
        write_var(#[verifier::truncate] (self.0 as u64), out);
    }

    fn decode(buf: &[u8], pos: usize) -> (r: Result<(VarLong, usize), ProtocolError>) {
        match read_var(buf, pos, VARLONG_LENGTH, ProtocolViolation::VarLongTooLong) {
            Ok((u, n)) => Ok((VarLong(#[verifier::truncate] ((#[verifier::truncate] (u as u64)) as i64)), n)),
            Err(e) => Err(e),
        }
    }
}

impl Codec for UVarInt {
    /// Only values that stay non-negative as a VarInt come back from the wire.
    open spec fn encodable(v: u32) -> bool {
        v <= i32::MAX
    }

    open spec fn encoding(v: u32) -> Seq<u8> {
        varint_encoding(v as i32)
    }

    open spec fn parse(s: Seq<u8>) -> Result<(u32, nat), ProtocolError> {
        parse_uvarint(s)
    }

    proof fn lemma_parse_extent(s: Seq<u8>) {
        lemma_var_extent_bounds(s, VARINT_LENGTH as nat, ProtocolViolation::VarIntTooLong);
    }

    proof fn lemma_round_trip(v: u32, rest: Seq<u8>) {
        lemma_varint_round_trip(v as i32, rest);
    }

    fn encode(&self, out: &mut Vec<u8>) {
        VarInt(#[verifier::truncate] (self.0 as i32)).encode(out);
    }

    fn decode(buf: &[u8], pos: usize) -> (r: Result<(UVarInt, usize), ProtocolError>) {
        match VarInt::decode(buf, pos) {
            Ok((v, n)) => {
                if v.0 < 0 {
                    Err(ProtocolError::ProtocolViolation(ProtocolViolation::NegativeUnsigned))
                } else {
                    Ok((UVarInt(v.0 as u32), n))
                }
            },
            Err(e) => Err(e),
        }
    }
}

} // verus!
