//! Big-endian wire encoding.
//!
//! [`Encode`] and [`Decode`] tie the executable code to the bytes that a value
//! is spelled with: `encoding` gives the bytes of a value, `decoding` gives the
//! value that the front of some bytes spells.

use vstd::arithmetic::power::pow;
use vstd::prelude::*;

verus! {

/// Why bytes could not be decoded.
#[derive(Clone, Copy, Debug, PartialEq, Eq, Structural)]
pub enum DecodeError {
    /// The bytes end before the value does.
    UnexpectedEnd,
    /// A value announces another size than its kind has.
    SizeMismatch,
}

/// The `width` bytes of `x`, most significant first; higher bytes are cut off.
pub open spec fn be_bytes(x: nat, width: nat) -> Seq<u8>
    decreases width,
{
    if width == 0 {
        Seq::empty()
    } else {
        be_bytes(x / 256, (width - 1) as nat).push((x % 256) as u8)
    }
}

/// The number that `bytes` spell, most significant byte first.
pub open spec fn be_value(bytes: Seq<u8>) -> nat
    decreases bytes.len(),
{
    if bytes.len() == 0 {
        0
    } else {
        be_value(bytes.drop_last()) * 256 + bytes.last() as nat
    }
}

/// The 64-bit two's complement pattern of `x`, as a number.
pub open spec fn twos_complement(x: i64) -> nat {
    if x < 0 {
        (x + 0x1_0000_0000_0000_0000) as nat
    } else {
        x as nat
    }
}

/// The signed number whose 64-bit two's complement pattern is `bits`.
pub open spec fn from_twos_complement(bits: nat) -> int {
    if bits < 0x8000_0000_0000_0000 {
        bits as int
    } else {
        bits - 0x1_0000_0000_0000_0000
    }
}

/// `be_bytes` has the width that was asked for.
pub proof fn lemma_be_bytes_len(x: nat, width: nat)
    ensures
        be_bytes(x, width).len() == width,
    decreases width,
{
    if width > 0 {
        lemma_be_bytes_len(x / 256, (width - 1) as nat);
    }
}

/// What `bytes` spell fits in as many bytes.
pub proof fn lemma_be_value_bound(bytes: Seq<u8>)
    ensures
        be_value(bytes) < pow(256, bytes.len()),
    decreases bytes.len(),
{
    reveal(pow);
    if bytes.len() > 0 {
        lemma_be_value_bound(bytes.drop_last());
    }
}

/// Reading back a number that fits gives the number.
pub proof fn lemma_be_value_of_bytes(x: nat, width: nat)
    requires
        x < pow(256, width),
    ensures
        be_value(be_bytes(x, width)) == x,
    decreases width,
{
    reveal(pow);
    if width > 0 {
        let high = be_bytes(x / 256, (width - 1) as nat);
        lemma_be_value_of_bytes(x / 256, (width - 1) as nat);
        assert(be_bytes(x, width).drop_last() == high);
    }
}

/// Writing what bytes spell gives the bytes.
pub proof fn lemma_be_bytes_of_value(bytes: Seq<u8>)
    ensures
        be_bytes(be_value(bytes), bytes.len()) == bytes,
    decreases bytes.len(),
{
    if bytes.len() > 0 {
        lemma_be_bytes_of_value(bytes.drop_last());
        assert(bytes == bytes.drop_last().push(bytes.last()));
    } else {
        assert(bytes == Seq::<u8>::empty());
    }
}

/// The powers of 256 that bound the widths in use.
pub proof fn lemma_widths()
    ensures
        pow(256, 0) == 1,
        pow(256, 1) == 0x100,
        pow(256, 2) == 0x1_0000,
        pow(256, 4) == 0x1_0000_0000,
        pow(256, 8) == 0x1_0000_0000_0000_0000,
        forall|n: nat| n <= 8 ==> #[trigger] pow(256, n) <= 0x1_0000_0000_0000_0000,
{
    reveal(pow);
    reveal_with_fuel(pow, 10);
}

/// Appends the `width` bytes of `x`.
pub(crate) fn push_be(x: u64, width: usize, out: &mut Vec<u8>)
    ensures
        final(out)@ == old(out)@ + be_bytes(x as nat, width as nat),
    decreases width,
{
    if width > 0 {
        push_be(x / 256, width - 1, out);
        out.push((x % 256) as u8);
    }
}

/// Reads the number that the first `width` bytes spell.
pub(crate) fn read_be(bytes: &[u8], width: usize) -> (x: u64)
    requires
        width <= 8,
        width <= bytes@.len(),
    ensures
        x == be_value(bytes@.take(width as int)),
        x < pow(256, width as nat),
    decreases width,
{
    proof {
        lemma_widths();
        lemma_be_value_bound(bytes@.take(width as int));
    }
    if width == 0 {
        0
    } else {
        let high = read_be(bytes, width - 1);
        proof {
            let all = bytes@.take(width as int);
            assert(all.drop_last() == bytes@.take(width - 1));
            assert(all.last() == bytes@[width - 1]);
        }
        high * 256 + bytes[width - 1] as u64
    }
}

/// A value that has a wire encoding.
pub trait Encode {
    /// The bytes that spell the value.
    spec fn encoding(&self) -> Seq<u8>;

    /// Appends the encoding of the value to `out`.
    fn encode_to(&self, out: &mut Vec<u8>)
        ensures
            final(out)@ == old(out)@ + self.encoding(),
    ;

    /// The number of bytes that `encode_to` appends.
    fn encoded_size(&self) -> (size: usize)
        ensures
            size == self.encoding().len(),
    ;
}

/// A value that can be read from the front of some bytes.
pub trait Decode: Sized {
    /// The value at the front of `bytes` and the number of bytes it takes, or
    /// `None` where the bytes end before the value does.
    spec fn decoding(bytes: Seq<u8>) -> Option<(Self, nat)>;

    /// Reads the value at the front of `bytes`.
    fn decode_from(bytes: &[u8]) -> (decoded: Result<(Self, usize), DecodeError>)
        ensures
            match Self::decoding(bytes@) {
                Some((value, size)) => size <= bytes@.len() && decoded == Ok::<
                    (Self, usize),
                    DecodeError,
                >((value, size as usize)),
                None => decoded == Err::<(Self, usize), DecodeError>(DecodeError::UnexpectedEnd),
            },
    ;
}

/// The encoding of `value` as a vector of its own.
pub fn encode_to_vec<T: Encode>(value: &T) -> (encoded: Vec<u8>)
    ensures
        encoded@ == value.encoding(),
{
    let mut encoded: Vec<u8> = Vec::with_capacity(value.encoded_size());
    value.encode_to(&mut encoded);
    encoded
}

impl Encode for u8 {
    open spec fn encoding(&self) -> Seq<u8> {
        be_bytes(*self as nat, 1)
    }

    fn encode_to(&self, out: &mut Vec<u8>) {
        push_be(*self as u64, 1, out);
    }

    fn encoded_size(&self) -> usize {
        proof {
            lemma_be_bytes_len(*self as nat, 1);
        }
        1
    }
}

impl Decode for u8 {
    open spec fn decoding(bytes: Seq<u8>) -> Option<(Self, nat)> {
        if bytes.len() >= 1 {
            Some((be_value(bytes.take(1)) as u8, 1))
        } else {
            None
        }
    }

    fn decode_from(bytes: &[u8]) -> Result<(Self, usize), DecodeError> {
        if bytes.len() < 1 {
            return Err(DecodeError::UnexpectedEnd);
        }
        proof {
            lemma_widths();
        }
        Ok((read_be(bytes, 1) as u8, 1))
    }
}

impl Encode for u16 {
    open spec fn encoding(&self) -> Seq<u8> {
        be_bytes(*self as nat, 2)
    }

    fn encode_to(&self, out: &mut Vec<u8>) {
        push_be(*self as u64, 2, out);
    }

    fn encoded_size(&self) -> usize {
        proof {
            lemma_be_bytes_len(*self as nat, 2);
        }
        2
    }
}

impl Decode for u16 {
    open spec fn decoding(bytes: Seq<u8>) -> Option<(Self, nat)> {
        if bytes.len() >= 2 {
            Some((be_value(bytes.take(2)) as u16, 2))
        } else {
            None
        }
    }

    fn decode_from(bytes: &[u8]) -> Result<(Self, usize), DecodeError> {
        if bytes.len() < 2 {
            return Err(DecodeError::UnexpectedEnd);
        }
        proof {
            lemma_widths();
        }
        Ok((read_be(bytes, 2) as u16, 2))
    }
}

impl Encode for u32 {
    open spec fn encoding(&self) -> Seq<u8> {
        be_bytes(*self as nat, 4)
    }

    fn encode_to(&self, out: &mut Vec<u8>) {
        push_be(*self as u64, 4, out);
    }

    fn encoded_size(&self) -> usize {
        proof {
            lemma_be_bytes_len(*self as nat, 4);
        }
        4
    }
}

impl Decode for u32 {
    open spec fn decoding(bytes: Seq<u8>) -> Option<(Self, nat)> {
        if bytes.len() >= 4 {
            Some((be_value(bytes.take(4)) as u32, 4))
        } else {
            None
        }
    }

    fn decode_from(bytes: &[u8]) -> Result<(Self, usize), DecodeError> {
        if bytes.len() < 4 {
            return Err(DecodeError::UnexpectedEnd);
        }
        proof {
            lemma_widths();
        }
        Ok((read_be(bytes, 4) as u32, 4))
    }
}

impl Encode for i64 {
    open spec fn encoding(&self) -> Seq<u8> {
        be_bytes(twos_complement(*self), 8)
    }

    fn encode_to(&self, out: &mut Vec<u8>) {
        let x: i64 = *self;
        let bits: u64 = x as u64;
        proof {
            lemma_twos_complement(x);
        }
        push_be(bits, 8, out);
    }

    fn encoded_size(&self) -> usize {
        proof {
            lemma_be_bytes_len(twos_complement(*self), 8);
        }
        8
    }
}

impl Decode for i64 {
    open spec fn decoding(bytes: Seq<u8>) -> Option<(Self, nat)> {
        if bytes.len() >= 8 {
            Some((from_twos_complement(be_value(bytes.take(8))) as i64, 8))
        } else {
            None
        }
    }

    fn decode_from(bytes: &[u8]) -> Result<(Self, usize), DecodeError> {
        if bytes.len() < 8 {
            return Err(DecodeError::UnexpectedEnd);
        }
        let bits: u64 = read_be(bytes, 8);
        proof {
            lemma_from_twos_complement(bits);
        }
        Ok((bits as i64, 8))
    }
}

/// Casting a signed number to unsigned gives its two's complement pattern.
proof fn lemma_twos_complement(x: i64)
    ensures
        x as u64 == twos_complement(x),
        from_twos_complement(twos_complement(x)) == x,
{
    assert(x < 0 ==> (x as u64) == x + 0x1_0000_0000_0000_0000) by (bit_vector);
    assert(x >= 0 ==> (x as u64) == x) by (bit_vector);
}

/// Casting an unsigned number to signed reads it as a two's complement
/// pattern.
proof fn lemma_from_twos_complement(bits: u64)
    ensures
        bits as i64 == from_twos_complement(bits as nat),
{
    assert(bits < 0x8000_0000_0000_0000 ==> (bits as i64) == bits) by (bit_vector);
    assert(bits >= 0x8000_0000_0000_0000 ==> (bits as i64) == bits - 0x1_0000_0000_0000_0000)
        by (bit_vector);
}

/// Decoding what an unsigned number was encoded to, whatever bytes follow,
/// gives the number and the size of its encoding.
pub proof fn law_unsigned_roundtrip(a: u8, b: u16, c: u32, rest: Seq<u8>)
    ensures
        u8::decoding(a.encoding() + rest) == Some((a, 1nat)),
        u16::decoding(b.encoding() + rest) == Some((b, 2nat)),
        u32::decoding(c.encoding() + rest) == Some((c, 4nat)),
{
    lemma_widths();
    lemma_be_bytes_len(a as nat, 1);
    lemma_be_bytes_len(b as nat, 2);
    lemma_be_bytes_len(c as nat, 4);
    lemma_be_value_of_bytes(a as nat, 1);
    lemma_be_value_of_bytes(b as nat, 2);
    lemma_be_value_of_bytes(c as nat, 4);
    assert((a.encoding() + rest).take(1) == a.encoding());
    assert((b.encoding() + rest).take(2) == b.encoding());
    assert((c.encoding() + rest).take(4) == c.encoding());
}

/// Decoding what a signed number was encoded to, whatever bytes follow, gives
/// the number and the size of its encoding.
pub proof fn law_signed_roundtrip(x: i64, rest: Seq<u8>)
    ensures
        i64::decoding(x.encoding() + rest) == Some((x, 8nat)),
{
    lemma_widths();
    lemma_twos_complement(x);
    lemma_be_bytes_len(twos_complement(x), 8);
    lemma_be_value_of_bytes(twos_complement(x), 8);
    assert((x.encoding() + rest).take(8) == x.encoding());
}

/// Two, four and eight bytes of a number, one by one.
pub(crate) proof fn lemma_be_bytes_listed(x: nat)
    ensures
        be_bytes(x, 1) == seq![(x % 256) as u8],
        be_bytes(x, 2) == seq![(x / 0x100 % 256) as u8, (x % 256) as u8],
        be_bytes(x, 4) == seq![
            (x / 0x100_0000 % 256) as u8,
            (x / 0x1_0000 % 256) as u8,
            (x / 0x100 % 256) as u8,
            (x % 256) as u8,
        ],
        be_bytes(x, 8) == seq![
            (x / 0x100_0000_0000_0000 % 256) as u8,
            (x / 0x1_0000_0000_0000 % 256) as u8,
            (x / 0x100_0000_0000 % 256) as u8,
            (x / 0x1_0000_0000 % 256) as u8,
            (x / 0x100_0000 % 256) as u8,
            (x / 0x1_0000 % 256) as u8,
            (x / 0x100 % 256) as u8,
            (x % 256) as u8,
        ],
{
    reveal_with_fuel(be_bytes, 9);
}

/// What one, two, four and eight bytes spell.
pub(crate) proof fn lemma_be_value_listed(b: Seq<u8>)
    ensures
        b.len() == 1 ==> be_value(b) == b[0],
        b.len() == 2 ==> be_value(b) == b[0] * 0x100 + b[1],
        b.len() == 4 ==> be_value(b) == b[0] * 0x100_0000 + b[1] * 0x1_0000 + b[2] * 0x100
            + b[3],
        b.len() == 8 ==> be_value(b) == b[0] * 0x100_0000_0000_0000 + b[1] * 0x1_0000_0000_0000
            + b[2] * 0x100_0000_0000 + b[3] * 0x1_0000_0000 + b[4] * 0x100_0000 + b[5] * 0x1_0000
            + b[6] * 0x100 + b[7],
{
    reveal_with_fuel(be_value, 9);
}

/// Numbers are written most significant byte first.
pub proof fn law_numbers_written(
    a: u8,
    b: u16,
    c: u32,
    bytes_a: Vec<u8>,
    bytes_b: Vec<u8>,
    bytes_c: Vec<u8>,
)
    requires
        call_ensures(encode_to_vec::<u8>, (&a,), bytes_a),
        call_ensures(encode_to_vec::<u16>, (&b,), bytes_b),
        call_ensures(encode_to_vec::<u32>, (&c,), bytes_c),
    ensures
        bytes_a@ == seq![a],
        bytes_b@ == seq![(b / 0x100) as u8, (b % 0x100) as u8],
        bytes_c@ == seq![
            (c / 0x100_0000) as u8,
            (c / 0x1_0000 % 0x100) as u8,
            (c / 0x100 % 0x100) as u8,
            (c % 0x100) as u8,
        ],
{
    lemma_be_bytes_listed(a as nat);
    lemma_be_bytes_listed(b as nat);
    lemma_be_bytes_listed(c as nat);
}

/// A signed number is written as eight bytes, most significant first; a negative
/// one as what it lacks to the power of 2 above them.
pub proof fn law_signed_written(x: i64, bytes: Vec<u8>)
    requires
        call_ensures(encode_to_vec::<i64>, (&x,), bytes),
    ensures
        bytes@.len() == 8,
        ({
            let b = bytes@;
            b[0] * 0x100_0000_0000_0000 + b[1] * 0x1_0000_0000_0000 + b[2] * 0x100_0000_0000
                + b[3] * 0x1_0000_0000 + b[4] * 0x100_0000 + b[5] * 0x1_0000 + b[6] * 0x100
                + b[7] == if x < 0 {
                x + 0x1_0000_0000_0000_0000
            } else {
                x as int
            }
        }),
{
    lemma_widths();
    lemma_be_bytes_len(twos_complement(x), 8);
    lemma_be_value_of_bytes(twos_complement(x), 8);
    lemma_be_value_listed(bytes@);
}

/// A number is read from the front of some bytes, most significant byte first, and
/// takes as many bytes as its type has. It is not read just where there are fewer.
pub proof fn law_numbers_read(
    bytes: &[u8],
    a: Result<(u8, usize), DecodeError>,
    b: Result<(u16, usize), DecodeError>,
    c: Result<(u32, usize), DecodeError>,
    d: Result<(i64, usize), DecodeError>,
)
    requires
        call_ensures(u8::decode_from, (bytes,), a),
        call_ensures(u16::decode_from, (bytes,), b),
        call_ensures(u32::decode_from, (bytes,), c),
        call_ensures(i64::decode_from, (bytes,), d),
    ensures
        match a {
            Ok((x, n)) => n == 1 && bytes@.len() >= 1 && x == bytes@[0],
            Err(error) => bytes@.len() < 1 && error is UnexpectedEnd,
        },
        match b {
            Ok((x, n)) => n == 2 && bytes@.len() >= 2 && x == bytes@[0] * 0x100 + bytes@[1],
            Err(error) => bytes@.len() < 2 && error is UnexpectedEnd,
        },
        match c {
            Ok((x, n)) => n == 4 && bytes@.len() >= 4 && x == bytes@[0] * 0x100_0000 + bytes@[1]
                * 0x1_0000 + bytes@[2] * 0x100 + bytes@[3],
            Err(error) => bytes@.len() < 4 && error is UnexpectedEnd,
        },
        match d {
            Ok((x, n)) => {
                let value = bytes@[0] * 0x100_0000_0000_0000 + bytes@[1] * 0x1_0000_0000_0000
                    + bytes@[2] * 0x100_0000_0000 + bytes@[3] * 0x1_0000_0000 + bytes@[4]
                    * 0x100_0000 + bytes@[5] * 0x1_0000 + bytes@[6] * 0x100 + bytes@[7];
                &&& n == 8
                &&& bytes@.len() >= 8
                &&& x == if bytes@[0] < 128 {
                    value
                } else {
                    value - 0x1_0000_0000_0000_0000
                }
            },
            Err(error) => bytes@.len() < 8 && error is UnexpectedEnd,
        },
{
    lemma_be_value_listed(bytes@.take(1));
    lemma_be_value_listed(bytes@.take(2));
    lemma_be_value_listed(bytes@.take(4));
    lemma_be_value_listed(bytes@.take(8));
}

} // verus!
