//! Node identifiers.

use crate::encoding::{
    be_bytes, be_value, encode_to_vec, lemma_be_bytes_len, lemma_be_bytes_of_value, lemma_be_value_listed,
    lemma_be_value_of_bytes, lemma_widths, push_be,
    read_be, Decode, DecodeError, Encode,
};
use std::cmp::Ordering;
use vstd::prelude::*;

verus! {

/// The identifier of a node: eight bytes, held as the number that they spell
/// most significant byte first.
#[derive(Clone, Copy, Debug, PartialEq, Eq, Structural, Hash)]
pub struct NodeId(pub u64);

/// The lower-case hexadecimal digit of a number below 16.
pub open spec fn hex_digit(d: int) -> char {
    if d < 10 {
        ('0' as int + d) as char
    } else {
        ('a' as int + d - 10) as char
    }
}

/// The lower-case hexadecimal digits of `bytes`, two for each byte.
pub open spec fn hex(bytes: Seq<u8>) -> Seq<char> {
    Seq::new(
        2 * bytes.len(),
        |i: int|
            if i % 2 == 0 {
                hex_digit(bytes[i / 2] as int / 16)
            } else {
                hex_digit(bytes[i / 2] as int % 16)
            },
    )
}

/// Whether `a` comes before `b` in the order that compares byte by byte.
pub open spec fn lexicographically_before(a: Seq<u8>, b: Seq<u8>) -> bool {
    exists|i: int|
        0 <= i < a.len() && a.take(i) == b.take(i) && #[trigger] a[i] < b[i]
}

/// The text of one hexadecimal digit.
fn hex_digit_text(d: u8) -> (text: &'static str)
    requires
        d < 16,
    ensures
        text@ == seq![hex_digit(d as int)],
{
    proof {
        reveal_strlit("0");
        reveal_strlit("1");
        reveal_strlit("2");
        reveal_strlit("3");
        reveal_strlit("4");
        reveal_strlit("5");
        reveal_strlit("6");
        reveal_strlit("7");
        reveal_strlit("8");
        reveal_strlit("9");
        reveal_strlit("a");
        reveal_strlit("b");
        reveal_strlit("c");
        reveal_strlit("d");
        reveal_strlit("e");
        reveal_strlit("f");
    }
    match d {
        0 => "0",
        1 => "1",
        2 => "2",
        3 => "3",
        4 => "4",
        5 => "5",
        6 => "6",
        7 => "7",
        8 => "8",
        9 => "9",
        10 => "a",
        11 => "b",
        12 => "c",
        13 => "d",
        14 => "e",
        _ => "f",
    }
}

impl NodeId {
    /// The eight bytes of the identifier.
    pub open spec fn bytes(self) -> Seq<u8> {
        be_bytes(self.0 as nat, 8)
    }

    /// Whether the identifier comes before `other`.
    pub open spec fn before(self, other: NodeId) -> bool {
        self.0 < other.0
    }

    /// The identifier with these bytes.
    pub fn from_array(bytes: [u8; 8]) -> (id: NodeId)
        ensures
            id.bytes() == bytes@,
    {
        let value: u64 = read_be(bytes.as_slice(), 8);
        proof {
            assert(bytes@.take(8) == bytes@);
            lemma_be_bytes_of_value(bytes@);
        }
        NodeId(value)
    }

    /// The identifier as sixteen hexadecimal digits.
    pub fn to_string(&self) -> (text: String)
        ensures
            text@ == hex(self.bytes()),
    {
        let bytes: Vec<u8> = encode_to_vec(self);
        let mut text: String = String::new();
        let mut i: usize = 0;
        while i < bytes.len()
            invariant
                i <= bytes@.len(),
                bytes@ == self.bytes(),
                text@ == hex(bytes@.take(i as int)),
            decreases bytes@.len() - i,
        {
            text.append(hex_digit_text(bytes[i] / 16));
            text.append(hex_digit_text(bytes[i] % 16));
            i += 1;
            assert(text@ == hex(bytes@.take(i as int)));
        }
        proof {
            assert(bytes@.take(i as int) == bytes@);
        }
        text
    }
}

impl Default for NodeId {
    fn default() -> (id: NodeId)
        ensures
            id == NodeId(0),
    {
        NodeId(0)
    }
}

impl PartialOrd for NodeId {
    fn partial_cmp(&self, other: &NodeId) -> (order: Option<Ordering>) {
        if self.0 < other.0 {
            Some(Ordering::Less)
        } else if self.0 == other.0 {
            Some(Ordering::Equal)
        } else {
            Some(Ordering::Greater)
        }
    }
}

impl vstd::std_specs::cmp::PartialOrdSpecImpl for NodeId {
    open spec fn obeys_partial_cmp_spec() -> bool {
        true
    }

    open spec fn partial_cmp_spec(&self, other: &NodeId) -> Option<Ordering> {
        if self.before(*other) {
            Some(Ordering::Less)
        } else if *self == *other {
            Some(Ordering::Equal)
        } else {
            Some(Ordering::Greater)
        }
    }
}

impl Encode for NodeId {
    open spec fn encoding(&self) -> Seq<u8> {
        self.bytes()
    }

    fn encode_to(&self, out: &mut Vec<u8>) {
        push_be(self.0, 8, out);
    }

    fn encoded_size(&self) -> usize {
        proof {
            lemma_be_bytes_len(self.0 as nat, 8);
        }
        8
    }
}

impl Decode for NodeId {
    open spec fn decoding(bytes: Seq<u8>) -> Option<(Self, nat)> {
        if bytes.len() >= 8 {
            Some((NodeId(be_value(bytes.take(8)) as u64), 8))
        } else {
            None
        }
    }

    fn decode_from(bytes: &[u8]) -> Result<(Self, usize), DecodeError> {
        if bytes.len() < 8 {
            return Err(DecodeError::UnexpectedEnd);
        }
        Ok((NodeId(read_be(bytes, 8)), 8))
    }
}

/// The numbers that two equally long byte sequences spell are in the order in
/// which the bytes compare one by one.
proof fn lemma_be_value_order(a: Seq<u8>, b: Seq<u8>)
    requires
        a.len() == b.len(),
    ensures
        be_value(a) < be_value(b) <==> lexicographically_before(a, b),
    decreases a.len(),
{
    if a.len() > 0 {
        let n = a.len() - 1;
        let ha = a.drop_last();
        let hb = b.drop_last();
        lemma_be_value_order(ha, hb);
        lemma_be_value_order(hb, ha);
        lemma_be_bytes_of_value(ha);
        lemma_be_bytes_of_value(hb);
        assert(ha == a.take(n) && hb == b.take(n));
        if be_value(ha) < be_value(hb) {
            let i = choose|i: int|
                0 <= i < ha.len() && ha.take(i) == hb.take(i) && #[trigger] ha[i] < hb[i];
            assert(a.take(i) == ha.take(i) && b.take(i) == hb.take(i));
            assert(a[i] < b[i]);
        } else if be_value(ha) == be_value(hb) {
            if a[n] < b[n] {
                assert(lexicographically_before(a, b));
            }
        }
        if lexicographically_before(a, b) {
            let i = choose|i: int|
                0 <= i < a.len() && a.take(i) == b.take(i) && #[trigger] a[i] < b[i];
            if i < n {
                assert(a.take(i) == ha.take(i) && b.take(i) == hb.take(i));
                assert(ha[i] < hb[i]);
            }
        }
    }
}

/// Node identifiers are ordered as their bytes compare one by one.
pub proof fn law_node_id_order(a: NodeId, b: NodeId)
    ensures
        a.before(b) <==> lexicographically_before(a.bytes(), b.bytes()),
{
    lemma_widths();
    lemma_be_bytes_len(a.0 as nat, 8);
    lemma_be_bytes_len(b.0 as nat, 8);
    lemma_be_value_of_bytes(a.0 as nat, 8);
    lemma_be_value_of_bytes(b.0 as nat, 8);
    lemma_be_value_order(a.bytes(), b.bytes());
}

/// Decoding what an identifier was encoded to, whatever bytes follow, gives the
/// identifier and the size of its encoding.
pub proof fn law_node_id_roundtrip(id: NodeId, rest: Seq<u8>)
    ensures
        NodeId::decoding(id.encoding() + rest) == Some((id, 8nat)),
{
    lemma_widths();
    lemma_be_bytes_len(id.0 as nat, 8);
    lemma_be_value_of_bytes(id.0 as nat, 8);
    assert((id.encoding() + rest).take(8) == id.encoding());
}

/// An identifier is the number that its bytes spell, most significant first, and
/// is written as these bytes.
pub proof fn law_node_id_bytes(bytes: [u8; 8], id: NodeId, written: Vec<u8>)
    requires
        call_ensures(NodeId::from_array, (bytes,), id),
        call_ensures(encode_to_vec::<NodeId>, (&id,), written),
    ensures
        ({
            let b = bytes@;
            id.0 == b[0] * 0x100_0000_0000_0000 + b[1] * 0x1_0000_0000_0000 + b[2]
                * 0x100_0000_0000 + b[3] * 0x1_0000_0000 + b[4] * 0x100_0000 + b[5] * 0x1_0000
                + b[6] * 0x100 + b[7]
        }),
        written@ == bytes@,
{
    lemma_widths();
    lemma_be_value_of_bytes(id.0 as nat, 8);
    lemma_be_value_listed(bytes@);
}

/// The text of an identifier has sixteen characters. Those at `2 * i` and
/// `2 * i + 1` are the two hexadecimal digits, in lower case, of its byte `i`.
pub proof fn law_node_id_text(bytes: [u8; 8], id: NodeId, text: String, i: int)
    requires
        call_ensures(NodeId::from_array, (bytes,), id),
        call_ensures(NodeId::to_string, (&id,), text),
        0 <= i < 8,
    ensures
        text@.len() == 16,
        ({
            let high = bytes@[i] / 16;
            let low = bytes@[i] % 16;
            &&& text@[2 * i] as int == if high < 10 {
                0x30 + high
            } else {
                0x61 + high - 10
            }
            &&& text@[2 * i + 1] as int == if low < 10 {
                0x30 + low
            } else {
                0x61 + low - 10
            }
        }),
{
}

/// Identifiers compare as their numbers.
pub proof fn law_node_id_compared(a: &NodeId, b: &NodeId, order: Option<Ordering>)
    requires
        call_ensures(NodeId::partial_cmp, (a, b), order),
    ensures
        order == Some(Ordering::Less) <==> a.0 < b.0,
        order == Some(Ordering::Equal) <==> a.0 == b.0,
        order == Some(Ordering::Greater) <==> a.0 > b.0,
{
}

} // verus!
