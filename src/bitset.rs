use vstd::prelude::*;
use vstd::seq_lib::lemma_seq_contains_after_push;

verus! {

/// Number of values in the universe `0..=65535`.
pub const UNIVERSE_SIZE: usize = 65536;

/// Number of bytes in a bitset that holds one bit per universe value.
pub const BIT_ARRAY_SIZE: usize = 8192;

/// Whether bit `pos` of `byte` is set, counting from the least significant bit.
pub open spec fn bit_set(byte: u8, pos: u8) -> bool {
    byte & (1u8 << pos) != 0
}

/// Whether `bits` records the value `v` as present.
///
/// Value `v` lives in bit `v % 8` of byte `v / 8`, and bytes are stored in
/// reverse: byte `k` sits at position `bits.len() - 1 - k`.
pub open spec fn holds(bits: Seq<u8>, v: int) -> bool {
    bit_set(bits[bits.len() - 1 - v / 8], (v % 8) as u8)
}

/// Setting bit `b` of a byte changes that bit and no other.
proof fn lemma_set_bit(byte: u8, b: u8, c: u8)
    requires
        b < 8,
        c < 8,
    ensures
        bit_set(byte | (1u8 << b), c) == (b == c || bit_set(byte, c)),
{
    assert(((byte | (1u8 << b)) & (1u8 << c) != 0) == (b == c || byte & (1u8 << c) != 0))
        by (bit_vector)
        requires
            b < 8,
            c < 8,
    ;
}

/// `bits` is the bitset of `values`: it has one bit per universe value, set
/// exactly for the values that occur in `values`.
pub open spec fn encodes(bits: Seq<u8>, values: Seq<u16>) -> bool {
    &&& bits.len() == BIT_ARRAY_SIZE
    &&& forall|v: u16| #[trigger] holds(bits, v as int) <==> values.contains(v)
}

/// The universe values that `bits` records as present.
pub open spec fn members(bits: Seq<u8>) -> Set<u16> {
    Set::new(|v: u16| holds(bits, v as int))
}

/// Builds the bitset of `random_numbers`. A value that occurs more than once
/// sets its bit once; every `u16` lies in the universe, so no value is out of range.
pub fn convert_to_bit_array(random_numbers: &Vec<u16>) -> (r: [u8; BIT_ARRAY_SIZE])
    ensures
        encodes(r@, random_numbers@),
{
    let mut bit_array: [u8; BIT_ARRAY_SIZE] = [0u8; BIT_ARRAY_SIZE];
    assert forall|v: u16| !holds(bit_array@, v as int) by {
        let b = (v % 8) as u8;
        assert(0u8 & (1u8 << b) == 0) by (bit_vector);
    }
    let mut i: usize = 0;
    while i < random_numbers.len()
        invariant
            i <= random_numbers.len(),
            bit_array@.len() == BIT_ARRAY_SIZE,
            forall|v: u16| #[trigger]
                holds(bit_array@, v as int) <==> random_numbers@.subrange(0, i as int).contains(v),
        decreases random_numbers.len() - i,
    {
        let x = random_numbers[i];
        let byte_index: usize = x as usize / 8;
        let bit_index: u8 = (x % 8) as u8;
        let pos: usize = BIT_ARRAY_SIZE - 1 - byte_index;
        let ghost before = bit_array@;
        bit_array[pos] = bit_array[pos] | (1u8 << bit_index);
        assert forall|v: u16| #[trigger]
            holds(bit_array@, v as int) <==> (holds(before, v as int) || v == x) by {
            let p = BIT_ARRAY_SIZE - 1 - v / 8;
            if p == pos {
                lemma_set_bit(before[pos as int], bit_index, (v % 8) as u8);
            }
        }
        assert(random_numbers@.subrange(0, i + 1) =~= random_numbers@.subrange(0, i as int).push(x));
        assert forall|v: u16| #[trigger] random_numbers@.subrange(0, i + 1).contains(v) <==> (
        random_numbers@.subrange(0, i as int).contains(v) || v == x) by {
            lemma_seq_contains_after_push(random_numbers@.subrange(0, i as int), x, v);
        }
        i = i + 1;
    }
    assert(random_numbers@.subrange(0, i as int) =~= random_numbers@);
    bit_array
}

/// Lists the values that `bit_array` records as present, in increasing order.
pub fn decode(bit_array: &[u8; BIT_ARRAY_SIZE]) -> (r: Vec<u16>)
    ensures
        forall|i: int, j: int| 0 <= i < j < r.len() ==> r[i] < r[j],
        r@.to_set() == members(bit_array@),
{
    let mut out: Vec<u16> = Vec::new();
    let mut v: usize = 0;
    while v < UNIVERSE_SIZE
        invariant
            v <= UNIVERSE_SIZE,
            bit_array@.len() == BIT_ARRAY_SIZE,
            forall|i: int, j: int| 0 <= i < j < out.len() ==> out[i] < out[j],
            forall|i: int| 0 <= i < out.len() ==> out[i] < v,
            forall|u: u16| #[trigger] out@.contains(u) <==> (u < v && holds(bit_array@, u as int)),
        decreases UNIVERSE_SIZE - v,
    {
        let byte = bit_array[BIT_ARRAY_SIZE - 1 - v / 8];
        let bit_index: u8 = (v % 8) as u8;
        let ghost before = out@;
        if byte & (1u8 << bit_index) != 0 {
            out.push(v as u16);
            assert forall|u: u16| #[trigger] out@.contains(u) <==> (before.contains(u) || u == v) by {
                lemma_seq_contains_after_push(before, v as u16, u);
            }
        }
        v = v + 1;
    }
    assert(out@.to_set() =~= members(bit_array@));
    out
}

/// A byte is determined by its eight bits.
proof fn lemma_byte_from_bits(x: u8, y: u8)
    requires
        forall|c: u8| c < 8 ==> bit_set(x, c) == bit_set(y, c),
    ensures
        x == y,
{
    assert(bit_set(x, 0) == bit_set(y, 0));
    assert(bit_set(x, 1) == bit_set(y, 1));
    assert(bit_set(x, 2) == bit_set(y, 2));
    assert(bit_set(x, 3) == bit_set(y, 3));
    assert(bit_set(x, 4) == bit_set(y, 4));
    assert(bit_set(x, 5) == bit_set(y, 5));
    assert(bit_set(x, 6) == bit_set(y, 6));
    assert(bit_set(x, 7) == bit_set(y, 7));
    assert(x == y) by (bit_vector)
        requires
            (x & (1u8 << 0u8) != 0) == (y & (1u8 << 0u8) != 0),
            (x & (1u8 << 1u8) != 0) == (y & (1u8 << 1u8) != 0),
            (x & (1u8 << 2u8) != 0) == (y & (1u8 << 2u8) != 0),
            (x & (1u8 << 3u8) != 0) == (y & (1u8 << 3u8) != 0),
            (x & (1u8 << 4u8) != 0) == (y & (1u8 << 4u8) != 0),
            (x & (1u8 << 5u8) != 0) == (y & (1u8 << 5u8) != 0),
            (x & (1u8 << 6u8) != 0) == (y & (1u8 << 6u8) != 0),
            (x & (1u8 << 7u8) != 0) == (y & (1u8 << 7u8) != 0),
    ;
}

/// A set of values has exactly one bitset: whatever builds it, the bytes agree.
pub proof fn lemma_encoding_unique(values: Seq<u16>, a: Seq<u8>, b: Seq<u8>)
    requires
        encodes(a, values),
        encodes(b, values),
    ensures
        a == b,
{
    assert forall|i: int| 0 <= i < BIT_ARRAY_SIZE implies a[i] == b[i] by {
        let k = BIT_ARRAY_SIZE - 1 - i;
        assert forall|c: u8| c < 8 implies bit_set(a[i], c) == bit_set(b[i], c) by {
            let v = (8 * k + c) as u16;
            assert(v as int == 8 * k + c);
            assert(v / 8 == k);
            assert(v % 8 == c);
            assert(holds(a, v as int) == holds(b, v as int));
        }
        lemma_byte_from_bits(a[i], b[i]);
    }
    assert(a =~= b);
}

/// Decoding the bitset of some values gives back exactly those values.
pub proof fn lemma_round_trip(values: Seq<u16>, bits: Seq<u8>)
    requires
        encodes(bits, values),
    ensures
        members(bits) == values.to_set(),
{
    assert(members(bits) =~= values.to_set());
}

} // verus!
