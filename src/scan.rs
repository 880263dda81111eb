use vstd::prelude::*;
use vstd::set_lib::{lemma_map_size, set_int_range};
use crate::bitset::{bit_set, encodes, holds, BIT_ARRAY_SIZE, UNIVERSE_SIZE};

verus! {

/// The bit positions below `n` that are clear in `byte`.
pub open spec fn zeros_below(byte: u8, n: int) -> Set<int> {
    Set::new(|b: int| 0 <= b < n && !bit_set(byte, b as u8))
}

/// The bit positions `0..8` that are clear in `byte`.
pub open spec fn zero_positions(byte: u8) -> Set<int> {
    zeros_below(byte, 8)
}

/// The values below `n` that `bits` records as absent.
pub open spec fn missing_below(bits: Seq<u8>, n: int) -> Set<int> {
    Set::new(|v: int| 0 <= v < n && !holds(bits, v))
}

/// The values that `bits` can hold (`0 .. 8 * bits.len()`) and records as absent.
pub open spec fn missing_values(bits: Seq<u8>) -> Set<int> {
    missing_below(bits, 8 * bits.len() as int)
}

/// `m` is the numerically lowest value absent from `bits`.
pub open spec fn is_lowest_missing(bits: Seq<u8>, m: int) -> bool {
    &&& missing_values(bits).contains(m)
    &&& forall|v: int| #[trigger] missing_values(bits).contains(v) ==> m <= v
}

/// `m` is the numerically highest value absent from `bits`.
pub open spec fn is_highest_missing(bits: Seq<u8>, m: int) -> bool {
    &&& missing_values(bits).contains(m)
    &&& forall|v: int| #[trigger] missing_values(bits).contains(v) ==> v <= m
}

proof fn lemma_zero_positions_finite(byte: u8)
    ensures
        zero_positions(byte).finite(),
        zero_positions(byte).len() <= 8,
{
    vstd::set_lib::lemma_int_range(0, 8);
    assert(zero_positions(byte).subset_of(set_int_range(0, 8)));
    vstd::set_lib::lemma_len_subset(zero_positions(byte), set_int_range(0, 8));
}

/// The values of byte `k` (`8k .. 8k + 8`) are absent exactly where that
/// byte has a clear bit.
proof fn lemma_block(bits: Seq<u8>, k: int)
    requires
        0 <= k < bits.len(),
        missing_below(bits, 8 * k).finite(),
    ensures
        missing_below(bits, 8 * k + 8).finite(),
        missing_below(bits, 8 * k + 8).len() == missing_below(bits, 8 * k).len() + zero_positions(
            bits[bits.len() - 1 - k],
        ).len(),
        forall|v: int| #[trigger]
            missing_below(bits, 8 * k + 8).contains(v) <==> (missing_below(bits, 8 * k).contains(v)
                || (8 * k <= v < 8 * k + 8 && zero_positions(bits[bits.len() - 1 - k]).contains(
                v - 8 * k,
            ))),
{
    let byte = bits[bits.len() - 1 - k];
    let low = missing_below(bits, 8 * k);
    let shift = |b: int| 8 * k + b;
    let high = zero_positions(byte).map(shift);
    assert forall|v: int| 8 * k <= v < 8 * k + 8 implies holds(bits, v) == bit_set(
        byte,
        (v - 8 * k) as u8,
    ) by {
        assert(v / 8 == k);
        assert(v % 8 == v - 8 * k);
    }
    assert forall|v: int| #[trigger]
        missing_below(bits, 8 * k + 8).contains(v) <==> (low.contains(v) || high.contains(v)) by {
        if 8 * k <= v < 8 * k + 8 && zero_positions(byte).contains(v - 8 * k) {
            assert(shift(v - 8 * k) == v);
        }
    }
    assert(missing_below(bits, 8 * k + 8) =~= low + high);
    lemma_zero_positions_finite(byte);
    lemma_map_size(zero_positions(byte), high, shift);
    assert(low.disjoint(high));
    vstd::set_lib::lemma_set_disjoint_lens(low, high);
}

/// Reports the clear bits of `x`: the lowest clear position, the highest
/// clear position (both `None` when every bit is set) and how many are clear.
pub fn missing_bits(x: u8) -> (r: (Option<u8>, Option<u8>, u8))
    ensures
        r.2 as int == zero_positions(x).len(),
        r.0 is None <==> zero_positions(x).is_empty(),
        r.1 is None <==> zero_positions(x).is_empty(),
        r.0 matches Some(f) ==> zero_positions(x).contains(f as int) && forall|b: int|
            #[trigger] zero_positions(x).contains(b) ==> f <= b,
        r.1 matches Some(l) ==> zero_positions(x).contains(l as int) && forall|b: int|
            #[trigger] zero_positions(x).contains(b) ==> b <= l,
{
    let mut first: Option<u8> = None;
    let mut last: Option<u8> = None;
    let mut count: u8 = 0;
    let mut bit: u8 = 0;
    assert(zeros_below(x, 0) =~= Set::<int>::empty());
    while bit < 8
        invariant
            bit <= 8,
            zeros_below(x, bit as int).finite(),
            count as int == zeros_below(x, bit as int).len(),
            count <= bit,
            first is None <==> zeros_below(x, bit as int).is_empty(),
            last is None <==> zeros_below(x, bit as int).is_empty(),
            first matches Some(f) ==> zeros_below(x, bit as int).contains(f as int) && forall|b: int|
                #[trigger] zeros_below(x, bit as int).contains(b) ==> f <= b,
            last matches Some(l) ==> zeros_below(x, bit as int).contains(l as int) && forall|b: int|
                #[trigger] zeros_below(x, bit as int).contains(b) ==> b <= l,
        decreases 8 - bit,
    {
        let old_set = Ghost(zeros_below(x, bit as int));
        if x & (1u8 << bit) == 0 {
            assert(zeros_below(x, bit + 1) =~= old_set@.insert(bit as int));
            if first.is_none() {
                first = Some(bit);
            }
            last = Some(bit);
            count = count + 1;
        } else {
            assert(zeros_below(x, bit + 1) =~= old_set@);
        }
        bit = bit + 1;
    }
    (first, last, count)
}

/// Reports the values absent from `bit_array`: the lowest, the highest (both
/// `None` when nothing is absent) and how many there are.
///
/// Byte `k` of the value range (values `8k .. 8k + 8`) is read from position
/// `bit_array.len() - 1 - k`; "lowest" and "highest" are by numeric value.
pub fn missing_numbers(bit_array: &[u8]) -> (r: (Option<usize>, Option<usize>, usize))
    requires
        bit_array@.len() * 8 <= usize::MAX,
    ensures
        r.2 as int == missing_values(bit_array@).len(),
        r.0 is None <==> missing_values(bit_array@).is_empty(),
        r.1 is None <==> missing_values(bit_array@).is_empty(),
        r.0 matches Some(m) ==> is_lowest_missing(bit_array@, m as int),
        r.1 matches Some(m) ==> is_highest_missing(bit_array@, m as int),
{
    let n = bit_array.len();
    let ghost bits = bit_array@;
    let mut first: Option<usize> = None;
    let mut last: Option<usize> = None;
    let mut total: usize = 0;
    let mut k: usize = 0;
    assert(missing_below(bits, 0) =~= Set::<int>::empty());
    while k < n
        invariant
            k <= n,
            n == bits.len(),
            bits == bit_array@,
            n * 8 <= usize::MAX,
            missing_below(bits, 8 * k).finite(),
            total as int == missing_below(bits, 8 * k).len(),
            total <= 8 * k,
            first is None <==> missing_below(bits, 8 * k).is_empty(),
            last is None <==> missing_below(bits, 8 * k).is_empty(),
            first matches Some(m) ==> missing_below(bits, 8 * k).contains(m as int) && forall|v: int|
                #[trigger] missing_below(bits, 8 * k).contains(v) ==> m <= v,
            last matches Some(m) ==> missing_below(bits, 8 * k).contains(m as int) && forall|v: int|
                #[trigger] missing_below(bits, 8 * k).contains(v) ==> v <= m,
        decreases n - k,
    {
        let info = missing_bits(bit_array[n - 1 - k]);
        let base: usize = k * 8;
        proof {
            lemma_block(bits, k as int);
            lemma_zero_positions_finite(bits[n - 1 - k]);
        }
        if let Some(f) = info.0 {
            if first.is_none() {
                first = Some(base + f as usize);
            }
        }
        if let Some(l) = info.1 {
            last = Some(base + l as usize);
        }
        total = total + info.2 as usize;
        k = k + 1;
    }
    (first, last, total)
}

/// Every universe value is either one of `values` or reported absent by the
/// bitset of `values`: for distinct values the two counts add up to the universe.
pub proof fn lemma_conservation(values: Seq<u16>, bits: Seq<u8>)
    requires
        values.no_duplicates(),
        encodes(bits, values),
    ensures
        values.len() + missing_values(bits).len() == UNIVERSE_SIZE,
{
    let all = set_int_range(0, UNIVERSE_SIZE as int);
    let missing = missing_values(bits);
    let present = Set::new(|v: int| 0 <= v < UNIVERSE_SIZE && holds(bits, v));
    let widen = |u: u16| u as int;
    vstd::set_lib::lemma_int_range(0, UNIVERSE_SIZE as int);
    assert(missing + present =~= all);
    vstd::set_lib::lemma_len_subset(missing, all);
    vstd::set_lib::lemma_len_subset(present, all);
    assert(missing.disjoint(present));
    vstd::set_lib::lemma_set_disjoint_lens(missing, present);
    assert forall|v: int| #[trigger] present.contains(v) implies values.to_set().map(
        widen,
    ).contains(v) by {
        let u = v as u16;
        assert(widen(u) == v);
        assert(values.to_set().contains(u));
    }
    assert(values.to_set().map(widen) =~= present);
    values.unique_seq_to_set();
    lemma_map_size(values.to_set(), present, widen);
}

/// Drawing 64000 distinct values always leaves 1536 universe values absent.
pub proof fn lemma_full_sample_leaves_rest(values: Seq<u16>, bits: Seq<u8>)
    requires
        values.no_duplicates(),
        values.len() == 64000,
        encodes(bits, values),
    ensures
        missing_values(bits).len() == 1536,
{
    lemma_conservation(values, bits);
}

/// A bitset with every universe value but `absent` reports `absent` as the
/// only missing value: lowest, highest, and one in number.
pub proof fn lemma_single_missing(bits: Seq<u8>, absent: u16)
    requires
        bits.len() == BIT_ARRAY_SIZE,
        forall|u: u16| #[trigger] holds(bits, u as int) <==> u != absent,
    ensures
        missing_values(bits) == set![absent as int],
        missing_values(bits).len() == 1,
        is_lowest_missing(bits, absent as int),
        is_highest_missing(bits, absent as int),
{
    assert forall|v: int| #[trigger] missing_values(bits).contains(v) <==> v == absent as int by {
        if 0 <= v < UNIVERSE_SIZE {
            assert(holds(bits, (v as u16) as int) <==> v as u16 != absent);
        }
    }
    assert(missing_values(bits) =~= set![absent as int]);
}

/// A bitset with every universe value present reports nothing missing.
pub proof fn lemma_nothing_missing(bits: Seq<u8>)
    requires
        bits.len() == BIT_ARRAY_SIZE,
        forall|u: u16| #[trigger] holds(bits, u as int),
    ensures
        missing_values(bits).is_empty(),
        missing_values(bits).len() == 0,
{
    assert forall|v: int| !#[trigger] missing_values(bits).contains(v) by {
        if 0 <= v < UNIVERSE_SIZE {
            assert(holds(bits, (v as u16) as int));
        }
    }
    assert(missing_values(bits) =~= Set::<int>::empty());
}

} // verus!
