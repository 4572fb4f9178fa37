//! Seen-before admission filter: a 65,536-bit Bloom filter with four hash
//! seeds, keyed by the literal bytes of a request path.

use vstd::prelude::*;

verus! {

/// Advance the 16-bit rolling checksum by one input byte.
pub open spec fn hash_step(state: u16, byte: u8) -> u16 {
    let folded = (state >> 8) ^ (byte as u16);
    let x = folded ^ (folded >> 4);
    (state << 8) ^ (x << 12) ^ (x << 5) ^ x
}

/// The checksum of `data` starting from `state`, one byte at a time.
pub open spec fn spec_hash(state: u16, data: Seq<u8>) -> u16
    decreases data.len(),
{
    if data.len() == 0 {
        state
    } else {
        spec_hash(hash_step(state, data[0]), data.skip(1))
    }
}

/// 16-bit rolling checksum over `data`, seeded with `state`.
pub fn hash(state: u16, data: &[u8]) -> (r: u16)
    ensures
        r == spec_hash(state, data@),
{
    let ghost init: u16 = state;
    let mut state = state;
    let mut i: usize = 0;
    proof {
        assert(data@.skip(0) =~= data@);
    }
    while i < data.len()
        invariant
            i <= data@.len(),
            spec_hash(state, data@.skip(i as int)) == spec_hash(init, data@),
        decreases data@.len() - i,
    {
        proof {
            assert(data@.skip(i as int)[0] == data@[i as int]);
            assert(data@.skip(i as int).skip(1) =~= data@.skip(i as int + 1));
        }
        let c = data[i];
        let folded = (state >> 8) ^ (c as u16);
        let x = folded ^ (folded >> 4);
        state = (state << 8) ^ (x << 12) ^ (x << 5) ^ x;
        i = i + 1;
    }
    proof {
        assert(data@.skip(i as int) =~= Seq::<u8>::empty());
    }
    state
}

/// The mask selecting bit `loc & 7` of a filter byte.
pub open spec fn bit_mask(loc: u16) -> u8 {
    1u8 << ((loc & 7) as u8)
}

/// Whether the filter bit addressed by `loc` is set: byte `loc >> 3`, bit `loc & 7`.
pub open spec fn spec_bit(filter: Seq<u8>, loc: u16) -> bool {
    filter[(loc >> 3) as int] & bit_mask(loc) != 0
}

/// The filter with the bit addressed by `loc` set.
pub open spec fn spec_set_bit(filter: Seq<u8>, loc: u16) -> Seq<u8> {
    filter.update((loc >> 3) as int, filter[(loc >> 3) as int] | bit_mask(loc))
}

/// The filter after adding `data`: the bits for the four hash seeds 3, 6, 2, 1 are set.
pub open spec fn spec_add(filter: Seq<u8>, data: Seq<u8>) -> Seq<u8> {
    spec_set_bit(
        spec_set_bit(spec_set_bit(spec_set_bit(filter, spec_hash(3, data)), spec_hash(6, data)),
        spec_hash(2, data)),
        spec_hash(1, data),
    )
}

/// Whether the four filter bits for `data` (hash seeds 3, 6, 2, 1) are all set.
pub open spec fn spec_check(filter: Seq<u8>, data: Seq<u8>) -> bool {
    &&& spec_bit(filter, spec_hash(3, data))
    &&& spec_bit(filter, spec_hash(6, data))
    &&& spec_bit(filter, spec_hash(2, data))
    &&& spec_bit(filter, spec_hash(1, data))
}

/// Set the single filter bit addressed by the 16-bit value `loc`.
fn set_bit(filter: &mut [u8; 8192], loc: u16)
    ensures
        final(filter)@ == spec_set_bit(old(filter)@, loc),
{
    proof {
        assert(loc >> 3 < 8192 && ((loc & 7) as u8) < 8) by (bit_vector);
    }
    let index = (loc >> 3) as usize;
    let mask: u8 = 1u8 << ((loc & 7) as u8);
    filter[index] = filter[index] | mask;
}

/// Whether the single filter bit addressed by `loc` is set.
fn get_bit(filter: &[u8; 8192], loc: u16) -> (r: bool)
    ensures
        r == spec_bit(filter@, loc),
{
    proof {
        assert(loc >> 3 < 8192 && ((loc & 7) as u8) < 8) by (bit_vector);
    }
    let index = (loc >> 3) as usize;
    let mask: u8 = 1u8 << ((loc & 7) as u8);
    filter[index] & mask != 0
}

/// Mark `data` as seen: set the four filter bits for hash seeds 3, 6, 2, 1.
pub fn add(filter: &mut [u8; 8192], data: &[u8])
    ensures
        final(filter)@ == spec_add(old(filter)@, data@),
{
    set_bit(filter, hash(3, data));
    set_bit(filter, hash(6, data));
    set_bit(filter, hash(2, data));
    set_bit(filter, hash(1, data));
}

/// Whether `data` may have been seen: true iff all four of its filter bits are set.
pub fn check(filter: &[u8; 8192], data: &[u8]) -> (r: bool)
    ensures
        r == spec_check(filter@, data@),
{
    get_bit(filter, hash(3, data)) && get_bit(filter, hash(6, data))
        && get_bit(filter, hash(2, data)) && get_bit(filter, hash(1, data))
}

/// Setting one bit leaves every other bit as it was, and sets exactly that bit.
pub proof fn lemma_set_bit_effect(filter: Seq<u8>, set: u16, q: u16)
    requires
        filter.len() == 8192,
    ensures
        spec_bit(spec_set_bit(filter, set), q) == (q == set || spec_bit(filter, q)),
{
    assert(set >> 3 < 8192 && q >> 3 < 8192) by (bit_vector);
    if q >> 3 == set >> 3 {
        let b = filter[(q >> 3) as int];
        assert(spec_set_bit(filter, set)[(q >> 3) as int] == b | bit_mask(set));
        assert(q >> 3 == set >> 3 ==> ((b | (1u8 << ((set & 7) as u8))) & (1u8 << ((q
            & 7) as u8)) != 0) == (q == set || b & (1u8 << ((q & 7) as u8)) != 0)) by (bit_vector);
    } else {
        assert(spec_set_bit(filter, set)[(q >> 3) as int] == filter[(q >> 3) as int]);
    }
}

/// After `add(filter, data)`, `check` of the same bytes holds.
pub proof fn lemma_add_then_check(filter: Seq<u8>, data: Seq<u8>)
    requires
        filter.len() == 8192,
    ensures
        spec_check(spec_add(filter, data), data),
{
    let h3 = spec_hash(3, data);
    let h6 = spec_hash(6, data);
    let h2 = spec_hash(2, data);
    let h1 = spec_hash(1, data);
    let f3 = spec_set_bit(filter, h3);
    let f6 = spec_set_bit(f3, h6);
    let f2 = spec_set_bit(f6, h2);
    assert(h3 >> 3 < 8192 && h6 >> 3 < 8192 && h2 >> 3 < 8192 && h1 >> 3 < 8192)
        by (bit_vector);
    assert(f3.len() == 8192);
    assert(f6.len() == 8192);
    assert(f2.len() == 8192);
    lemma_set_bit_effect(filter, h3, h3);
    lemma_set_bit_effect(f3, h6, h3);
    lemma_set_bit_effect(f3, h6, h6);
    lemma_set_bit_effect(f6, h2, h3);
    lemma_set_bit_effect(f6, h2, h6);
    lemma_set_bit_effect(f6, h2, h2);
    lemma_set_bit_effect(f2, h1, h3);
    lemma_set_bit_effect(f2, h1, h6);
    lemma_set_bit_effect(f2, h1, h2);
    lemma_set_bit_effect(f2, h1, h1);
}

/// Adding never clears a bit: any byte string checked before is still checked after.
pub proof fn lemma_add_monotone(filter: Seq<u8>, added: Seq<u8>, probe: Seq<u8>)
    requires
        filter.len() == 8192,
        spec_check(filter, probe),
    ensures
        spec_check(spec_add(filter, added), probe),
{
    let h3 = spec_hash(3, added);
    let h6 = spec_hash(6, added);
    let h2 = spec_hash(2, added);
    let h1 = spec_hash(1, added);
    let f3 = spec_set_bit(filter, h3);
    let f6 = spec_set_bit(f3, h6);
    let f2 = spec_set_bit(f6, h2);
    assert(h3 >> 3 < 8192 && h6 >> 3 < 8192 && h2 >> 3 < 8192 && h1 >> 3 < 8192)
        by (bit_vector);
    assert(f3.len() == 8192);
    assert(f6.len() == 8192);
    assert(f2.len() == 8192);
    let probes = [spec_hash(3, probe), spec_hash(6, probe), spec_hash(2, probe), spec_hash(
        1,
        probe,
    )];
    assert forall|i: int| 0 <= i < 4 implies spec_bit(spec_add(filter, added), probes[i]) by {
        lemma_set_bit_effect(filter, h3, probes[i]);
        lemma_set_bit_effect(f3, h6, probes[i]);
        lemma_set_bit_effect(f6, h2, probes[i]);
        lemma_set_bit_effect(f2, h1, probes[i]);
    }
}

/// The all-zero filter reports nothing as seen.
pub proof fn lemma_zero_filter_check(data: Seq<u8>)
    ensures
        !spec_check(Seq::new(8192, |i: int| 0u8), data),
{
    let loc = spec_hash(3, data);
    assert(loc >> 3 < 8192) by (bit_vector);
    assert(0u8 & bit_mask(loc) == 0) by (bit_vector);
}

/// Any bit of the all-ones filter is set.
proof fn lemma_ones_bit(loc: u16)
    ensures
        spec_bit(Seq::new(8192, |i: int| 255u8), loc),
{
    assert(loc >> 3 < 8192) by (bit_vector);
    assert(Seq::new(8192, |i: int| 255u8)[(loc >> 3) as int] == 255u8);
    assert(255u8 & (1u8 << ((loc & 7) as u8)) != 0) by (bit_vector);
}

/// The all-ones filter reports everything as seen.
pub proof fn lemma_ones_filter_check(data: Seq<u8>)
    ensures
        spec_check(Seq::new(8192, |i: int| 255u8), data),
{
    lemma_ones_bit(spec_hash(3, data));
    lemma_ones_bit(spec_hash(6, data));
    lemma_ones_bit(spec_hash(2, data));
    lemma_ones_bit(spec_hash(1, data));
}

} // verus!
