//! Splitting a 32-bit word into its bits.

use vstd::prelude::*;

verus! {

/// Bit `i` of `n`, counted from the least significant bit: 0 or 1.
pub open spec fn bit_at(n: u32, i: u32) -> u32 {
    (n >> i) & 1
}

/// The 32 bits of `n`, most significant first, each as 0 or 1.
pub open spec fn bits_msb_first(n: u32) -> Seq<u32> {
    Seq::new(32, |k: int| bit_at(n, (31 - k) as u32))
}

/// A bit of a word is 0 or 1, and it is 1 exactly when the word holds the
/// single-bit mask of that position.
pub proof fn lemma_bit_at(n: u32, i: u32)
    requires
        i < 32,
    ensures
        bit_at(n, i) == 0 || bit_at(n, i) == 1,
        bit_at(n, i) == 1 <==> n & (1u32 << i) == (1u32 << i),
        bit_at(n, i) == 1 <==> n & (1u32 << i) != 0,
{
    assert(((n >> i) & 1) == 0 || ((n >> i) & 1) == 1) by (bit_vector);
    assert((((n >> i) & 1) == 1) == (n & (1u32 << i) == (1u32 << i))) by (bit_vector)
        requires
            i < 32,
    ;
    assert((((n >> i) & 1) == 1) == (n & (1u32 << i) != 0)) by (bit_vector)
        requires
            i < 32,
    ;
}

/// Splits `n` into its 32 bits, most significant first.
pub fn split_bits(n: u32) -> (bits: Vec<u32>)
    ensures
        bits@ == bits_msb_first(n),
{
    let mut bits: Vec<u32> = Vec::new();
    let mut k: u32 = 0;
    while k < 32
        invariant
            k <= 32,
            bits@.len() == k,
            forall|j: int| 0 <= j < k ==> bits@[j] == bit_at(n, (31 - j) as u32),
        decreases 32 - k,
    {
        let i: u32 = 31 - k;
        let mask: u32 = 1u32 << i;
        let matches = n & mask == mask;
        proof {
            lemma_bit_at(n, i);
        }
        if matches {
            bits.push(1);
        } else {
            bits.push(0);
        }
        k += 1;
    }
    bits
}

/// The bitwise OR of all words of `s`; 0 for the empty sequence.
pub open spec fn or_all(s: Seq<u32>) -> u32
    decreases s.len(),
{
    if s.len() == 0 {
        0
    } else {
        or_all(s.drop_last()) | s.last()
    }
}

/// For each bit position, most significant first, what `n` holds in that
/// position alone: the single-bit word of the position, or 0.
pub open spec fn bit_masks_msb_first(n: u32) -> Seq<u32> {
    Seq::new(32, |k: int| n & (1u32 << ((31 - k) as u32)))
}

/// The set bits of `n`, each as a word of its own, most significant first.
pub open spec fn set_bit_values(n: u32) -> Seq<u32> {
    bit_masks_msb_first(n).filter(|v: u32| v != 0)
}

/// `v` is the single-bit word of a position at which `n` has a 1.
pub open spec fn is_set_bit_of(n: u32, v: u32) -> bool {
    exists|p: u32| p < 32 && #[trigger] bit_at(n, p) == 1 && v == 1u32 << p
}

/// The words of the split are the set bits of `n`, and all of them.
pub proof fn lemma_set_bit_values_members(n: u32, v: u32)
    ensures
        set_bit_values(n).contains(v) <==> is_set_bit_of(n, v),
{
    let masks = bit_masks_msb_first(n);
    let nonzero = |w: u32| w != 0;
    if set_bit_values(n).contains(v) {
        let i = choose|i: int| 0 <= i < set_bit_values(n).len() && set_bit_values(n)[i] == v;
        masks.lemma_filter_pred(nonzero, i);
        masks.lemma_filter_contains_rev(nonzero, v);
        let k = choose|k: int| 0 <= k < masks.len() && masks[k] == v;
        let p = (31 - k) as u32;
        lemma_bit_at(n, p);
        assert(bit_at(n, p) == 1 && v == 1u32 << p);
    }
    if is_set_bit_of(n, v) {
        let p = choose|p: u32| p < 32 && #[trigger] bit_at(n, p) == 1 && v == 1u32 << p;
        let k = 31 - p;
        lemma_bit_at(n, p);
        assert(masks[k] == v);
        masks.lemma_filter_contains(nonzero, k);
    }
}

/// The `k` most significant bits of `n`, the others cleared.
spec fn top_bits(n: u32, k: u32) -> u32 {
    if k >= 32 {
        n
    } else {
        n & !(0xffff_ffffu32 >> k)
    }
}

proof fn lemma_top_bits_step(n: u32, k: u32)
    requires
        k < 32,
    ensures
        top_bits(n, 0) == 0,
        top_bits(n, k) | (n & (1u32 << ((31 - k) as u32))) == top_bits(n, (k + 1) as u32),
{
    let i: u32 = (31 - k) as u32;
    let j: u32 = (k + 1) as u32;
    assert(n & !(0xffff_ffffu32 >> 0u32) == 0) by (bit_vector);
    if k < 31 {
        assert((n & !(0xffff_ffffu32 >> k)) | (n & (1u32 << i)) == n & !(0xffff_ffffu32 >> j))
            by (bit_vector)
            requires
                k < 31,
                i == 31 - k,
                j == k + 1,
        ;
    } else {
        assert((n & !(0xffff_ffffu32 >> k)) | (n & (1u32 << i)) == n) by (bit_vector)
            requires
                k == 31,
                i == 0,
        ;
    }
}

/// Appending a word ORs it in.
pub proof fn lemma_or_all_push(s: Seq<u32>, v: u32)
    ensures
        or_all(s.push(v)) == or_all(s) | v,
{
    assert(s.push(v).drop_last() =~= s);
}

/// Zero words add nothing to the OR.
pub proof fn lemma_or_all_ignores_zeros(s: Seq<u32>)
    ensures
        or_all(s.filter(|v: u32| v != 0)) == or_all(s),
    decreases s.len(),
{
    let nonzero = |v: u32| v != 0;
    reveal(Seq::filter);
    if s.len() > 0 {
        let rest = s.drop_last();
        let last = s.last();
        lemma_or_all_ignores_zeros(rest);
        if last != 0 {
            lemma_or_all_push(rest.filter(nonzero), last);
        } else {
            let x = or_all(rest);
            assert(x | 0u32 == x) by (bit_vector);
        }
    }
}

proof fn lemma_or_all_masks_prefix(n: u32, k: u32)
    requires
        k <= 32,
    ensures
        or_all(bit_masks_msb_first(n).take(k as int)) == top_bits(n, k),
    decreases k,
{
    let masks = bit_masks_msb_first(n);
    if k == 0 {
        lemma_top_bits_step(n, 0);
        assert(masks.take(0).len() == 0);
    } else {
        let p: u32 = (k - 1) as u32;
        lemma_or_all_masks_prefix(n, p);
        lemma_top_bits_step(n, p);
        assert(masks.take(k as int) =~= masks.take(p as int).push(masks[p as int]));
        lemma_or_all_push(masks.take(p as int), masks[p as int]);
    }
}

/// Splitting a word into its set bits loses nothing: the OR of the single-bit
/// words is the word again.
pub proof fn lemma_set_bit_values_or(n: u32)
    ensures
        or_all(set_bit_values(n)) == n,
{
    let masks = bit_masks_msb_first(n);
    lemma_or_all_ignores_zeros(masks);
    lemma_or_all_masks_prefix(n, 32);
    assert(masks.take(32) =~= masks);
}

/// The order in which a machine lays out the bytes of a word.
#[derive(Clone, Copy, Debug, PartialEq, Eq, Structural)]
pub enum Endianness {
    Big,
    Little,
    Unknown,
}

/// The byte order of a machine on which the word `0x01020304` lies in
/// memory as `bytes`.
pub open spec fn endianness_of(bytes: Seq<u8>) -> Endianness {
    if bytes == seq![0x01u8, 0x02u8, 0x03u8, 0x04u8] {
        Endianness::Big
    } else if bytes == seq![0x04u8, 0x03u8, 0x02u8, 0x01u8] {
        Endianness::Little
    } else {
        Endianness::Unknown
    }
}

/// Tells the byte order from the bytes of the word `0x01020304` as the
/// machine holds them.
pub fn detect_endianness(bytes: [u8; 4]) -> (order: Endianness)
    ensures
        order == endianness_of(bytes@),
{
    if bytes[0] == 0x01 && bytes[1] == 0x02 && bytes[2] == 0x03 && bytes[3] == 0x04 {
        assert(bytes@ =~= seq![0x01u8, 0x02u8, 0x03u8, 0x04u8]);
        Endianness::Big
    } else if bytes[0] == 0x04 && bytes[1] == 0x03 && bytes[2] == 0x02 && bytes[3] == 0x01 {
        assert(bytes@ =~= seq![0x04u8, 0x03u8, 0x02u8, 0x01u8]);
        Endianness::Little
    } else {
        assert(seq![0x01u8, 0x02u8, 0x03u8, 0x04u8][0] == 0x01u8);
        assert(seq![0x01u8, 0x02u8, 0x03u8, 0x04u8][1] == 0x02u8);
        assert(seq![0x01u8, 0x02u8, 0x03u8, 0x04u8][2] == 0x03u8);
        assert(seq![0x01u8, 0x02u8, 0x03u8, 0x04u8][3] == 0x04u8);
        assert(seq![0x04u8, 0x03u8, 0x02u8, 0x01u8][0] == 0x04u8);
        assert(seq![0x04u8, 0x03u8, 0x02u8, 0x01u8][1] == 0x03u8);
        assert(seq![0x04u8, 0x03u8, 0x02u8, 0x01u8][2] == 0x02u8);
        assert(seq![0x04u8, 0x03u8, 0x02u8, 0x01u8][3] == 0x01u8);
        Endianness::Unknown
    }
}

} // verus!
