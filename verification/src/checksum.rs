//! The Internet checksum: the ones' complement of the ones' complement sum
//! of a region's 16-bit big-endian words.
//!
//! The sum is modelled as a plain natural number, the words added without
//! any carry handling, and the end-around carry as one arithmetic step,
//! [`fold`]. A region validates when the folded sum of all of its words, the
//! stored checksum among them, is `0xFFFF`.

use vstd::prelude::*;

verus! {

/// What the byte at index `i` of a region weighs in the sum of the region's
/// big-endian 16-bit words: it is the high byte of its word at an even index
/// and the low byte at an odd one.
pub open spec fn byte_weight(i: int) -> nat {
    if i % 2 == 0 {
        256
    } else {
        1
    }
}

/// The sum of the 16-bit big-endian words of `s`, as a natural number. A
/// last byte without a partner counts as the high byte of a word whose low
/// byte is zero.
pub open spec fn word_sum(s: Seq<u8>) -> nat
    decreases s.len(),
{
    if s.len() == 0 {
        0
    } else {
        word_sum(s.drop_last()) + s.last() as nat * byte_weight(s.len() - 1)
    }
}

/// The ones' complement reduction of a sum to 16 bits: zero stays zero, and
/// any other number goes to the one number in `1..=0xFFFF` that differs from
/// it by a multiple of `0xFFFF`. This is what adding the carries back in,
/// again and again, arrives at.
pub open spec fn fold(sum: nat) -> nat {
    if sum == 0 {
        0
    } else {
        ((sum - 1) % 0xFFFF + 1) as nat
    }
}

/// The checksum to store for a region whose words, with the checksum field
/// taken as zero, add up to `sum`.
pub open spec fn checksum_of(sum: nat) -> nat {
    (0xFFFF - fold(sum)) as nat
}

/// Whether a region whose words, the stored checksum among them, add up to
/// `sum` passes the receiver's test.
pub open spec fn validates(sum: nat) -> bool {
    fold(sum) == 0xFFFF
}

/// The stored checksum makes the region validate: a region whose other
/// words add up to `sum` and whose checksum field holds `checksum_of(sum)`
/// passes the receiver's test.
pub proof fn lemma_checksum_validates(sum: nat)
    ensures
        validates(sum + checksum_of(sum)),
{
    if sum > 0 {
        let r = (sum - 1) % 0xFFFF;
        let q = (sum - 1) / 0xFFFF;
        assert(sum - 1 == 0xFFFF * q + r);
        let total = sum + checksum_of(sum);
        assert(total - 1 == 0xFFFF * q + 0xFFFE);
        vstd::arithmetic::div_mod::lemma_mod_multiples_vanish(q, 0xFFFE, 0xFFFF);
    }
}

/// A checksum of zero may be sent as `0xFFFF` instead (as UDP does, where
/// zero means that no checksum was computed): the region still validates.
pub proof fn lemma_all_ones_validates(sum: nat)
    requires
        checksum_of(sum) == 0,
    ensures
        validates(sum + 0xFFFF),
{
    let r = (sum - 1) % 0xFFFF;
    let q = (sum - 1) / 0xFFFF;
    assert(sum - 1 == 0xFFFF * q + r);
    assert(sum + 0xFFFF - 1 == 0xFFFF * (q + 1) + 0xFFFE);
    vstd::arithmetic::div_mod::lemma_mod_multiples_vanish(q + 1, 0xFFFE, 0xFFFF);
}

/// No byte adds more than `0xFF00` to the sum of a region.
pub proof fn lemma_word_sum_bound(s: Seq<u8>)
    ensures
        word_sum(s) <= 0xFF00 * s.len(),
    decreases s.len(),
{
    if s.len() > 0 {
        lemma_word_sum_bound(s.drop_last());
    }
}

/// Adding one byte at the end of a region adds its weighted value.
pub proof fn lemma_word_sum_push(s: Seq<u8>, b: u8)
    ensures
        word_sum(s.push(b)) == word_sum(s) + b as nat * byte_weight(s.len() as int),
{
    assert(s.push(b).drop_last() =~= s);
}

/// Replacing the byte at `i` changes the sum by the weighted difference.
pub proof fn lemma_word_sum_update(s: Seq<u8>, i: int, b: u8)
    requires
        0 <= i < s.len(),
    ensures
        word_sum(s.update(i, b)) + s[i] as nat * byte_weight(i) == word_sum(s) + b as nat
            * byte_weight(i),
    decreases s.len(),
{
    if i == s.len() - 1 {
        assert(s.update(i, b).drop_last() =~= s.drop_last());
    } else {
        lemma_word_sum_update(s.drop_last(), i, b);
        assert(s.update(i, b).drop_last() =~= s.drop_last().update(i, b));
    }
}

/// The sum of the 16-bit big-endian words of `data[start..end]`.
pub fn sum_words(data: &Vec<u8>, start: usize, end: usize) -> (sum: u64)
    requires
        start <= end <= data.len(),
        end - start <= 0x1_0000_0000,
    ensures
        sum == word_sum(data@.subrange(start as int, end as int)),
{
    let mut sum: u64 = 0;
    let mut i: usize = start;
    while i < end
        invariant
            start <= i <= end <= data.len(),
            end - start <= 0x1_0000_0000,
            sum == word_sum(data@.subrange(start as int, i as int)),
            sum <= 0xFF00 * (i - start),
        decreases end - i,
    {
        let b: u64 = data[i] as u64;
        proof {
            let prefix = data@.subrange(start as int, i as int);
            lemma_word_sum_push(prefix, data@[i as int]);
            assert(prefix.push(data@[i as int]) =~= data@.subrange(start as int, i + 1));
        }
        if (i - start) % 2 == 0 {
            sum = sum + b * 256;
        } else {
            sum = sum + b;
        }
        i = i + 1;
    }
    sum
}

/// Reduce a sum of words to the 16-bit ones' complement sum.
pub fn fold_sum(sum: u64) -> (folded: u16)
    ensures
        folded == fold(sum as nat),
{
    if sum == 0 {
        0
    } else {
        ((sum - 1) % 0xFFFF + 1) as u16
    }
}

/// The checksum to store for a region whose words, with the checksum field
/// taken as zero, add up to `sum`.
pub fn finish(sum: u64) -> (checksum: u16)
    ensures
        checksum == checksum_of(sum as nat),
        validates(sum as nat + checksum as nat),
{
    proof {
        lemma_checksum_validates(sum as nat);
    }
    0xFFFF - fold_sum(sum)
}

} // verus!
