//! Bit-level helpers shared by the free-space bitmaps.
//!
//! A bitmap is a vector of little-endian `u64` words; bit `i` of the map is
//! bit `i % 64` of word `i / 64`. The helpers here relate the packed words
//! to a `Seq<bool>` view and maintain a running count of clear (free) bits.

use vstd::prelude::*;

verus! {

/// Whether bit `b` of word `w` is set.
pub open spec fn word_bit(w: u64, b: int) -> bool {
    (w >> (b as u64)) & 1u64 == 1u64
}

/// The bitmap words `words`, seen as one boolean per tracked index
/// (`true` = bit set).
pub open spec fn bitmap_view(words: Seq<u64>, len: int) -> Seq<bool> {
    Seq::new(len as nat, |i: int| word_bit(words[i / 64], i % 64))
}

/// `bits` with the run `[s, s + c)` forced to `v`.
pub open spec fn with_run(bits: Seq<bool>, s: int, c: int, v: bool) -> Seq<bool> {
    Seq::new(bits.len(), |j: int| if s <= j < s + c { v } else { bits[j] })
}

/// Number of `false` (clear) entries among the first `n` entries of `bits`.
pub open spec fn count_free(bits: Seq<bool>, n: int) -> int
    decreases n,
{
    if n <= 0 {
        0
    } else {
        count_free(bits, n - 1) + (if bits[n - 1] { 0int } else { 1int })
    }
}

pub proof fn lemma_count_free_bounds(bits: Seq<bool>, n: int)
    ensures
        0 <= count_free(bits, n),
        n >= 0 ==> count_free(bits, n) <= n,
    decreases n,
{
    if n > 0 {
        lemma_count_free_bounds(bits, n - 1);
    }
}

/// Updating one entry moves the count of clear bits by at most one, exactly
/// as the old and new values dictate.
pub proof fn lemma_count_free_update(bits: Seq<bool>, k: int, v: bool, n: int)
    requires
        0 <= k < bits.len(),
        n <= bits.len(),
    ensures
        count_free(bits.update(k, v), n) == count_free(bits, n) + (if k < n {
            (if v { 0int } else { 1int }) - (if bits[k] { 0int } else { 1int })
        } else {
            0int
        }),
    decreases n,
{
    if n > 0 {
        lemma_count_free_update(bits, k, v, n - 1);
    }
}

/// Two prefixes that agree pointwise have the same count of clear bits.
pub proof fn lemma_count_free_agree(a: Seq<bool>, b: Seq<bool>, n: int)
    requires
        forall|i: int| 0 <= i < n ==> a[i] == b[i],
    ensures
        count_free(a, n) == count_free(b, n),
    decreases n,
{
    if n > 0 {
        lemma_count_free_agree(a, b, n - 1);
    }
}

/// Reading bit `b` of a word.
pub fn word_get(w: u64, b: u64) -> (r: bool)
    requires
        b < 64,
    ensures
        r == word_bit(w, b as int),
{
    (w >> b) & 1u64 == 1u64
}

/// Setting bit `b` leaves every other bit of the word unchanged.
pub proof fn lemma_word_set(w: u64, b: u64, j: u64)
    requires
        b < 64,
        j < 64,
    ensures
        word_bit(w | (1u64 << b), b as int),
        j != b ==> word_bit(w | (1u64 << b), j as int) == word_bit(w, j as int),
{
    assert((w | (1u64 << b)) >> b & 1u64 == 1u64) by (bit_vector)
        requires
            b < 64,
    ;
    assert(j != b && j < 64 && b < 64 ==> (w | (1u64 << b)) >> j & 1u64 == w >> j & 1u64)
        by (bit_vector);
}

/// Clearing bit `b` leaves every other bit of the word unchanged.
pub proof fn lemma_word_clear(w: u64, b: u64, j: u64)
    requires
        b < 64,
        j < 64,
    ensures
        !word_bit(w & !(1u64 << b), b as int),
        j != b ==> word_bit(w & !(1u64 << b), j as int) == word_bit(w, j as int),
{
    assert((w & !(1u64 << b)) >> b & 1u64 == 0u64) by (bit_vector)
        requires
            b < 64,
    ;
    assert(j != b && j < 64 && b < 64 ==> (w & !(1u64 << b)) >> j & 1u64 == w >> j & 1u64)
        by (bit_vector);
}

/// The count of clear bits is monotone in the prefix length.
pub proof fn lemma_count_free_mono(bits: Seq<bool>, a: int, b: int)
    requires
        a <= b,
    ensures
        count_free(bits, a) <= count_free(bits, b),
    decreases b - a,
{
    if a < b {
        lemma_count_free_mono(bits, a, b - 1);
    }
}

/// Over a fully-clear run, the count of clear bits grows by the run length.
pub proof fn lemma_count_free_run(bits: Seq<bool>, s: int, c: int)
    requires
        0 <= s,
        0 <= c,
        forall|j: int| s <= j < s + c ==> !(#[trigger] bits[j]),
    ensures
        count_free(bits, s + c) == count_free(bits, s) + c,
    decreases c,
{
    if c > 0 {
        lemma_count_free_run(bits, s, c - 1);
        assert(!bits[s + c - 1]);
    }
}

/// A free run of length `c` inside the valid range puts at least `c` clear
/// bits in the total count.
pub proof fn lemma_run_free_count(bits: Seq<bool>, s: int, c: int, n: int)
    requires
        0 <= s,
        0 <= c,
        s + c <= n,
        forall|j: int| s <= j < s + c ==> !(#[trigger] bits[j]),
    ensures
        count_free(bits, n) >= c,
{
    lemma_count_free_run(bits, s, c);
    lemma_count_free_mono(bits, s + c, n);
    lemma_count_free_bounds(bits, s);
}

/// Clearing a fully-set run adds exactly its length to the count of clear
/// bits.
pub proof fn lemma_count_free_clear(bits: Seq<bool>, s: int, c: int, n: int)
    requires
        0 <= s,
        0 <= c,
        s + c <= n <= bits.len(),
        forall|j: int| s <= j < s + c ==> (#[trigger] bits[j]),
    ensures
        count_free(with_run(bits, s, c, false), n) == count_free(bits, n) + c,
    decreases c,
{
    if c == 0 {
        lemma_count_free_agree(with_run(bits, s, 0, false), bits, n);
    } else {
        lemma_count_free_clear(bits, s, c - 1, n);
        let prev = with_run(bits, s, c - 1, false);
        let cur = with_run(bits, s, c, false);
        assert(cur =~= prev.update(s + c - 1, false));
        assert(prev[s + c - 1]);
        lemma_count_free_update(prev, s + c - 1, false, n);
    }
}

/// Every bit of the zero word is clear.
pub proof fn lemma_word_zero(j: u64)
    requires
        j < 64,
    ensures
        !word_bit(0u64, j as int),
{
    assert(0u64 >> j & 1u64 == 0u64) by (bit_vector);
}

} // verus!
