//! The bitmap of a bucket: one bit for each entry, in atomic machine words.

use vstd::prelude::*;
use std::sync::atomic::AtomicUsize;
use std::sync::atomic::Ordering;
use crate::layout::rotated;
use crate::thread_id::get_thread_id;

verus! {

/// How often an operation tries again when other threads keep changing
/// the word or byte that it works on, before it gives up.
pub const RETRY_LIMIT: u64 = u64::MAX;

/// Whether bit `i` of a word is set.
pub open spec fn bit_set(word: usize, i: nat) -> bool {
    word & (1usize << (i as usize)) != 0
}

/// The word with every bit set.
pub open spec fn full_word() -> usize {
    !0usize
}

/// The word whose bits below `i` are set and whose other bits are clear.
pub open spec fn low_ones(i: nat) -> usize {
    if i >= usize::BITS {
        !0usize
    } else {
        !(!0usize << (i as usize))
    }
}

/// Whether `i` is the lowest clear bit of a word.
pub open spec fn is_lowest_clear(word: usize, i: nat) -> bool {
    &&& i < usize::BITS
    &&& !bit_set(word, i)
    &&& forall|j: nat| j < i ==> bit_set(word, j)
}

/// A word with bit `i` set besides its own.
pub open spec fn with_bit(word: usize, i: nat) -> usize {
    word | (1usize << (i as usize))
}

/// A word without bit `i`.
pub open spec fn without_bit(word: usize, i: nat) -> usize {
    word & !(1usize << (i as usize))
}

/// A bitmap of `BITARRAY_LEN` atomic words.  A set bit marks an entry that
/// is taken.  Threads claim and release bits without a lock; what a thread
/// reads of a word may be stale as soon as it has read it.
pub struct BitMap<const BITARRAY_LEN: usize> {
    words: [AtomicUsize; BITARRAY_LEN],
}

/// A word with every bit clear.
fn clear_word() -> AtomicUsize {
    AtomicUsize::new(0)
}

/// An array of words with every bit clear, by `std::array::from_fn`.
#[verifier::external_body]
fn new_words<const BITARRAY_LEN: usize>() -> [AtomicUsize; BITARRAY_LEN] {
    std::array::from_fn(|_| clear_word())
}

/// `AtomicUsize::fetch_and` with relaxed ordering.  The call never
/// unwinds; what it returns is the word as some thread left it.
#[verifier::external_body]
fn clear_bits(word: &AtomicUsize, mask: usize) -> (prev: usize)
    opens_invariants none
    no_unwind
{
    word.fetch_and(mask, Ordering::Relaxed)
}

impl<const BITARRAY_LEN: usize> BitMap<BITARRAY_LEN> {
    /// The number of bits of the bitmap.
    pub open spec fn capacity() -> nat {
        (BITARRAY_LEN * usize::BITS) as nat
    }

    /// A bitmap with every bit clear.
    pub fn new() -> Self {
        BitMap { words: new_words() }
    }

    /// Reads bit `index`.  A bit beyond the bitmap reads as clear.
    pub fn load(&self, index: u32) -> (set: bool)
        ensures
            index >= Self::capacity() ==> !set,
    {
        let (offset, bit) = split_index(index);
        if offset < BITARRAY_LEN {
            has_bit(self.words[offset].load(Ordering::Relaxed), bit)
        } else {
            false
        }
    }

    /// Claims a clear bit and returns its index, or `None` when every word
    /// was found full.  The scan starts at a word picked by the calling
    /// thread's identifier and goes round the bitmap once; in a word it
    /// tries the lowest clear bit, and reads the word again when another
    /// thread changed it first.
    pub fn allocate(&self) -> (r: Option<usize>)
        ensures
            r matches Some(index) ==> index < Self::capacity(),
            BITARRAY_LEN == 0 ==> r is None,
    {
        if BITARRAY_LEN == 0 {
            return None;
        }
        let start = get_thread_id() % BITARRAY_LEN;
        let mut step: usize = 0;
        while step < BITARRAY_LEN
            invariant
                start < BITARRAY_LEN,
                step <= BITARRAY_LEN,
            decreases BITARRAY_LEN - step,
        {
            let pos = rotated(start, step, BITARRAY_LEN);
            let mut word = self.words[pos].load(Ordering::Relaxed);
            let mut tries = RETRY_LIMIT;
            while tries > 0
                invariant
                    pos < BITARRAY_LEN,
                decreases tries,
            {
                tries = tries - 1;
                match claim_step(word) {
                    None => {
                        break ;
                    },
                    Some((bit, next)) => {
                        match self.words[pos].compare_exchange_weak(
                            word,
                            next,
                            Ordering::Relaxed,
                            Ordering::Relaxed,
                        ) {
                            Ok(_) => {
                                return bit_index(pos, bit, BITARRAY_LEN);
                            },
                            Err(seen) => {
                                word = seen;
                            },
                        }
                    },
                }
            }
            step = step + 1;
        }
        None
    }

    /// Releases bit `index`.  A bit beyond the bitmap is left alone.
    pub fn deallocate(&self, index: usize)
        opens_invariants none
        no_unwind
    {
        let offset = index / word_bits();
        if offset < BITARRAY_LEN {
            let mask = release_mask(bit_in_word(index));
            let _ = clear_bits(&self.words[offset], mask);
        }
    }

    /// Whether every word was found full.  Of no words at all, every one
    /// is full.
    pub fn is_all_one(&self) -> (all: bool)
        ensures
            BITARRAY_LEN == 0 ==> all,
    {
        let mut pos: usize = 0;
        while pos < BITARRAY_LEN
            invariant
                pos <= BITARRAY_LEN,
            decreases BITARRAY_LEN - pos,
        {
            if self.words[pos].load(Ordering::Relaxed) != !0usize {
                return false;
            }
            pos = pos + 1;
        }
        true
    }
}

/// The word that holds bit `index` of a bitmap, and the bit's place in it.
pub fn split_index(index: u32) -> (r: (usize, u32))
    ensures
        r.0 == index as nat / usize::BITS as nat,
        r.1 == index as nat % usize::BITS as nat,
        r.1 < usize::BITS,
{
    let bits: u32 = usize::BITS;
    ((index / bits) as usize, index % bits)
}

/// The place in its word of bit `index` of a bitmap.
pub fn bit_in_word(index: usize) -> (bit: u32)
    ensures
        bit == index as nat % usize::BITS as nat,
        bit < usize::BITS,
    opens_invariants none
    no_unwind
{
    (index % word_bits()) as u32
}

/// The index in a bitmap of `words` words of bit `bit` of word `pos`.
pub fn bit_index(pos: usize, bit: u32, words: usize) -> (r: Option<usize>)
    requires
        pos < words,
        bit < usize::BITS,
    ensures
        r matches Some(index) ==> index == pos * usize::BITS + bit && index < words * usize::BITS,
        r is None <==> pos * usize::BITS + bit > usize::MAX,
{
    let bits = word_bits();
    assert(pos * bits + bit < words * bits) by (nonlinear_arith)
        requires
            pos < words,
            bit < bits,
    ;
    match pos.checked_mul(bits) {
        None => None,
        Some(base) => base.checked_add(bit as usize),
    }
}

/// The number of bits of a bitmap word.
pub fn word_bits() -> (bits: usize)
    ensures
        bits == usize::BITS,
        bits > 0,
    opens_invariants none
    no_unwind
{
    usize::BITS as usize
}

/// The word that holds bit `i` alone.
pub fn bit_mask(i: u32) -> (mask: usize)
    requires
        i < usize::BITS,
    ensures
        mask == 1usize << (i as usize),
        mask != 0,
{
    assert(1usize << (i as usize) != 0) by (bit_vector)
        requires
            i < usize::BITS,
    ;
    1usize << i
}

/// Whether bit `i` of a word is set.
pub fn has_bit(word: usize, i: u32) -> (set: bool)
    requires
        i < usize::BITS,
    ensures
        set == bit_set(word, i as nat),
{
    (word & bit_mask(i)) != 0
}

/// The lowest clear bit of a word, if it has one.
pub fn lowest_clear_bit(word: usize) -> (r: Option<u32>)
    ensures
        r is None <==> word == full_word(),
        r matches Some(i) ==> is_lowest_clear(word, i as nat),
{
    let bits: u32 = usize::BITS;
    let mut i: u32 = 0;
    proof {
        assert(word & !(!0usize << 0usize) == !(!0usize << 0usize)) by (bit_vector);
    }
    while i < bits
        invariant
            bits == usize::BITS,
            i <= bits,
            forall|j: nat| j < i ==> bit_set(word, j),
            word & low_ones(i as nat) == low_ones(i as nat),
        decreases bits - i,
    {
        let mask = bit_mask(i);
        if word & mask == 0 {
            assert(word != !0usize) by (bit_vector)
                requires
                    i < usize::BITS,
                    word & (1usize << (i as usize)) == 0,
            ;
            return Some(i);
        }
        proof {
            let k: usize = (i + 1) as usize;
            let at: usize = i as usize;
            if i + 1 < usize::BITS {
                assert(word & !(!0usize << k) == !(!0usize << k)) by (bit_vector)
                    requires
                        k == at + 1,
                        k < usize::BITS,
                        word & !(!0usize << at) == !(!0usize << at),
                        word & (1usize << at) != 0,
                ;
            } else {
                assert(word == !0usize) by (bit_vector)
                    requires
                        at + 1 == usize::BITS,
                        word & !(!0usize << at) == !(!0usize << at),
                        word & (1usize << at) != 0,
                ;
                assert(!0usize & !0usize == !0usize) by (bit_vector);
            }
        }
        i = i + 1;
    }
    assert(word & !0usize == word) by (bit_vector);
    None
}

/// What an allocation that read `word` tries to claim: the lowest clear
/// bit, and the word with that bit set; nothing when the word is full.
pub fn claim_step(word: usize) -> (r: Option<(u32, usize)>)
    ensures
        r is None <==> word == full_word(),
        r matches Some((i, next)) ==> {
            &&& is_lowest_clear(word, i as nat)
            &&& next == with_bit(word, i as nat)
            &&& next != word
        },
{
    match lowest_clear_bit(word) {
        None => None,
        Some(i) => {
            let mask = bit_mask(i);
            assert(word | mask != word) by (bit_vector)
                requires
                    word & mask == 0,
                    mask != 0,
            ;
            Some((i, word | mask))
        },
    }
}

/// The mask that clears bit `i` of the word it is and-ed onto, and leaves
/// the other bits as they are.
pub fn release_mask(i: u32) -> (mask: usize)
    requires
        i < usize::BITS,
    ensures
        mask == !(1usize << (i as usize)),
        forall|word: usize| word & mask == without_bit(word, i as nat),
    opens_invariants none
    no_unwind
{
    !(1usize << i)
}

/// Setting bit `i` sets that bit and leaves every other bit as it was.
pub proof fn lemma_with_bit(word: usize, i: nat, j: nat)
    requires
        i < usize::BITS,
        j < usize::BITS,
    ensures
        bit_set(with_bit(word, i), j) == (j == i || bit_set(word, j)),
{
    let a = i as usize;
    let b = j as usize;
    assert(((word | (1usize << a)) & (1usize << b) != 0) == (b == a || word & (1usize << b) != 0))
        by (bit_vector)
        requires
            a < usize::BITS,
            b < usize::BITS,
    ;
}

/// Clearing bit `i` clears that bit and leaves every other bit as it was.
pub proof fn lemma_without_bit(word: usize, i: nat, j: nat)
    requires
        i < usize::BITS,
        j < usize::BITS,
    ensures
        bit_set(without_bit(word, i), j) == (j != i && bit_set(word, j)),
{
    let a = i as usize;
    let b = j as usize;
    assert(((word & !(1usize << a)) & (1usize << b) != 0) == (b != a && word & (1usize << b) != 0))
        by (bit_vector)
        requires
            a < usize::BITS,
            b < usize::BITS,
    ;
}

/// A bit that was released can be claimed again: the word without bit `i`
/// is not full, and its lowest clear bit is `i` or one below it.
pub proof fn lemma_released_bit_is_free(word: usize, i: nat)
    requires
        i < usize::BITS,
    ensures
        without_bit(word, i) != full_word(),
        forall|j: nat| is_lowest_clear(without_bit(word, i), j) ==> j <= i,
{
    lemma_without_bit(word, i, i);
    let a = i as usize;
    assert(!0usize & (1usize << a) != 0) by (bit_vector)
        requires
            a < usize::BITS,
    ;
}

/// A bit that was claimed is set, and the bits below it were set before.
pub proof fn lemma_claimed_bit_is_set(word: usize, i: nat)
    requires
        is_lowest_clear(word, i),
    ensures
        bit_set(with_bit(word, i), i),
        forall|j: nat| j <= i ==> bit_set(with_bit(word, i), j),
{
    assert forall|j: nat| j <= i implies bit_set(with_bit(word, i), j) by {
        lemma_with_bit(word, i, j);
    }
}

} // verus!
