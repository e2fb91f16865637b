//! Counters, a bitmap with find-and-set, and a bounded stack. Each value
//! has one owner at a time: callers that share one across workers hold it
//! behind a lock, so every operation below happens as one step.
use vstd::prelude::*;

verus! {

/// `(a + b) mod 2^64`.
pub open spec fn wrap_add(a: u64, b: u64) -> u64 {
    ((a as int + b as int) % 18446744073709551616) as u64
}

/// `(a - b) mod 2^64`.
pub open spec fn wrap_sub(a: u64, b: u64) -> u64 {
    ((a as int - b as int + 18446744073709551616) % 18446744073709551616) as u64
}

/// A 64-bit counter.
#[derive(Debug)]
pub struct AtomicCounter {
    value: u64,
}

impl AtomicCounter {
    pub closed spec fn get(&self) -> u64 {
        self.value
    }

    pub fn new(initial: u64) -> (r: Self)
        ensures
            r.get() == initial,
    {
        AtomicCounter { value: initial }
    }

    /// Adds `val` (wrapping) and returns the previous value.
    pub fn fetch_add(&mut self, val: u64) -> (r: u64)
        ensures
            r == old(self).get(),
            final(self).get() == wrap_add(old(self).get(), val),
    {
        let prev = self.value;
        if val <= u64::MAX - prev {
            self.value = prev + val;
        } else {
            self.value = val - (u64::MAX - prev) - 1;
        }
        prev
    }

    /// Subtracts `val` (wrapping) and returns the previous value.
    pub fn fetch_sub(&mut self, val: u64) -> (r: u64)
        ensures
            r == old(self).get(),
            final(self).get() == wrap_sub(old(self).get(), val),
    {
        let prev = self.value;
        if val <= prev {
            self.value = prev - val;
        } else {
            self.value = u64::MAX - (val - prev) + 1;
        }
        prev
    }

    pub fn load(&self) -> (r: u64)
        ensures
            r == self.get(),
    {
        self.value
    }

    pub fn store(&mut self, val: u64)
        ensures
            final(self).get() == val,
    {
        self.value = val;
    }

    /// Sets `new` when the value is `current`; returns the previous value,
    /// as `Ok` when it was `current` and as `Err` otherwise.
    pub fn compare_exchange(&mut self, current: u64, new: u64) -> (r: Result<u64, u64>)
        ensures
            old(self).get() == current ==> r == Ok::<u64, u64>(current) && final(self).get() == new,
            old(self).get() != current ==> r == Err::<u64, u64>(old(self).get()) && final(self).get()
                == old(self).get(),
    {
        let prev = self.value;
        if prev == current {
            self.value = new;
            Ok(prev)
        } else {
            Err(prev)
        }
    }
}

/// Bit `b` of `w`.
pub open spec fn word_bit(w: u64, b: int) -> bool {
    (w >> (b as u64)) & 1u64 == 1u64
}

proof fn lemma_bit_or(w: u64, b: u64, c: u64)
    requires
        b < 64,
        c < 64,
    ensures
        word_bit(w | (1u64 << b), c as int) == (b == c || word_bit(w, c as int)),
{
    assert(((w | (1u64 << b)) >> c) & 1u64 == 1u64 <==> (b == c || (w >> c) & 1u64 == 1u64)) by (bit_vector)
        requires
            b < 64,
            c < 64,
    ;
}

proof fn lemma_bit_and_not(w: u64, b: u64, c: u64)
    requires
        b < 64,
        c < 64,
    ensures
        word_bit(w & !(1u64 << b), c as int) == (b != c && word_bit(w, c as int)),
{
    assert(((w & !(1u64 << b)) >> c) & 1u64 == 1u64 <==> (b != c && (w >> c) & 1u64 == 1u64)) by (bit_vector)
        requires
            b < 64,
            c < 64,
    ;
}

proof fn lemma_bit_mask(w: u64, b: u64)
    requires
        b < 64,
    ensures
        (w & (1u64 << b) != 0) == word_bit(w, b as int),
{
    assert((w & (1u64 << b) != 0) <==> ((w >> b) & 1u64 == 1u64)) by (bit_vector)
        requires
            b < 64,
    ;
}

proof fn lemma_all_ones(c: u64)
    requires
        c < 64,
    ensures
        word_bit(0xFFFF_FFFF_FFFF_FFFFu64, c as int),
        !word_bit(0u64, c as int),
{
    assert((0xFFFF_FFFF_FFFF_FFFFu64 >> c) & 1u64 == 1u64) by (bit_vector)
        requires
            c < 64,
    ;
    assert((0u64 >> c) & 1u64 == 0u64) by (bit_vector);
}

/// The index of the first `false` in `s` at or after `i`.
pub open spec fn first_clear_from(s: Seq<bool>, i: int) -> Option<int>
    decreases s.len() - i,
{
    if i < 0 || i >= s.len() {
        None
    } else if !s[i] {
        Some(i)
    } else {
        first_clear_from(s, i + 1)
    }
}

/// The index of the first `false` in `s`.
pub open spec fn first_clear(s: Seq<bool>) -> Option<int> {
    first_clear_from(s, 0)
}

pub proof fn lemma_first_clear_from(s: Seq<bool>, i: int)
    requires
        0 <= i,
    ensures
        match first_clear_from(s, i) {
            Some(k) => i <= k < s.len() && !s[k] && forall|j: int| i <= j < k ==> s[j],
            None => forall|j: int| i <= j < s.len() ==> s[j],
        },
    decreases s.len() - i,
{
    if i < s.len() && s[i] {
        lemma_first_clear_from(s, i + 1);
    }
}

proof fn lemma_skip_set(s: Seq<bool>, i: int, k: int)
    requires
        0 <= i <= k,
        forall|j: int| i <= j < k && j < s.len() ==> s[j],
    ensures
        first_clear_from(s, i) == first_clear_from(s, k),
    decreases k - i,
{
    if i < k && i < s.len() {
        lemma_skip_set(s, i + 1, k);
    } else if i < k {
        lemma_first_clear_from(s, i);
        lemma_first_clear_from(s, k);
    }
}

/// A fixed number of bits in 64-bit words.
#[derive(Debug)]
pub struct AtomicBitmap {
    bits: Vec<u64>,
    size: usize,
}

impl AtomicBitmap {
    pub closed spec fn wf(&self) -> bool {
        self.bits@.len() * 64 >= self.size
    }

    /// The bits, one per index.
    pub closed spec fn view_bits(&self) -> Seq<bool> {
        Seq::new(self.size as nat, |i: int| word_bit(self.bits@[i / 64], i % 64))
    }

    pub fn new(size: usize) -> (r: Self)
        ensures
            r.wf(),
            r.view_bits() == Seq::new(size as nat, |i: int| false),
    {
        let num_words = size / 64 + if size % 64 == 0 {
            0
        } else {
            1
        };
        let mut bits: Vec<u64> = Vec::new();
        let mut i: usize = 0;
        while i < num_words
            invariant
                i <= num_words,
                bits@.len() == i,
                forall|j: int| 0 <= j < i ==> bits@[j] == 0u64,
            decreases num_words - i,
        {
            bits.push(0u64);
            i = i + 1;
        }
        let r = AtomicBitmap { bits, size };
        proof {
            assert forall|k: int| 0 <= k < size implies !#[trigger] word_bit(r.bits@[k / 64], k % 64) by {
                lemma_all_ones((k % 64) as u64);
            }
            assert(r.view_bits() =~= Seq::new(size as nat, |i: int| false));
        }
        r
    }

    /// The number of bits.
    pub fn len(&self) -> (r: usize)
        ensures
            r == self.view_bits().len(),
    {
        self.size
    }

    /// Sets a bit; returns whether it was clear. An index out of range
    /// changes nothing and returns false.
    pub fn set(&mut self, index: usize) -> (r: bool)
        requires
            old(self).wf(),
        ensures
            final(self).wf(),
            index >= old(self).view_bits().len() ==> !r && final(self).view_bits() == old(self).view_bits(),
            index < old(self).view_bits().len() ==> r == !old(self).view_bits()[index as int]
                && final(self).view_bits() == old(self).view_bits().update(index as int, true),
    {
        if index >= self.size {
            return false;
        }
        let w = index / 64;
        let b = (index % 64) as u64;
        let word = self.bits[w];
        let mask = 1u64 << b;
        let was_clear = word & mask == 0;
        proof {
            lemma_bit_mask(word, b);
        }
        self.bits.set(w, word | mask);
        proof {
            assert forall|k: int| 0 <= k < self.size implies #[trigger] word_bit(self.bits@[k / 64], k % 64) == (if k
                == index {
                true
            } else {
                word_bit(old(self).bits@[k / 64], k % 64)
            }) by {
                if k / 64 == w as int {
                    lemma_bit_or(word, b, (k % 64) as u64);
                }
            }
            assert(self.view_bits() =~= old(self).view_bits().update(index as int, true));
        }
        was_clear
    }

    /// Clears a bit; returns whether it was set. An index out of range
    /// changes nothing and returns false.
    pub fn clear(&mut self, index: usize) -> (r: bool)
        requires
            old(self).wf(),
        ensures
            final(self).wf(),
            index >= old(self).view_bits().len() ==> !r && final(self).view_bits() == old(self).view_bits(),
            index < old(self).view_bits().len() ==> r == old(self).view_bits()[index as int]
                && final(self).view_bits() == old(self).view_bits().update(index as int, false),
    {
        if index >= self.size {
            return false;
        }
        let w = index / 64;
        let b = (index % 64) as u64;
        let word = self.bits[w];
        let mask = 1u64 << b;
        let was_set = word & mask != 0;
        proof {
            lemma_bit_mask(word, b);
        }
        self.bits.set(w, word & !mask);
        proof {
            assert forall|k: int| 0 <= k < self.size implies #[trigger] word_bit(self.bits@[k / 64], k % 64) == (if k
                == index {
                false
            } else {
                word_bit(old(self).bits@[k / 64], k % 64)
            }) by {
                if k / 64 == w as int {
                    lemma_bit_and_not(word, b, (k % 64) as u64);
                }
            }
            assert(self.view_bits() =~= old(self).view_bits().update(index as int, false));
        }
        was_set
    }

    /// Whether a bit is set; false out of range.
    pub fn test(&self, index: usize) -> (r: bool)
        requires
            self.wf(),
        ensures
            r == (index < self.view_bits().len() && self.view_bits()[index as int]),
    {
        if index >= self.size {
            return false;
        }
        let word = self.bits[index / 64];
        let b = (index % 64) as u64;
        proof {
            lemma_bit_mask(word, b);
        }
        word & (1u64 << b) != 0
    }

    /// The lowest clear bit. Words whose bits are all set are skipped whole.
    pub fn find_first_clear(&self) -> (r: Option<usize>)
        requires
            self.wf(),
        ensures
            match r {
                Some(i) => first_clear(self.view_bits()) == Some(i as int),
                None => first_clear(self.view_bits()) is None,
            },
    {
        let ghost v = self.view_bits();
        let size = self.size;
        let mut i: usize = 0;
        while i < size
            invariant
                self.wf(),
                v == self.view_bits(),
                size == self.size,
                i <= size,
                first_clear(v) == first_clear_from(v, i as int),
            decreases size - i,
        {
            if i % 64 == 0 && size - i >= 64 && self.bits[i / 64] == 0xFFFF_FFFF_FFFF_FFFFu64 {
                proof {
                    assert forall|j: int| i <= j < i + 64 && j < v.len() implies v[j] by {
                        assert(j / 64 == i / 64);
                        lemma_all_ones((j % 64) as u64);
                    }
                    lemma_skip_set(v, i as int, i as int + 64);
                }
                i = i + 64;
            } else {
                if !self.test(i) {
                    return Some(i);
                }
                i = i + 1;
            }
        }
        None
    }

    /// Claims the lowest clear bit: sets it and returns its index.
    pub fn find_and_set(&mut self) -> (r: Option<usize>)
        requires
            old(self).wf(),
        ensures
            final(self).wf(),
            match r {
                Some(i) => first_clear(old(self).view_bits()) == Some(i as int) && final(self).view_bits()
                    == old(self).view_bits().update(i as int, true),
                None => first_clear(old(self).view_bits()) is None && final(self).view_bits() == old(
                    self,
                ).view_bits(),
            },
    {
        match self.find_first_clear() {
            Some(i) => {
                proof {
                    lemma_first_clear_from(self.view_bits(), 0);
                }
                self.set(i);
                Some(i)
            },
            None => None,
        }
    }
}

/// A bit that is set is never the one that find-and-set claims next: two
/// successive claims on one bitmap return different indices.
pub proof fn lemma_claims_distinct(bits: Seq<bool>, i: int)
    requires
        0 <= i < bits.len(),
    ensures
        first_clear(bits.update(i, true)) != Some(i),
{
    lemma_first_clear_from(bits.update(i, true), 0);
}

/// A stack with a fixed capacity.
pub struct AtomicStack<T> {
    items: Vec<T>,
    capacity: usize,
}

impl<T> AtomicStack<T> {
    /// The items, bottom first.
    pub closed spec fn items(&self) -> Seq<T> {
        self.items@
    }

    pub closed spec fn cap(&self) -> nat {
        self.capacity as nat
    }

    pub fn new(capacity: usize) -> (r: Self)
        ensures
            r.items() == Seq::<T>::empty(),
            r.cap() == capacity,
    {
        AtomicStack { items: Vec::new(), capacity }
    }

    /// Pushes a value; returns false, dropping it, when the stack is full.
    pub fn push(&mut self, value: T) -> (r: bool)
        ensures
            final(self).cap() == old(self).cap(),
            r == (old(self).items().len() < old(self).cap()),
            r ==> final(self).items() == old(self).items().push(value),
            !r ==> final(self).items() == old(self).items(),
    {
        if self.items.len() >= self.capacity {
            return false;
        }
        self.items.push(value);
        true
    }

    /// Pops the most recently pushed value.
    pub fn pop(&mut self) -> (r: Option<T>)
        ensures
            final(self).cap() == old(self).cap(),
            old(self).items().len() == 0 ==> r is None && final(self).items() == old(self).items(),
            old(self).items().len() > 0 ==> r == Some(old(self).items().last()) && final(self).items()
                == old(self).items().drop_last(),
    {
        self.items.pop()
    }
}

} // verus!
