//! Fixed-capacity object pools and a tiered byte-buffer pool. A slot's bit
//! in the pool's bitmap is set exactly while its object is lent out.
use vstd::prelude::*;
use crate::atomic::{AtomicBitmap, AtomicCounter, first_clear, lemma_first_clear_from, wrap_add};

verus! {

/// An object taken from a pool. A handle bound to a slot returns there when
/// released; one made because the pool was exhausted is not bound to any.
pub struct PooledObject<T> {
    pub value: T,
    index: usize,
}

/// The index that marks a handle bound to no slot.
pub const UNPOOLED: usize = usize::MAX;

impl<T> PooledObject<T> {
    /// The slot the handle is bound to, or `UNPOOLED`.
    pub closed spec fn slot(&self) -> usize {
        self.index
    }

    /// The object the handle holds.
    pub closed spec fn val(&self) -> T {
        self.value
    }

    /// Whether the handle is bound to a slot.
    pub fn is_pooled(&self) -> (r: bool)
        ensures
            r == (self.slot() != UNPOOLED),
    {
        self.index != UNPOOLED
    }
}

/// Request, hit, miss and return counts.
#[derive(Debug)]
pub struct PoolMetrics {
    pub requests: AtomicCounter,
    pub hits: AtomicCounter,
    pub misses: AtomicCounter,
    pub returns: AtomicCounter,
}

impl PoolMetrics {
    pub fn new() -> (r: Self)
        ensures
            r.requests.get() == 0 && r.hits.get() == 0 && r.misses.get() == 0 && r.returns.get() == 0,
    {
        PoolMetrics {
            requests: AtomicCounter::new(0),
            hits: AtomicCounter::new(0),
            misses: AtomicCounter::new(0),
            returns: AtomicCounter::new(0),
        }
    }

    /// A copy of the current counts.
    pub fn snapshot(&self) -> (r: Self)
        ensures
            r.requests.get() == self.requests.get() && r.hits.get() == self.hits.get() && r.misses.get()
                == self.misses.get() && r.returns.get() == self.returns.get(),
    {
        PoolMetrics {
            requests: AtomicCounter::new(self.requests.load()),
            hits: AtomicCounter::new(self.hits.load()),
            misses: AtomicCounter::new(self.misses.load()),
            returns: AtomicCounter::new(self.returns.load()),
        }
    }
}

/// The number of `true` values in `s`.
pub open spec fn count_true(s: Seq<bool>) -> nat
    decreases s.len(),
{
    if s.len() == 0 {
        0
    } else {
        count_true(s.drop_last()) + if s.last() {
            1nat
        } else {
            0nat
        }
    }
}

/// The number of slots whose object is lent out.
pub open spec fn count_lent<T>(s: Seq<Option<T>>) -> nat
    decreases s.len(),
{
    if s.len() == 0 {
        0
    } else {
        count_lent(s.drop_last()) + if s.last() is None {
            1nat
        } else {
            0nat
        }
    }
}

/// When each slot's bit is set exactly while its object is lent out, the
/// number of set bits equals the number of handles bound to slots.
pub proof fn lemma_set_bits_match_handles<T>(bits: Seq<bool>, slots: Seq<Option<T>>)
    requires
        bits.len() == slots.len(),
        forall|i: int| 0 <= i < bits.len() ==> (bits[i] <==> slots[i] is None),
    ensures
        count_true(bits) == count_lent(slots),
    decreases bits.len(),
{
    if bits.len() > 0 {
        lemma_set_bits_match_handles(bits.drop_last(), slots.drop_last());
    }
}

/// A fixed set of objects lent out one at a time.
pub struct ObjectPool<T> {
    objects: Vec<Option<T>>,
    available: AtomicBitmap,
    metrics: PoolMetrics,
}

impl<T> ObjectPool<T> {
    /// A slot's bit is set exactly while its object is out.
    pub closed spec fn wf(&self) -> bool {
        &&& self.available.wf()
        &&& self.available.view_bits().len() == self.objects@.len()
        &&& forall|i: int|
            0 <= i < self.objects@.len() ==> (#[trigger] self.available.view_bits()[i] <==> self.objects@[i] is None)
    }

    /// Which slots are lent out.
    pub closed spec fn lent(&self) -> Seq<bool> {
        self.available.view_bits()
    }

    /// The objects in the slots; `None` where lent out.
    pub closed spec fn slots(&self) -> Seq<Option<T>> {
        self.objects@
    }

    pub closed spec fn stats(&self) -> (u64, u64, u64, u64) {
        (self.metrics.requests.get(), self.metrics.hits.get(), self.metrics.misses.get(), self.metrics.returns.get())
    }

    /// In every state the pool's operations produce, the set bits of its
    /// bitmap are exactly as many as the handles bound to its slots.
    pub proof fn lemma_bits_count_handles(&self)
        requires
            self.wf(),
        ensures
            count_true(self.lent()) == count_lent(self.slots()),
    {
        lemma_set_bits_match_handles(self.lent(), self.slots());
    }

    /// Fills `capacity` slots with objects from `factory`.
    pub fn new<F: Fn() -> T>(capacity: usize, factory: F) -> (r: Self)
        requires
            factory.requires(()),
        ensures
            r.wf(),
            r.lent() == Seq::new(capacity as nat, |i: int| false),
            r.stats() == (0u64, 0u64, 0u64, 0u64),
    {
        let mut objects: Vec<Option<T>> = Vec::new();
        let mut i: usize = 0;
        while i < capacity
            invariant
                i <= capacity,
                objects@.len() == i,
                factory.requires(()),
                forall|j: int| 0 <= j < i ==> #[trigger] objects@[j] is Some,
            decreases capacity - i,
        {
            objects.push(Some(factory()));
            i = i + 1;
        }
        let r = ObjectPool { objects, available: AtomicBitmap::new(capacity), metrics: PoolMetrics::new() };
        r
    }

    /// Fills `capacity` slots with objects from `factory`; every slot then
    /// holds an object that `factory` returned.
    pub fn new_filled<F: Fn() -> T>(capacity: usize, factory: F) -> (r: Self)
        requires
            factory.requires(()),
        ensures
            r.wf(),
            r.lent() == Seq::new(capacity as nat, |i: int| false),
            r.slots().len() == capacity,
            forall|i: int| 0 <= i < capacity ==> #[trigger] r.slots()[i] is Some && factory.ensures((), r.slots()[i].unwrap()),
            r.stats() == (0u64, 0u64, 0u64, 0u64),
    {
        let mut objects: Vec<Option<T>> = Vec::new();
        let mut i: usize = 0;
        while i < capacity
            invariant
                i <= capacity,
                objects@.len() == i,
                factory.requires(()),
                forall|j: int| 0 <= j < i ==> #[trigger] objects@[j] is Some && factory.ensures((), objects@[j].unwrap()),
            decreases capacity - i,
        {
            let v = factory();
            objects.push(Some(v));
            i = i + 1;
        }
        ObjectPool { objects, available: AtomicBitmap::new(capacity), metrics: PoolMetrics::new() }
    }

    /// The number of slots.
    pub fn capacity(&self) -> (r: usize)
        ensures
            r == self.slots().len(),
    {
        self.objects.len()
    }

    /// Takes the object of the lowest free slot; `None` when every slot is
    /// lent out.
    pub fn get(&mut self) -> (r: Option<PooledObject<T>>)
        requires
            old(self).wf(),
        ensures
            final(self).wf(),
            final(self).stats().0 == wrap_add(old(self).stats().0, 1),
            match r {
                Some(o) => first_clear(old(self).lent()) == Some(o.slot() as int) && final(self).lent()
                    == old(self).lent().update(o.slot() as int, true) && old(self).slots()[o.slot() as int]
                    == Some(o.val()) && final(self).slots() == old(self).slots().update(o.slot() as int, None)
                    && final(self).stats().1 == wrap_add(old(self).stats().1, 1) && final(self).stats().2 == old(self).stats().2,
                None => first_clear(old(self).lent()) is None && final(self).lent() == old(self).lent()
                    && final(self).slots() == old(self).slots() && final(self).stats().2 == wrap_add(old(self).stats().2, 1)
                    && final(self).stats().1 == old(self).stats().1,
            },
            final(self).stats().3 == old(self).stats().3,
    {
        self.metrics.requests.fetch_add(1);
        match self.available.find_and_set() {
            Some(index) => {
                proof {
                    lemma_first_clear_from(old(self).lent(), 0);
                }
                self.metrics.hits.fetch_add(1);
                let mut taken: Option<T> = None;
                let ghost before = self.objects@;
                std::mem::swap(&mut taken, &mut self.objects[index]);
                proof {
                    assert(self.objects@ =~= before.update(index as int, None));
                    assert forall|i: int| 0 <= i < self.objects@.len() implies (
                    #[trigger] self.available.view_bits()[i] <==> self.objects@[i] is None) by {
                        if i != index {
                            assert(old(self).available.view_bits()[i] <==> before[i] is None);
                        }
                    }
                }
                match taken {
                    Some(value) => Some(PooledObject { value, index }),
                    None => {
                        proof {
                            assert(false);
                        }
                        None
                    },
                }
            },
            None => {
                self.metrics.misses.fetch_add(1);
                None
            },
        }
    }

    /// Takes a pooled object, or makes one with `factory` when the pool is
    /// exhausted; such an object is bound to no slot.
    pub fn get_or_create<F: Fn() -> T>(&mut self, factory: F) -> (r: PooledObject<T>)
        requires
            old(self).wf(),
            factory.requires(()),
        ensures
            final(self).wf(),
            match first_clear(old(self).lent()) {
                Some(i) => r.slot() == i && final(self).lent() == old(self).lent().update(i, true)
                    && old(self).slots()[i] == Some(r.val()) && final(self).slots() == old(self).slots().update(
                    i,
                    None,
                ),
                None => r.slot() == UNPOOLED && final(self).lent() == old(self).lent() && final(self).slots()
                    == old(self).slots() && factory.ensures((), r.val()),
            },
    {
        match self.get() {
            Some(o) => o,
            None => PooledObject { value: factory(), index: UNPOOLED },
        }
    }

    /// Puts a handle's object back into its slot. A handle bound to no slot,
    /// or to a slot that is not lent out, is dropped.
    pub fn release(&mut self, obj: PooledObject<T>)
        requires
            old(self).wf(),
        ensures
            final(self).wf(),
            (obj.slot() < old(self).slots().len() && old(self).lent()[obj.slot() as int]) ==> final(self).lent()
                == old(self).lent().update(obj.slot() as int, false) && final(self).slots() == old(self).slots().update(
                obj.slot() as int,
                Some(obj.val()),
            ) && final(self).stats().3 == wrap_add(old(self).stats().3, 1) && final(self).stats().0 == old(self).stats().0
                && final(self).stats().1 == old(self).stats().1 && final(self).stats().2 == old(self).stats().2,
            !(obj.slot() < old(self).slots().len() && old(self).lent()[obj.slot() as int]) ==> final(self).lent()
                == old(self).lent() && final(self).slots() == old(self).slots() && final(self).stats() == old(self).stats(),
    {
        let index = obj.index;
        if index >= self.objects.len() || !self.available.test(index) {
            return;
        }
        self.metrics.returns.fetch_add(1);
        let ghost before = self.objects@;
        self.objects.set(index, Some(obj.value));
        self.available.clear(index);
        proof {
            assert forall|i: int| 0 <= i < self.objects@.len() implies (
            #[trigger] self.available.view_bits()[i] <==> self.objects@[i] is None) by {
                if i != index {
                    assert(old(self).available.view_bits()[i] <==> before[i] is None);
                }
            }
        }
    }

    /// Resets the object with `reset`, then releases the handle: the slot then
    /// holds what `reset` made of the object.
    pub fn release_with<R: Fn(T) -> T>(&mut self, obj: PooledObject<T>, reset: R)
        requires
            old(self).wf(),
            forall|v: T| reset.requires((v,)),
        ensures
            final(self).wf(),
            (obj.slot() < old(self).slots().len() && old(self).lent()[obj.slot() as int]) ==> final(self).lent()
                == old(self).lent().update(obj.slot() as int, false) && final(self).slots()[obj.slot() as int] is Some
                && reset.ensures((obj.val(),), final(self).slots()[obj.slot() as int].unwrap()) && final(self).slots()
                == old(self).slots().update(obj.slot() as int, final(self).slots()[obj.slot() as int])
                && final(self).stats().3 == wrap_add(old(self).stats().3, 1),
            !(obj.slot() < old(self).slots().len() && old(self).lent()[obj.slot() as int]) ==> final(self).lent()
                == old(self).lent() && final(self).slots() == old(self).slots() && final(self).stats() == old(self).stats(),
    {
        let PooledObject { value, index } = obj;
        let value = reset(value);
        self.release(PooledObject { value, index });
    }

    /// The pool's counters.
    pub fn metrics(&self) -> (r: &PoolMetrics)
        ensures
            (r.requests.get(), r.hits.get(), r.misses.get(), r.returns.get()) == self.stats(),
    {
        &self.metrics
    }
}


/// An object pool with a reset function registered at construction: every
/// object released back to a slot is reset first.
#[verifier::reject_recursive_types(T)]
pub struct ResettingPool<T, R: Fn(T) -> T> {
    pool: ObjectPool<T>,
    reset: R,
}

impl<T, R: Fn(T) -> T> ResettingPool<T, R> {
    /// The pool is well formed and the reset function takes any object.
    pub closed spec fn wf(&self) -> bool {
        self.pool.wf() && forall|v: T| self.reset.requires((v,))
    }

    /// The underlying pool.
    pub closed spec fn inner(&self) -> ObjectPool<T> {
        self.pool
    }

    /// The pool's counters.
    pub fn metrics(&self) -> (r: &PoolMetrics)
        ensures
            (r.requests.get(), r.hits.get(), r.misses.get(), r.returns.get()) == self.inner().stats(),
    {
        self.pool.metrics()
    }

    /// The registered reset function.
    pub closed spec fn reset_fn(&self) -> R {
        self.reset
    }

    /// Takes the object of the lowest free slot, as `ObjectPool::get` does.
    pub fn get(&mut self) -> (r: Option<PooledObject<T>>)
        requires
            old(self).wf(),
        ensures
            final(self).wf(),
            final(self).reset_fn() == old(self).reset_fn(),
            match r {
                Some(o) => first_clear(old(self).inner().lent()) == Some(o.slot() as int) && final(self).inner().lent()
                    == old(self).inner().lent().update(o.slot() as int, true) && old(self).inner().slots()[o.slot() as int]
                    == Some(o.val()),
                None => first_clear(old(self).inner().lent()) is None && final(self).inner().lent() == old(self).inner().lent(),
            },
    {
        self.pool.get()
    }

    /// Resets the object with the registered function and puts it back in
    /// its slot; a handle bound to no lent slot is dropped.
    pub fn release(&mut self, obj: PooledObject<T>)
        requires
            old(self).wf(),
        ensures
            final(self).wf(),
            final(self).reset_fn() == old(self).reset_fn(),
            (obj.slot() < old(self).inner().slots().len() && old(self).inner().lent()[obj.slot() as int]) ==> final(self).inner().lent()
                == old(self).inner().lent().update(obj.slot() as int, false) && final(self).inner().slots()[obj.slot() as int] is Some
                && old(self).reset_fn().ensures((obj.val(),), final(self).inner().slots()[obj.slot() as int].unwrap())
                && final(self).inner().stats().3 == wrap_add(old(self).inner().stats().3, 1),
            !(obj.slot() < old(self).inner().slots().len() && old(self).inner().lent()[obj.slot() as int]) ==> final(self).inner().lent()
                == old(self).inner().lent() && final(self).inner().slots() == old(self).inner().slots(),
    {
        let PooledObject { value, index } = obj;
        let value = (self.reset)(value);
        self.pool.release(PooledObject { value, index });
    }
}

impl<T> ObjectPool<T> {
    /// A pool whose objects are reset by `reset` whenever they come back.
    pub fn with_reset<F: Fn() -> T, R: Fn(T) -> T>(capacity: usize, factory: F, reset: R) -> (r: ResettingPool<T, R>)
        requires
            factory.requires(()),
            forall|v: T| reset.requires((v,)),
        ensures
            r.wf(),
            r.reset_fn() == reset,
            r.inner().lent() == Seq::new(capacity as nat, |i: int| false),
    {
        ResettingPool { pool: ObjectPool::new(capacity, factory), reset }
    }
}

/// Every buffer held in a slot is empty.
pub open spec fn all_empty(s: Seq<Option<Vec<u8>>>) -> bool {
    forall|j: int| 0 <= j < s.len() && #[trigger] s[j] is Some ==> s[j].unwrap()@.len() == 0
}

/// Three tiers of byte buffers: 4 KiB, 64 KiB and 1 MiB.
pub struct BufferPool {
    small_pool: ObjectPool<Vec<u8>>,
    medium_pool: ObjectPool<Vec<u8>>,
    large_pool: ObjectPool<Vec<u8>>,
}

/// The tier a request for `min_size` bytes goes to: 0, 1 or 2.
pub open spec fn tier_of(min_size: usize) -> int {
    if min_size <= 4096 {
        0
    } else if min_size <= 65536 {
        1
    } else {
        2
    }
}

fn small_buffer() -> (r: Vec<u8>)
    ensures
        r@.len() == 0,
{
    Vec::with_capacity(4096)
}

fn medium_buffer() -> (r: Vec<u8>)
    ensures
        r@.len() == 0,
{
    Vec::with_capacity(65536)
}

fn large_buffer() -> (r: Vec<u8>)
    ensures
        r@.len() == 0,
{
    Vec::with_capacity(1048576)
}

/// Buffers handed out by a buffer pool, with the tier they came from.
pub struct PooledBuffer {
    pub buffer: PooledObject<Vec<u8>>,
    tier: u8,
}

impl PooledBuffer {
    /// The handle of the buffer.
    pub closed spec fn handle(&self) -> PooledObject<Vec<u8>> {
        self.buffer
    }

    /// The tier the buffer belongs to: 0, 1 or 2.
    pub closed spec fn tier(&self) -> int {
        if self.tier == 0 {
            0
        } else if self.tier == 1 {
            1
        } else {
            2
        }
    }
}

impl BufferPool {
    /// Every tier is well formed and holds only empty buffers.
    pub closed spec fn wf(&self) -> bool {
        &&& self.small_pool.wf() && self.medium_pool.wf() && self.large_pool.wf()
        &&& forall|t: int| 0 <= t < 3 ==> #[trigger] all_empty(self.tier_slots(t))
    }

    /// Which slots of tier 0, 1 or 2 are lent out.
    pub closed spec fn tier_lent(&self, tier: int) -> Seq<bool> {
        if tier == 0 {
            self.small_pool.lent()
        } else if tier == 1 {
            self.medium_pool.lent()
        } else {
            self.large_pool.lent()
        }
    }

    /// The buffers in the slots of tier 0, 1 or 2.
    pub closed spec fn tier_slots(&self, tier: int) -> Seq<Option<Vec<u8>>> {
        if tier == 0 {
            self.small_pool.slots()
        } else if tier == 1 {
            self.medium_pool.slots()
        } else {
            self.large_pool.slots()
        }
    }

    /// The counters of tier 0, 1 or 2.
    pub closed spec fn tier_stats(&self, tier: int) -> (u64, u64, u64, u64) {
        if tier == 0 {
            self.small_pool.stats()
        } else if tier == 1 {
            self.medium_pool.stats()
        } else {
            self.large_pool.stats()
        }
    }

    /// 256 small, 64 medium and 16 large buffers.
    pub fn new() -> (r: Self)
        ensures
            r.wf(),
            r.tier_lent(0) == Seq::new(256, |i: int| false),
            r.tier_lent(1) == Seq::new(64, |i: int| false),
            r.tier_lent(2) == Seq::new(16, |i: int| false),
    {
        let small = ObjectPool::new_filled(256, || -> (r: Vec<u8>) ensures r@.len() == 0 { small_buffer() });
        let medium = ObjectPool::new_filled(64, || -> (r: Vec<u8>) ensures r@.len() == 0 { medium_buffer() });
        let large = ObjectPool::new_filled(16, || -> (r: Vec<u8>) ensures r@.len() == 0 { large_buffer() });
        let r = BufferPool { small_pool: small, medium_pool: medium, large_pool: large };
        r
    }

    /// An empty buffer from the smallest tier whose buffers hold `min_size`
    /// bytes: the tier's lowest free slot is claimed, or, when the tier is
    /// exhausted, a fresh buffer of the tier's capacity is made and bound to
    /// no slot. The other tiers are unchanged.
    pub fn get(&mut self, min_size: usize) -> (r: PooledBuffer)
        requires
            old(self).wf(),
        ensures
            final(self).wf(),
            r.tier() == tier_of(min_size),
            r.handle().val()@.len() == 0,
            match first_clear(old(self).tier_lent(r.tier())) {
                Some(i) => r.handle().slot() == i && final(self).tier_lent(r.tier()) == old(self).tier_lent(
                    r.tier(),
                ).update(i, true) && final(self).tier_slots(r.tier()) == old(self).tier_slots(r.tier()).update(
                    i,
                    None,
                ),
                None => r.handle().slot() == UNPOOLED && final(self).tier_lent(r.tier()) == old(self).tier_lent(
                    r.tier(),
                ) && final(self).tier_slots(r.tier()) == old(self).tier_slots(r.tier()),
            },
            forall|t: int|
                0 <= t < 3 && t != r.tier() ==> final(self).tier_lent(t) == old(self).tier_lent(t) && final(self).tier_slots(t) == old(self).tier_slots(t) && final(self).tier_stats(t) == old(self).tier_stats(t),
    {
        let r = if min_size <= 4096 {
            PooledBuffer {
                buffer: self.small_pool.get_or_create(|| -> (r: Vec<u8>) ensures r@.len() == 0 { small_buffer() }),
                tier: 0,
            }
        } else if min_size <= 65536 {
            PooledBuffer {
                buffer: self.medium_pool.get_or_create(|| -> (r: Vec<u8>) ensures r@.len() == 0 { medium_buffer() }),
                tier: 1,
            }
        } else {
            PooledBuffer {
                buffer: self.large_pool.get_or_create(|| -> (r: Vec<u8>) ensures r@.len() == 0 { large_buffer() }),
                tier: 2,
            }
        };
        proof {
            let t = r.tier();
            match first_clear(old(self).tier_lent(t)) {
                Some(i) => {
                    lemma_first_clear_from(old(self).tier_lent(t), 0);
                    assert(all_empty(old(self).tier_slots(t)));
                    assert(old(self).tier_slots(t)[i] == Some(r.handle().val()));
                },
                None => {},
            }
            assert forall|u: int| 0 <= u < 3 implies #[trigger] all_empty(self.tier_slots(u)) by {
                if u == t {
                    assert(all_empty(old(self).tier_slots(u)));
                    match first_clear(old(self).tier_lent(t)) {
                        Some(i) => {
                            assert forall|j: int| 0 <= j < self.tier_slots(u).len() && #[trigger] self.tier_slots(u)[j] is Some implies self.tier_slots(u)[j].unwrap()@.len() == 0 by {
                                assert(j != i);
                                assert(self.tier_slots(u)[j] == old(self).tier_slots(u)[j]);
                            }
                        },
                        None => {},
                    }
                } else {
                    assert(all_empty(old(self).tier_slots(u)));
                }
            }
        }
        r
    }

    /// Clears a buffer, keeping its capacity, and returns it to its tier: when
    /// it is bound to a lent slot of its tier, that slot's bit is cleared, the
    /// slot holds the emptied buffer and the tier's return count rises by one.
    /// A buffer bound to no slot is dropped and the pool is unchanged.
    pub fn release(&mut self, b: PooledBuffer)
        requires
            old(self).wf(),
        ensures
            final(self).wf(),
            ({
                let t = b.tier();
                let i = b.handle().slot() as int;
                if i < old(self).tier_slots(t).len() && old(self).tier_lent(t)[i] {
                    &&& final(self).tier_lent(t) == old(self).tier_lent(t).update(i, false)
                    &&& final(self).tier_slots(t)[i] is Some
                    &&& final(self).tier_slots(t)[i].unwrap()@.len() == 0
                    &&& final(self).tier_slots(t) == old(self).tier_slots(t).update(i, final(self).tier_slots(t)[i])
                    &&& final(self).tier_stats(t).3 == wrap_add(old(self).tier_stats(t).3, 1)
                    &&& final(self).tier_stats(t).0 == old(self).tier_stats(t).0
                } else {
                    &&& final(self).tier_lent(t) == old(self).tier_lent(t)
                    &&& final(self).tier_slots(t) == old(self).tier_slots(t)
                    &&& final(self).tier_stats(t) == old(self).tier_stats(t)
                }
            }),
            forall|t: int|
                0 <= t < 3 && t != b.tier() ==> final(self).tier_lent(t) == old(self).tier_lent(t) && final(self).tier_slots(t) == old(self).tier_slots(t) && final(self).tier_stats(t) == old(self).tier_stats(t),
    {
        let PooledBuffer { buffer, tier } = b;
        let PooledObject { value, index } = buffer;
        let mut value = value;
        value.clear();
        let ghost cleared = value;
        let obj = PooledObject { value, index };
        if tier == 0 {
            self.small_pool.release(obj);
        } else if tier == 1 {
            self.medium_pool.release(obj);
        } else {
            self.large_pool.release(obj);
        }
        proof {
            let t = if tier == 0 { 0int } else if tier == 1 { 1int } else { 2int };
            assert forall|u: int| 0 <= u < 3 implies #[trigger] all_empty(self.tier_slots(u)) by {
                assert(all_empty(old(self).tier_slots(u)));
                if u == t {
                    assert forall|j: int| 0 <= j < self.tier_slots(u).len() && #[trigger] self.tier_slots(u)[j] is Some implies self.tier_slots(u)[j].unwrap()@.len() == 0 by {
                        if j != index as int {
                            assert(self.tier_slots(u)[j] == old(self).tier_slots(u)[j]);
                        }
                    }
                }
            }
        }
    }

    /// The counters of the three tiers.
    pub fn metrics(&self) -> (r: BufferPoolMetrics)
        ensures
            (r.small.requests.get(), r.small.hits.get(), r.small.misses.get(), r.small.returns.get())
                == self.tier_stats(0),
            (r.medium.requests.get(), r.medium.hits.get(), r.medium.misses.get(), r.medium.returns.get())
                == self.tier_stats(1),
            (r.large.requests.get(), r.large.hits.get(), r.large.misses.get(), r.large.returns.get())
                == self.tier_stats(2),
    {
        BufferPoolMetrics {
            small: self.small_pool.metrics().snapshot(),
            medium: self.medium_pool.metrics().snapshot(),
            large: self.large_pool.metrics().snapshot(),
        }
    }
}

/// Counters of a buffer pool's tiers.
#[derive(Debug)]
pub struct BufferPoolMetrics {
    pub small: PoolMetrics,
    pub medium: PoolMetrics,
    pub large: PoolMetrics,
}

/// A reusable request buffer.
pub struct HttpRequestBuffer {
    pub method: Vec<u8>,
    pub uri: Vec<u8>,
    pub headers: Vec<(Vec<u8>, Vec<u8>)>,
    pub body: Vec<u8>,
}

impl HttpRequestBuffer {
    pub fn new() -> (r: Self)
        ensures
            r.method@.len() == 0 && r.uri@.len() == 0 && r.headers@.len() == 0 && r.body@.len() == 0,
    {
        HttpRequestBuffer {
            method: Vec::with_capacity(16),
            uri: Vec::with_capacity(256),
            headers: Vec::with_capacity(32),
            body: Vec::with_capacity(8192),
        }
    }

    /// Empties every field, keeping capacity.
    pub fn reset(&mut self)
        ensures
            final(self).method@.len() == 0 && final(self).uri@.len() == 0 && final(self).headers@.len() == 0
                && final(self).body@.len() == 0,
    {
        self.method.clear();
        self.uri.clear();
        self.headers.clear();
        self.body.clear();
    }
}

/// A reusable response buffer.
pub struct HttpResponseBuffer {
    pub status: u16,
    pub headers: Vec<(Vec<u8>, Vec<u8>)>,
    pub body: Vec<u8>,
}

impl HttpResponseBuffer {
    pub fn new() -> (r: Self)
        ensures
            r.status == 200 && r.headers@.len() == 0 && r.body@.len() == 0,
    {
        HttpResponseBuffer { status: 200, headers: Vec::with_capacity(16), body: Vec::with_capacity(8192) }
    }

    /// Back to status 200 with no headers and no body.
    pub fn reset(&mut self)
        ensures
            final(self).status == 200 && final(self).headers@.len() == 0 && final(self).body@.len() == 0,
    {
        self.status = 200;
        self.headers.clear();
        self.body.clear();
    }
}

/// Pools of request buffers, response buffers and header lists.
pub struct HttpObjectPool {
    pub request_pool: ObjectPool<HttpRequestBuffer>,
    pub response_pool: ObjectPool<HttpResponseBuffer>,
    pub header_pool: ObjectPool<Vec<(Vec<u8>, Vec<u8>)>>,
}

impl HttpObjectPool {
    /// 128 request buffers, 128 response buffers and 256 header lists.
    pub fn new() -> (r: Self)
        ensures
            r.request_pool.wf() && r.response_pool.wf() && r.header_pool.wf(),
            r.request_pool.slots().len() == 128,
            r.response_pool.slots().len() == 128,
            r.header_pool.slots().len() == 256,
    {
        HttpObjectPool {
            request_pool: ObjectPool::new(128, || HttpRequestBuffer::new()),
            response_pool: ObjectPool::new(128, || HttpResponseBuffer::new()),
            header_pool: ObjectPool::new(256, || Vec::with_capacity(32)),
        }
    }

    /// Resets a request buffer and returns it to its pool.
    pub fn release_request(&mut self, obj: PooledObject<HttpRequestBuffer>)
        requires
            old(self).request_pool.wf(),
        ensures
            final(self).request_pool.wf(),
    {
        let PooledObject { value, index } = obj;
        let mut value = value;
        value.reset();
        self.request_pool.release(PooledObject { value, index });
    }

    /// Resets a response buffer and returns it to its pool.
    pub fn release_response(&mut self, obj: PooledObject<HttpResponseBuffer>)
        requires
            old(self).response_pool.wf(),
        ensures
            final(self).response_pool.wf(),
    {
        let PooledObject { value, index } = obj;
        let mut value = value;
        value.reset();
        self.response_pool.release(PooledObject { value, index });
    }
}

} // verus!
