use vstd::prelude::*;

verus! {

/// Each eviction removes this many times the bytes strictly needed, so that
/// a cache is not evicted on every write.
pub const CACHE_OVER_EVICTION_FACTOR: u64 = 5;

/// Sum of the sizes of cached batches.
pub open spec fn total(s: Seq<u64>) -> nat
    decreases s.len(),
{
    if s.len() == 0 {
        0
    } else {
        total(s.drop_last()) + s.last() as nat
    }
}

/// Total size of the caches.
pub open spec fn caches_total(cs: Seq<Seq<u64>>) -> nat
    decreases cs.len(),
{
    if cs.len() == 0 {
        0
    } else {
        caches_total(cs.drop_last()) + total(cs.last())
    }
}

/// Number of oldest batches that evicting `n` bytes removes: the fewest whose
/// sizes reach `n`, or all of them.
pub open spec fn evict_count(s: Seq<u64>, n: nat, k: nat) -> nat
    decreases s.len() - k,
{
    if k >= s.len() || total(s.take(k as int)) >= n {
        k
    } else {
        evict_count(s, n, k + 1)
    }
}

/// Bytes that a partition's cache is asked to give up in a cycle that must
/// free `to_clean` bytes out of `usage`: its share of `to_clean`, rounded up,
/// times the over-eviction factor.
pub open spec fn eviction_share(size: nat, to_clean: nat, usage: nat) -> nat {
    let share = (size * to_clean + usage - 1) / usage as int;
    let n = share * CACHE_OVER_EVICTION_FACTOR;
    if n > u64::MAX {
        u64::MAX as nat
    } else {
        n as nat
    }
}

proof fn lemma_total_take(s: Seq<u64>, k: int)
    requires
        0 <= k < s.len(),
    ensures
        total(s.take(k + 1)) == total(s.take(k)) + s[k],
{
    assert(s.take(k + 1).drop_last() =~= s.take(k));
}

proof fn lemma_total_split(s: Seq<u64>, k: int)
    requires
        0 <= k <= s.len(),
    ensures
        total(s) == total(s.take(k)) + total(s.skip(k)),
    decreases s.len(),
{
    if s.len() == 0 {
        assert(s.take(k) =~= Seq::<u64>::empty());
        assert(s.skip(k) =~= Seq::<u64>::empty());
    } else if k == s.len() {
        assert(s.take(k) =~= s);
        assert(s.skip(k) =~= Seq::<u64>::empty());
    } else {
        lemma_total_split(s.drop_last(), k);
        assert(s.drop_last().take(k) =~= s.take(k));
        assert(s.skip(k).drop_last() =~= s.drop_last().skip(k));
    }
}

proof fn lemma_evict_count_bounds(s: Seq<u64>, n: nat, k: nat)
    requires
        k <= s.len(),
    ensures
        k <= evict_count(s, n, k) <= s.len(),
        evict_count(s, n, k) == s.len() || total(s.take(evict_count(s, n, k) as int)) >= n,
    decreases s.len() - k,
{
    if !(k >= s.len() || total(s.take(k as int)) >= n) {
        lemma_evict_count_bounds(s, n, k + 1);
    }
}

/// The recent batches of one partition, oldest first, by size in bytes.
#[derive(Debug)]
pub struct PartitionCache {
    batches: Vec<u64>,
}

impl View for PartitionCache {
    type V = Seq<u64>;

    closed spec fn view(&self) -> Seq<u64> {
        self.batches@
    }
}

impl PartitionCache {
    pub fn new() -> (r: PartitionCache)
        ensures
            r@ == Seq::<u64>::empty(),
    {
        PartitionCache { batches: Vec::new() }
    }

    /// Caches a batch of `size` bytes as the newest.
    pub fn push_batch(&mut self, size: u64)
        ensures
            final(self)@ == old(self)@.push(size),
    {
        self.batches.push(size);
    }

    /// Number of cached batches.
    pub fn len(&self) -> (r: usize)
        ensures
            r == self@.len(),
    {
        self.batches.len()
    }

    /// Bytes held by the cache.
    pub fn current_size(&self) -> (r: u64)
        requires
            total(self@) <= u64::MAX,
        ensures
            r == total(self@),
    {
        let mut sum: u64 = 0;
        let mut i: usize = 0;
        while i < self.batches.len()
            invariant
                i <= self.batches@.len(),
                sum == total(self.batches@.take(i as int)),
                total(self.batches@) <= u64::MAX,
            decreases self.batches@.len() - i,
        {
            proof {
                lemma_total_take(self.batches@, i as int);
                lemma_total_split(self.batches@, i + 1);
            }
            sum = sum + self.batches[i];
            i += 1;
        }
        assert(self.batches@.take(i as int) =~= self.batches@);
        sum
    }

    /// Drops the oldest batches until at least `n` bytes are gone or the cache
    /// is empty; returns the bytes dropped.
    pub fn evict_by_size(&mut self, n: u64) -> (r: u64)
        requires
            total(old(self)@) <= u64::MAX,
        ensures
            ({
                let k = evict_count(old(self)@, n as nat, 0);
                &&& final(self)@ == old(self)@.skip(k as int)
                &&& r == total(old(self)@.take(k as int))
            }),
            r >= n || final(self)@.len() == 0,
            r <= total(old(self)@),
            total(final(self)@) + r == total(old(self)@),
    {
        let ghost s = self@;
        let mut removed: u64 = 0;
        let mut k: usize = 0;
        proof {
            assert(s.take(0) =~= Seq::<u64>::empty());
        }
        while k < self.batches.len() && removed < n
            invariant
                s == self@,
                k <= s.len(),
                removed == total(s.take(k as int)),
                total(s) <= u64::MAX,
                evict_count(s, n as nat, 0) == evict_count(s, n as nat, k as nat),
            decreases s.len() - k,
        {
            proof {
                lemma_total_take(s, k as int);
                lemma_total_split(s, k + 1);
            }
            removed = removed + self.batches[k];
            k += 1;
        }
        proof {
            lemma_total_split(s, k as int);
        }
        let kept = self.batches.split_off(k);
        self.batches = kept;
        removed
    }
}

/// The process-wide byte budget of the caches and what they hold.
#[derive(Debug, Clone, Copy, PartialEq, Eq, Structural)]
pub struct CacheMemoryTracker {
    pub limit_bytes: u64,
    pub usage_bytes: u64,
}

impl CacheMemoryTracker {
    pub fn new(limit_bytes: u64) -> (r: CacheMemoryTracker)
        ensures
            r == (CacheMemoryTracker { limit_bytes, usage_bytes: 0 }),
    {
        CacheMemoryTracker { limit_bytes, usage_bytes: 0 }
    }

    /// Whether `size` more bytes stay within the budget.
    pub fn will_fit_into_cache(&self, size: u64) -> (r: bool)
        ensures
            r == (self.usage_bytes + size <= self.limit_bytes),
    {
        self.usage_bytes as u128 + size as u128 <= self.limit_bytes as u128
    }

    /// Bytes that a cycle must free so that `size` more bytes fit.
    pub fn size_to_clean(&self, size: u64) -> (r: u64)
        ensures
            r == if self.usage_bytes + size > self.limit_bytes {
                if self.usage_bytes + size - self.limit_bytes > self.usage_bytes {
                    self.usage_bytes as int
                } else {
                    self.usage_bytes + size - self.limit_bytes
                }
            } else {
                0
            },
    {
        let need = self.usage_bytes as u128 + size as u128;
        if need <= self.limit_bytes as u128 {
            0
        } else if need - self.limit_bytes as u128 > self.usage_bytes as u128 {
            self.usage_bytes
        } else {
            (need - self.limit_bytes as u128) as u64
        }
    }
}

proof fn lemma_caches_total_push(cs: Seq<Seq<u64>>, c: Seq<u64>)
    ensures
        caches_total(cs.push(c)) == caches_total(cs) + total(c),
{
    assert(cs.push(c).drop_last() =~= cs);
}

proof fn lemma_caches_total_take(cs: Seq<Seq<u64>>, i: int)
    requires
        0 <= i < cs.len(),
    ensures
        caches_total(cs.take(i + 1)) == caches_total(cs.take(i)) + total(cs[i]),
{
    assert(cs.take(i + 1).drop_last() =~= cs.take(i));
}

proof fn lemma_share_covers(size: nat, to_clean: nat, usage: nat)
    requires
        usage > 0,
    ensures
        eviction_share(size, to_clean, usage) * usage >= size * to_clean || eviction_share(size, to_clean, usage) == u64::MAX,
{
    let share = (size * to_clean + usage - 1) / usage as int;
    vstd::arithmetic::div_mod::lemma_fundamental_div_mod((size * to_clean + usage - 1) as int, usage as int);
    vstd::arithmetic::div_mod::lemma_mod_bound((size * to_clean + usage - 1) as int, usage as int);
    assert(share * usage >= size * to_clean) by (nonlinear_arith)
        requires
            usage > 0,
            size * to_clean + usage - 1 == usage * share + (size * to_clean + usage - 1) % (usage as int),
            (size * to_clean + usage - 1) % (usage as int) < usage,
    ;
    assert(share >= 0) by (nonlinear_arith)
        requires
            share * usage >= size * to_clean,
            usage > 0,
            size * to_clean >= 0,
            share == (size * to_clean + usage - 1) / usage as int,
    ;
    assert(share * CACHE_OVER_EVICTION_FACTOR * usage >= share * usage) by (nonlinear_arith)
        requires
            share >= 0,
            usage > 0,
    ;
}

/// What a cache of batches `s` keeps after a cycle that frees `to_clean`
/// bytes out of `usage`: its oldest batches, up to its share, are gone.
pub open spec fn evicted(s: Seq<u64>, to_clean: nat, usage: nat) -> Seq<u64> {
    s.skip(evict_count(s, eviction_share(total(s), to_clean, usage), 0) as int)
}

/// One eviction cycle over the caches of all partitions, to free
/// `size_to_clean` bytes out of the `usage` they hold: each cache drops its
/// oldest batches until it has given up its share of `size_to_clean`,
/// proportional to its size and rounded up, times the over-eviction factor,
/// or is empty. Afterwards the caches hold at most `usage - size_to_clean`
/// bytes.
pub fn clean_cache(caches: &mut Vec<PartitionCache>, size_to_clean: u64)
    requires
        caches_total(old(caches)@.map_values(|c: PartitionCache| c@)) <= u64::MAX,
        size_to_clean <= caches_total(old(caches)@.map_values(|c: PartitionCache| c@)),
    ensures
        final(caches)@.len() == old(caches)@.len(),
        caches_total(final(caches)@.map_values(|c: PartitionCache| c@)) + size_to_clean
            <= caches_total(old(caches)@.map_values(|c: PartitionCache| c@)),
        size_to_clean == 0 ==> final(caches)@ == old(caches)@,
        size_to_clean > 0 ==> forall|i: int|
            0 <= i < old(caches)@.len() ==> (#[trigger] final(caches)@[i])@ == evicted(
                old(caches)@[i]@,
                size_to_clean as nat,
                caches_total(old(caches)@.map_values(|c: PartitionCache| c@)),
            ),
{
    let ghost old_cs = caches@.map_values(|c: PartitionCache| c@);
    let ghost usage_n = caches_total(old_cs);
    if caches.len() == 0 || size_to_clean == 0 {
        return;
    }
    let mut usage: u64 = 0;
    let mut i: usize = 0;
    while i < caches.len()
        invariant
            old_cs == caches@.map_values(|c: PartitionCache| c@),
            old_cs.len() == caches@.len(),
            i <= caches@.len(),
            usage == caches_total(old_cs.take(i as int)),
            usage_n == caches_total(old_cs),
            usage_n <= u64::MAX,
        decreases caches@.len() - i,
    {
        proof {
            lemma_caches_total_take(old_cs, i as int);
            lemma_caches_split(old_cs, i + 1);
            assert(old_cs[i as int] == caches@[i as int]@);
        }
        let size = caches[i].current_size();
        usage = usage + size;
        i += 1;
    }
    proof {
        assert(old_cs.take(i as int) =~= old_cs);
    }
    assert(usage > 0);
    proof {
        assert(old_cs.take(0) =~= Seq::<Seq<u64>>::empty());
        assert(caches_total(old_cs.take(0)) == 0);
        assert(size_to_clean * 0 == 0);
        assert(caches@.map_values(|c: PartitionCache| c@).take(0) =~= Seq::<Seq<u64>>::empty());
    }
    let mut removed_total: u64 = 0;
    let mut i: usize = 0;
    while i < caches.len()
        invariant
            old_cs.len() == caches@.len(),
            i <= caches@.len(),
            usage == usage_n,
            usage_n == caches_total(old_cs),
            usage_n <= u64::MAX,
            0 < usage,
            size_to_clean <= usage,
            forall|j: int| i <= j < caches@.len() ==> #[trigger] caches@[j]@ == old_cs[j],
            forall|j: int|
                0 <= j < i ==> (#[trigger] caches@[j])@ == evicted(
                    old_cs[j],
                    size_to_clean as nat,
                    usage as nat,
                ),
            removed_total as int * usage >= size_to_clean * caches_total(old_cs.take(i as int)),
            caches_total(caches@.map_values(|c: PartitionCache| c@).take(i as int)) + removed_total
                == caches_total(old_cs.take(i as int)),
        decreases caches@.len() - i,
    {
        let ghost before = caches@;
        let ghost c = old_cs[i as int];
        proof {
            lemma_caches_total_take(old_cs, i as int);
            lemma_caches_split(old_cs, i + 1);
        }
        let size = caches[i].current_size();
        let a = size as u128;
        let b = size_to_clean as u128;
        assert(a * b <= 0xffff_ffff_ffff_ffff * 0xffff_ffff_ffff_ffffu128) by (nonlinear_arith)
            requires
                a <= 0xffff_ffff_ffff_ffff,
                b <= 0xffff_ffff_ffff_ffff,
        ;
        let product = a * b;
        let share: u128 = (product + (usage as u128 - 1)) / usage as u128;
        let n: u64 = if share > (u64::MAX / CACHE_OVER_EVICTION_FACTOR) as u128 {
            u64::MAX
        } else {
            (share as u64) * CACHE_OVER_EVICTION_FACTOR
        };
        assert(n == eviction_share(size as nat, size_to_clean as nat, usage as nat));
        let removed = caches[i].evict_by_size(n);
        proof {
            lemma_share_covers(size as nat, size_to_clean as nat, usage as nat);
            let new_c = caches@[i as int]@;
            assert(removed as int * usage >= size_to_clean * size) by {
                if removed >= n {
                    if n == u64::MAX {
                        assert(removed as int >= size);
                        assert(size * usage >= size_to_clean * size) by (nonlinear_arith)
                            requires
                                size_to_clean <= usage,
                                size >= 0,
                        ;
                        assert(removed as int * usage >= size * usage) by (nonlinear_arith)
                            requires
                                removed as int >= size,
                                usage > 0,
                        ;
                    } else {
                        assert(removed as int * usage >= n as int * usage) by (nonlinear_arith)
                            requires
                                removed >= n,
                                usage > 0,
                        ;
                    }
                } else {
                    assert(new_c.len() == 0);
                    assert(total(new_c) == 0);
                    assert(removed as int == size);
                    assert(size * usage >= size_to_clean * size) by (nonlinear_arith)
                        requires
                            size_to_clean <= usage,
                            size >= 0,
                    ;
                }
            }
            let prev = caches_total(old_cs.take(i as int));
            assert(size_to_clean * (prev + size) == size_to_clean * prev + size_to_clean * size) by (nonlinear_arith);
            let cur = caches@.map_values(|c: PartitionCache| c@);
            assert(cur.take(i + 1).drop_last() =~= before.map_values(|c: PartitionCache| c@).take(i as int));
            assert(cur.take(i + 1).last() == new_c);
            assert forall|j: int| i + 1 <= j < caches@.len() implies #[trigger] caches@[j]@ == old_cs[j] by {
                assert(caches@[j] == before[j]);
            }
            assert forall|j: int| 0 <= j < i + 1 implies (#[trigger] caches@[j])@ == evicted(
                old_cs[j],
                size_to_clean as nat,
                usage as nat,
            ) by {
                if j < i {
                    assert(caches@[j] == before[j]);
                } else {
                    assert(size == total(old_cs[i as int]));
                }
            }
        }
        proof {
            let prev = caches_total(old_cs.take(i as int));
            assert(size == total(old_cs[i as int]));
            assert(caches_total(old_cs.take(i + 1)) == prev + size);
            assert((removed_total + removed) * usage == removed_total * usage + removed * usage) by (nonlinear_arith);
            assert(caches_total(old_cs.take(i + 1)) <= usage_n);
        }
        removed_total = removed_total + removed;
        i += 1;
    }
    proof {
        assert(old_cs.take(i as int) =~= old_cs);
        assert(caches@.map_values(|c: PartitionCache| c@).take(i as int) =~= caches@.map_values(
            |c: PartitionCache| c@,
        ));
        assert(removed_total as int * usage >= size_to_clean * usage);
        assert(removed_total >= size_to_clean) by (nonlinear_arith)
            requires
                removed_total as int * usage >= size_to_clean * usage,
                usage > 0,
        ;
    }
}

proof fn lemma_caches_split(cs: Seq<Seq<u64>>, k: int)
    requires
        0 <= k <= cs.len(),
    ensures
        caches_total(cs.take(k)) <= caches_total(cs),
    decreases cs.len(),
{
    if k < cs.len() {
        lemma_caches_split(cs.drop_last(), k);
        assert(cs.drop_last().take(k) =~= cs.take(k));
    } else {
        assert(cs.take(k) =~= cs);
    }
}

/// Bytes held by all the caches.
pub fn caches_usage(caches: &Vec<PartitionCache>) -> (r: u64)
    requires
        caches_total(caches@.map_values(|c: PartitionCache| c@)) <= u64::MAX,
    ensures
        r == caches_total(caches@.map_values(|c: PartitionCache| c@)),
{
    let ghost cs = caches@.map_values(|c: PartitionCache| c@);
    let mut usage: u64 = 0;
    let mut i: usize = 0;
    while i < caches.len()
        invariant
            cs == caches@.map_values(|c: PartitionCache| c@),
            cs.len() == caches@.len(),
            i <= caches@.len(),
            usage == caches_total(cs.take(i as int)),
            caches_total(cs) <= u64::MAX,
        decreases caches@.len() - i,
    {
        proof {
            lemma_caches_total_take(cs, i as int);
            lemma_caches_split(cs, i + 1);
            assert(cs[i as int] == caches@[i as int]@);
        }
        let size = caches[i].current_size();
        usage = usage + size;
        i += 1;
    }
    assert(cs.take(i as int) =~= cs);
    usage
}

/// Memory tracker: when the caches hold more than `limit_bytes`, one
/// eviction cycle frees the excess, after which the caches hold at most
/// `limit_bytes`; returns the bytes they hold then.
pub fn evict_to_budget(caches: &mut Vec<PartitionCache>, limit_bytes: u64) -> (r: u64)
    requires
        caches_total(old(caches)@.map_values(|c: PartitionCache| c@)) <= u64::MAX,
    ensures
        r == caches_total(final(caches)@.map_values(|c: PartitionCache| c@)),
        r <= limit_bytes || r == caches_total(old(caches)@.map_values(|c: PartitionCache| c@)),
        caches_total(old(caches)@.map_values(|c: PartitionCache| c@)) > limit_bytes ==> r <= limit_bytes,
{
    let usage = caches_usage(caches);
    if usage <= limit_bytes {
        return usage;
    }
    clean_cache(caches, usage - limit_bytes);
    caches_usage(caches)
}

} // verus!
