//! Inclusion-latency samples per tip bucket, and the percentile they are
//! summarised by.

use crate::sorting;
use crate::sorting::sort_ascending;
use std::collections::BTreeMap;
use std::collections::VecDeque;
use vstd::prelude::*;

verus! {

/// An opaque tip-bucket key supplied by the caller.
///
/// The value is never interpreted here. The caller assigns the same key to the
/// transactions it wants pooled in one latency distribution and keeps the
/// assignment stable across a run.
pub type TipBucket = u8;

/// Maximum distinct tip buckets the histogram will allocate. Samples for a bucket
/// key beyond this are counted and not recorded, so a caller that accidentally
/// uses a high-cardinality key degrades visibly instead of consuming memory
/// silently.
pub const MAX_TIP_BUCKETS: usize = 32;

/// Maximum latency samples retained per tip bucket. Beyond this the oldest sample
/// is evicted, so the reported distribution is a rolling window of the most recent
/// samples.
pub const MAX_SAMPLES_PER_BUCKET: usize = 4_096;

/// The 1-based nearest rank of the `p`-th percentile among `n` samples:
/// `ceil(p * n / 100)` clamped into `[1, n]`.
pub open spec fn nearest_rank(p: nat, n: nat) -> nat {
    let r = (p * n + 99) / 100;
    if r < 1 {
        1
    } else if r > n {
        n
    } else {
        r
    }
}

/// The nearest-rank percentile of an ascending sample slice, in whatever unit the
/// samples carry.
///
/// For `n` samples the `p`-th percentile is the sample at 1-based rank
/// `ceil(p * n / 100)`, clamped into `[1, n]`. An empty slice has no percentile;
/// one sample is its own percentile for every `p`; `p = 0` is the minimum and
/// `p >= 100` the maximum. The value is always one of the samples.
pub fn percentile_ms(sorted: &[u64], p: u8) -> (r: Option<u64>)
    ensures
        sorted@.len() == 0 ==> r is None,
        sorted@.len() > 0 ==> r == Some(
            sorted@[nearest_rank(p as nat, sorted@.len() as nat) - 1],
        ),
{
    let n: usize = sorted.len();
    if n == 0 {
        return None;
    }
    proof {
        lemma_rank_in_range(p as nat, n as nat);
    }
    assert(p as u128 * n as u128 <= 255 * (n as u128)) by (nonlinear_arith)
        requires
            p <= 255,
            n >= 0,
    ;
    let product: u128 = (p as u128) * (n as u128);
    let rank: u128 = (product + 99) / 100;
    let clamped: u128 = if rank < 1 {
        1
    } else if rank > n as u128 {
        n as u128
    } else {
        rank
    };
    Some(sorted[(clamped - 1) as usize])
}

proof fn lemma_rank_in_range(p: nat, n: nat)
    requires
        n > 0,
    ensures
        1 <= nearest_rank(p, n) <= n,
{
}

/// A percentile is always a value that was observed.
pub proof fn law_percentile_is_observed(sorted: Seq<u64>, p: u8)
    requires
        sorted.len() > 0,
    ensures
        sorted.contains(sorted[nearest_rank(p as nat, sorted.len()) - 1]),
{
    lemma_rank_in_range(p as nat, sorted.len());
}

/// A percentile never goes down as `p` goes up.
pub proof fn law_percentile_is_monotonic(sorted: Seq<u64>, p: u8, q: u8)
    requires
        sorted.len() > 0,
        sorting::is_ascending(sorted),
        p <= q,
    ensures
        sorted[nearest_rank(p as nat, sorted.len()) - 1] <= sorted[nearest_rank(
            q as nat,
            sorted.len(),
        ) - 1],
{
    let n = sorted.len();
    lemma_rank_in_range(p as nat, n);
    lemma_rank_in_range(q as nat, n);
    assert(p * n <= q * n) by (nonlinear_arith)
        requires
            p <= q,
    ;
}

/// The smallest percentile is the minimum and every `p` of at least 100 gives the
/// maximum.
pub proof fn law_percentile_ends(sorted: Seq<u64>, p: u8)
    requires
        sorted.len() > 0,
    ensures
        nearest_rank(0, sorted.len()) == 1,
        p >= 100 ==> nearest_rank(p as nat, sorted.len()) == sorted.len(),
{
    let n = sorted.len();
    assert(p >= 100 ==> p * n >= 100 * n) by (nonlinear_arith);
}

/// The percentile is the smallest sample that at least `p` percent of the samples
/// do not exceed: the ranks up to it number at least that share, and those before
/// it number less.
pub proof fn law_percentile_is_least_covering(sorted: Seq<u64>, p: u8)
    requires
        sorted.len() > 0,
        sorting::is_ascending(sorted),
        0 < p <= 100,
    ensures
        ({
            let r = nearest_rank(p as nat, sorted.len());
            let v = sorted[r - 1];
            &&& 100 * r >= p * sorted.len()
            &&& 100 * (r - 1) < p * sorted.len()
            &&& forall|i: int| 0 <= i < r ==> #[trigger] sorted[i] <= v
            &&& forall|i: int| r <= i < sorted.len() ==> v <= #[trigger] sorted[i]
        }),
{
    let n = sorted.len();
    lemma_rank_in_range(p as nat, n);
    assert(p * n <= 100 * n && p * n >= n) by (nonlinear_arith)
        requires
            0 < p <= 100,
    ;
}

/// The inclusion-latency distribution of one tip bucket.
///
/// All figures are over the bucket's retained window, the most recent
/// [`MAX_SAMPLES_PER_BUCKET`] samples; `count` is the size of that window.
#[derive(Clone, Copy, Debug, PartialEq, Eq)]
pub struct BucketLatency {
    /// Samples in the retained window, always at least one.
    pub count: usize,
    /// Fastest retained inclusion.
    pub min_ms: u64,
    /// Slowest retained inclusion.
    pub max_ms: u64,
    /// Median, by [`percentile_ms`].
    pub p50_ms: u64,
    /// 95th percentile, by [`percentile_ms`].
    pub p95_ms: u64,
}

/// The figures of a bucket are those of its samples in ascending order.
pub open spec fn summarises(l: BucketLatency, samples: Seq<u64>) -> bool {
    let sorted = sorting::ascending(samples);
    &&& l.count == samples.len()
    &&& l.min_ms == sorted[0]
    &&& l.max_ms == sorted[samples.len() - 1]
    &&& l.p50_ms == sorted[nearest_rank(50, samples.len()) - 1]
    &&& l.p95_ms == sorted[nearest_rank(95, samples.len()) - 1]
}

/// A summary is ordered: minimum, median, 95th percentile, maximum.
pub proof fn law_summary_is_ordered(l: BucketLatency, samples: Seq<u64>)
    requires
        samples.len() > 0,
        summarises(l, samples),
    ensures
        l.min_ms <= l.p50_ms <= l.p95_ms <= l.max_ms,
        samples.contains(l.min_ms),
        samples.contains(l.p50_ms),
        samples.contains(l.p95_ms),
        samples.contains(l.max_ms),
{
    sorting::lemma_ascending(samples);
    let t = sorting::ascending(samples);
    lemma_rank_in_range(50, t.len());
    lemma_rank_in_range(95, t.len());
    law_percentile_is_monotonic(t, 50, 95);
    law_percentile_is_observed(t, 50);
    law_percentile_is_observed(t, 95);
    assert(t.contains(t[0]));
    assert(t.contains(t[samples.len() - 1]));
}

/// The samples a bucket holds; a bucket that was never measured holds none.
pub open spec fn samples_of(h: Map<TipBucket, Seq<u64>>, bucket: TipBucket) -> Seq<u64> {
    if h.contains_key(bucket) {
        h[bucket]
    } else {
        Seq::empty()
    }
}

/// The most recent samples of a sequence, at most a window's worth.
pub open spec fn recent(s: Seq<u64>) -> Seq<u64> {
    if s.len() > MAX_SAMPLES_PER_BUCKET {
        s.skip(s.len() - MAX_SAMPLES_PER_BUCKET)
    } else {
        s
    }
}

/// A sample for this bucket can be stored: the bucket exists or there is room for it.
pub open spec fn admits(h: Map<TipBucket, Seq<u64>>, bucket: TipBucket) -> bool {
    h.contains_key(bucket) || h.dom().len() < MAX_TIP_BUCKETS
}

/// The histogram after one more sample.
pub open spec fn with_sample(
    h: Map<TipBucket, Seq<u64>>,
    bucket: TipBucket,
    latency_ms: u64,
) -> Map<TipBucket, Seq<u64>> {
    if admits(h, bucket) {
        h.insert(bucket, recent(samples_of(h, bucket).push(latency_ms)))
    } else {
        h
    }
}

/// A sequence without its first occurrence of a value.
pub open spec fn without_first(s: Seq<u64>, x: u64) -> Seq<u64>
    decreases s.len(),
{
    if s.len() == 0 {
        s
    } else if s[0] == x {
        s.drop_first()
    } else {
        seq![s[0]] + without_first(s.drop_first(), x)
    }
}

/// The histogram after one sample was withdrawn; a bucket left empty disappears.
pub open spec fn without_sample(
    h: Map<TipBucket, Seq<u64>>,
    bucket: TipBucket,
    latency_ms: u64,
) -> Map<TipBucket, Seq<u64>> {
    if h.contains_key(bucket) {
        let rest = without_first(h[bucket], latency_ms);
        if rest.len() == 0 {
            h.remove(bucket)
        } else {
            h.insert(bucket, rest)
        }
    } else {
        h
    }
}

proof fn lemma_without_first_at(s: Seq<u64>, x: u64, at: int)
    requires
        0 <= at < s.len(),
        s[at] == x,
        forall|k: int| 0 <= k < at ==> s[k] != x,
    ensures
        without_first(s, x) == s.remove(at),
    decreases s.len(),
{
    if at == 0 {
        assert(s.remove(0) =~= s.drop_first());
    } else {
        lemma_without_first_at(s.drop_first(), x, at - 1);
        assert(seq![s[0]] + s.drop_first().remove(at - 1) =~= s.remove(at));
    }
}

proof fn lemma_without_first_absent(s: Seq<u64>, x: u64)
    requires
        forall|k: int| 0 <= k < s.len() ==> s[k] != x,
    ensures
        without_first(s, x) == s,
    decreases s.len(),
{
    if s.len() > 0 {
        lemma_without_first_absent(s.drop_first(), x);
        assert(seq![s[0]] + s.drop_first() =~= s);
    }
}

/// Withdrawing a sample removes it once, or nothing where it is not held.
pub proof fn lemma_without_first_len(s: Seq<u64>, x: u64)
    ensures
        without_first(s, x).len() == if s.contains(x) {
            (s.len() - 1) as nat
        } else {
            s.len()
        },
    decreases s.len(),
{
    if s.len() > 0 && s[0] != x {
        lemma_without_first_len(s.drop_first(), x);
        if s.contains(x) {
            let i = choose|i: int| 0 <= i < s.len() && s[i] == x;
            assert(s.drop_first()[i - 1] == x);
        } else if s.drop_first().contains(x) {
            let i = choose|i: int| 0 <= i < s.drop_first().len() && s.drop_first()[i] == x;
            assert(s[i + 1] == x);
        }
    }
}

/// Withdrawing a sample that was just recorded gives back the histogram as it was,
/// where the window did not have to evict and the sample is new to the bucket.
pub proof fn law_retract_undoes_record(
    h: Map<TipBucket, Seq<u64>>,
    bucket: TipBucket,
    latency_ms: u64,
)
    requires
        admits(h, bucket),
        samples_of(h, bucket).len() < MAX_SAMPLES_PER_BUCKET,
        h.contains_key(bucket) ==> h[bucket].len() > 0,
        !samples_of(h, bucket).contains(latency_ms),
    ensures
        without_sample(with_sample(h, bucket, latency_ms), bucket, latency_ms) == h,
{
    let s = samples_of(h, bucket);
    let t = s.push(latency_ms);
    assert forall|k: int| 0 <= k < s.len() implies t[k] != latency_ms by {
        assert(s.contains(s[k]));
    }
    lemma_without_first_at(t, latency_ms, s.len() as int);
    assert(t.remove(s.len() as int) =~= s);
    assert(without_sample(with_sample(h, bucket, latency_ms), bucket, latency_ms) =~= h);
}

/// Per-bucket rolling latency samples.
pub struct Histogram {
    /// Ordered by key, so the buckets enumerate in a deterministic order.
    buckets: BTreeMap<TipBucket, VecDeque<u64>>,
}

impl Histogram {
    /// The retained samples of every bucket, oldest first.
    pub closed spec fn view(&self) -> Map<TipBucket, Seq<u64>> {
        self.buckets@.map_values(|d: VecDeque<u64>| d@)
    }

    /// No bucket is empty or over its window, and there are not too many.
    pub open spec fn wf(&self) -> bool {
        histogram_wf(self@)
    }

    /// A histogram without samples.
    pub fn new() -> (h: Self)
        ensures
            h.wf(),
            h@ == Map::<TipBucket, Seq<u64>>::empty(),
    {
        let h = Histogram { buckets: BTreeMap::new() };
        assert(h@ =~= Map::<TipBucket, Seq<u64>>::empty());
        h
    }

    /// Record one latency. Returns how many samples were refused for want of a
    /// bucket and how many were evicted from the bucket's window.
    pub fn record(&mut self, bucket: TipBucket, latency_ms: u64) -> (r: (u64, u64))
        requires
            old(self).wf(),
        ensures
            final(self).wf(),
            final(self)@ == with_sample(old(self)@, bucket, latency_ms),
            r.0 == if admits(old(self)@, bucket) {
                0int
            } else {
                1
            },
            r.1 == if admits(old(self)@, bucket) && samples_of(old(self)@, bucket).len()
                == MAX_SAMPLES_PER_BUCKET {
                1int
            } else {
                0
            },
    {
        broadcast use vstd::std_specs::btree::group_btree_axioms;

        let ghost h = self@;
        assert(h.dom() =~= self.buckets@.dom());
        if !self.buckets.contains_key(&bucket) && self.buckets.len() >= MAX_TIP_BUCKETS {
            return (1, 0);
        }
        let mut samples = match self.buckets.remove(&bucket) {
            Some(s) => s,
            None => VecDeque::new(),
        };
        assert(samples@ == samples_of(h, bucket));
        samples.push_back(latency_ms);
        let mut evicted: u64 = 0;
        if samples.len() > MAX_SAMPLES_PER_BUCKET {
            samples.pop_front();
            evicted = 1;
        }
        let ghost kept = samples@;
        proof {
            let grown = samples_of(h, bucket).push(latency_ms);
            assert(kept =~= recent(grown));
        }
        self.buckets.insert(bucket, samples);
        assert(self@ =~= with_sample(h, bucket, latency_ms));
        assert(self@.dom() =~= h.dom().insert(bucket));
        (0, evicted)
    }

    /// Withdraw one sample after a reorg un-mined the confirmation that produced
    /// it. If the sample has already aged out of the window there is nothing to
    /// withdraw.
    pub fn retract(&mut self, bucket: TipBucket, latency_ms: u64)
        requires
            old(self).wf(),
        ensures
            final(self).wf(),
            final(self)@ == without_sample(old(self)@, bucket, latency_ms),
    {
        broadcast use vstd::std_specs::btree::group_btree_axioms;

        let ghost h = self@;
        assert(h.dom() =~= self.buckets@.dom());
        let mut samples = match self.buckets.remove(&bucket) {
            Some(s) => s,
            None => {
                assert(self@ =~= h);
                return ;
            },
        };
        let ghost held = samples@;
        assert(held == h[bucket]);
        let mut at: usize = 0;
        while at < samples.len() && samples[at] != latency_ms
            invariant
                at <= samples@.len(),
                samples@ == held,
                forall|k: int| 0 <= k < at ==> held[k] != latency_ms,
            decreases samples@.len() - at,
        {
            at = at + 1;
        }
        if at < samples.len() {
            proof {
                lemma_without_first_at(held, latency_ms, at as int);
            }
            samples.remove(at);
        } else {
            proof {
                lemma_without_first_absent(held, latency_ms);
            }
        }
        let ghost rest = samples@;
        assert(rest == without_first(held, latency_ms));
        proof {
            lemma_without_first_len(held, latency_ms);
        }
        if samples.len() > 0 {
            self.buckets.insert(bucket, samples);
            assert(self@ =~= h.insert(bucket, rest));
            assert(self@.dom() =~= h.dom());
        } else {
            assert(self@ =~= h.remove(bucket));
            assert(self@.dom() =~= h.dom().remove(bucket));
        }
    }

    /// The distribution of one bucket, or `None` where it holds no samples.
    pub fn stats(&self, bucket: TipBucket) -> (r: Option<BucketLatency>)
        requires
            self.wf(),
        ensures
            match r {
                Some(l) => self@.contains_key(bucket) && summarises(l, self@[bucket]),
                None => !self@.contains_key(bucket),
            },
    {
        broadcast use vstd::std_specs::btree::group_btree_axioms;

        assert(self@.dom() =~= self.buckets@.dom());
        match self.buckets.get(&bucket) {
            Some(samples) => {
                let mut all: Vec<u64> = Vec::new();
                let mut i: usize = 0;
                while i < samples.len()
                    invariant
                        i <= samples@.len(),
                        all@ == samples@.take(i as int),
                    decreases samples@.len() - i,
                {
                    all.push(samples[i]);
                    assert(all@ =~= samples@.take(i + 1));
                    i = i + 1;
                }
                assert(all@ =~= samples@);
                assert(self@[bucket] == samples@);
                let sorted = sort_ascending(&all);
                proof {
                    sorting::lemma_ascending(all@);
                }
                let n: usize = sorted.len();
                let p50 = percentile_ms(sorted.as_slice(), 50);
                let p95 = percentile_ms(sorted.as_slice(), 95);
                match (p50, p95) {
                    (Some(p50_ms), Some(p95_ms)) => Some(
                        BucketLatency {
                            count: n,
                            min_ms: sorted[0],
                            max_ms: sorted[n - 1],
                            p50_ms,
                            p95_ms,
                        },
                    ),
                    _ => None,
                }
            },
            None => None,
        }
    }

    /// The buckets that hold samples, ascending.
    pub fn keys(&self) -> (r: Vec<TipBucket>)
        requires
            self.wf(),
        ensures
            r@.to_set() == self@.dom(),
            forall|i: int, j: int| 0 <= i < j < r@.len() ==> r@[i] < r@[j],
    {
        broadcast use vstd::std_specs::btree::group_btree_axioms;

        assert(self@.dom() =~= self.buckets@.dom());
        let mut out: Vec<TipBucket> = Vec::new();
        let mut k: u16 = 0;
        while k < 256
            invariant
                k <= 256,
                self@.dom() == self.buckets@.dom(),
                forall|i: int| 0 <= i < out@.len() ==> (#[trigger] out@[i]) < k,
                forall|i: int, j: int| 0 <= i < j < out@.len() ==> out@[i] < out@[j],
                forall|b: TipBucket| #[trigger] out@.contains(b) <==> b < k && self@.contains_key(b),
            decreases 256 - k,
        {
            broadcast use vstd::std_specs::btree::group_btree_axioms;

            let b: TipBucket = k as u8;
            let ghost before = out@;
            if self.buckets.contains_key(&b) {
                out.push(b);
                assert(out@[before.len() as int] == b);
            }
            k = k + 1;
            assert forall|x: TipBucket| #[trigger]
                out@.contains(x) <==> x < k && self@.contains_key(x) by {
                assert(before.contains(x) <==> x < b && self@.contains_key(x));
                if before.contains(x) {
                    let i = choose|i: int| 0 <= i < before.len() && before[i] == x;
                    assert(out@[i] == x);
                }
                if out@.contains(x) && x != b {
                    let i = choose|i: int| 0 <= i < out@.len() && out@[i] == x;
                    assert(before[i] == x);
                }
            }
        }
        assert(out@.to_set() =~= self@.dom());
        out
    }
}

/// No bucket is empty or over its window, and there are not too many.
pub open spec fn histogram_wf(h: Map<TipBucket, Seq<u64>>) -> bool {
    &&& h.dom().finite()
    &&& h.dom().len() <= MAX_TIP_BUCKETS
    &&& forall|b: TipBucket| #[trigger]
        h.contains_key(b) ==> 1 <= h[b].len() <= MAX_SAMPLES_PER_BUCKET
}

/// One more sample keeps the bounds.
pub proof fn lemma_with_sample_wf(h: Map<TipBucket, Seq<u64>>, bucket: TipBucket, latency_ms: u64)
    requires
        histogram_wf(h),
    ensures
        histogram_wf(with_sample(h, bucket, latency_ms)),
{
    assert(with_sample(h, bucket, latency_ms).dom() =~= if admits(h, bucket) {
        h.dom().insert(bucket)
    } else {
        h.dom()
    });
}

/// One sample less keeps the bounds.
pub proof fn lemma_without_sample_wf(
    h: Map<TipBucket, Seq<u64>>,
    bucket: TipBucket,
    latency_ms: u64,
)
    requires
        histogram_wf(h),
    ensures
        histogram_wf(without_sample(h, bucket, latency_ms)),
{
    if h.contains_key(bucket) {
        lemma_without_first_len(h[bucket], latency_ms);
        let rest = without_first(h[bucket], latency_ms);
        if rest.len() == 0 {
            assert(h.remove(bucket).dom() =~= h.dom().remove(bucket));
        } else {
            assert(h.insert(bucket, rest).dom() =~= h.dom());
        }
    }
}

/// A summary is what anyone who sorts the samples reads off: the first and the last of
/// them, and for the median and the 95th percentile the first whose rank covers that share.
pub proof fn law_a_summary_reads_the_sorted_samples(
    l: BucketLatency,
    samples: Seq<u64>,
    sorted: Seq<u64>,
    half: int,
    most: int,
)
    requires
        samples.len() > 0,
        summarises(l, samples),
        sorting::is_ascending(sorted),
        sorted.to_multiset() == samples.to_multiset(),
        100 * (half + 1) >= 50 * samples.len() > 100 * half,
        100 * (most + 1) >= 95 * samples.len() > 100 * most,
    ensures
        l.count == samples.len(),
        sorted.len() == samples.len(),
        l.min_ms == sorted[0],
        l.max_ms == sorted[sorted.len() - 1],
        l.p50_ms == sorted[half],
        l.p95_ms == sorted[most],
        forall|i: int| 0 <= i < samples.len() ==> l.min_ms <= #[trigger] samples[i] <= l.max_ms,
{
    sorting::lemma_ascending_unique(sorted, samples);
    sorting::lemma_ascending(samples);
    assert forall|i: int| 0 <= i < samples.len() implies l.min_ms <= #[trigger] samples[i]
        <= l.max_ms by {
        assert(samples.contains(samples[i]));
        assert(sorted.contains(samples[i]));
        let k = choose|k: int| 0 <= k < sorted.len() && sorted[k] == samples[i];
        assert(sorted[0] <= sorted[k] <= sorted[sorted.len() - 1]);
    }
}

/// One more sample is the newest of its bucket; a full window gives up its oldest for it, and
/// no other bucket changes. A bucket that is new past the last that is allowed takes nothing.
pub proof fn law_a_sample_is_the_newest_of_its_bucket(
    h: Map<TipBucket, Seq<u64>>,
    bucket: TipBucket,
    latency_ms: u64,
    other: TipBucket,
)
    requires
        h.dom().finite(),
        h.contains_key(bucket) ==> 0 < h[bucket].len() <= MAX_SAMPLES_PER_BUCKET,
    ensures
        ({
            let n = with_sample(h, bucket, latency_ms);
            &&& !h.contains_key(bucket) && h.dom().len() >= MAX_TIP_BUCKETS ==> n == h
            &&& !h.contains_key(bucket) && h.dom().len() < MAX_TIP_BUCKETS ==> n == h.insert(
                bucket,
                seq![latency_ms],
            )
            &&& h.contains_key(bucket) && h[bucket].len() < MAX_SAMPLES_PER_BUCKET ==> n
                == h.insert(bucket, h[bucket].push(latency_ms))
            &&& h.contains_key(bucket) && h[bucket].len() == MAX_SAMPLES_PER_BUCKET ==> n
                == h.insert(bucket, h[bucket].drop_first().push(latency_ms))
            &&& other != bucket ==> samples_of(n, other) == samples_of(h, other)
        }),
{
    let n = with_sample(h, bucket, latency_ms);
    if admits(h, bucket) {
        let s = samples_of(h, bucket).push(latency_ms);
        if !h.contains_key(bucket) {
            assert(s =~= seq![latency_ms]);
        } else if h[bucket].len() == MAX_SAMPLES_PER_BUCKET {
            assert(s.skip(1) =~= h[bucket].drop_first().push(latency_ms));
        }
    }
}

/// Withdrawing a sample takes one of its value out of its bucket and leaves every other
/// sample, in its order; a bucket left without samples is gone, and no other bucket changes.
pub proof fn law_withdrawing_takes_one_sample(
    h: Map<TipBucket, Seq<u64>>,
    bucket: TipBucket,
    latency_ms: u64,
    other: TipBucket,
)
    requires
        h.contains_key(bucket) ==> h[bucket].len() > 0,
    ensures
        ({
            let n = without_sample(h, bucket, latency_ms);
            let held = samples_of(h, bucket);
            &&& !held.contains(latency_ms) ==> n == h
            &&& held.contains(latency_ms) ==> exists|at: int|
                {
                    &&& 0 <= at < held.len()
                    &&& held[at] == latency_ms
                    &&& #[trigger] held.remove(at) == samples_of(n, bucket)
                }
            &&& n.contains_key(bucket) ==> n[bucket].len() > 0
            &&& other != bucket ==> (n.contains_key(other) <==> h.contains_key(other))
                && samples_of(n, other) == samples_of(h, other)
        }),
{
    let n = without_sample(h, bucket, latency_ms);
    let held = samples_of(h, bucket);
    if h.contains_key(bucket) {
        if held.contains(latency_ms) {
            let at = lemma_first_of(held, latency_ms);
            lemma_without_first_at(held, latency_ms, at);
            assert(held.remove(at) =~= samples_of(n, bucket));
        } else {
            assert forall|k: int| 0 <= k < held.len() implies held[k] != latency_ms by {
                assert(held.contains(held[k]));
            }
            lemma_without_first_absent(held, latency_ms);
            assert(n =~= h);
        }
    }
}

proof fn lemma_first_of(s: Seq<u64>, x: u64) -> (at: int)
    requires
        s.contains(x),
    ensures
        0 <= at < s.len(),
        s[at] == x,
        forall|k: int| 0 <= k < at ==> s[k] != x,
    decreases s.len(),
{
    if s[0] == x {
        0
    } else {
        let t = s.drop_first();
        let i = choose|i: int| 0 <= i < s.len() && s[i] == x;
        assert(t[i - 1] == x);
        let at = lemma_first_of(t, x);
        assert forall|k: int| 0 <= k < at + 1 implies s[k] != x by {
            if k > 0 {
                assert(t[k - 1] == s[k]);
            }
        }
        at + 1
    }
}

} // verus!
