//! Rate-capping egress queue: a reservoir sample per time bucket, handed
//! out as one batch when the next bucket begins.
use vstd::prelude::*;
use std::sync::Arc;
use std::sync::atomic::{AtomicU64, Ordering};
use rand::rngs::SmallRng;
use rand::{Rng, SeedableRng};
use crate::flow::TaggedFlow;

verus! {

/// A bucket spans `2^THROTTLE_BUCKET_BITS` seconds.
pub const THROTTLE_BUCKET_BITS: u64 = 2;
/// Seconds per bucket, `2^THROTTLE_BUCKET_BITS`; the cap per bucket is the
/// configured rate times this.
pub const THROTTLE_BUCKET: u64 = 4;
pub const MIN_L4_LOG_COLLECT_NPS_THRESHOLD: u64 = 100;
pub const MAX_L4_LOG_COLLECT_NPS_THRESHOLD: u64 = 1000000;

#[verifier::external_type_specification]
#[verifier::external_body]
pub struct ExSmallRng(SmallRng);

/// Relies on `SeedableRng::seed_from_u64` of rand_core 0.6: a generator
/// expanded from a 64-bit seed, which cannot fail.
#[verifier::external_body]
fn rng_from_seed(seed: u64) -> SmallRng {
    SmallRng::seed_from_u64(seed)
}

/// Relies on `Rng::gen_range` of rand 0.8 over `0..n`: a value in that
/// range (it panics only on an empty range).
#[verifier::external_body]
fn draw_below(rng: &mut SmallRng, n: usize) -> (r: usize)
    requires
        n > 0,
    ensures
        r < n,
{
    rng.gen_range(0..n)
}

/// The per-bucket cap after a configured rate of `new` records per second
/// is applied: rates outside the accepted range leave the cap as it was.
pub open spec fn throttle_after(cap: u64, new: u64) -> u64 {
    if new < MIN_L4_LOG_COLLECT_NPS_THRESHOLD || new > MAX_L4_LOG_COLLECT_NPS_THRESHOLD {
        cap
    } else {
        (new * THROTTLE_BUCKET) as u64
    }
}

/// The per-bucket cap of a freshly made queue, for a configured rate.
pub open spec fn initial_cap(rate: u64) -> u64 {
    if rate * THROTTLE_BUCKET > u64::MAX { u64::MAX } else { (rate * THROTTLE_BUCKET) as u64 }
}

/// Whether `now` falls in another bucket than `last`.
pub open spec fn new_bucket(now: u64, last: u64) -> bool {
    now / THROTTLE_BUCKET != last / THROTTLE_BUCKET
}

/// The sample that a record offered at `now` joins: empty in a new bucket.
pub open spec fn bucket_sample(q: ThrottleState, now: u64) -> Seq<TaggedFlow> {
    if new_bucket(now, q.last_flush_time) { Seq::empty() } else { q.stash }
}

/// The records offered in the bucket of `now` before one more is.
pub open spec fn bucket_count(q: ThrottleState, now: u64) -> int {
    if new_bucket(now, q.last_flush_time) { 0 } else { q.period_count as int }
}

pub open spec fn min_of(a: int, b: int) -> int {
    if a < b { a } else { b }
}

/// What offering `f` at time `now` does to a queue `q`, with `q2` the queue
/// afterwards and `r` whether the sample grew.
pub open spec fn sent(q: ThrottleState, f: TaggedFlow, now: u64, q2: ThrottleState, r: bool) -> bool {
    &&& q2.batches == if new_bucket(now, q.last_flush_time) { q.batches.push(q.stash) } else { q.batches }
    &&& new_bucket(now, q.last_flush_time) ==> q.stash.len() == min_of(q.period_count as int, q.throttle as int)
    &&& q2.last_flush_time == if new_bucket(now, q.last_flush_time) { now } else { q.last_flush_time }
    &&& !new_bucket(now, q.last_flush_time) ==> q2.throttle == q.throttle
    &&& new_bucket(now, q.last_flush_time) ==> exists |n: u64| q2.throttle == #[trigger] throttle_after(q.throttle, n)
    &&& q2.period_count == if bucket_count(q, now) < usize::MAX { bucket_count(q, now) + 1 } else { bucket_count(q, now) }
    &&& r == (bucket_sample(q, now).len() < q2.throttle && bucket_sample(q, now).len() < q2.period_count)
    &&& r ==> q2.stash == bucket_sample(q, now).push(f)
    &&& !r ==> (q2.stash == bucket_sample(q, now) || exists |i: int| 0 <= i < bucket_sample(q, now).len() && q2.stash == #[trigger] bucket_sample(q, now).update(i, f))
}

/// What a `ThrottlingQueue` holds.
pub struct ThrottleState {
    /// Records kept per bucket.
    pub throttle: u64,
    pub last_flush_time: u64,
    /// Records offered in the current bucket.
    pub period_count: usize,
    /// The current bucket's sample.
    pub stash: Seq<TaggedFlow>,
    /// Samples of finished buckets, oldest first, not yet taken.
    pub batches: Seq<Seq<TaggedFlow>>,
}

pub struct ThrottlingQueue {
    throttle: u64,
    new_throttle: Arc<AtomicU64>,
    small_rng: SmallRng,
    last_flush_time: u64,
    period_count: usize,
    stashs: Vec<TaggedFlow>,
    batches: Vec<Vec<TaggedFlow>>,
}

impl View for ThrottlingQueue {
    type V = ThrottleState;

    closed spec fn view(&self) -> ThrottleState {
        ThrottleState {
            throttle: self.throttle,
            last_flush_time: self.last_flush_time,
            period_count: self.period_count,
            stash: self.stashs@,
            batches: self.batches@.map_values(|b: Vec<TaggedFlow>| b@),
        }
    }
}

impl ThrottlingQueue {
    /// The sample holds every record offered in the bucket, up to the cap.
    pub open spec fn wf(&self) -> bool {
        self@.stash.len() == min_of(self@.period_count as int, self@.throttle as int)
    }

    pub fn new(throttle: Arc<AtomicU64>, seed: u64) -> (r: Self)
        ensures
            r.wf(),
            r@.last_flush_time == 0,
            r@.period_count == 0,
            r@.stash.len() == 0,
            r@.batches.len() == 0,
            exists |rate: u64| r@.throttle == #[trigger] initial_cap(rate),
    {
        let rate = throttle.load(Ordering::Relaxed);
        Self::with_rate(throttle, rate, seed)
    }

    /// A queue whose cap per bucket is `rate` records per second over a
    /// bucket; `throttle` is the shared setting it reloads at each bucket,
    /// and `seed` seeds its sampling.
    pub fn with_rate(throttle: Arc<AtomicU64>, rate: u64, seed: u64) -> (r: Self)
        ensures
            r.wf(),
            r@.last_flush_time == 0,
            r@.period_count == 0,
            r@.stash.len() == 0,
            r@.batches.len() == 0,
            r@.throttle == initial_cap(rate),
    {
        let t = match rate.checked_mul(THROTTLE_BUCKET) {
            Some(t) => t,
            None => u64::MAX,
        };
        let q = ThrottlingQueue {
            throttle: t,
            new_throttle: throttle,
            small_rng: rng_from_seed(seed),
            last_flush_time: 0,
            period_count: 0,
            stashs: Vec::new(),
            batches: Vec::new(),
        };
        assert(q@.batches =~= Seq::<Seq<TaggedFlow>>::empty());
        assert(q@.throttle == initial_cap(rate));
        q
    }

    /// Applies a configured rate: one outside the accepted range is ignored.
    pub fn set_throttle(&mut self, new: u64)
        ensures
            final(self)@ == (ThrottleState { throttle: throttle_after(old(self)@.throttle, new), ..old(self)@ }),
    {
        if new < MIN_L4_LOG_COLLECT_NPS_THRESHOLD || new > MAX_L4_LOG_COLLECT_NPS_THRESHOLD {
            return;
        }
        if self.throttle == new * THROTTLE_BUCKET {
            return;
        }
        self.throttle = new * THROTTLE_BUCKET;
    }

    /// Reloads the configured rate from the shared setting.
    pub fn update_throttle(&mut self)
        ensures
            exists |new: u64| final(self)@ == (ThrottleState { throttle: #[trigger] throttle_after(old(self)@.throttle, new), ..old(self)@ }),
    {
        let new = self.new_throttle.load(Ordering::Relaxed);
        self.set_throttle(new);
    }

    /// Closes the current sample as a batch and starts an empty one.
    pub fn flush(&mut self)
        ensures
            final(self)@ == (ThrottleState {
                stash: Seq::empty(),
                batches: old(self)@.batches.push(old(self)@.stash),
                ..old(self)@
            }),
    {
        let mut batch: Vec<TaggedFlow> = Vec::new();
        std::mem::swap(&mut batch, &mut self.stashs);
        let ghost before = self.batches@;
        self.batches.push(batch);
        assert(self.batches@.map_values(|b: Vec<TaggedFlow>| b@)
            =~= before.map_values(|b: Vec<TaggedFlow>| b@).push(old(self)@.stash));
    }

    /// Keeps `f` in place of the sampled record at `r`, when `r` falls
    /// inside the cap and the sample.
    pub fn place(&mut self, f: TaggedFlow, r: usize)
        ensures
            final(self)@ == (ThrottleState {
                stash: if (r as int) < old(self)@.throttle && r < old(self)@.stash.len() {
                    old(self)@.stash.update(r as int, f)
                } else {
                    old(self)@.stash
                },
                ..old(self)@
            }),
    {
        if (r as u64) < self.throttle && r < self.stashs.len() {
            self.stashs.set(r, f);
        }
    }

    /// Offers a record at time `now`. A new bucket first closes the current
    /// sample as a batch. The record is appended while the sample is under the
    /// cap (the result is then `true`); past the cap it replaces the record at
    /// a position drawn uniformly among all records offered in the bucket, or
    /// is dropped when that position is past the cap (the result is `false`).
    pub fn send(&mut self, f: TaggedFlow, now: u64) -> (r: bool)
        requires
            old(self).wf(),
        ensures
            final(self).wf(),
            sent(old(self)@, f, now, final(self)@, r),
    {
        let ghost q = self@;
        let ghost mut witness: u64 = 0;
        if now / THROTTLE_BUCKET != self.last_flush_time / THROTTLE_BUCKET {
            self.update_throttle();
            proof {
                witness = choose |n: u64| self@ == (ThrottleState { throttle: #[trigger] throttle_after(q.throttle, n), ..q });
            }
            self.flush();
            self.last_flush_time = now;
            self.period_count = 0;
        }
        if self.period_count < usize::MAX {
            self.period_count = self.period_count + 1;
        }
        let ghost mid = self@.stash;
        assert(mid == (if new_bucket(now, q.last_flush_time) { Seq::empty() } else { q.stash }));
        let len = self.stashs.len();
        if (len as u64) < self.throttle && len < self.period_count {
            self.stashs.push(f);
            assert(self@.stash == mid.push(f));
            assert(new_bucket(now, q.last_flush_time) ==> self@.throttle == throttle_after(q.throttle, witness));
            true
        } else {
            let r = draw_below(&mut self.small_rng, self.period_count);
            self.place(f, r);
            assert(new_bucket(now, q.last_flush_time) ==> self@.throttle == throttle_after(q.throttle, witness));
            assert(self@.stash == mid || (0 <= r < mid.len() && self@.stash == mid.update(r as int, f)));
            assert(self@.stash == mid || exists |i: int| 0 <= i < mid.len() && self@.stash == #[trigger] mid.update(i, f));
            assert(!(mid.len() < self@.throttle && mid.len() < self@.period_count));
            false
        }
    }

    /// Takes every finished batch out of the queue, oldest first.
    pub fn take_batches(&mut self) -> (r: Vec<Vec<TaggedFlow>>)
        ensures
            r@.map_values(|b: Vec<TaggedFlow>| b@) == old(self)@.batches,
            final(self)@ == (ThrottleState { batches: Seq::empty(), ..old(self)@ }),
    {
        let mut out: Vec<Vec<TaggedFlow>> = Vec::new();
        std::mem::swap(&mut out, &mut self.batches);
        assert(self@.batches =~= Seq::<Seq<TaggedFlow>>::empty());
        out
    }
}

/// Within a bucket the sample holds `min(N, C)` records, `N` the records
/// offered and `C` the cap, so that is the size of the batch it becomes.
pub proof fn lemma_batch_size(q: ThrottlingQueue)
    requires
        q.wf(),
    ensures
        q@.stash.len() == min_of(q@.period_count as int, q@.throttle as int),
{
}

} // verus!
