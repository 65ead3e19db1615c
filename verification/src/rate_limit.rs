//! Token-bucket bandwidth limiter.
//!
//! The bucket holds up to one second's worth of bytes and refills at the
//! configured rate. A transfer always takes its bytes from the bucket; when
//! the bucket holds less, it goes into debt, and the caller is told how long
//! to wait until the refill has paid the debt. Time already waited for is
//! thereby never credited twice. Amounts are kept exactly, in nanoseconds
//! and in billionths of a byte, so that a refill of `elapsed` nanoseconds at
//! `rate` bytes per second adds `elapsed * rate`.
use vstd::prelude::*;

verus! {

/// Billionths of a byte per byte (and nanoseconds per second).
pub open spec fn giga() -> nat {
    1_000_000_000
}

/// The deepest debt a bucket records (`-2^126` billionths of a byte);
/// reaching it takes billions of maximal transfers at one instant.
pub open spec fn debt_floor() -> int {
    -0x4000_0000_0000_0000_0000_0000_0000_0000
}

/// A bucket as mathematical values: tokens (negative while in debt) and
/// capacity in billionths of a byte, rate in bytes per second, time of the
/// last refill in nanoseconds.
pub struct BucketModel {
    pub tokens: int,
    pub capacity: nat,
    pub rate: nat,
    pub last_refill: nat,
}

/// The bytes per second that a limit in megabits per second allows.
pub open spec fn bytes_per_second(mbps: u32) -> nat {
    mbps as nat * 125_000
}

/// The tokens after refilling up to `now`: what elapsed since the last
/// refill times the rate, capped at the capacity.
pub open spec fn refilled(b: BucketModel, now: nat) -> int {
    let elapsed = if now >= b.last_refill {
        (now - b.last_refill) as nat
    } else {
        0
    };
    let t = b.tokens + elapsed * b.rate;
    if t <= b.capacity {
        t
    } else {
        b.capacity as int
    }
}

/// The nanoseconds a refill at `rate` takes to pay `debt`, rounded up.
pub open spec fn wait_for(debt: int, rate: nat) -> nat {
    if debt <= 0 {
        0
    } else {
        ((debt + rate - 1) as nat) / rate
    }
}

/// Taking `bytes` at `now`: the bucket afterwards and the nanoseconds to
/// wait. The bytes are taken from the refilled bucket; within budget there
/// is no wait, over budget the bucket is left in debt and the wait is the
/// time the refill takes to pay it (a debt below [`debt_floor`] is recorded
/// as the floor).
pub open spec fn take_spec(b: BucketModel, now: nat, bytes: nat) -> (BucketModel, nat) {
    let t = refilled(b, now) - bytes * giga();
    let kept = if t >= debt_floor() {
        t
    } else {
        debt_floor()
    };
    let last = if now >= b.last_refill {
        now
    } else {
        b.last_refill
    };
    (BucketModel { tokens: kept, last_refill: last, ..b }, wait_for(-kept, b.rate))
}

/// A bucket of the shape the limiter builds: a capacity of one second at a
/// positive rate, and tokens between the debt floor and the capacity.
pub open spec fn bucket_wf(b: BucketModel) -> bool {
    &&& 0 < b.rate <= bytes_per_second(u32::MAX)
    &&& b.capacity == b.rate * giga()
    &&& debt_floor() <= b.tokens <= b.capacity
}

struct Bucket {
    tokens: i128,
    capacity: u128,
    rate: u64,
    last_refill: u64,
}

impl Bucket {
    spec fn model(&self) -> BucketModel {
        BucketModel {
            tokens: self.tokens as int,
            capacity: self.capacity as nat,
            rate: self.rate as nat,
            last_refill: self.last_refill as nat,
        }
    }
}

/// The bucket a limit of `mbps` megabits per second starts with: full, last
/// refilled at time 0; a limit of 0 means no bucket at all.
pub open spec fn limiter_for(mbps: u32) -> Option<BucketModel> {
    if mbps == 0 {
        None
    } else {
        Some(
            BucketModel {
                tokens: (bytes_per_second(mbps) * giga()) as int,
                capacity: bytes_per_second(mbps) * giga(),
                rate: bytes_per_second(mbps),
                last_refill: 0,
            },
        )
    }
}

/// Token-bucket rate limiter; an unlimited one never asks to wait.
pub struct RateLimiter {
    inner: Option<Bucket>,
}

impl View for RateLimiter {
    type V = Option<BucketModel>;

    closed spec fn view(&self) -> Option<BucketModel> {
        match self.inner {
            Some(b) => Some(b.model()),
            None => None,
        }
    }
}

impl RateLimiter {
    /// The limiter keeps its bucket well formed.
    #[verifier::type_invariant]
    spec fn inv(self) -> bool {
        match self.inner {
            Some(b) => bucket_wf(b.model()),
            None => true,
        }
    }

    /// A limiter for `max_bandwidth_mbps` megabits per second, full, last
    /// refilled at time 0; a limit of 0 means unlimited.
    pub fn new(max_bandwidth_mbps: u32) -> (r: Self)
        ensures
            r@ == limiter_for(max_bandwidth_mbps),
            r@ matches Some(b) ==> bucket_wf(b),
    {
        if max_bandwidth_mbps == 0 {
            return RateLimiter { inner: None };
        }
        let bps: u64 = max_bandwidth_mbps as u64 * 125_000;
        let cap: u128 = bps as u128 * 1_000_000_000;
        RateLimiter {
            inner: Some(Bucket { tokens: cap as i128, capacity: cap, rate: bps, last_refill: 0 }),
        }
    }

    /// A limiter that never throttles.
    pub fn unlimited() -> (r: Self)
        ensures
            r@ is None,
    {
        RateLimiter { inner: None }
    }

    /// Whether the limiter never throttles.
    pub fn is_unlimited(&self) -> (r: bool)
        ensures
            r == (self@ is None),
    {
        self.inner.is_none()
    }

    /// Takes `bytes` from the bucket at time `now_nanos` (nanoseconds on
    /// the clock the limiter was created at 0 on) and returns how many
    /// nanoseconds the caller has to wait. The debt the bucket records stops
    /// at [`debt_floor`] (`-2^126` billionths of a byte): a transfer that
    /// would owe more leaves the debt at the floor and waits only for that.
    pub fn consume(&mut self, now_nanos: u64, bytes: usize) -> (wait_nanos: u128)
        ensures
            match old(self)@ {
                None => final(self)@ is None && wait_nanos == 0,
                Some(b) => {
                    let (b2, w) = take_spec(b, now_nanos as nat, bytes as nat);
                    final(self)@ == Some(b2) && wait_nanos == w
                },
            },
            old(self)@ matches Some(b) ==> bucket_wf(b),
            old(self)@ matches Some(b) ==> (final(self)@ matches Some(b2) && b2.tokens == if refilled(
                b,
                now_nanos as nat,
            ) - bytes * giga() >= debt_floor() {
                refilled(b, now_nanos as nat) - bytes * giga()
            } else {
                debt_floor()
            }),
    {
        proof {
            use_type_invariant(&*self);
        }
        match self.inner {
            None => 0,
            Some(ref b) => {
                let elapsed: u64 = if now_nanos >= b.last_refill {
                    now_nanos - b.last_refill
                } else {
                    0
                };
                let last: u64 = if now_nanos >= b.last_refill {
                    now_nanos
                } else {
                    b.last_refill
                };
                proof {
                    assert(elapsed as nat * b.rate as nat <= 0xffff_ffff_ffff_ffff * 536_870_911_875_000)
                        by (nonlinear_arith)
                        requires
                            elapsed <= 0xffff_ffff_ffff_ffff,
                            b.rate <= 536_870_911_875_000,
                    ;
                }
                let gained: i128 = elapsed as i128 * b.rate as i128;
                let sum: i128 = b.tokens + gained;
                let cap: i128 = b.capacity as i128;
                let tokens: i128 = if sum <= cap {
                    sum
                } else {
                    cap
                };
                let rate = b.rate;
                let capacity = b.capacity;
                proof {
                    assert(bytes as nat * giga() <= 0xffff_ffff_ffff_ffff * 1_000_000_000)
                        by (nonlinear_arith)
                        requires
                            bytes <= 0xffff_ffff_ffff_ffff,
                    ;
                }
                let needed: i128 = bytes as i128 * 1_000_000_000;
                let t: i128 = tokens - needed;
                let floor: i128 = -0x4000_0000_0000_0000_0000_0000_0000_0000;
                let kept: i128 = if t >= floor {
                    t
                } else {
                    floor
                };
                self.inner = Some(Bucket { tokens: kept, capacity, rate, last_refill: last });
                if kept >= 0 {
                    0
                } else {
                    let debt: u128 = (-kept) as u128;
                    (debt + rate as u128 - 1) / rate as u128
                }
            },
        }
    }
}

/// The bucket stays well formed: whatever is taken and whenever, it holds
/// at most one second's worth and never more debt than the floor.
pub proof fn law_tokens_stay_within_capacity(b: BucketModel, now: nat, bytes: nat)
    requires
        bucket_wf(b),
    ensures
        bucket_wf(take_spec(b, now, bytes).0),
{
}

/// A transfer within the bucket's budget is not throttled.
pub proof fn law_within_budget_is_not_throttled(b: BucketModel, now: nat, bytes: nat)
    requires
        bytes * giga() <= refilled(b, now),
    ensures
        take_spec(b, now, bytes).1 == 0,
        take_spec(b, now, bytes).0.tokens == refilled(b, now) - bytes * giga(),
{
}

/// Over budget, the caller waits the time the refill takes to pay the debt:
/// a drained bucket asked for one second's worth of bytes waits one second,
/// and owes that second's worth until then.
pub proof fn law_over_budget_waits_for_refill(b: BucketModel, now: nat)
    requires
        bucket_wf(b),
        b.tokens == 0,
        b.last_refill == now,
    ensures
        take_spec(b, now, b.rate).1 == giga(),
        take_spec(b, now, b.rate).0.tokens == -(b.rate * giga()),
        refilled(take_spec(b, now, b.rate).0, now + giga()) == 0,
{
    let r = b.rate;
    assert((0 as nat) * r == 0) by (nonlinear_arith);
    assert(refilled(b, now) == 0);
    let d: nat = r * giga();
    assert(d <= 536_870_911_875_000 * 1_000_000_000) by (nonlinear_arith)
        requires
            r <= 536_870_911_875_000,
            d == r * giga(),
            giga() == 1_000_000_000,
    ;
    assert(((d + r - 1) as nat) / r == giga()) by (nonlinear_arith)
        requires
            r > 0,
            d == r * giga(),
            giga() == 1_000_000_000,
    ;
    assert(giga() * r == d) by (nonlinear_arith)
        requires
            d == r * giga(),
    ;
}

/// Over budget, the wait is the time the refill takes to pay the debt,
/// rounded up to the nanosecond: a wait one nanosecond shorter would not
/// pay it, and once the wait is over the bucket is out of debt.
pub proof fn law_wait_matches_the_deficit(b: BucketModel, now: nat, bytes: nat)
    requires
        bucket_wf(b),
        bytes * giga() > refilled(b, now),
        refilled(b, now) - bytes * giga() >= debt_floor(),
    ensures
        bytes * giga() - refilled(b, now) <= take_spec(b, now, bytes).1 * b.rate,
        (take_spec(b, now, bytes).1 - 1) * b.rate < bytes * giga() - refilled(b, now),
        take_spec(b, now, bytes).1 > 0,
        refilled(
            take_spec(b, now, bytes).0,
            take_spec(b, now, bytes).0.last_refill + take_spec(b, now, bytes).1,
        ) >= 0,
{
    let d = (bytes * giga() - refilled(b, now)) as nat;
    let r = b.rate;
    let w = ((d + r - 1) as nat) / r;
    assert(d <= w * r && (w - 1) * r < d && w > 0) by (nonlinear_arith)
        requires
            r > 0,
            d > 0,
            w == ((d + r - 1) as nat) / r,
    ;
    assert(w * r == r * w) by (nonlinear_arith);
}

/// The bucket after a run of transfers, each a time and a byte count.
pub open spec fn after_all(b: BucketModel, steps: Seq<(nat, nat)>) -> BucketModel
    decreases steps.len(),
{
    if steps.len() == 0 {
        b
    } else {
        take_spec(after_all(b, steps.drop_last()), steps.last().0, steps.last().1).0
    }
}

/// The wait the last transfer of a run is given (for an empty run, the time
/// the bucket's own debt takes to be paid).
pub open spec fn last_wait(b: BucketModel, steps: Seq<(nat, nat)>) -> nat {
    if steps.len() == 0 {
        wait_for(-b.tokens, b.rate)
    } else {
        take_spec(after_all(b, steps.drop_last()), steps.last().0, steps.last().1).1
    }
}

/// The time of the last transfer of a run (the bucket's own refill time for
/// an empty run).
pub open spec fn last_time(b: BucketModel, steps: Seq<(nat, nat)>) -> nat {
    if steps.len() == 0 {
        b.last_refill
    } else {
        steps.last().0
    }
}

/// The transfers of a run come in time order, none before the bucket's
/// last refill.
pub open spec fn in_time_order(b: BucketModel, steps: Seq<(nat, nat)>) -> bool
    decreases steps.len(),
{
    steps.len() == 0 || (in_time_order(b, steps.drop_last()) && steps.last().0 >= last_time(
        b,
        steps.drop_last(),
    ))
}

/// No transfer of the run drove the debt below the floor.
pub open spec fn above_floor(b: BucketModel, steps: Seq<(nat, nat)>) -> bool
    decreases steps.len(),
{
    steps.len() == 0 || (above_floor(b, steps.drop_last()) && refilled(
        after_all(b, steps.drop_last()),
        steps.last().0,
    ) - steps.last().1 * giga() >= debt_floor())
}

/// The bytes of a run.
pub open spec fn total_bytes(steps: Seq<(nat, nat)>) -> nat
    decreases steps.len(),
{
    if steps.len() == 0 {
        0
    } else {
        total_bytes(steps.drop_last()) + steps.last().1
    }
}

/// The limit holds over any run, waits included: by the time the last
/// transfer's wait is over, the bytes of the whole run add up to no more
/// than the bucket held at the start (at most its capacity, one second's
/// worth) plus what the rate refills from the bucket's last refill to then.
pub proof fn law_bandwidth_is_bounded(b: BucketModel, steps: Seq<(nat, nat)>)
    requires
        bucket_wf(b),
        in_time_order(b, steps),
        above_floor(b, steps),
    ensures
        total_bytes(steps) * giga() <= b.tokens + (last_time(b, steps) + last_wait(b, steps)
            - b.last_refill) * b.rate,
        total_bytes(steps) * giga() <= b.capacity + (last_time(b, steps) + last_wait(b, steps)
            - b.last_refill) * b.rate,
{
    lemma_run_budget(b, steps);
    let k = after_all(b, steps);
    let w = last_wait(b, steps);
    let r = b.rate;
    assert(w == wait_for(-k.tokens, r));
    assert(k.tokens + w * r >= 0) by {
        if k.tokens < 0 {
            let d = (-k.tokens) as nat;
            assert(d <= ((d + r - 1) as nat) / r * r) by (nonlinear_arith)
                requires
                    r > 0,
            ;
        }
    }
    let lt = last_time(b, steps);
    lemma_times_after_refill(b, steps);
    assert((lt - b.last_refill) * r + w * r == (lt + w - b.last_refill) * r) by (nonlinear_arith)
        requires
            lt >= b.last_refill,
    ;
}

/// What a run has taken, with what is left in the bucket, is within the
/// bucket's start plus the refill over the time the run spans.
proof fn lemma_run_budget(b: BucketModel, steps: Seq<(nat, nat)>)
    requires
        bucket_wf(b),
        in_time_order(b, steps),
        above_floor(b, steps),
    ensures
        after_all(b, steps).tokens + total_bytes(steps) * giga() <= b.tokens + (last_time(b, steps)
            - b.last_refill) * b.rate,
        after_all(b, steps).last_refill == last_time(b, steps),
        after_all(b, steps).rate == b.rate,
        bucket_wf(after_all(b, steps)),
    decreases steps.len(),
{
    if steps.len() > 0 {
        let d = steps.drop_last();
        lemma_run_budget(b, d);
        let prev = after_all(b, d);
        let t = steps.last().0;
        let n = steps.last().1;
        let r = b.rate;
        let lt = last_time(b, d);
        let g = giga();
        lemma_times_after_refill(b, d);
        assert(refilled(prev, t) <= prev.tokens + (t - lt) * r);
        law_tokens_stay_within_capacity(prev, t, n);
        assert(after_all(b, steps).tokens == refilled(prev, t) - n * g);
        assert(total_bytes(steps) * g == total_bytes(d) * g + n * g) by (nonlinear_arith)
            requires
                total_bytes(steps) == total_bytes(d) + n,
        ;
        assert((lt - b.last_refill) * r + (t - lt) * r == (t - b.last_refill) * r)
            by (nonlinear_arith);
    }
}

proof fn lemma_times_after_refill(b: BucketModel, steps: Seq<(nat, nat)>)
    requires
        in_time_order(b, steps),
    ensures
        last_time(b, steps) >= b.last_refill,
    decreases steps.len(),
{
    if steps.len() > 0 {
        lemma_times_after_refill(b, steps.drop_last());
    }
}

} // verus!
