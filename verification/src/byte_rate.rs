//! A budget of bytes that refills at a steady rate.

use crate::clock::{elapsed, Instant};
use vstd::prelude::*;

verus! {

/// The fractions of a byte in which the budget is counted: one is what a rate of
/// one byte per second adds in a nanosecond.
pub const FRACTIONS_PER_BYTE: u128 = 1_000_000_000;

/// A token bucket. A rate of zero means that there is no limit.
#[derive(Debug)]
pub struct ByteRateLimiter {
    pub bytes_per_sec: u64,
    /// The most bytes that can be saved up.
    pub capacity: u64,
    /// The fractions of a byte that are left.
    pub tokens: u128,
    pub last_refill: Instant,
}

impl View for ByteRateLimiter {
    type V = LimiterModel;

    open spec fn view(&self) -> LimiterModel {
        LimiterModel {
            rate: self.bytes_per_sec as int,
            capacity: self.capacity as int * FRACTIONS_PER_BYTE as int,
            tokens: self.tokens as int,
            last_refill: self.last_refill,
        }
    }
}

/// A token bucket, counted in fractions of a byte.
#[verifier::ext_equal]
pub struct LimiterModel {
    pub rate: int,
    pub capacity: int,
    pub tokens: int,
    pub last_refill: Instant,
}

/// Bytes as fractions of a byte.
pub open spec fn fractions(bytes: int) -> int {
    bytes * FRACTIONS_PER_BYTE as int
}

impl LimiterModel {
    /// The budget never exceeds what can be saved up.
    pub open spec fn valid(self) -> bool {
        0 <= self.tokens <= self.capacity && 0 <= self.rate
    }

    /// `amount` more, as far as it can be saved up.
    pub open spec fn credited(self, amount: int) -> LimiterModel {
        LimiterModel {
            tokens: if self.tokens + amount > self.capacity {
                self.capacity
            } else {
                self.tokens + amount
            },
            ..self
        }
    }

    /// The budget at `now`.
    pub open spec fn refilled(self, now: Instant) -> LimiterModel {
        if self.rate == 0 {
            LimiterModel { last_refill: now, ..self }
        } else if elapsed(now, self.last_refill) == 0 {
            self
        } else {
            LimiterModel {
                last_refill: now,
                ..self.credited(elapsed(now, self.last_refill) * self.rate)
            }
        }
    }

    /// `bytes` can be taken at `now`.
    pub open spec fn affords(self, bytes: int, now: Instant) -> bool {
        self.rate == 0 || bytes == 0 || self.refilled(now).tokens >= fractions(bytes)
    }

    /// The budget after an attempt to take `bytes` at `now`.
    pub open spec fn reserved(self, bytes: int, now: Instant) -> LimiterModel {
        if self.rate == 0 || bytes == 0 {
            self
        } else if self.affords(bytes, now) {
            let full = self.refilled(now);
            LimiterModel { tokens: full.tokens - fractions(bytes), ..full }
        } else {
            self.refilled(now)
        }
    }

    /// The budget after it turned out that of `reserved` bytes only `used` were needed.
    pub open spec fn refunded(self, reserved: int, used: int, now: Instant) -> LimiterModel {
        if self.rate == 0 || used >= reserved {
            self
        } else {
            self.refilled(now).credited(fractions(reserved - used))
        }
    }
}

impl ByteRateLimiter {
    /// A full budget of one second's worth of bytes, or of `burst_bytes` if that is more.
    pub fn new(bytes_per_sec: u64, burst_bytes: u64, now: Instant) -> (limiter: Self)
        ensures
            limiter.bytes_per_sec == bytes_per_sec,
            limiter.capacity == if bytes_per_sec == 0 {
                0
            } else if bytes_per_sec < burst_bytes {
                burst_bytes
            } else {
                bytes_per_sec
            },
            limiter.tokens == limiter.capacity * FRACTIONS_PER_BYTE,
            limiter.last_refill == now,
            limiter@.valid(),
    {
        let capacity: u64 = if bytes_per_sec == 0 {
            0
        } else if bytes_per_sec < burst_bytes {
            burst_bytes
        } else {
            bytes_per_sec
        };
        ByteRateLimiter {
            bytes_per_sec,
            capacity,
            tokens: capacity as u128 * FRACTIONS_PER_BYTE,
            last_refill: now,
        }
    }

    fn credit(&mut self, amount: u128)
        requires
            old(self)@.valid(),
        ensures
            final(self).bytes_per_sec == old(self).bytes_per_sec,
            final(self).capacity == old(self).capacity,
            final(self)@ == old(self)@.credited(amount as int),
            final(self)@.valid(),
    {
        let most: u128 = self.capacity as u128 * FRACTIONS_PER_BYTE;
        let room: u128 = most - self.tokens;
        if amount > room {
            self.tokens = most;
        } else {
            self.tokens = self.tokens + amount;
        }
    }

    /// Adds what has accrued since the last refill.
    pub fn refill(&mut self, now: Instant)
        requires
            old(self)@.valid(),
        ensures
            final(self).bytes_per_sec == old(self).bytes_per_sec,
            final(self).capacity == old(self).capacity,
            final(self)@ == old(self)@.refilled(now),
            final(self)@.valid(),
    {
        if self.bytes_per_sec == 0 {
            self.last_refill = now;
            return ;
        }
        let age: u128 = now.duration_since(self.last_refill).nanos;
        if age == 0 {
            return ;
        }
        let ghost before = self@;
        let rate: u128 = self.bytes_per_sec as u128;
        let most: u128 = self.capacity as u128 * FRACTIONS_PER_BYTE;
        let room: u128 = most - self.tokens;
        let steps: u128 = room / rate;
        proof {
            vstd::arithmetic::div_mod::lemma_fundamental_div_mod(room as int, rate as int);
        }
        if age > steps {
            proof {
                assert(age * rate > room) by (nonlinear_arith)
                    requires
                        room == rate * steps + room % rate,
                        room % rate < rate,
                        age >= steps + 1,
                        rate > 0,
                ;
            }
            self.tokens = most;
        } else {
            proof {
                assert(0 <= age * rate <= room) by (nonlinear_arith)
                    requires
                        room == rate * steps + room % rate,
                        0 <= room % rate,
                        0 <= age <= steps,
                        rate > 0,
                ;
            }
            self.tokens = self.tokens + age * rate;
        }
        self.last_refill = now;
        assert(self@ =~= before.refilled(now));
    }

    /// Takes `bytes` out of the budget if it holds them.
    pub fn try_reserve(&mut self, bytes: u64, now: Instant) -> (granted: bool)
        requires
            old(self)@.valid(),
        ensures
            granted == old(self)@.affords(bytes as int, now),
            final(self).bytes_per_sec == old(self).bytes_per_sec,
            final(self).capacity == old(self).capacity,
            final(self)@ == old(self)@.reserved(bytes as int, now),
            final(self)@.valid(),
    {
        if self.bytes_per_sec == 0 || bytes == 0 {
            return true;
        }
        self.refill(now);
        let amount: u128 = bytes as u128 * FRACTIONS_PER_BYTE;
        if self.tokens < amount {
            return false;
        }
        self.tokens = self.tokens - amount;
        true
    }

    /// Gives back what was reserved and not used.
    pub fn refund(&mut self, reserved: u64, used: u64, now: Instant)
        requires
            old(self)@.valid(),
        ensures
            final(self).bytes_per_sec == old(self).bytes_per_sec,
            final(self).capacity == old(self).capacity,
            final(self)@ == old(self)@.refunded(reserved as int, used as int, now),
            final(self)@.valid(),
    {
        if self.bytes_per_sec == 0 || used >= reserved {
            return ;
        }
        self.refill(now);
        self.credit((reserved - used) as u128 * FRACTIONS_PER_BYTE);
    }
}

/// A reservation that is given back in full leaves the budget as if it had never
/// been made.
pub proof fn law_refund_undoes_reservation(limiter: LimiterModel, bytes: int, now: Instant)
    requires
        limiter.valid(),
        0 <= bytes,
        limiter.affords(bytes, now),
    ensures
        limiter.reserved(bytes, now).refunded(bytes, 0, now) == if limiter.rate == 0 || bytes == 0 {
            limiter
        } else {
            limiter.refilled(now)
        },
{
    if limiter.rate != 0 && bytes != 0 {
        let full = limiter.refilled(now);
        assert(full.refilled(now) == full);
        assert(full.tokens <= full.capacity);
    }
}

/// Of a reservation, exactly the bytes that were used stay spent.
pub proof fn law_only_used_bytes_stay_spent(
    limiter: LimiterModel,
    bytes: int,
    used: int,
    now: Instant,
)
    requires
        limiter.valid(),
        limiter.rate > 0,
        0 <= used <= bytes,
        0 < bytes,
        limiter.affords(bytes, now),
    ensures
        limiter.reserved(bytes, now).refunded(bytes, used, now) == (LimiterModel {
            tokens: limiter.refilled(now).tokens - fractions(used),
            ..limiter.refilled(now)
        }),
{
    let full = limiter.refilled(now);
    assert(full.refilled(now) == full);
    assert(full.tokens <= full.capacity);
}

/// The budget after reservations of the given sizes at the given times.
pub open spec fn after_reservations(
    limiter: LimiterModel,
    reservations: Seq<(int, Instant)>,
) -> LimiterModel
    decreases reservations.len(),
{
    if reservations.len() == 0 {
        limiter
    } else {
        after_reservations(limiter, reservations.drop_last()).reserved(
            reservations.last().0,
            reservations.last().1,
        )
    }
}

/// The bytes of those reservations that were granted.
pub open spec fn granted_bytes(limiter: LimiterModel, reservations: Seq<(int, Instant)>) -> int
    decreases reservations.len(),
{
    if reservations.len() == 0 {
        0
    } else {
        let (bytes, now) = reservations.last();
        granted_bytes(limiter, reservations.drop_last()) + if after_reservations(
            limiter,
            reservations.drop_last(),
        ).affords(bytes, now) {
            bytes
        } else {
            0
        }
    }
}

/// However often it is asked, a budget never grants more than it held at first and
/// what has accrued since.
pub proof fn law_rate_is_kept(
    limiter: LimiterModel,
    reservations: Seq<(int, Instant)>,
    end: Instant,
)
    requires
        limiter.valid(),
        limiter.rate > 0,
        limiter.last_refill.nanos <= end.nanos,
        forall|i: int|
            0 <= i < reservations.len() ==> (#[trigger] reservations[i]).0 >= 0
                && reservations[i].1.nanos <= end.nanos,
    ensures
        after_reservations(limiter, reservations).valid(),
        after_reservations(limiter, reservations).rate == limiter.rate,
        after_reservations(limiter, reservations).last_refill.nanos <= end.nanos,
        limiter.last_refill.nanos <= after_reservations(limiter, reservations).last_refill.nanos,
        fractions(granted_bytes(limiter, reservations)) + after_reservations(
            limiter,
            reservations,
        ).tokens <= limiter.tokens + limiter.rate * (after_reservations(
            limiter,
            reservations,
        ).last_refill.nanos - limiter.last_refill.nanos),
        fractions(granted_bytes(limiter, reservations)) <= limiter.tokens + limiter.rate * (
        end.nanos - limiter.last_refill.nanos),
    decreases reservations.len(),
{
    let after = after_reservations(limiter, reservations);
    if reservations.len() > 0 {
        let init = reservations.drop_last();
        assert forall|i: int| 0 <= i < init.len() implies (#[trigger] init[i]).0 >= 0
            && init[i].1.nanos <= end.nanos by {
            assert(reservations[i].0 >= 0);
        }
        law_rate_is_kept(limiter, init, end);
        let before = after_reservations(limiter, init);
        let (bytes, now) = reservations.last();
        assert(reservations[reservations.len() - 1] == reservations.last());
        let age = elapsed(now, before.last_refill);
        let start = limiter.last_refill.nanos as int;
        assert(age * before.rate >= 0) by (nonlinear_arith)
            requires
                age >= 0,
                before.rate >= 0,
        ;
        assert(limiter.rate * (before.last_refill.nanos - start) + age * limiter.rate
            == limiter.rate * (before.last_refill.nanos + age - start)) by (nonlinear_arith);
    }
    assert(limiter.rate * (after.last_refill.nanos - limiter.last_refill.nanos) <= limiter.rate * (
    end.nanos - limiter.last_refill.nanos)) by (nonlinear_arith)
        requires
            limiter.rate > 0,
            after.last_refill.nanos <= end.nanos,
    ;
}

} // verus!
