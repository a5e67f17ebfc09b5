//! Limits on what all peers together send and fetch.
//!
//! A limit is a bucket of tokens, one for each byte, that fills at the limit's rate and holds
//! no more than a burst. Tokens are counted in billionths, so that a rate of bytes for each
//! second adds as many of them in a nanosecond, and nothing is rounded. A limit of zero is
//! none. Times are in nanoseconds.
use vstd::prelude::*;

verus! {

/// Billionths of a token in one token, and nanoseconds in a second.
pub const PER_BYTE: u64 = 1_000_000_000;

/// Nanoseconds in which an empty bucket is filled.
pub const BURST_NANOS: u64 = 1_500_000_000;

/// Shortest and longest wait for tokens.
pub const MIN_DELAY_NANOS: u64 = 1_000_000;

pub const MAX_DELAY_NANOS: u64 = 1_000_000_000;

/// Tokens of one direction.
#[derive(Debug, Clone, Copy, PartialEq, Eq, Structural)]
pub struct TokenBucket {
    /// Bytes for each second; zero for no limit.
    pub rate: u64,
    /// Billionths of tokens.
    pub tokens: u128,
    /// When tokens were last added.
    pub last: u64,
}

pub open spec fn least(a: int, b: int) -> int {
    if a <= b {
        a
    } else {
        b
    }
}

pub open spec fn most(a: int, b: int) -> int {
    if a >= b {
        a
    } else {
        b
    }
}

impl TokenBucket {
    /// No more tokens than a number can hold are ever there.
    pub open spec fn wf(self) -> bool {
        self.tokens <= u64::MAX * BURST_NANOS
    }

    /// Billionths of tokens in a full bucket.
    pub open spec fn burst(self) -> int {
        self.rate * BURST_NANOS
    }

    /// The bucket at a later time.
    pub open spec fn refilled(self, now: u64) -> TokenBucket {
        if self.rate == 0 || now <= self.last {
            self
        } else {
            TokenBucket {
                tokens: least(self.tokens + self.rate * (now - self.last), self.burst()) as u128,
                last: now,
                ..self
            }
        }
    }

    /// Whole tokens that are there.
    pub open spec fn level(self) -> u64 {
        least(self.tokens as int / PER_BYTE as int, u64::MAX as int) as u64
    }

    /// The bucket without `n` tokens, as far as they are there.
    pub open spec fn without(self, n: u64) -> TokenBucket {
        TokenBucket { tokens: most(self.tokens - n * PER_BYTE, 0) as u128, ..self }
    }

    /// The bucket with `n` tokens given back. It holds no more than a burst, or than these.
    pub open spec fn refunded(self, n: u64) -> TokenBucket {
        TokenBucket {
            tokens: least(
                self.tokens + n * PER_BYTE,
                most(self.burst(), n * PER_BYTE),
            ) as u128,
            ..self
        }
    }

    /// How long it takes until `need` tokens are there, rounded up.
    pub open spec fn time_to(self, need: u64) -> int {
        if self.tokens >= need * PER_BYTE || self.rate == 0 {
            0
        } else {
            (need * PER_BYTE - self.tokens + self.rate - 1) / self.rate as int
        }
    }

    /// How long to wait for `need` tokens. A wait is never very short, and never so long that
    /// a change of the limit goes unseen.
    pub open spec fn delay(self, need: u64) -> int {
        if self.time_to(need) == 0 {
            0
        } else {
            least(most(self.time_to(need), MIN_DELAY_NANOS as int), MAX_DELAY_NANOS as int)
        }
    }

    /// A bucket without a limit.
    pub fn unlimited(now: u64) -> (b: TokenBucket)
        ensures
            b == (TokenBucket { rate: 0, tokens: 0, last: now }),
    {
        TokenBucket { rate: 0, tokens: 0, last: now }
    }

    /// Set the limit. The bucket is full then, so that the start is not starved.
    pub fn reconfigure(&mut self, rate_bps: u64, now: u64)
        ensures
            final(self).wf(),
            *final(self) == if rate_bps == 0 {
                TokenBucket { rate: 0, tokens: 0, last: old(self).last }
            } else {
                TokenBucket {
                    rate: rate_bps,
                    tokens: (rate_bps * BURST_NANOS) as u128,
                    last: now,
                }
            },
    {
        self.rate = rate_bps;
        if rate_bps == 0 {
            self.tokens = 0;
        } else {
            self.tokens = rate_bps as u128 * BURST_NANOS as u128;
            self.last = now;
        }
    }

    /// Add the tokens of the time that has passed.
    pub fn refill(&mut self, now: u64)
        requires
            old(self).wf(),
        ensures
            *final(self) == old(self).refilled(now),
            final(self).wf(),
    {
        if self.rate == 0 || now <= self.last {
            return;
        }
        let dt: u64 = now - self.last;
        let burst: u128 = self.rate as u128 * BURST_NANOS as u128;
        let rate: u64 = self.rate;
        if dt >= BURST_NANOS {
            assert(rate * dt >= rate * BURST_NANOS) by (nonlinear_arith)
                requires
                    dt >= BURST_NANOS,
            ;
            self.tokens = burst;
        } else {
            assert(0 <= rate * dt <= rate * BURST_NANOS) by (nonlinear_arith)
                requires
                    dt < BURST_NANOS,
            ;
            let more: u128 = self.tokens + rate as u128 * dt as u128;
            self.tokens = if more < burst {
                more
            } else {
                burst
            };
        }
        self.last = now;
    }

    /// Whole tokens that are there now.
    pub fn available(&mut self, now: u64) -> (n: u64)
        requires
            old(self).wf(),
        ensures
            *final(self) == old(self).refilled(now),
            final(self).wf(),
            n == final(self).level(),
    {
        self.refill(now);
        let whole: u128 = self.tokens / PER_BYTE as u128;
        if whole > u64::MAX as u128 {
            u64::MAX
        } else {
            whole as u64
        }
    }

    /// Take `n` tokens, or all where fewer are there.
    pub fn deduct(&mut self, n: u64)
        requires
            old(self).wf(),
        ensures
            *final(self) == old(self).without(n),
            final(self).wf(),
    {
        let less: u128 = n as u128 * PER_BYTE as u128;
        self.tokens = if self.tokens > less {
            self.tokens - less
        } else {
            0
        };
    }

    /// Take as many of `want` tokens as are there.
    pub fn try_consume(&mut self, want: u64, now: u64) -> (grant: u64)
        requires
            old(self).wf(),
        ensures
            final(self).wf(),
            ({
                let b = old(self).refilled(now);
                &&& grant == least(want as int, b.level() as int)
                &&& *final(self) == b.without(grant)
                &&& final(self).tokens == b.tokens - grant * PER_BYTE
            }),
    {
        let have: u64 = self.available(now);
        let grant: u64 = if want < have {
            want
        } else {
            have
        };
        assert(grant * PER_BYTE <= self.tokens);
        self.deduct(grant);
        grant
    }

    /// Give tokens back.
    pub fn refund(&mut self, n: u64)
        requires
            old(self).wf(),
        ensures
            *final(self) == old(self).refunded(n),
            final(self).wf(),
    {
        let back: u128 = n as u128 * PER_BYTE as u128;
        let burst: u128 = self.rate as u128 * BURST_NANOS as u128;
        let top: u128 = if burst > back {
            burst
        } else {
            back
        };
        let more: u128 = self.tokens + back;
        self.tokens = if more < top {
            more
        } else {
            top
        };
    }

    /// How long to wait until `need` tokens are there.
    pub fn delay_for(&mut self, need: u64, now: u64) -> (nanos: u64)
        requires
            old(self).wf(),
        ensures
            *final(self) == old(self).refilled(now),
            final(self).wf(),
            nanos == final(self).delay(need),
    {
        self.refill(now);
        let want: u128 = need as u128 * PER_BYTE as u128;
        if self.tokens >= want || self.rate == 0 {
            return 0;
        }
        let rate: u128 = self.rate as u128;
        let short: u128 = want - self.tokens + rate - 1;
        let nanos: u128 = short / rate;
        proof {
            assert(short as int / rate as int > 0) by (nonlinear_arith)
                requires
                    short >= rate > 0,
            ;
        }
        if nanos < MIN_DELAY_NANOS as u128 {
            MIN_DELAY_NANOS
        } else if nanos > MAX_DELAY_NANOS as u128 {
            MAX_DELAY_NANOS
        } else {
            nanos as u64
        }
    }
}

/// The limits of a session.
#[derive(Debug)]
pub struct WireRateLimiter {
    pub up: TokenBucket,
    pub down: TokenBucket,
}

/// How much of `want` is granted from a bucket.
pub open spec fn granted(b: TokenBucket, want: u64) -> u64 {
    if b.rate == 0 {
        want
    } else {
        least(want as int, b.level() as int) as u64
    }
}

impl WireRateLimiter {
    pub open spec fn wf(&self) -> bool {
        self.up.wf() && self.down.wf()
    }

    /// Limits in bytes for each second; zero for none.
    pub fn new(up_bps: u64, down_bps: u64, now: u64) -> (l: WireRateLimiter)
        ensures
            l.wf(),
            l.up == (TokenBucket {
                rate: up_bps,
                tokens: (up_bps * BURST_NANOS) as u128,
                last: now,
            }),
            l.down == (TokenBucket {
                rate: down_bps,
                tokens: (down_bps * BURST_NANOS) as u128,
                last: now,
            }),
    {
        let mut l = WireRateLimiter {
            up: TokenBucket::unlimited(now),
            down: TokenBucket::unlimited(now),
        };
        l.set_caps(up_bps, down_bps, now);
        l
    }

    /// Change the limits. Each direction begins with a full burst.
    pub fn set_caps(&mut self, up_bps: u64, down_bps: u64, now: u64)
        ensures
            final(self).wf(),
            final(self).up == (TokenBucket {
                rate: up_bps,
                tokens: (up_bps * BURST_NANOS) as u128,
                last: if up_bps == 0 {
                    old(self).up.last
                } else {
                    now
                },
            }),
            final(self).down == (TokenBucket {
                rate: down_bps,
                tokens: (down_bps * BURST_NANOS) as u128,
                last: if down_bps == 0 {
                    old(self).down.last
                } else {
                    now
                },
            }),
    {
        self.up.reconfigure(up_bps, now);
        self.down.reconfigure(down_bps, now);
    }

    pub fn upload_unlimited(&self) -> (r: bool)
        ensures
            r == (self.up.rate == 0),
    {
        self.up.rate == 0
    }

    pub fn download_unlimited(&self) -> (r: bool)
        ensures
            r == (self.down.rate == 0),
    {
        self.down.rate == 0
    }

    /// How much of `want` may be sent now. Nothing is taken.
    pub fn allow_upload(&mut self, want: u64, now: u64) -> (n: u64)
        requires
            old(self).wf(),
        ensures
            final(self).wf(),
            final(self).down == old(self).down,
            n == granted(old(self).up.refilled(now), want),
            final(self).up == if want == 0 {
                old(self).up
            } else {
                old(self).up.refilled(now)
            },
    {
        if want == 0 || self.upload_unlimited() {
            return want;
        }
        let have: u64 = self.up.available(now);
        if have < want {
            have
        } else {
            want
        }
    }

    /// `n` bytes were sent.
    pub fn commit_upload(&mut self, n: u64)
        requires
            old(self).wf(),
        ensures
            final(self).wf(),
            final(self).down == old(self).down,
            final(self).up == if old(self).up.rate == 0 {
                old(self).up
            } else {
                old(self).up.without(n)
            },
    {
        if n == 0 || self.upload_unlimited() {
            return;
        }
        self.up.deduct(n);
    }

    /// Reserve as much of `want` as may be sent now.
    pub fn try_consume_upload(&mut self, want: u64, now: u64) -> (n: u64)
        requires
            old(self).wf(),
        ensures
            final(self).wf(),
            final(self).down == old(self).down,
            n == granted(old(self).up.refilled(now), want),
            final(self).up == if want == 0 || old(self).up.rate == 0 {
                old(self).up
            } else {
                old(self).up.refilled(now).without(n)
            },
    {
        if want == 0 || self.upload_unlimited() {
            return want;
        }
        self.up.try_consume(want, now)
    }

    /// Give back what was reserved and not sent.
    pub fn refund_upload(&mut self, n: u64)
        requires
            old(self).wf(),
        ensures
            final(self).wf(),
            final(self).down == old(self).down,
            final(self).up == if n == 0 || old(self).up.rate == 0 {
                old(self).up
            } else {
                old(self).up.refunded(n)
            },
    {
        if n == 0 || self.upload_unlimited() {
            return;
        }
        self.up.refund(n);
    }

    /// Reserve as much of `want` as may be asked for now.
    pub fn try_consume_download(&mut self, want: u64, now: u64) -> (n: u64)
        requires
            old(self).wf(),
        ensures
            final(self).wf(),
            final(self).up == old(self).up,
            n == granted(old(self).down.refilled(now), want),
            final(self).down == if want == 0 || old(self).down.rate == 0 {
                old(self).down
            } else {
                old(self).down.refilled(now).without(n)
            },
    {
        if want == 0 || self.download_unlimited() {
            return want;
        }
        self.down.try_consume(want, now)
    }

    /// Give back what was reserved and not asked for.
    pub fn refund_download(&mut self, n: u64)
        requires
            old(self).wf(),
        ensures
            final(self).wf(),
            final(self).up == old(self).up,
            final(self).down == if n == 0 || old(self).down.rate == 0 {
                old(self).down
            } else {
                old(self).down.refunded(n)
            },
    {
        if n == 0 || self.download_unlimited() {
            return;
        }
        self.down.refund(n);
    }

    /// Whether `need` bytes may be asked for now. Nothing is taken.
    pub fn allow_download(&mut self, need: u64, now: u64) -> (r: bool)
        requires
            old(self).wf(),
        ensures
            final(self).wf(),
            final(self).up == old(self).up,
            r == (old(self).down.rate == 0 || old(self).down.refilled(now).level() >= need),
            final(self).down == if need == 0 {
                old(self).down
            } else {
                old(self).down.refilled(now)
            },
    {
        if need == 0 || self.download_unlimited() {
            return true;
        }
        self.down.available(now) >= need
    }

    /// How long to wait until `need` bytes may be asked for.
    pub fn download_delay_for(&mut self, need: u64, now: u64) -> (nanos: u64)
        requires
            old(self).wf(),
        ensures
            final(self).wf(),
            final(self).up == old(self).up,
            nanos == old(self).down.refilled(now).delay(need),
            final(self).down == if need == 0 {
                old(self).down
            } else {
                old(self).down.refilled(now)
            },
    {
        if need == 0 || self.download_unlimited() {
            return 0;
        }
        self.down.delay_for(need, now)
    }

    /// How long to wait until `need` bytes may be sent.
    pub fn upload_delay_for(&mut self, need: u64, now: u64) -> (nanos: u64)
        requires
            old(self).wf(),
        ensures
            final(self).wf(),
            final(self).down == old(self).down,
            nanos == old(self).up.refilled(now).delay(need),
            final(self).up == if need == 0 {
                old(self).up
            } else {
                old(self).up.refilled(now)
            },
    {
        if need == 0 || self.upload_unlimited() {
            return 0;
        }
        self.up.delay_for(need, now)
    }
}

// ---------------------------------------------------------------------------
// What a limit promises.
// ---------------------------------------------------------------------------

/// A bucket after requests for tokens, each at its time.
pub open spec fn after_requests(b: TokenBucket, asks: Seq<(u64, u64)>) -> TokenBucket
    decreases asks.len(),
{
    if asks.len() == 0 {
        b
    } else {
        let c = after_requests(b, asks.drop_last()).refilled(asks.last().1);
        c.without(granted(c, asks.last().0))
    }
}

/// Tokens that were granted to requests.
pub open spec fn granted_in_all(b: TokenBucket, asks: Seq<(u64, u64)>) -> int
    decreases asks.len(),
{
    if asks.len() == 0 {
        0
    } else {
        granted_in_all(b, asks.drop_last()) + granted(
            after_requests(b, asks.drop_last()).refilled(asks.last().1),
            asks.last().0,
        )
    }
}

/// Whatever is asked for, and whenever: what is granted is never more than what was there at
/// first and what the rate has added since.
pub proof fn the_limit_holds(b: TokenBucket, asks: Seq<(u64, u64)>, now: u64)
    requires
        b.wf(),
        b.rate > 0,
        b.last <= now,
        forall|i: int| 0 <= i < asks.len() ==> (#[trigger] asks[i]).1 <= now,
    ensures
        granted_in_all(b, asks) * PER_BYTE + after_requests(b, asks).tokens <= b.tokens + b.rate * (
        after_requests(b, asks).last - b.last),
        b.last <= after_requests(b, asks).last <= now,
        after_requests(b, asks).wf(),
        after_requests(b, asks).rate == b.rate,
        granted_in_all(b, asks) * PER_BYTE <= b.tokens + b.rate * (now - b.last),
    decreases asks.len(),
{
    if asks.len() > 0 {
        let before = asks.drop_last();
        the_limit_holds(b, before, now);
        let c = after_requests(b, before);
        let at = asks.last().1;
        assert(asks[asks.len() - 1].1 <= now);
        let d = c.refilled(at);
        let n = granted(d, asks.last().0);
        let rate = b.rate as int;
        if at > c.last {
            assert(rate * (at - b.last) == rate * (at - c.last) + rate * (c.last - b.last))
                by (nonlinear_arith);
            assert(rate * (at - c.last) >= 0) by (nonlinear_arith)
                requires
                    rate > 0,
                    at > c.last,
            ;
        }
        assert(d.tokens <= c.tokens + rate * (d.last - c.last));
        assert(n <= d.level());
        assert(n * PER_BYTE <= d.tokens);
        assert(granted_in_all(b, asks) == granted_in_all(b, before) + n);
    } else {
        assert(b.rate * (b.last - b.last) == 0) by (nonlinear_arith);
    }
    let last = after_requests(b, asks).last;
    let rate = b.rate as int;
    assert(rate * (last - b.last) <= rate * (now - b.last)) by (nonlinear_arith)
        requires
            last <= now,
            rate > 0,
    ;
}

/// After the time that a bucket takes for them, the tokens are there, where a burst is as many.
pub proof fn tokens_come_in_time(b: TokenBucket, need: u64, now: u64)
    requires
        b.wf(),
        b.rate > 0,
        need * PER_BYTE <= b.burst(),
        now >= b.last + b.time_to(need),
        b.tokens <= b.burst(),
    ensures
        b.refilled(now).level() >= need,
{
    let rate = b.rate as int;
    let want = need * PER_BYTE;
    let t = b.time_to(need);
    if b.tokens < want {
        let short = want - b.tokens;
        assert(rate * ((short + rate - 1) / rate) >= short) by (nonlinear_arith)
            requires
                rate > 0,
        ;
        let dt = now - b.last;
        assert(rate * dt >= rate * t) by (nonlinear_arith)
            requires
                dt >= t,
                rate > 0,
        ;
        assert(t > 0) by (nonlinear_arith)
            requires
                t == (short + rate - 1) / rate,
                short >= 1,
                rate > 0,
        ;
        assert(b.tokens + rate * dt >= want);
    } else if now > b.last {
        let dt = now - b.last;
        assert(rate * dt >= 0) by (nonlinear_arith)
            requires
                dt > 0,
                rate > 0,
        ;
    }
    assert(b.refilled(now).tokens >= want);
}

/// A bucket fills at its rate, one token for each byte of it in a second, and is full with
/// what comes in a second and a half.
pub proof fn buckets_fill_at_their_rate(b: TokenBucket, now: u64)
    requires
        b.wf(),
        b.rate > 0,
        b.tokens <= b.burst(),
        b.last <= now,
    ensures
        b.burst() == 1_500_000_000 * b.rate,
        b.tokens + b.rate * (now - b.last) <= 1_500_000_000 * b.rate ==> b.refilled(now).tokens
            == b.tokens + b.rate * (now - b.last),
        b.tokens + b.rate * (now - b.last) > 1_500_000_000 * b.rate ==> b.refilled(now).tokens
            == 1_500_000_000 * b.rate,
        b.refilled(now).last == now,
        b.refilled(now).rate == b.rate,
{
    let rate = b.rate as int;
    let dt = now - b.last;
    assert(rate * dt >= 0) by (nonlinear_arith)
        requires
            rate > 0,
            dt >= 0,
    ;
    assert(rate * 0 == 0) by (nonlinear_arith);
    if dt == 0 {
        assert(b.rate * (now - b.last) == 0);
    }
}

/// To fill a bucket in two steps is to fill it in one.
pub proof fn time_adds_up(b: TokenBucket, first: u64, second: u64)
    requires
        b.wf(),
        b.tokens <= b.burst(),
        b.last <= first <= second,
    ensures
        b.refilled(first).refilled(second) == b.refilled(second),
{
    let rate = b.rate as int;
    let x = first - b.last;
    let y = second - first;
    assert(rate * (second - b.last) == rate * x + rate * y) by (nonlinear_arith)
        requires
            second - b.last == x + y,
    ;
    assert(rate * y >= 0) by (nonlinear_arith)
        requires
            y >= 0,
            rate >= 0,
    ;
    assert(rate * x >= 0) by (nonlinear_arith)
        requires
            x >= 0,
            rate >= 0,
    ;
    assert(b.burst() <= u64::MAX * BURST_NANOS);
}

/// Where there is a limit, as much is granted as there are whole tokens, and no more than is
/// wanted; without one, all of it.
pub proof fn grants_are_what_is_there(b: TokenBucket, want: u64)
    requires
        b.wf(),
    ensures
        b.rate == 0 ==> granted(b, want) == want,
        b.rate > 0 ==> granted(b, want) <= want && granted(b, want) * 1_000_000_000 <= b.tokens,
        b.rate > 0 && granted(b, want) < want ==> (granted(b, want) + 1) * 1_000_000_000 > b.tokens,
        b.rate > 0 ==> b.without(granted(b, want)).tokens == b.tokens - granted(b, want)
            * 1_000_000_000,
        b.without(want).rate == b.rate,
        b.without(want).last == b.last,
{
}

/// What is taken and given back is there again, and a bucket that gets tokens back holds no
/// more than a burst, or than these.
pub proof fn refunds_undo_grants(b: TokenBucket, n: u64)
    requires
        b.wf(),
    ensures
        n * 1_000_000_000 <= b.tokens <= b.burst() ==> b.without(n).refunded(n) == b,
        b.refunded(n).tokens <= b.burst() || b.refunded(n).tokens <= n * 1_000_000_000,
        b.refunded(n).tokens >= n * 1_000_000_000,
        b.refunded(n).rate == b.rate,
        b.refunded(n).last == b.last,
{
    assert(b.burst() <= u64::MAX * BURST_NANOS);
}

/// The time until tokens are there is the shortest in which the rate brings what is missing.
pub proof fn no_time_is_lost(b: TokenBucket, need: u64)
    requires
        b.rate > 0,
    ensures
        b.tokens >= need * 1_000_000_000 ==> b.time_to(need) == 0,
        b.tokens < need * 1_000_000_000 ==> b.time_to(need) > 0 && b.tokens + b.rate * b.time_to(
            need,
        ) >= need * 1_000_000_000 > b.tokens + b.rate * (b.time_to(need) - 1),
{
    let rate = b.rate as int;
    let want = need * PER_BYTE;
    if b.tokens < want {
        let short = want - b.tokens;
        let t = (short + rate - 1) / rate;
        assert(rate * t >= short > rate * (t - 1) && t > 0) by (nonlinear_arith)
            requires
                rate > 0,
                short >= 1,
                t == (short + rate - 1) / rate,
        ;
    }
}

/// A wait lasts from a thousandth of a second to a second, and is as long as it takes in
/// between; there is none where the tokens are there or no limit is set.
pub proof fn waits_are_neither_short_nor_long(b: TokenBucket, need: u64)
    requires
        b.wf(),
    ensures
        b.rate == 0 || b.tokens >= need * 1_000_000_000 ==> b.delay(need) == 0,
        b.rate > 0 && b.tokens < need * 1_000_000_000 ==> 1_000_000 <= b.delay(need)
            <= 1_000_000_000,
        b.rate > 0 && 1_000_000 <= b.time_to(need) <= 1_000_000_000 ==> b.delay(need)
            == b.time_to(need),
        b.rate > 0 && b.time_to(need) > 1_000_000_000 ==> b.delay(need) == 1_000_000_000,
{
    if b.rate > 0 {
        no_time_is_lost(b, need);
    }
}

/// The lesser of two numbers and the greater are the two.
pub proof fn least_and_most_are_the_two(a: int, b: int)
    ensures
        least(a, b) <= most(a, b),
        least(a, b) + most(a, b) == a + b,
        least(a, b) == a || least(a, b) == b,
{
}

} // verus!
