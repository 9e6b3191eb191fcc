//! Transport policies: a token-bucket rate limiter and the retry decision
//! for rate-limited responses. Time is carried as milliseconds, handed in by
//! the caller, so every decision is a function of plain values.

use vstd::prelude::*;

verus! {

/// A request budget: `num` requests per window of `per_millis` milliseconds.
pub struct Rate {
    pub num: u64,
    pub per_millis: u64,
}

impl Rate {
    /// A rate; both the budget and the window must be positive.
    pub fn new(num: u64, per_millis: u64) -> (r: Self)
        requires
            num > 0,
            per_millis > 0,
        ensures
            r.num == num,
            r.per_millis == per_millis,
    {
        Rate { num, per_millis }
    }
}

/// The bucket state: when the current window ends, and how many tokens are
/// left in it.
pub struct RateState {
    pub until_millis: u64,
    pub rem: u64,
}

/// One acquisition step of the token bucket: a call at or past the window
/// end opens a fresh window; then a token is consumed if one is left, else
/// the caller must sleep until the window ends.
pub open spec fn spec_acquire(rate: Rate, st: RateState, now: u64) -> (RateState, Option<u64>) {
    let st1 = if now >= st.until_millis {
        RateState { until_millis: (now + rate.per_millis) as u64, rem: rate.num }
    } else {
        st
    };
    if st1.rem > 0 {
        (RateState { until_millis: st1.until_millis, rem: (st1.rem - 1) as u64 }, None::<u64>)
    } else {
        (st1, Some((st1.until_millis - now) as u64))
    }
}

/// The token-bucket rate limiter every platform request passes through.
pub struct RateLimitMiddleware {
    pub rate: Rate,
    pub state: RateState,
}

impl RateLimitMiddleware {
    /// A limiter whose first acquisition opens a fresh window.
    pub fn new(num: u64, per_millis: u64) -> (r: Self)
        requires
            num > 0,
            per_millis > 0,
        ensures
            r.rate.num == num,
            r.rate.per_millis == per_millis,
            r.state.until_millis == 0,
            r.state.rem == num,
    {
        RateLimitMiddleware {
            rate: Rate::new(num, per_millis),
            state: RateState { until_millis: 0, rem: num },
        }
    }

    /// Takes one token at time `now_millis`, or reports how long the caller
    /// must suspend until the window rolls over.
    pub fn acquire(&mut self, now_millis: u64) -> (sleep: Option<u64>)
        requires
            now_millis + old(self).rate.per_millis <= u64::MAX,
            old(self).rate.num > 0,
        ensures
            final(self).rate == old(self).rate,
            (final(self).state, sleep) == spec_acquire(
                old(self).rate,
                old(self).state,
                now_millis,
            ),
            sleep is Some ==> sleep->Some_0 > 0,
    {
        if now_millis >= self.state.until_millis {
            self.state.until_millis = now_millis + self.rate.per_millis;
            self.state.rem = self.rate.num;
        }
        if self.state.rem > 0 {
            self.state.rem = self.state.rem - 1;
            None
        } else {
            Some(self.state.until_millis - now_millis)
        }
    }
}

/// The bucket states and answers over a sequence of acquisition times.
pub open spec fn bucket_run(rate: Rate, st: RateState, times: Seq<u64>) -> (
    RateState,
    Seq<Option<u64>>,
)
    decreases times.len(),
{
    if times.len() == 0 {
        (st, seq![])
    } else {
        let step = spec_acquire(rate, st, times[0]);
        let rest = bucket_run(rate, step.0, times.skip(1));
        (rest.0, seq![step.1] + rest.1)
    }
}

/// Acquisitions strictly inside the current window, no more than the tokens
/// left, all pass without waiting and leave the window end unchanged.
proof fn lemma_bucket_drain(rate: Rate, st: RateState, times: Seq<u64>)
    requires
        times.len() <= st.rem,
        forall|i: int| 0 <= i < times.len() ==> #[trigger] times[i] < st.until_millis,
    ensures
        bucket_run(rate, st, times).0 == (RateState {
            until_millis: st.until_millis,
            rem: (st.rem - times.len()) as u64,
        }),
        forall|i: int| 0 <= i < times.len() ==> #[trigger] bucket_run(rate, st, times).1[i]
            is None,
        bucket_run(rate, st, times).1.len() == times.len(),
    decreases times.len(),
{
    if times.len() > 0 {
        let step = spec_acquire(rate, st, times[0]);
        assert(step.1 is None);
        assert(step.0 == RateState {
            until_millis: st.until_millis,
            rem: (st.rem - 1) as u64,
        });
        assert forall|i: int| 0 <= i < times.skip(1).len() implies #[trigger] times.skip(1)[i]
            < st.until_millis by {
            assert(times.skip(1)[i] == times[i + 1]);
        }
        lemma_bucket_drain(rate, step.0, times.skip(1));
        let rest = bucket_run(rate, step.0, times.skip(1));
        assert forall|i: int| 0 <= i < times.len() implies #[trigger] bucket_run(
            rate,
            st,
            times,
        ).1[i] is None by {
            if i > 0 {
                assert(bucket_run(rate, st, times).1[i] == rest.1[i - 1]);
            }
        }
    }
}

/// Rate limiting: a window of capacity `num` opened at time `times[0]`
/// absorbs `num` requests without waiting; the request after them, still
/// inside the window, is told to suspend exactly until the window rolls
/// over.
pub proof fn lemma_rate_limit_window(rate: Rate, st0: RateState, times: Seq<u64>)
    requires
        rate.num > 0,
        rate.per_millis > 0,
        times.len() == rate.num + 1,
        times[0] >= st0.until_millis,
        times[0] + rate.per_millis <= u64::MAX,
        forall|i: int| 1 <= i < times.len() ==> #[trigger] times[i] < times[0]
            + rate.per_millis,
    ensures
        forall|i: int| 0 <= i < rate.num ==> #[trigger] bucket_run(rate, st0, times).1[i]
            is None,
        bucket_run(rate, st0, times).1[rate.num as int] == Some(
            ((times[0] + rate.per_millis - times[rate.num as int]) as u64),
        ),
{
    let w = (times[0] + rate.per_millis) as u64;
    let step = spec_acquire(rate, st0, times[0]);
    assert(step.1 is None);
    assert(step.0 == RateState { until_millis: w, rem: (rate.num - 1) as u64 });
    let mid = times.skip(1).take(rate.num - 1);
    assert forall|i: int| 0 <= i < mid.len() implies #[trigger] mid[i] < w by {
        assert(mid[i] == times[i + 1]);
    }
    lemma_bucket_drain(rate, step.0, mid);
    let last = times.skip(1).skip(rate.num - 1);
    assert(times.skip(1) =~= mid + last);
    lemma_bucket_run_add(rate, step.0, mid, last);
    let st_drained = bucket_run(rate, step.0, mid).0;
    assert(st_drained == RateState { until_millis: w, rem: 0 });
    assert(last.len() == 1);
    assert(last[0] == times[rate.num as int]);
    assert(last[0] < w);
    let fin = spec_acquire(rate, st_drained, last[0]);
    assert(fin.1 == Some(((w - last[0]) as u64)));
    assert(last.skip(1).len() == 0);
    assert(bucket_run(rate, fin.0, last.skip(1)).1 =~= Seq::<Option<u64>>::empty());
    assert(bucket_run(rate, st_drained, last).1 =~= seq![fin.1]);
    let whole = bucket_run(rate, st0, times);
    assert(whole.1 == seq![step.1] + (bucket_run(rate, step.0, mid).1 + bucket_run(
        rate,
        st_drained,
        last,
    ).1));
    assert forall|i: int| 0 <= i < rate.num implies #[trigger] whole.1[i] is None by {
        if i > 0 {
            assert(whole.1[i] == bucket_run(rate, step.0, mid).1[i - 1]);
        }
    }
    assert(whole.1[rate.num as int] == fin.1);
}

/// Running the bucket over joined time sequences runs them one after the
/// other.
proof fn lemma_bucket_run_add(rate: Rate, st: RateState, a: Seq<u64>, b: Seq<u64>)
    ensures
        bucket_run(rate, st, a + b).0 == bucket_run(rate, bucket_run(rate, st, a).0, b).0,
        bucket_run(rate, st, a + b).1 == bucket_run(rate, st, a).1 + bucket_run(
            rate,
            bucket_run(rate, st, a).0,
            b,
        ).1,
    decreases a.len(),
{
    if a.len() == 0 {
        assert(a + b =~= b);
        assert(bucket_run(rate, st, a).0 == st);
        assert(bucket_run(rate, st, a).1 =~= seq![]);
        assert(bucket_run(rate, st, a).1 + bucket_run(rate, st, b).1 =~= bucket_run(
            rate,
            st,
            b,
        ).1);
    } else {
        let step = spec_acquire(rate, st, a[0]);
        assert((a + b)[0] == a[0]);
        assert((a + b).skip(1) =~= a.skip(1) + b);
        lemma_bucket_run_add(rate, step.0, a.skip(1), b);
        assert(seq![step.1] + (bucket_run(rate, step.0, a.skip(1)).1 + bucket_run(
            rate,
            bucket_run(rate, step.0, a.skip(1)).0,
            b,
        ).1) =~= (seq![step.1] + bucket_run(rate, step.0, a.skip(1)).1) + bucket_run(
            rate,
            bucket_run(rate, step.0, a.skip(1)).0,
            b,
        ).1);
    }
}

/// What the retry policy does with one response.
#[derive(PartialEq, Eq, Structural, Debug)]
pub enum ResponseAction {
    /// Hand the response to the caller.
    Accept,
    /// Too many requests, with a Retry-After value: suspend everyone for
    /// that many seconds, then retry.
    RetryAfterDelay(u64),
    /// Too many requests without a Retry-After value: retry at once.
    RetryImmediately,
}

/// The retry policy around rate-limited responses.
pub struct RetryMiddleware {
    pub max_retries: u32,
    pub is_waiting: bool,
}

impl RetryMiddleware {
    /// A policy giving each request at most `max_retries` attempts.
    pub fn new(max_retries: u32) -> (r: Self)
        ensures
            r.max_retries == max_retries,
            !r.is_waiting,
    {
        RetryMiddleware { max_retries, is_waiting: false }
    }
}

/// Reads a Retry-After value: an optional plus sign followed by decimal
/// digits, as an unsigned number of seconds.
pub open spec fn spec_retry_after(v: Seq<char>) -> Option<int> {
    let d = if v.len() >= 1 && v[0] == '+' {
        v.skip(1)
    } else {
        v
    };
    if d.len() > 0 && crate::num::all_digits(d) && crate::num::digits_val(d) <= u64::MAX {
        Some(crate::num::digits_val(d))
    } else {
        None::<int>
    }
}

/// Parses the Retry-After header value, when the response carries one.
pub fn parse_retry_after(value: Option<&str>) -> (r: Option<u64>)
    ensures
        value is None ==> r is None,
        value is Some ==> ({
            let sv = spec_retry_after(value->Some_0@);
            &&& (r is Some <==> sv is Some)
            &&& (r is Some ==> r->Some_0 == sv->Some_0)
        }),
{
    match value {
        None => None,
        Some(text) => {
            let v = crate::text::to_chars(text);
            let n = v.len();
            let from: usize = if n >= 1 && v[0] == '+' {
                1
            } else {
                0
            };
            proof {
                let d = if v@.len() >= 1 && v@[0] == '+' {
                    v@.skip(1)
                } else {
                    v@
                };
                assert(v@.subrange(from as int, n as int) =~= d);
            }
            crate::num::parse_digits_bounded(&v, from, n, u64::MAX)
        },
    }
}

/// Decides what to do with a response: only the too-many-requests status is
/// retried, suspending on its Retry-After value when one is present.
pub fn classify_response(status: u16, retry_after_seconds: Option<u64>) -> (r: ResponseAction)
    ensures
        status != 429 ==> r == ResponseAction::Accept,
        (status == 429 && retry_after_seconds is Some) ==> r == ResponseAction::RetryAfterDelay(
            retry_after_seconds->Some_0,
        ),
        (status == 429 && retry_after_seconds is None) ==> r
            == ResponseAction::RetryImmediately,
{
    if status != 429 {
        ResponseAction::Accept
    } else {
        match retry_after_seconds {
            Some(secs) => ResponseAction::RetryAfterDelay(secs),
            None => ResponseAction::RetryImmediately,
        }
    }
}

} // verus!
