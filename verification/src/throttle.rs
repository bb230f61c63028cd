//! What of the polite brake is not floating-point arithmetic: the
//! frozen clock the brake's tests step instead of sleeping, the shape
//! of a refusal, and the parser that reads `retry_after_ms` back out of
//! a refusal's text.

use vstd::prelude::*;

use crate::text::{
    chars_of, digit_pred, find_str, first_at, has_infix, lead, lemma_lead, parse_u64,
    parse_u64_spec, slice_string,
};

verus! {

/// At most five seconds of waiting before a request is refused as
/// `upstream-busy` instead of queued.
pub const DEFAULT_UPSTREAM_MAX_WAIT_SECS: u64 = 5;

/// The marker a brake's refusal text begins its retry with.
pub const BUSY_MARKER: &'static str = "upstream-busy: retry_after_ms=";

/// A clock frozen for tests: it advances only when told to, and every
/// sleep the brake asks for is RECORDED instead of taken. Times are
/// nanoseconds.
///
/// A recorded sleep does not move the clock: consecutive acquisitions
/// therefore model requests arriving at the SAME instant.
pub struct FrozenClock {
    now: u64,
    sleeps: Vec<u64>,
}

impl FrozenClock {
    /// The clock reading, in nanoseconds since the clock was made.
    pub closed spec fn reading(&self) -> nat {
        self.now as nat
    }

    /// Every sleep recorded so far, in order, in nanoseconds.
    pub closed spec fn recorded(&self) -> Seq<u64> {
        self.sleeps@
    }

    /// A clock at zero that has recorded nothing.
    pub fn new() -> (c: Self)
        ensures
            c.reading() == 0,
            c.recorded() == Seq::<u64>::empty(),
    {
        FrozenClock { now: 0, sleeps: Vec::new() }
    }

    /// Lets `by` nanoseconds pass on the frozen clock.
    pub fn advance(&mut self, by: u64)
        requires
            old(self).reading() + by <= u64::MAX,
        ensures
            final(self).reading() == old(self).reading() + by,
            final(self).recorded() == old(self).recorded(),
    {
        self.now = self.now + by;
    }

    /// Every sleep the brake asked for, in order.
    pub fn sleeps(&self) -> (r: Vec<u64>)
        ensures
            r@ == self.recorded(),
    {
        self.sleeps.clone()
    }

    /// The clock reading.
    pub fn now(&self) -> (r: u64)
        ensures
            r == self.reading(),
    {
        self.now
    }

    /// Records a sleep of `wait` nanoseconds — and does not move the clock.
    pub fn sleep(&mut self, wait: u64)
        ensures
            final(self).recorded() == old(self).recorded().push(wait),
            final(self).reading() == old(self).reading(),
    {
        self.sleeps.push(wait);
    }
}

/// The brake's answer when a request would have to wait longer than the
/// limit: refused now, reserving nothing, with how long a retry would
/// wait for a free token (milliseconds).
pub struct UpstreamBusy {
    pub retry_after_ms: u64,
}

/// The retry a refusal text carries: the digits right after the FIRST
/// marker, read as a `u64`.
pub open spec fn retry_spec(text: Seq<char>) -> Option<u64> {
    if !has_infix(text, BUSY_MARKER@) {
        None
    } else {
        let rest = text.skip(first_at(text, BUSY_MARKER@) + BUSY_MARKER@.len());
        parse_u64_spec(rest.take(lead(rest, digit_pred()) as int))
    }
}

/// Reads `retry_after_ms` out of an error text the brake raised.
pub fn busy_retry_after_ms(text: &str) -> (r: Option<u64>)
    ensures
        r == retry_spec(text@),
{
    let t = chars_of(text);
    let m = chars_of(BUSY_MARKER);
    let at = match find_str(&t, &m) {
        Some(at) => at,
        None => {
            assert(t@ == text@ && m@ == BUSY_MARKER@);
            return None;
        },
    };
    assert(t@ == text@ && m@ == BUSY_MARKER@);
    assert(at + m@.len() <= t@.len());
    assert(t@.len() == t.len() && m@.len() == m.len());
    let start = at + m.len();
    let ghost rest = t@.skip(start as int);
    let mut end: usize = start;
    while end < t.len() && '0' <= t[end] && t[end] <= '9'
        invariant
            start <= end <= t@.len(),
            rest == t@.skip(start as int),
            forall|j: int| 0 <= j < end - start ==> digit_pred()(rest[j]),
        decreases t@.len() - end,
    {
        end = end + 1;
    }
    proof {
        lemma_lead(rest, digit_pred(), end - start);
        assert(t@.subrange(start as int, end as int) =~= rest.take(end - start));
    }
    let digits = slice_string(&t, start, end);
    parse_u64(digits.as_str())
}

} // verus!
