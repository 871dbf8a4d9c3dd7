use vstd::arithmetic::div_mod::{
    lemma_div_is_ordered, lemma_fundamental_div_mod, lemma_fundamental_div_mod_converse,
    lemma_mod_bound,
};
use vstd::prelude::*;

verus! {

/// A signed `(sec, usec)` pair of the wire protocol's `timeval` shape.
///
/// The canonical ("normalized") form has `0 <= usec < 1_000_000`; all stored
/// and compared values are kept in that form.  The mathematical model of a
/// value is its total count of microseconds, `total_usec`.
#[derive(Copy, Clone, Debug, PartialEq, Eq, Structural, PartialOrd, Ord)]
pub struct TimeVal {
    pub sec: i32,
    pub usec: i32,
}

/// The mathematical value of a pair: total microseconds.
pub open spec fn total_usec(t: TimeVal) -> int {
    t.sec * 1_000_000 + t.usec
}

/// Canonical form: the microsecond field carries no whole second.
pub open spec fn is_normalized(t: TimeVal) -> bool {
    0 <= t.usec < 1_000_000
}

/// Totals whose normalized form is representable with an `i32` seconds field.
pub open spec fn fits(total: int) -> bool {
    -2147483648 * 1_000_000 <= total <= 2147483647 * 1_000_000 + 999_999
}

/// The unique normalized pair denoting `total` microseconds.
pub open spec fn norm_of(total: int) -> TimeVal {
    TimeVal { sec: (total / 1_000_000) as i32, usec: (total % 1_000_000) as i32 }
}

pub open spec fn abs_int(t: int) -> int {
    if t >= 0 {
        t
    } else {
        -t
    }
}

/// For representable totals, `norm_of` really is a normalized pair with the
/// same mathematical value.
pub proof fn lemma_norm_of(total: int)
    requires
        fits(total),
    ensures
        i32::MIN <= total / 1_000_000 <= i32::MAX,
        0 <= total % 1_000_000 < 1_000_000,
        norm_of(total).sec == total / 1_000_000,
        norm_of(total).usec == total % 1_000_000,
        is_normalized(norm_of(total)),
        total_usec(norm_of(total)) == total,
{
    lemma_fundamental_div_mod(total, 1_000_000);
    lemma_mod_bound(total, 1_000_000);
    let q = total / 1_000_000;
    lemma_div_is_ordered(-2147483648 * 1_000_000, total, 1_000_000);
    lemma_div_is_ordered(total, 2147483647int * 1_000_000 + 999_999, 1_000_000);
    lemma_fundamental_div_mod_converse(
        -2147483648 * 1_000_000,
        1_000_000,
        -2147483648,
        0,
    );
    lemma_fundamental_div_mod_converse(
        2147483647int * 1_000_000 + 999_999,
        1_000_000,
        2147483647,
        999_999,
    );
    assert(-2147483648 <= q <= 2147483647);
}

/// A normalized pair is the canonical representative of its own total.
pub proof fn lemma_norm_identity(t: TimeVal)
    requires
        is_normalized(t),
    ensures
        norm_of(total_usec(t)) == t,
        fits(total_usec(t)),
{
    lemma_fundamental_div_mod_converse(total_usec(t), 1_000_000, t.sec as int, t.usec as int);
}

impl TimeVal {
    /// Split a microsecond total into the canonical `(sec, usec)` pair.
    pub fn from_total(total: i64) -> (r: TimeVal)
        requires
            fits(total as int),
        ensures
            r == norm_of(total as int),
            is_normalized(r),
            total_usec(r) == total as int,
    {
        proof {
            lemma_norm_of(total as int);
        }
        if total >= 0 {
            let q: u64 = (total as u64) / 1_000_000;
            let rm: u64 = (total as u64) % 1_000_000;
            proof {
                lemma_fundamental_div_mod_converse(
                    total as int,
                    1_000_000,
                    q as int,
                    rm as int,
                );
            }
            TimeVal { sec: q as i32, usec: rm as i32 }
        } else {
            let m: u64 = (-total) as u64;
            let qc: u64 = m / 1_000_000;
            let rc: u64 = m % 1_000_000;
            if rc == 0 {
                proof {
                    lemma_fundamental_div_mod_converse(
                        total as int,
                        1_000_000,
                        -(qc as int),
                        0,
                    );
                }
                TimeVal { sec: -(qc as i64) as i32, usec: 0 }
            } else {
                proof {
                    lemma_fundamental_div_mod_converse(
                        total as int,
                        1_000_000,
                        -(qc as int) - 1,
                        1_000_000 - rc as int,
                    );
                }
                TimeVal { sec: (-(qc as i64) - 1) as i32, usec: (1_000_000 - rc as i64) as i32 }
            }
        }
    }

    /// Carry whole seconds out of `usec` and borrow when `usec` is negative.
    pub fn normalize(self) -> (r: TimeVal)
        requires
            fits(total_usec(self)),
        ensures
            r == norm_of(total_usec(self)),
            is_normalized(r),
            total_usec(r) == total_usec(self),
    {
        let total: i64 = (self.sec as i64) * 1_000_000 + (self.usec as i64);
        Self::from_total(total)
    }

    /// Sum of two time values, normalized.
    pub fn add(self, other: TimeVal) -> (r: TimeVal)
        requires
            fits(total_usec(self) + total_usec(other)),
        ensures
            r == norm_of(total_usec(self) + total_usec(other)),
            is_normalized(r),
            total_usec(r) == total_usec(self) + total_usec(other),
    {
        let total: i64 = (self.sec as i64) * 1_000_000 + (self.usec as i64) + (other.sec as i64)
            * 1_000_000 + (other.usec as i64);
        Self::from_total(total)
    }

    /// Difference of two time values, normalized.  A result denoting a
    /// negative duration has `sec < 0`.
    pub fn sub(self, other: TimeVal) -> (r: TimeVal)
        requires
            fits(total_usec(self) - total_usec(other)),
        ensures
            r == norm_of(total_usec(self) - total_usec(other)),
            is_normalized(r),
            total_usec(r) == total_usec(self) - total_usec(other),
    {
        let total: i64 = (self.sec as i64) * 1_000_000 + (self.usec as i64) - (other.sec as i64)
            * 1_000_000 - (other.usec as i64);
        Self::from_total(total)
    }

    /// Magnitude of a normalized value, itself normalized.
    pub fn abs(&self) -> (r: TimeVal)
        requires
            is_normalized(*self),
            self.sec > i32::MIN,
        ensures
            r == norm_of(abs_int(total_usec(*self))),
            is_normalized(r),
            total_usec(r) == abs_int(total_usec(*self)),
            r.sec >= 0,
    {
        proof {
            lemma_norm_identity(*self);
            lemma_norm_of(abs_int(total_usec(*self)));
        }
        if self.sec >= 0 {
            *self
        } else if self.usec == 0 {
            let r = TimeVal { sec: -self.sec, usec: 0 };
            proof {
                lemma_norm_identity(r);
            }
            r
        } else {
            let r = TimeVal { sec: -self.sec - 1, usec: 1_000_000 - self.usec };
            proof {
                lemma_norm_identity(r);
            }
            r
        }
    }

    /// Whole milliseconds of a value below one second; `None` for negative
    /// values and for values of a second or more.
    pub fn millis(&self) -> (r: Option<u16>)
        requires
            fits(total_usec(*self)),
        ensures
            r == if 0 <= total_usec(*self) < 1_000_000 {
                Some((total_usec(*self) / 1000) as u16)
            } else {
                None::<u16>
            },
    {
        let n = self.normalize();
        if n.sec != 0 {
            None
        } else {
            let ms: u32 = (n.usec as u32) / 1000;
            Some(ms as u16)
        }
    }

    /// The value `millis` milliseconds from zero, normalized; exact for the
    /// whole `i32` range.
    pub fn from_millis(millis: i32) -> (r: TimeVal)
        ensures
            r == norm_of(1000 * millis),
            is_normalized(r),
            total_usec(r) == 1000 * millis,
    {
        Self::from_total((millis as i64) * 1000)
    }

    /// A non-negative duration given as whole seconds and the microseconds of
    /// the partial second; exact for durations below 2^31 seconds.
    pub fn from_micros_parts(secs: u64, micros: u32) -> (r: TimeVal)
        requires
            secs <= i32::MAX as u64,
            micros < 1_000_000,
        ensures
            r == (TimeVal { sec: secs as i32, usec: micros as i32 }),
            is_normalized(r),
            total_usec(r) == secs * 1_000_000 + micros,
    {
        TimeVal { sec: secs as i32, usec: micros as i32 }
    }
}

/// Normalizing is idempotent, and a normalized value's microsecond field is
/// always within `[0, 1_000_000)`.
pub proof fn lemma_normalize_idempotent(t: TimeVal)
    requires
        fits(total_usec(t)),
    ensures
        norm_of(total_usec(norm_of(total_usec(t)))) == norm_of(total_usec(t)),
        is_normalized(norm_of(total_usec(t))),
{
    lemma_norm_of(total_usec(t));
    lemma_norm_identity(norm_of(total_usec(t)));
}

/// Adding and then subtracting the same normalized value gives the first
/// operand back exactly.
pub proof fn lemma_add_sub_cancel(a: TimeVal, b: TimeVal)
    requires
        is_normalized(a),
        is_normalized(b),
        fits(total_usec(a) + total_usec(b)),
    ensures
        norm_of(total_usec(norm_of(total_usec(a) + total_usec(b))) - total_usec(b)) == a,
{
    lemma_norm_of(total_usec(a) + total_usec(b));
    lemma_norm_identity(a);
}

/// The magnitude of a normalized value never denotes a negative duration.
pub proof fn lemma_abs_nonneg(a: TimeVal)
    requires
        is_normalized(a),
        a.sec > i32::MIN,
    ensures
        norm_of(abs_int(total_usec(a))).sec >= 0,
        total_usec(norm_of(abs_int(total_usec(a)))) >= 0,
{
    lemma_norm_of(abs_int(total_usec(a)));
    let r = norm_of(abs_int(total_usec(a)));
    assert(total_usec(r) >= 0);
    assert(r.sec * 1_000_000 + r.usec >= 0 && 0 <= r.usec < 1_000_000 ==> r.sec >= 0)
        by (nonlinear_arith);
}

/// Milliseconds survive the round trip through `from_millis` for all counts
/// below one second.
pub proof fn lemma_from_millis_millis(k: i32)
    requires
        0 <= k < 1000,
    ensures
        0 <= total_usec(norm_of(1000 * k)) < 1_000_000,
        total_usec(norm_of(1000 * k)) / 1000 == k,
{
    lemma_norm_of(1000 * k);
}

} // verus!
