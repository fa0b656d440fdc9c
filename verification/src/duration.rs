//! Spans of time with nanosecond resolution.
//!
//! A [`Duration`] is signed: a whole number of seconds together with a
//! sub-second part in nanoseconds. The two parts never disagree in sign and
//! the sub-second part is always less than one second in magnitude, so every
//! span has exactly one representation. An [`Elapsed`] is never negative and
//! reaches twice as far: its whole seconds are an unsigned 64-bit number.
//! The view of both is the span in nanoseconds.

use vstd::prelude::*;

verus! {

/// Microseconds in one second.
pub const MICROS_PER_SECOND: u64 = 1_000_000;

/// The whole seconds of a span of `total` nanoseconds, rounded toward zero.
pub open spec fn seconds_of(total: int) -> int {
    if total >= 0 {
        total / 1_000_000_000
    } else {
        -((-total) / 1_000_000_000)
    }
}

/// What a span of `total` nanoseconds has beyond its whole seconds.
pub open spec fn subsec_of(total: int) -> int {
    total - seconds_of(total) * 1_000_000_000
}

/// Whether a span of `total` nanoseconds has a representation.
pub open spec fn representable(total: int) -> bool {
    i64::MIN <= seconds_of(total) <= i64::MAX
}

/// A signed span of time.
#[derive(Clone, Copy, Debug, PartialEq, Eq, Structural)]
pub struct Duration {
    seconds: i64,
    nanoseconds: i32,
}

impl View for Duration {
    type V = int;

    /// The span in nanoseconds.
    closed spec fn view(&self) -> int {
        self.seconds * 1_000_000_000 + self.nanoseconds
    }
}

impl Duration {
    /// The two parts agree in sign and the sub-second part is less than a
    /// second.
    #[verifier::type_invariant]
    pub closed spec fn wf(self) -> bool {
        &&& -1_000_000_000 < self.nanoseconds < 1_000_000_000
        &&& self.seconds > 0 ==> self.nanoseconds >= 0
        &&& self.seconds < 0 ==> self.nanoseconds <= 0
    }

    /// The whole seconds of the span.
    pub closed spec fn secs(self) -> int {
        self.seconds as int
    }

    /// The sub-second part of the span, in nanoseconds.
    pub closed spec fn nanos(self) -> int {
        self.nanoseconds as int
    }

    /// The span of `total` nanoseconds, where it has a representation.
    pub closed spec fn from_nanos(total: int) -> Duration {
        Duration { seconds: seconds_of(total) as i64, nanoseconds: subsec_of(total) as i32 }
    }

    /// A representable length has a well-formed span of exactly that length.
    pub proof fn lemma_from_nanos(total: int)
        requires
            representable(total),
        ensures
            Self::from_nanos(total)@ == total,
            Self::from_nanos(total).wf(),
    {
        if total >= 0 {
            assert(total == (total / 1_000_000_000) * 1_000_000_000 + total % 1_000_000_000)
                by (nonlinear_arith);
        } else {
            let m = -total;
            assert(m == (m / 1_000_000_000) * 1_000_000_000 + m % 1_000_000_000)
                by (nonlinear_arith);
        }
    }

    /// The parts of a well-formed span are those of its length in
    /// nanoseconds, and they fit their types.
    pub proof fn lemma_parts(self)
        requires
            self.wf(),
        ensures
            self.secs() == seconds_of(self@),
            self.nanos() == subsec_of(self@),
            representable(self@),
            i64::MIN <= self.secs() <= i64::MAX,
            -1_000_000_000 < self.nanos() < 1_000_000_000,
    {
        let s = self.seconds as int;
        let n = self.nanoseconds as int;
        if self@ >= 0 {
            assert(s >= 0 && n >= 0) by (nonlinear_arith)
                requires
                    s * 1_000_000_000 + n >= 0,
                    -1_000_000_000 < n < 1_000_000_000,
                    s > 0 ==> n >= 0,
                    s < 0 ==> n <= 0,
            ;
            assert((s * 1_000_000_000 + n) / 1_000_000_000 == s) by (nonlinear_arith)
                requires
                    0 <= n < 1_000_000_000,
            ;
        } else {
            assert(s <= 0 && n <= 0) by (nonlinear_arith)
                requires
                    s * 1_000_000_000 + n < 0,
                    -1_000_000_000 < n < 1_000_000_000,
                    s > 0 ==> n >= 0,
                    s < 0 ==> n <= 0,
            ;
            assert((-(s * 1_000_000_000 + n)) / 1_000_000_000 == -s) by (nonlinear_arith)
                requires
                    -1_000_000_000 < n <= 0,
            ;
        }
    }

    /// Two well-formed spans of the same length are the same value.
    pub proof fn lemma_same_length(self, other: Duration)
        requires
            self.wf(),
            other.wf(),
            self@ == other@,
        ensures
            self == other,
    {
        self.lemma_parts();
        other.lemma_parts();
    }

    /// A well-formed span is the span of its own length.
    pub proof fn lemma_canonical(self)
        requires
            self.wf(),
        ensures
            self == Self::from_nanos(self@),
    {
        self.lemma_parts();
    }

    /// The empty span.
    pub fn zero() -> (r: Self)
        ensures
            r == Self::from_nanos(0),
            r@ == 0,
            r.wf(),
    {
        Duration { seconds: 0, nanoseconds: 0 }
    }

    /// The span of `total` nanoseconds, or `None` if its whole seconds do not
    /// fit 64 bits.
    pub fn from_total(total: i128) -> (r: Option<Self>)
        ensures
            r is Some <==> representable(total as int),
            r matches Some(d) ==> d == Self::from_nanos(total as int) && d@ == total && d.wf(),
    {
        if total < -9_223_372_036_854_775_808_999_999_999 || total
            > 9_223_372_036_854_775_807_999_999_999 {
            return None;
        }
        let (whole, rest): (i128, i128) = if total >= 0 {
            (total / 1_000_000_000, total % 1_000_000_000)
        } else {
            let m: i128 = -total;
            (-(m / 1_000_000_000), -(m % 1_000_000_000))
        };
        assert(whole == seconds_of(total as int));
        assert(rest == subsec_of(total as int)) by {
            if total >= 0 {
                assert(total as int == (total as int / 1_000_000_000) * 1_000_000_000 + (
                total as int % 1_000_000_000)) by (nonlinear_arith);
            } else {
                let m = -(total as int);
                assert(m == (m / 1_000_000_000) * 1_000_000_000 + (m % 1_000_000_000))
                    by (nonlinear_arith);
            }
        }
        let d = Duration { seconds: whole as i64, nanoseconds: rest as i32 };
        assert(d@ == total);
        Some(d)
    }

    /// The span that is `seconds` seconds and `nanoseconds` nanoseconds
    /// together, or `None` if its whole seconds do not fit 64 bits. The two
    /// arguments may disagree in sign, and `nanoseconds` may exceed a second.
    pub fn from_parts(seconds: i64, nanoseconds: i64) -> (r: Option<Self>)
        ensures
            r is Some <==> representable(seconds * 1_000_000_000 + nanoseconds),
            r matches Some(d) ==> d == Self::from_nanos(seconds * 1_000_000_000 + nanoseconds)
                && d@ == seconds * 1_000_000_000 + nanoseconds && d.wf(),
    {
        Self::from_total((seconds as i128) * 1_000_000_000 + (nanoseconds as i128))
    }

    /// The span in nanoseconds.
    pub fn total(&self) -> (r: i128)
        ensures
            r == self@,
            self.wf(),
            -9_223_372_036_854_775_808_999_999_999 <= r <= 9_223_372_036_854_775_807_999_999_999,
    {
        proof {
            use_type_invariant(self);
        }
        (self.seconds as i128) * 1_000_000_000 + (self.nanoseconds as i128)
    }

    /// The whole seconds of the span, rounded toward zero.
    pub fn whole_seconds(&self) -> (r: i64)
        ensures
            r == self.secs(),
            r == seconds_of(self@),
    {
        proof {
            use_type_invariant(self);
            self.lemma_parts();
        }
        self.seconds
    }

    /// What the span has beyond its whole seconds, in nanoseconds. It is
    /// negative for a negative span.
    pub fn subsec_nanoseconds(&self) -> (r: i32)
        ensures
            r == self.nanos(),
            r == subsec_of(self@),
    {
        proof {
            use_type_invariant(self);
            self.lemma_parts();
        }
        self.nanoseconds
    }

    /// Whether this span is longer than `other`.
    pub fn exceeds(&self, other: &Duration) -> (r: bool)
        ensures
            r == (self@ > other@),
    {
        proof {
            use_type_invariant(self);
            use_type_invariant(other);
            let a = self.seconds as int;
            let b = other.seconds as int;
            if a > b {
                assert(a * 1_000_000_000 >= (b + 1) * 1_000_000_000) by (nonlinear_arith)
                    requires
                        a > b,
                ;
            }
            if a < b {
                assert((a + 1) * 1_000_000_000 <= b * 1_000_000_000) by (nonlinear_arith)
                    requires
                        a < b,
                ;
            }
        }
        self.seconds > other.seconds || (self.seconds == other.seconds && self.nanoseconds
            > other.nanoseconds)
    }
}

/// Whether a span of `total` nanoseconds that is not negative has whole
/// seconds that an unsigned 64-bit number holds.
pub open spec fn holdable(total: int) -> bool {
    0 <= total && total / 1_000_000_000 <= u64::MAX
}

/// A span of time that is not negative.
#[derive(Clone, Copy, Debug, PartialEq, Eq, Structural)]
pub struct Elapsed {
    seconds: u64,
    nanoseconds: u32,
}

impl View for Elapsed {
    type V = int;

    /// The span in nanoseconds.
    closed spec fn view(&self) -> int {
        self.seconds * 1_000_000_000 + self.nanoseconds
    }
}

impl Elapsed {
    /// The sub-second part is less than a second.
    #[verifier::type_invariant]
    pub closed spec fn wf(self) -> bool {
        self.nanoseconds < 1_000_000_000
    }

    /// The span of `total` nanoseconds, where it has a representation.
    pub closed spec fn from_nanos(total: int) -> Elapsed {
        Elapsed {
            seconds: (total / 1_000_000_000) as u64,
            nanoseconds: (total % 1_000_000_000) as u32,
        }
    }

    /// Whether a signed span can be as long: the whole seconds fit a signed
    /// 64-bit number.
    pub open spec fn storable(self) -> bool {
        representable(self@)
    }

    /// A length that can be held has a well-formed span of exactly that
    /// length.
    pub proof fn lemma_from_nanos(total: int)
        requires
            holdable(total),
        ensures
            Self::from_nanos(total)@ == total,
            Self::from_nanos(total).wf(),
    {
        assert(total == (total / 1_000_000_000) * 1_000_000_000 + total % 1_000_000_000)
            by (nonlinear_arith);
    }

    /// The parts of a well-formed span are those of its length.
    proof fn lemma_parts(self)
        requires
            self.wf(),
        ensures
            self@ / 1_000_000_000 == self.seconds,
            self@ % 1_000_000_000 == self.nanoseconds,
            0 <= self@,
    {
        let s = self.seconds as int;
        let n = self.nanoseconds as int;
        assert((s * 1_000_000_000 + n) / 1_000_000_000 == s && (s * 1_000_000_000 + n)
            % 1_000_000_000 == n) by (nonlinear_arith)
            requires
                0 <= n < 1_000_000_000,
        ;
    }

    /// A well-formed span is the span of its own length, which is not
    /// negative and can be held.
    pub proof fn lemma_canonical(self)
        requires
            self.wf(),
        ensures
            self == Self::from_nanos(self@),
            holdable(self@),
    {
        self.lemma_parts();
    }

    /// Two well-formed spans of the same length are the same value.
    pub proof fn lemma_same_length(self, other: Elapsed)
        requires
            self.wf(),
            other.wf(),
            self@ == other@,
        ensures
            self == other,
    {
        self.lemma_canonical();
        other.lemma_canonical();
    }

    /// The empty span.
    pub fn zero() -> (r: Self)
        ensures
            r == Self::from_nanos(0),
            r@ == 0,
            r.wf(),
    {
        Elapsed { seconds: 0, nanoseconds: 0 }
    }

    /// The span of `seconds` seconds and `micros` microseconds together, or
    /// `None` if its whole seconds do not fit an unsigned 64-bit number.
    pub fn new(seconds: u64, micros: u64) -> (r: Option<Self>)
        ensures
            r is Some <==> seconds + micros / 1_000_000 <= u64::MAX,
            r is Some <==> holdable(seconds * 1_000_000_000 + micros * 1_000),
            r matches Some(d) ==> d == Self::from_nanos(seconds * 1_000_000_000 + micros * 1_000)
                && d@ == seconds * 1_000_000_000 + micros * 1_000 && d.wf(),
    {
        let whole: u128 = seconds as u128 + (micros / MICROS_PER_SECOND) as u128;
        let rest: u64 = (micros % MICROS_PER_SECOND) * 1_000;
        let ghost total = seconds * 1_000_000_000 + micros * 1_000;
        proof {
            let q = micros as int / 1_000_000;
            let m = micros as int % 1_000_000;
            assert(micros as int == q * 1_000_000 + m) by (nonlinear_arith)
                requires
                    q == micros as int / 1_000_000,
                    m == micros as int % 1_000_000,
            ;
            assert(total == (seconds + q) * 1_000_000_000 + m * 1_000) by (nonlinear_arith)
                requires
                    total == seconds * 1_000_000_000 + micros * 1_000,
                    micros as int == q * 1_000_000 + m,
            ;
            assert(((seconds + q) * 1_000_000_000 + m * 1_000) / 1_000_000_000 == seconds + q && ((
            seconds + q) * 1_000_000_000 + m * 1_000) % 1_000_000_000 == m * 1_000)
                by (nonlinear_arith)
                requires
                    0 <= m * 1_000 < 1_000_000_000,
            ;
            assert(total / 1_000_000_000 == whole);
            assert(total % 1_000_000_000 == rest);
        }
        if whole > u64::MAX as u128 {
            return None;
        }
        let d = Elapsed { seconds: whole as u64, nanoseconds: rest as u32 };
        assert(d@ == total);
        Some(d)
    }

    /// The whole seconds of the span.
    pub fn as_secs(&self) -> (r: u64)
        ensures
            r == self@ / 1_000_000_000,
    {
        proof {
            use_type_invariant(self);
            self.lemma_parts();
        }
        self.seconds
    }

    /// What the span has beyond its whole seconds, in nanoseconds.
    pub fn subsec_nanos(&self) -> (r: u32)
        ensures
            r == self@ % 1_000_000_000,
            r < 1_000_000_000,
    {
        proof {
            use_type_invariant(self);
            self.lemma_parts();
        }
        self.nanoseconds
    }

    /// The span in nanoseconds.
    pub fn total(&self) -> (r: u128)
        ensures
            r == self@,
            self.wf(),
    {
        proof {
            use_type_invariant(self);
        }
        (self.seconds as u128) * 1_000_000_000 + (self.nanoseconds as u128)
    }

    /// The signed span of the same length, or `None` if a signed span
    /// cannot be as long.
    pub fn to_signed(&self) -> (r: Option<Duration>)
        ensures
            self.wf(),
            r is Some <==> self.storable(),
            r matches Some(d) ==> d == Duration::from_nanos(self@) && d@ == self@ && d.wf(),
    {
        proof {
            use_type_invariant(self);
            self.lemma_parts();
        }
        if self.seconds > i64::MAX as u64 {
            return None;
        }
        let d = Duration { seconds: self.seconds as i64, nanoseconds: self.nanoseconds as i32 };
        proof {
            d.lemma_canonical();
        }
        Some(d)
    }

    /// The span of the same length as the signed span `d`, or `None` if `d`
    /// is negative.
    pub fn from_signed(d: &Duration) -> (r: Option<Self>)
        ensures
            r is Some <==> d@ >= 0,
            r matches Some(e) ==> e == Self::from_nanos(d@) && e@ == d@ && e.wf() && e.storable(),
    {
        proof {
            use_type_invariant(d);
            d.lemma_parts();
        }
        if d.seconds < 0 || d.nanoseconds < 0 {
            return None;
        }
        let e = Elapsed { seconds: d.seconds as u64, nanoseconds: d.nanoseconds as u32 };
        proof {
            e.lemma_parts();
        }
        Some(e)
    }
}

} // verus!
