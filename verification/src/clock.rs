use vstd::prelude::*;

verus! {

/// Nanoseconds in a second.
pub const NANOS_PER_SEC: u128 = 1_000_000_000;

/// The longest span: `u64::MAX` seconds and 999,999,999 nanoseconds, the
/// range of `std::time::Duration`.
pub open spec fn max_span_nanos() -> nat {
    (u64::MAX as nat) * 1_000_000_000 + 999_999_999
}

/// A length of time, measured in nanoseconds, with the range of
/// `std::time::Duration`.
#[derive(Clone, Copy, Debug, PartialEq, Eq, Structural)]
pub struct Span {
    nanos: u128,
}

impl View for Span {
    type V = nat;

    closed spec fn view(&self) -> nat {
        self.nanos as nat
    }
}

impl Span {
    /// Every span is within the range of `std::time::Duration`.
    #[verifier::type_invariant]
    pub open spec fn in_range(self) -> bool {
        self@ <= max_span_nanos()
    }

    pub fn zero() -> (r: Span)
        ensures
            r@ == 0,
    {
        Span { nanos: 0 }
    }

    pub fn from_secs(secs: u64) -> (r: Span)
        ensures
            r@ == secs * 1_000_000_000,
    {
        Span { nanos: (secs as u128) * NANOS_PER_SEC }
    }

    /// The span of `secs` seconds and `nanos` nanoseconds.
    pub fn from_parts(secs: u64, nanos: u32) -> (r: Span)
        requires
            nanos < 1_000_000_000,
        ensures
            r@ == secs * 1_000_000_000 + nanos,
    {
        Span { nanos: (secs as u128) * NANOS_PER_SEC + (nanos as u128) }
    }

    /// The span of `nanos` nanoseconds, where it is in range.
    pub fn from_nanos(nanos: u128) -> (r: Option<Span>)
        ensures
            r matches Some(s) ==> s@ == nanos,
            r is None <==> nanos > max_span_nanos(),
    {
        if nanos <= (u64::MAX as u128) * NANOS_PER_SEC + 999_999_999 {
            Some(Span { nanos })
        } else {
            None
        }
    }

    pub fn as_nanos(&self) -> (r: u128)
        ensures
            r == self@,
    {
        self.nanos
    }

    /// The whole seconds.
    pub fn as_secs(&self) -> (r: u64)
        ensures
            r == self@ / 1_000_000_000,
    {
        proof {
            use_type_invariant(self);
        }
        (self.nanos / NANOS_PER_SEC) as u64
    }

    /// The nanoseconds past the whole seconds.
    pub fn subsec_nanos(&self) -> (r: u32)
        ensures
            r == self@ % 1_000_000_000,
    {
        (self.nanos % NANOS_PER_SEC) as u32
    }

    pub fn is_zero(&self) -> (r: bool)
        ensures
            r == (self@ == 0),
    {
        self.nanos == 0
    }

    /// `self - other`, or zero where `other` is longer.
    pub fn saturating_sub(&self, other: &Span) -> (r: Span)
        ensures
            r@ == (if self@ >= other@ {
                (self@ - other@) as nat
            } else {
                0
            }),
    {
        proof {
            use_type_invariant(self);
        }
        if self.nanos >= other.nanos {
            Span { nanos: self.nanos - other.nanos }
        } else {
            Span { nanos: 0 }
        }
    }

    /// `self + other`, where the sum is in range.
    pub fn checked_add(&self, other: &Span) -> (r: Option<Span>)
        ensures
            r matches Some(s) ==> s@ == self@ + other@,
            r is None <==> self@ + other@ > max_span_nanos(),
    {
        proof {
            use_type_invariant(self);
            use_type_invariant(other);
        }
        let sum = self.nanos + other.nanos;
        if sum <= (u64::MAX as u128) * NANOS_PER_SEC + 999_999_999 {
            Some(Span { nanos: sum })
        } else {
            None
        }
    }

    /// `self + other`.
    pub fn add(&self, other: &Span) -> (r: Span)
        requires
            self@ + other@ <= max_span_nanos(),
        ensures
            r@ == self@ + other@,
    {
        Span { nanos: self.nanos + other.nanos }
    }
}

/// A reading of a monotonic clock, in nanoseconds since a fixed origin.
#[derive(Clone, Copy, Debug, PartialEq, Eq, Structural)]
pub struct Moment {
    pub nanos: u64,
}

impl Moment {
    pub fn from_nanos(nanos: u64) -> (r: Moment)
        ensures
            r.nanos == nanos,
    {
        Moment { nanos }
    }

    /// The moment `span` after `self`.
    pub fn plus(&self, span: &Span) -> (r: Moment)
        requires
            self.nanos + span@ <= u64::MAX,
        ensures
            r.nanos == self.nanos + span@,
    {
        Moment { nanos: self.nanos + (span.as_nanos() as u64) }
    }

    /// The time from `earlier` to `self`, or zero where `earlier` is later
    /// (`Instant::duration_since`).
    pub fn saturating_since(&self, earlier: &Moment) -> (r: Span)
        ensures
            r@ == (if self.nanos >= earlier.nanos {
                (self.nanos - earlier.nanos) as nat
            } else {
                0
            }),
    {
        if self.nanos >= earlier.nanos {
            Span::from_parts(
                (self.nanos - earlier.nanos) / 1_000_000_000,
                ((self.nanos - earlier.nanos) % 1_000_000_000) as u32,
            )
        } else {
            Span::zero()
        }
    }
}

} // verus!
