//! Points in time and the spans between them, at nanosecond precision.
//!
//! Both are modelled by a natural number of nanoseconds: a point by its
//! distance from the Unix epoch, a span by its length. Every value that the
//! functions of this module hand out keeps its nanosecond part below one
//! second, so two values with the same model are the same value.

use vstd::prelude::*;

verus! {

/// Nanoseconds in one second.
pub const NANOS_PER_SEC: u32 = 1_000_000_000;

/// A point in time: whole seconds since the Unix epoch and the nanoseconds
/// within the second.
#[derive(Clone, Copy, Debug, PartialEq, Eq, Structural)]
pub struct Timestamp {
    secs: u64,
    nanos: u32,
}

/// A span of time that is never negative.
#[derive(Clone, Copy, Debug, PartialEq, Eq, Structural)]
pub struct Span {
    secs: u64,
    nanos: u32,
}

/// The answer to a request for the span between two points that would be
/// negative.
#[derive(Clone, Copy, Debug, PartialEq, Eq, Structural)]
pub struct TimeArithmeticInvalid;

/// The nanoseconds that `secs` seconds and `nanos` nanoseconds add up to.
pub open spec fn total_nanos(secs: u64, nanos: u32) -> nat {
    (secs as nat) * 1_000_000_000 + (nanos as nat)
}

/// Whether a count of nanoseconds leaves whole seconds that fit in `u64`.
pub open spec fn representable(nanos: nat) -> bool {
    nanos < 18_446_744_073_709_551_616_000_000_000
}

impl View for Timestamp {
    type V = nat;

    /// Nanoseconds since the Unix epoch.
    closed spec fn view(&self) -> nat {
        total_nanos(self.secs, self.nanos)
    }
}

impl View for Span {
    type V = nat;

    /// Length in nanoseconds.
    closed spec fn view(&self) -> nat {
        total_nanos(self.secs, self.nanos)
    }
}

impl Timestamp {
    #[verifier::type_invariant]
    spec fn normalized(self) -> bool {
        self.nanos < NANOS_PER_SEC
    }

    /// The point that lies `nanos` nanoseconds after the epoch.
    pub closed spec fn of_nanos(nanos: nat) -> Timestamp {
        Timestamp {
            secs: (nanos / 1_000_000_000) as u64,
            nanos: (nanos % 1_000_000_000) as u32,
        }
    }

    /// `of_nanos` is the inverse of the view on every representable count.
    pub proof fn lemma_of_nanos_view(nanos: nat)
        requires
            representable(nanos),
        ensures
            Timestamp::of_nanos(nanos)@ == nanos,
    {
    }

    /// The point `secs` seconds and `nanos` nanoseconds after the epoch. Whole
    /// seconds held in `nanos` are carried over; there is no such point where
    /// the seconds then leave the range of `u64`.
    pub fn new(secs: u64, nanos: u32) -> (r: Option<Timestamp>)
        ensures
            r == if representable(total_nanos(secs, nanos)) {
                Some(Timestamp::of_nanos(total_nanos(secs, nanos)))
            } else {
                None
            },
            r matches Some(t) ==> t@ == total_nanos(secs, nanos),
    {
        let carry: u64 = (nanos / NANOS_PER_SEC) as u64;
        let rest: u32 = nanos % NANOS_PER_SEC;
        match secs.checked_add(carry) {
            Some(whole) => Some(Timestamp { secs: whole, nanos: rest }),
            None => None,
        }
    }

    /// Whole seconds since the epoch.
    pub fn secs(&self) -> (s: u64)
        ensures
            s == self@ / 1_000_000_000,
    {
        proof {
            use_type_invariant(self);
        }
        self.secs
    }

    /// Nanoseconds past the last whole second.
    pub fn subsec_nanos(&self) -> (n: u32)
        ensures
            n == self@ % 1_000_000_000,
    {
        proof {
            use_type_invariant(self);
        }
        self.nanos
    }

    /// Whether this point lies strictly after `other`.
    pub fn is_after(&self, other: &Timestamp) -> (r: bool)
        ensures
            r == (self@ > other@),
    {
        proof {
            use_type_invariant(self);
            use_type_invariant(other);
        }
        self.secs > other.secs || (self.secs == other.secs && self.nanos > other.nanos)
    }

    /// The time from `earlier` up to this point. A span is never negative, so
    /// the call is refused when `earlier` is the later of the two.
    pub fn duration_since(&self, earlier: &Timestamp) -> (r: Result<Span, TimeArithmeticInvalid>)
        ensures
            r == if earlier@ <= self@ {
                Ok::<Span, TimeArithmeticInvalid>(Span::of_nanos((self@ - earlier@) as nat))
            } else {
                Err::<Span, TimeArithmeticInvalid>(TimeArithmeticInvalid)
            },
            r matches Ok(d) ==> d@ == self@ - earlier@,
    {
        proof {
            use_type_invariant(self);
            use_type_invariant(earlier);
        }
        if earlier.is_after(self) {
            Err(TimeArithmeticInvalid)
        } else if self.nanos >= earlier.nanos {
            Ok(Span { secs: self.secs - earlier.secs, nanos: self.nanos - earlier.nanos })
        } else {
            Ok(
                Span {
                    secs: self.secs - earlier.secs - 1,
                    nanos: self.nanos + (NANOS_PER_SEC - earlier.nanos),
                },
            )
        }
    }
}

impl Span {
    #[verifier::type_invariant]
    spec fn normalized(self) -> bool {
        self.nanos < NANOS_PER_SEC
    }

    /// The span that is `nanos` nanoseconds long.
    pub closed spec fn of_nanos(nanos: nat) -> Span {
        Span { secs: (nanos / 1_000_000_000) as u64, nanos: (nanos % 1_000_000_000) as u32 }
    }

    /// `of_nanos` is the inverse of the view on every representable count.
    pub proof fn lemma_of_nanos_view(nanos: nat)
        requires
            representable(nanos),
        ensures
            Span::of_nanos(nanos)@ == nanos,
    {
    }

    /// The span of `secs` seconds and `nanos` nanoseconds. Whole seconds held
    /// in `nanos` are carried over; there is no such span where the seconds
    /// then leave the range of `u64`.
    pub fn new(secs: u64, nanos: u32) -> (r: Option<Span>)
        ensures
            r == if representable(total_nanos(secs, nanos)) {
                Some(Span::of_nanos(total_nanos(secs, nanos)))
            } else {
                None
            },
            r matches Some(d) ==> d@ == total_nanos(secs, nanos),
    {
        let carry: u64 = (nanos / NANOS_PER_SEC) as u64;
        let rest: u32 = nanos % NANOS_PER_SEC;
        match secs.checked_add(carry) {
            Some(whole) => Some(Span { secs: whole, nanos: rest }),
            None => None,
        }
    }

    /// Whole seconds in the span.
    pub fn secs(&self) -> (s: u64)
        ensures
            s == self@ / 1_000_000_000,
    {
        proof {
            use_type_invariant(self);
        }
        self.secs
    }

    /// Nanoseconds past the last whole second.
    pub fn subsec_nanos(&self) -> (n: u32)
        ensures
            n == self@ % 1_000_000_000,
    {
        proof {
            use_type_invariant(self);
        }
        self.nanos
    }
}

} // verus!
