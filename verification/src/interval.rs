//! Half-open integer intervals over the backing buffer's address space.

use vstd::prelude::*;
use vstd::set_lib::set_int_range;

verus! {

/// A half-open range `[start, end)` of byte addresses in the backing buffer.
#[derive(Debug, Clone, Copy)]
pub struct Interval {
    start: u64,
    end: u64,
}

impl Interval {
    /// First address of the interval.
    pub closed spec fn start_int(self) -> int {
        self.start as int
    }

    /// Address one past the last address of the interval.
    pub closed spec fn end_int(self) -> int {
        self.end as int
    }

    /// A well-formed interval never ends before it starts, and its bounds
    /// fit the buffer's address width.
    pub open spec fn wf(self) -> bool {
        0 <= self.start_int() <= self.end_int() <= u64::MAX
    }

    /// Number of addresses covered.
    pub open spec fn length(self) -> int {
        self.end_int() - self.start_int()
    }

    /// The set of addresses the interval covers.
    pub open spec fn addrs(self) -> Set<int> {
        set_int_range(self.start_int(), self.end_int())
    }

    /// Two intervals share no address.
    pub open spec fn disjoint(self, other: Interval) -> bool {
        self.addrs().disjoint(other.addrs())
    }

    /// Create the interval `[start, start + length)`.
    pub fn new(start: u64, length: u64) -> (r: Interval)
        requires
            start + length <= u64::MAX,
        ensures
            r.start_int() == start,
            r.length() == length,
            r.wf(),
    {
        Interval { start, end: start + length }
    }

    pub fn start(&self) -> (r: u64)
        ensures
            r == self.start_int(),
    {
        self.start
    }

    pub fn end(&self) -> (r: u64)
        ensures
            r == self.end_int(),
    {
        self.end
    }

    pub fn len(&self) -> (r: u64)
        requires
            self.wf(),
        ensures
            r == self.length(),
    {
        self.end - self.start
    }

    pub fn is_empty(&self) -> (r: bool)
        requires
            self.wf(),
        ensures
            r == (self.length() == 0),
    {
        self.start == self.end
    }

    pub fn contains(&self, p: u64) -> (r: bool)
        ensures
            r == self.addrs().contains(p as int),
    {
        p >= self.start && p < self.end
    }

    /// The addresses of a well-formed interval number exactly `length`.
    pub proof fn lemma_addrs_len(self)
        requires
            self.wf(),
        ensures
            self.addrs().finite(),
            self.addrs().len() == self.length(),
    {
        vstd::set_lib::lemma_int_range(self.start_int(), self.end_int());
    }

    /// The address set of any interval is finite.
    pub proof fn lemma_addrs_finite(self)
        ensures
            self.addrs().finite(),
    {
        if self.wf() {
            vstd::set_lib::lemma_int_range(self.start_int(), self.end_int());
        } else {
            assert(self.addrs() =~= Set::<int>::empty());
        }
    }

}

} // verus!
