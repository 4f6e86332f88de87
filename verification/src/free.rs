//! The free-interval tracker of the backing buffer's allocator.
//!
//! It records which byte ranges of the fixed-capacity buffer are currently
//! unused. Intervals are kept sorted by address, non-empty, and strictly
//! separated (adjacent free ranges are coalesced on insert), so the tracker
//! is a canonical picture of the free address set.

use vstd::prelude::*;
use vstd::set_lib::set_int_range;

use crate::interval::Interval;

verus! {

/// The set of addresses covered by a sequence of intervals.
pub open spec fn seq_addrs(s: Seq<Interval>) -> Set<int>
    decreases s.len(),
{
    if s.len() == 0 {
        Set::empty()
    } else {
        seq_addrs(s.drop_last()).union(s.last().addrs())
    }
}

/// An address is covered by a sequence of intervals exactly when one of the
/// intervals covers it.
pub proof fn lemma_seq_addrs_contains(s: Seq<Interval>, p: int)
    ensures
        seq_addrs(s).contains(p) <==> exists|j: int|
            0 <= j < s.len() && (#[trigger] s[j]).addrs().contains(p),
    decreases s.len(),
{
    if s.len() > 0 {
        lemma_seq_addrs_contains(s.drop_last(), p);
        if seq_addrs(s).contains(p) {
            if s.last().addrs().contains(p) {
                assert(s[s.len() - 1].addrs().contains(p));
            } else {
                let j = choose|j: int|
                    0 <= j < s.drop_last().len() && (#[trigger] s.drop_last()[j]).addrs().contains(
                        p,
                    );
                assert(s[j].addrs().contains(p));
            }
        }
        if exists|j: int| 0 <= j < s.len() && (#[trigger] s[j]).addrs().contains(p) {
            let j = choose|j: int| 0 <= j < s.len() && (#[trigger] s[j]).addrs().contains(p);
            if j < s.len() - 1 {
                assert(s.drop_last()[j].addrs().contains(p));
            }
        }
    }
}

/// The union of finitely many intervals is finite.
pub proof fn lemma_seq_addrs_finite(s: Seq<Interval>)
    ensures
        seq_addrs(s).finite(),
    decreases s.len(),
{
    if s.len() > 0 {
        lemma_seq_addrs_finite(s.drop_last());
        s.last().lemma_addrs_finite();
    }
}

/// Removing an interval from a sequence splits its address set off as a
/// union component.
pub proof fn lemma_seq_addrs_remove(s: Seq<Interval>, i: int)
    requires
        0 <= i < s.len(),
    ensures
        seq_addrs(s) =~= seq_addrs(s.remove(i)).union(s[i].addrs()),
{
    let t = s.remove(i);
    assert forall|p: int|
        seq_addrs(s).contains(p) <==> seq_addrs(t).union(s[i].addrs()).contains(p) by {
        lemma_seq_addrs_contains(s, p);
        lemma_seq_addrs_contains(t, p);
        if seq_addrs(s).contains(p) {
            let j = choose|j: int| 0 <= j < s.len() && (#[trigger] s[j]).addrs().contains(p);
            if j < i {
                assert(t[j].addrs().contains(p));
            } else if j > i {
                assert(t[j - 1].addrs().contains(p));
            }
        }
        if seq_addrs(t).contains(p) {
            let j = choose|j: int| 0 <= j < t.len() && (#[trigger] t[j]).addrs().contains(p);
            if j < i {
                assert(s[j].addrs().contains(p));
            } else {
                assert(s[j + 1].addrs().contains(p));
            }
        }
    }
}

/// Inserting an interval into a sequence adds exactly its addresses.
pub proof fn lemma_seq_addrs_insert(s: Seq<Interval>, i: int, iv: Interval)
    requires
        0 <= i <= s.len(),
    ensures
        seq_addrs(s.insert(i, iv)) =~= seq_addrs(s).union(iv.addrs()),
{
    let t = s.insert(i, iv);
    assert forall|p: int|
        seq_addrs(t).contains(p) <==> seq_addrs(s).union(iv.addrs()).contains(p) by {
        lemma_seq_addrs_contains(s, p);
        lemma_seq_addrs_contains(t, p);
        if seq_addrs(t).contains(p) {
            let j = choose|j: int| 0 <= j < t.len() && (#[trigger] t[j]).addrs().contains(p);
            if j < i {
                assert(s[j].addrs().contains(p));
            } else if j > i {
                assert(s[j - 1].addrs().contains(p));
            }
        }
        if seq_addrs(s).contains(p) {
            let j = choose|j: int| 0 <= j < s.len() && (#[trigger] s[j]).addrs().contains(p);
            if j < i {
                assert(t[j].addrs().contains(p));
            } else {
                assert(t[j + 1].addrs().contains(p));
            }
        }
        if iv.addrs().contains(p) {
            assert(t[i].addrs().contains(p));
        }
    }
}

/// Two multiples of `d` that differ, differ by at least `d`.
proof fn lemma_multiples_apart(x: int, y: int, d: int)
    requires
        d >= 1,
        x % d == 0,
        y % d == 0,
        x < y,
    ensures
        x + d <= y,
{
    vstd::arithmetic::div_mod::lemma_fundamental_div_mod(x, d);
    vstd::arithmetic::div_mod::lemma_fundamental_div_mod(y, d);
    let qx = x / d;
    let qy = y / d;
    assert(x == d * qx && y == d * qy);
    assert(qx < qy) by (nonlinear_arith)
        requires
            d >= 1,
            x == d * qx,
            y == d * qy,
            x < y,
    ;
    assert(d * qx + d <= d * qy) by (nonlinear_arith)
        requires
            d >= 1,
            qx < qy,
    ;
}

/// Re-inserting a freed region that touches neither neighbour keeps the
/// representation canonical and adds exactly its addresses.
proof fn lemma_ins_plain(pre: Seq<Interval>, pos: int, iv: Interval, news: Seq<Interval>)
    requires
        inv_seq(pre),
        0 <= pos <= pre.len(),
        iv.wf(),
        iv.length() >= 1,
        forall|k: int| 0 <= k < pos ==> (#[trigger] pre[k]).end_int() <= iv.start_int(),
        forall|k: int| pos <= k < pre.len() ==> iv.end_int() <= (#[trigger] pre[k]).start_int(),
        pos > 0 ==> pre[pos - 1].end_int() != iv.start_int(),
        pos < pre.len() ==> iv.end_int() != pre[pos].start_int(),
        news == pre.insert(pos, iv),
    ensures
        inv_seq(news),
        seq_addrs(news) =~= seq_addrs(pre).union(iv.addrs()),
{
    lemma_seq_addrs_insert(pre, pos, iv);
    assert forall|x: int, y: int| 0 <= x < y < news.len() implies (#[trigger] news[x]).end_int()
        < (#[trigger] news[y]).start_int() by {}
}

/// Re-inserting a freed region that is adjacent to its left neighbour only
/// merges the two, keeping the representation canonical.
proof fn lemma_ins_merge_left(pre: Seq<Interval>, pos: int, iv: Interval, merged: Interval, news: Seq<Interval>)
    requires
        inv_seq(pre),
        0 < pos <= pre.len(),
        iv.wf(),
        iv.length() >= 1,
        forall|k: int| 0 <= k < pos ==> (#[trigger] pre[k]).end_int() <= iv.start_int(),
        forall|k: int| pos <= k < pre.len() ==> iv.end_int() <= (#[trigger] pre[k]).start_int(),
        pre[pos - 1].end_int() == iv.start_int(),
        pos < pre.len() ==> iv.end_int() != pre[pos].start_int(),
        merged.start_int() == pre[pos - 1].start_int(),
        merged.end_int() == iv.end_int(),
        news == pre.remove(pos - 1).insert(pos - 1, merged),
    ensures
        inv_seq(news),
        seq_addrs(news) =~= seq_addrs(pre).union(iv.addrs()),
{
    let rem = pre.remove(pos - 1);
    lemma_seq_addrs_remove(pre, pos - 1);
    lemma_seq_addrs_insert(rem, pos - 1, merged);
    assert(merged.addrs() =~= pre[pos - 1].addrs().union(iv.addrs()));
    assert forall|x: int, y: int| 0 <= x < y < news.len() implies (#[trigger] news[x]).end_int()
        < (#[trigger] news[y]).start_int() by {}
}

/// Re-inserting a freed region that is adjacent to its right neighbour only
/// merges the two, keeping the representation canonical.
proof fn lemma_ins_merge_right(pre: Seq<Interval>, pos: int, iv: Interval, merged: Interval, news: Seq<Interval>)
    requires
        inv_seq(pre),
        0 <= pos < pre.len(),
        iv.wf(),
        iv.length() >= 1,
        forall|k: int| 0 <= k < pos ==> (#[trigger] pre[k]).end_int() <= iv.start_int(),
        forall|k: int| pos <= k < pre.len() ==> iv.end_int() <= (#[trigger] pre[k]).start_int(),
        pos > 0 ==> pre[pos - 1].end_int() != iv.start_int(),
        iv.end_int() == pre[pos].start_int(),
        merged.start_int() == iv.start_int(),
        merged.end_int() == pre[pos].end_int(),
        news == pre.remove(pos).insert(pos, merged),
    ensures
        inv_seq(news),
        seq_addrs(news) =~= seq_addrs(pre).union(iv.addrs()),
{
    let rem = pre.remove(pos);
    lemma_seq_addrs_remove(pre, pos);
    lemma_seq_addrs_insert(rem, pos, merged);
    assert(merged.addrs() =~= iv.addrs().union(pre[pos].addrs()));
    assert forall|x: int, y: int| 0 <= x < y < news.len() implies (#[trigger] news[x]).end_int()
        < (#[trigger] news[y]).start_int() by {}
}

/// Re-inserting a freed region that bridges its two neighbours merges all
/// three, keeping the representation canonical.
proof fn lemma_ins_merge_both(pre: Seq<Interval>, pos: int, iv: Interval, merged: Interval, news: Seq<Interval>)
    requires
        inv_seq(pre),
        0 < pos < pre.len(),
        iv.wf(),
        iv.length() >= 1,
        forall|k: int| 0 <= k < pos ==> (#[trigger] pre[k]).end_int() <= iv.start_int(),
        forall|k: int| pos <= k < pre.len() ==> iv.end_int() <= (#[trigger] pre[k]).start_int(),
        pre[pos - 1].end_int() == iv.start_int(),
        iv.end_int() == pre[pos].start_int(),
        merged.start_int() == pre[pos - 1].start_int(),
        merged.end_int() == pre[pos].end_int(),
        news == pre.remove(pos).remove(pos - 1).insert(pos - 1, merged),
    ensures
        inv_seq(news),
        seq_addrs(news) =~= seq_addrs(pre).union(iv.addrs()),
{
    let rem1 = pre.remove(pos);
    let rem2 = rem1.remove(pos - 1);
    lemma_seq_addrs_remove(pre, pos);
    lemma_seq_addrs_remove(rem1, pos - 1);
    lemma_seq_addrs_insert(rem2, pos - 1, merged);
    assert(rem1[pos - 1] == pre[pos - 1]);
    assert(merged.addrs() =~= pre[pos - 1].addrs().union(iv.addrs()).union(pre[pos].addrs()));
    assert forall|x: int, y: int| 0 <= x < y < news.len() implies (#[trigger] news[x]).end_int()
        < (#[trigger] news[y]).start_int() by {}
}

/// Sum of the lengths of a sequence of intervals.
pub open spec fn seq_total(s: Seq<Interval>) -> int
    decreases s.len(),
{
    if s.len() == 0 {
        0
    } else {
        seq_total(s.drop_last()) + s.last().length()
    }
}

/// The cardinality of a union of two disjoint finite sets is the sum of
/// their cardinalities.
pub proof fn lemma_disjoint_union_len(s1: Set<int>, s2: Set<int>)
    requires
        s1.finite(),
        s2.finite(),
        s1.disjoint(s2),
    ensures
        s1.union(s2).len() == s1.len() + s2.len(),
    decreases s1.len(),
{
    if s1.is_empty() {
        assert(s1.union(s2) =~= s2);
    } else {
        let a = s1.choose();
        assert(!s2.contains(a));
        assert(s1.union(s2).remove(a) =~= s1.remove(a).union(s2));
        lemma_disjoint_union_len(s1.remove(a), s2);
        assert(s1.union(s2).contains(a));
    }
}

/// Strictly separated intervals cover pairwise disjoint addresses.
proof fn lemma_inv_disjoint(s: Seq<Interval>)
    requires
        inv_seq(s),
    ensures
        forall|i: int, j: int|
            0 <= i < j < s.len() ==> #[trigger] s[i].addrs().disjoint(s[j].addrs()),
{
    assert forall|i: int, j: int|
        0 <= i < j < s.len() implies #[trigger] s[i].addrs().disjoint(s[j].addrs()) by {
        assert(s[i].end_int() < s[j].start_int());
    }
}

/// For pairwise disjoint well-formed intervals, the sum of the lengths is
/// the number of covered addresses.
proof fn lemma_seq_total_is_card(s: Seq<Interval>)
    requires
        forall|i: int| 0 <= i < s.len() ==> (#[trigger] s[i]).wf(),
        forall|i: int, j: int|
            0 <= i < j < s.len() ==> #[trigger] s[i].addrs().disjoint(s[j].addrs()),
    ensures
        seq_addrs(s).len() == seq_total(s),
    decreases s.len(),
{
    if s.len() > 0 {
        let dl = s.drop_last();
        lemma_seq_total_is_card(dl);
        lemma_seq_addrs_finite(dl);
        s.last().lemma_addrs_len();
        assert forall|p: int| seq_addrs(dl).contains(p) implies !s.last().addrs().contains(
            p,
        ) by {
            lemma_seq_addrs_contains(dl, p);
            let j = choose|j: int| 0 <= j < dl.len() && (#[trigger] dl[j]).addrs().contains(p);
            assert(s[j].addrs().disjoint(s[s.len() - 1].addrs()));
        }
        lemma_disjoint_union_len(seq_addrs(dl), s.last().addrs());
    }
}

/// Intervals of a sequence are well-formed, non-empty, sorted by address,
/// and strictly separated.
pub open spec fn inv_seq(s: Seq<Interval>) -> bool {
    &&& forall|i: int| 0 <= i < s.len() ==> (#[trigger] s[i]).wf() && s[i].length() >= 1
    &&& forall|i: int, j: int|
        0 <= i < j < s.len() ==> (#[trigger] s[i]).end_int() < (#[trigger] s[j]).start_int()
}

/// Tracks the currently unused byte ranges of the backing buffer.
pub struct FreeIntervals {
    ivs: Vec<Interval>,
}

/// The padding that moves `start` up to the next address aligned to `align`:
/// the least aligned address at or above `start` is `start + r`.
fn align_pad(start: u64, align: u64) -> (r: u64)
    requires
        align >= 1,
    ensures
        r < align,
        (start + r) % (align as int) == 0,
        forall|a: int| #[trigger] (a % (align as int)) == 0 && a >= start ==> a >= start + r,
{
    let rem = start % align;
    let r = if rem == 0 {
        0
    } else {
        align - rem
    };
    proof {
        let s = start as int;
        let d = align as int;
        vstd::arithmetic::div_mod::lemma_fundamental_div_mod(s, d);
        if rem != 0 {
            assert(s + r == d * (s / d) + d);
            assert((d * (s / d) + d) % d == 0) by (nonlinear_arith)
                requires
                    d >= 1,
            {
                vstd::arithmetic::div_mod::lemma_mod_multiples_basic(s / d + 1, d);
            }
        } else {
            assert(s % d == 0);
        }
        assert forall|a: int| #[trigger] (a % d) == 0 && a >= s implies a >= s + r by {
            if a < s + r {
                lemma_multiples_apart(a, s + r, d);
            }
        }
    }
    r
}

impl FreeIntervals {
    /// The intervals held, for reasoning about the representation.
    pub closed spec fn intervals(self) -> Seq<Interval> {
        self.ivs@
    }

    /// Representation invariant: intervals are well-formed, non-empty,
    /// sorted by address, and strictly separated (fully coalesced).
    pub open spec fn inv(self) -> bool {
        inv_seq(self.intervals())
    }

    /// The set of free addresses.
    pub open spec fn addrs(self) -> Set<int> {
        seq_addrs(self.intervals())
    }

    /// A region of `len` addresses could start at address `a`: every address
    /// of `[a, a + len)` is free.
    pub open spec fn can_place(self, a: int, len: int) -> bool {
        a >= 0 && set_int_range(a, a + len).subset_of(self.addrs())
    }

    /// Initialize the tracker with the whole buffer `[0, capacity)` free.
    pub fn new(capacity: u64) -> (r: FreeIntervals)
        ensures
            r.inv(),
            r.addrs() == set_int_range(0, capacity as int),
    {
        let mut ivs: Vec<Interval> = Vec::new();
        if capacity > 0 {
            ivs.push(Interval::new(0, capacity));
        }
        let r = FreeIntervals { ivs };
        proof {
            assert(seq_addrs(Seq::<Interval>::empty()) == Set::<int>::empty());
            if capacity > 0 {
                let s = r.intervals();
                assert(s.drop_last() =~= Seq::<Interval>::empty());
                assert(seq_addrs(s) == seq_addrs(s.drop_last()).union(s.last().addrs()));
                assert(r.addrs() =~= set_int_range(0, capacity as int));
            } else {
                assert(r.addrs() =~= set_int_range(0, capacity as int));
            }
        }
        r
    }

    /// Every free address lies in one of the held intervals.
    pub proof fn lemma_addrs_contains(self, p: int)
        ensures
            self.addrs().contains(p) <==> exists|j: int|
                0 <= j < self.intervals().len() && (#[trigger] self.intervals()[j]).addrs().contains(
                    p,
                ),
    {
        lemma_seq_addrs_contains(self.intervals(), p);
    }

    /// A contiguous free run lies wholly within a single held interval: the
    /// gaps between intervals are strictly positive, so a run cannot span two.
    pub proof fn lemma_run_within_one(self, a: int, len: int)
        requires
            self.inv(),
            len >= 1,
            self.can_place(a, len),
        ensures
            exists|i: int|
                0 <= i < self.intervals().len() && (#[trigger] self.intervals()[i]).start_int() <= a
                    && a + len <= self.intervals()[i].end_int(),
    {
        let s = self.intervals();
        assert(set_int_range(a, a + len).contains(a));
        assert(self.addrs().contains(a));
        self.lemma_addrs_contains(a);
        let i = choose|i: int| 0 <= i < s.len() && (#[trigger] s[i]).addrs().contains(a);
        if a + len > s[i].end_int() {
            let e = s[i].end_int();
            assert(set_int_range(a, a + len).contains(e));
            assert(self.addrs().contains(e));
            self.lemma_addrs_contains(e);
            let j = choose|j: int| 0 <= j < s.len() && (#[trigger] s[j]).addrs().contains(e);
            assert(j != i);
            if j < i {
                assert(s[j].end_int() < s[i].start_int());
            } else {
                assert(s[i].end_int() < s[j].start_int());
            }
            assert(false);
        }
        assert(s[i].start_int() <= a && a + len <= s[i].end_int());
    }

    /// `[a, a + len)` lies within interval `j` of the tracker.
    pub open spec fn within(self, j: int, a: int, len: int) -> bool {
        0 <= j < self.intervals().len() && self.intervals()[j].start_int() <= a && a + len
            <= self.intervals()[j].end_int()
    }

    /// Carve out the lowest adequately aligned free region of exactly
    /// `length` addresses: first fit from the lowest address, splitting the
    /// containing free interval. Returns `None`, and leaves the tracker
    /// untouched, exactly when no aligned free region of that size exists.
    #[verifier::loop_isolation(false)]
    pub fn take_exact_aligned(&mut self, length: u64, align: u64) -> (r: Option<Interval>)
        requires
            old(self).inv(),
            align >= 1,
        ensures
            final(self).inv(),
            match r {
                Some(iv) => {
                    &&& iv.wf()
                    &&& iv.length() == length
                    &&& iv.start_int() % (align as int) == 0
                    &&& iv.addrs().subset_of(old(self).addrs())
                    &&& final(self).addrs() == old(self).addrs().difference(iv.addrs())
                    &&& forall|a: int|
                        0 <= a < iv.start_int() && #[trigger] (a % (align as int)) == 0
                            ==> !old(self).can_place(a, length as int)
                },
                None => {
                    &&& *final(self) == *old(self)
                    &&& forall|a: int|
                        #[trigger] (a % (align as int)) == 0 ==> !old(self).can_place(
                            a,
                            length as int,
                        )
                },
            },
    {
        if length == 0 {
            let iv = Interval::new(0, 0);
            proof {
                assert(iv.addrs() =~= Set::<int>::empty());
                assert(self.addrs() =~= self.addrs().difference(iv.addrs()));
            }
            return Some(iv);
        }
        let n = self.ivs.len();
        proof {
            assert forall|a: int|
                #[trigger] (a % (align as int)) == 0 && old(self).can_place(a, length as int)
                implies exists|j: int|
                    0 <= j < n && #[trigger] old(self).within(j, a, length as int) by {
                self.lemma_run_within_one(a, length as int);
                let j = choose|j: int|
                    0 <= j < self.intervals().len()
                        && (#[trigger] self.intervals()[j]).start_int() <= a
                        && a + length <= self.intervals()[j].end_int();
                assert(old(self).within(j, a, length as int));
            }
        }
        let mut i: usize = 0;
        while i < n
            invariant
                i <= n,
                *self == *old(self),
                forall|a: int|
                    #[trigger] (a % (align as int)) == 0 && old(self).can_place(a, length as int)
                        ==> exists|j: int|
                        i <= j < n && #[trigger] old(self).within(j, a, length as int),
            decreases n - i,
        {
            let iv = self.ivs[i];
            let s = iv.start();
            let e = iv.end();
            let pad = align_pad(s, align);
            if pad <= e - s && length <= (e - s) - pad {
                let astart = s + pad;
                let taken = Interval::new(astart, length);
                let left = Interval::new(s, pad);
                let rlen = ((e - s) - pad) - length;
                let right = Interval::new(astart + length, rlen);
                let ghost pre = self.ivs@;
                let _removed = self.ivs.remove(i);
                if rlen > 0 {
                    self.ivs.insert(i, right);
                }
                if pad > 0 {
                    self.ivs.insert(i, left);
                }
                proof {
                    let rem = pre.remove(i as int);
                    let news = self.ivs@;
                    lemma_seq_addrs_remove(pre, i as int);
                    // The new sequence covers the remainder plus the split-off
                    // left and right pieces.
                    if rlen > 0 && pad > 0 {
                        lemma_seq_addrs_insert(rem, i as int, right);
                        lemma_seq_addrs_insert(rem.insert(i as int, right), i as int, left);
                    } else if rlen > 0 {
                        lemma_seq_addrs_insert(rem, i as int, right);
                        assert(left.addrs() =~= Set::<int>::empty());
                    } else if pad > 0 {
                        lemma_seq_addrs_insert(rem, i as int, left);
                        assert(right.addrs() =~= Set::<int>::empty());
                    } else {
                        assert(left.addrs() =~= Set::<int>::empty());
                        assert(right.addrs() =~= Set::<int>::empty());
                    }
                    assert(seq_addrs(news) =~= seq_addrs(rem).union(left.addrs()).union(
                        right.addrs(),
                    ));
                    // The taken region is disjoint from every other interval.
                    assert forall|p: int| taken.addrs().contains(p) implies !seq_addrs(
                        rem,
                    ).contains(p) by {
                        lemma_seq_addrs_contains(rem, p);
                        if seq_addrs(rem).contains(p) {
                            let j = choose|j: int|
                                0 <= j < rem.len() && (#[trigger] rem[j]).addrs().contains(p);
                            if j < i as int {
                                assert(pre[j].addrs().contains(p));
                                assert(pre[j].end_int() < pre[i as int].start_int());
                            } else {
                                assert(pre[j + 1].addrs().contains(p));
                                assert(pre[i as int].end_int() < pre[j + 1].start_int());
                            }
                        }
                    }
                    // The new free set is the old one minus the taken region.
                    assert forall|p: int|
                        seq_addrs(news).contains(p) <==> (seq_addrs(pre).contains(p)
                            && !taken.addrs().contains(p)) by {
                        lemma_seq_addrs_contains(pre, p);
                        lemma_seq_addrs_contains(rem, p);
                        if seq_addrs(pre).contains(p) && !taken.addrs().contains(p) {
                            let j = choose|j: int|
                                0 <= j < pre.len() && (#[trigger] pre[j]).addrs().contains(p);
                            if j < i as int {
                                assert(rem[j].addrs().contains(p));
                            } else if j > i as int {
                                assert(rem[j - 1].addrs().contains(p));
                            }
                        }
                    }
                    assert(seq_addrs(news) =~= seq_addrs(pre).difference(taken.addrs()));
                    // Shape of the new sequence, for the representation
                    // invariant.
                    assert forall|x: int, y: int| 0 <= x < y < news.len() implies (
                    #[trigger] news[x]).end_int() < (#[trigger] news[y]).start_int() by {}
                    // First fit: no aligned placement below the chosen start.
                    assert forall|a: int|
                        0 <= a < taken.start_int() && #[trigger] (a % (align as int)) == 0
                        implies !old(self).can_place(a, length as int) by {
                        if old(self).can_place(a, length as int) {
                            let j = choose|j: int|
                                i <= j < n && #[trigger] old(self).within(j, a, length as int);
                            if j == i as int {
                                assert(a >= s + pad);
                            } else {
                                assert(pre[i as int].end_int() < pre[j].start_int());
                            }
                        }
                    }
                }
                return Some(taken);
            }
            proof {
                assert forall|a: int|
                    #[trigger] (a % (align as int)) == 0 && old(self).can_place(a, length as int)
                    implies exists|j: int|
                        i + 1 <= j < n && #[trigger] old(self).within(j, a, length as int) by {
                    let j = choose|j: int|
                        i <= j < n && #[trigger] old(self).within(j, a, length as int);
                    if j == i as int {
                        assert(a >= s + pad);
                        assert(false);
                    }
                }
            }
            i += 1;
        }
        proof {
            assert forall|a: int| #[trigger] (a % (align as int)) == 0 implies !old(
                self,
            ).can_place(a, length as int) by {
                if old(self).can_place(a, length as int) {
                    let j = choose|j: int|
                        n <= j < n && #[trigger] old(self).within(j, a, length as int);
                }
            }
        }
        None
    }

    /// Return a region to the free set, coalescing with the adjacent free
    /// intervals so that fragmentation stays bounded and the representation
    /// stays canonical.
    #[verifier::loop_isolation(false)]
    #[verifier::rlimit(100)]
    pub fn insert(&mut self, iv: Interval)
        requires
            old(self).inv(),
            iv.wf(),
            iv.addrs().disjoint(old(self).addrs()),
        ensures
            final(self).inv(),
            final(self).addrs() == old(self).addrs().union(iv.addrs()),
    {
        if iv.len() == 0 {
            proof {
                assert(iv.addrs() =~= Set::<int>::empty());
                assert(self.addrs() =~= self.addrs().union(iv.addrs()));
            }
            return ;
        }
        let n = self.ivs.len();
        let mut pos: usize = 0;
        while pos < n && self.ivs[pos].start() < iv.start()
            invariant
                pos <= n,
                *self == *old(self),
                forall|k: int|
                    0 <= k < pos ==> (#[trigger] self.intervals()[k]).start_int()
                        < iv.start_int(),
            decreases n - pos,
        {
            pos += 1;
        }
        proof {
            let s = self.intervals();
            assert forall|k: int| 0 <= k < pos implies (#[trigger] s[k]).end_int()
                <= iv.start_int() by {
                if s[k].end_int() > iv.start_int() {
                    let p = iv.start_int();
                    assert(iv.addrs().contains(p));
                    self.lemma_addrs_contains(p);
                    assert(s[k].addrs().contains(p));
                }
            }
            assert forall|k: int| pos <= k < n implies iv.end_int() <= (
            #[trigger] s[k]).start_int() by {
                assert(s[pos as int].start_int() >= iv.start_int());
                if k > pos {
                    assert(s[pos as int].end_int() < s[k].start_int());
                }
                if iv.end_int() > s[k].start_int() {
                    let p = s[k].start_int();
                    assert(s[k].addrs().contains(p));
                    self.lemma_addrs_contains(p);
                    assert(iv.addrs().contains(p));
                }
            }
        }
        let merge_left = pos > 0 && self.ivs[pos - 1].end() == iv.start();
        let merge_right = pos < n && iv.end() == self.ivs[pos].start();
        let ghost pre = self.ivs@;
        if merge_left && merge_right {
            let l = self.ivs[pos - 1];
            let rr = self.ivs[pos];
            let merged = Interval::new(l.start(), rr.end() - l.start());
            let _removed_r = self.ivs.remove(pos);
            let _removed_l = self.ivs.remove(pos - 1);
            self.ivs.insert(pos - 1, merged);
            proof {
                lemma_ins_merge_both(pre, pos as int, iv, merged, self.ivs@);
            }
        } else if merge_left {
            let l = self.ivs[pos - 1];
            let merged = Interval::new(l.start(), iv.end() - l.start());
            let _removed_l = self.ivs.remove(pos - 1);
            self.ivs.insert(pos - 1, merged);
            proof {
                lemma_ins_merge_left(pre, pos as int, iv, merged, self.ivs@);
            }
        } else if merge_right {
            let rr = self.ivs[pos];
            let merged = Interval::new(iv.start(), rr.end() - iv.start());
            let _removed_r = self.ivs.remove(pos);
            self.ivs.insert(pos, merged);
            proof {
                lemma_ins_merge_right(pre, pos as int, iv, merged, self.ivs@);
            }
        } else {
            self.ivs.insert(pos, iv);
            proof {
                lemma_ins_plain(pre, pos as int, iv, self.ivs@);
            }
        }
    }

    /// Total number of free addresses: the sum of the interval lengths,
    /// which for this canonical representation is exactly the cardinality
    /// of the free address set.
    #[verifier::loop_isolation(false)]
    pub fn total_free(&self) -> (r: u64)
        requires
            self.inv(),
        ensures
            r == self.addrs().len(),
    {
        let n = self.ivs.len();
        let mut sum: u64 = 0;
        let mut i: usize = 0;
        while i < n
            invariant
                i <= n,
                sum as int == seq_total(self.intervals().take(i as int)),
                i > 0 ==> sum as int <= self.intervals()[i - 1].end_int(),
            decreases n - i,
        {
            let iv = self.ivs[i];
            proof {
                if i > 0 {
                    assert(self.intervals()[i - 1].end_int()
                        < self.intervals()[i as int].start_int());
                }
                assert(self.intervals().take(i as int + 1).drop_last() =~= self.intervals().take(
                    i as int,
                ));
            }
            sum = sum + iv.len();
            i += 1;
        }
        proof {
            assert(self.intervals().take(n as int) =~= self.intervals());
            lemma_inv_disjoint(self.intervals());
            lemma_seq_total_is_card(self.intervals());
        }
        sum
    }
}

} // verus!
