//! Buffer storage: the sub-allocator of the fixed-capacity backing buffer.
//!
//! `Storage` owns the free-interval tracker and the map from resource id to
//! placed metadata. Its central invariant: the free addresses and the live
//! intervals partition the buffer `[0, capacity)` at all times, so the
//! buffer is never over-committed and no space is leaked.

use vstd::prelude::*;
use vstd::set_lib::set_int_range;

use crate::free::FreeIntervals;
use crate::interval::Interval;

verus! {

/// Size in bytes of one index element; mesh placements are aligned so that
/// both a vertex-array view and an index-array view start at valid offsets.
pub const INDEX_SIZE: u64 = 4;

/// Format-specific description of a mesh payload, in bytes.
#[derive(Debug, Clone, Copy)]
pub struct MeshMetadata {
    pub vertex_size: u64,
    pub vertex_count: u64,
    pub vertex_offset: u64,
    pub data_offset: u64,
}

impl MeshMetadata {
    /// Length of the destination region in the backing buffer.
    pub open spec fn dest_len(self) -> int {
        self.vertex_offset + self.vertex_count * self.vertex_size - self.data_offset
    }

    /// The stride is positive, the layout arithmetic stays within the
    /// buffer's address width, and the copied length is not negative.
    pub open spec fn wf(self) -> bool {
        &&& 1 <= self.vertex_size
        &&& self.vertex_size * INDEX_SIZE <= u64::MAX
        &&& self.vertex_offset + self.vertex_count * self.vertex_size <= u64::MAX
        &&& self.data_offset <= self.vertex_offset + self.vertex_count * self.vertex_size
    }
}

/// Per-resource metadata, one variant per resource kind. Texture placement
/// is a stub sibling of the mesh variant: it shares the storage contract
/// shape but is not placed by this allocator.
#[derive(Debug, Clone, Copy)]
pub enum Metadata {
    Mesh(MeshMetadata),
    Texture,
}

impl Metadata {
    pub open spec fn is_mesh(self) -> bool {
        self is Mesh
    }

    pub open spec fn mesh(self) -> MeshMetadata {
        self->Mesh_0
    }

    pub open spec fn wf(self) -> bool {
        match self {
            Metadata::Mesh(m) => m.wf(),
            Metadata::Texture => true,
        }
    }
}

/// Which backing buffer placed bytes are destined for.
#[derive(Debug, Clone, Copy)]
pub enum LoadDst {
    MeshBuffer,
}

/// Instructions for the external uploader: copy the source byte range
/// `from` of the payload into the destination `interval` of `dst`.
pub struct DataCopy {
    pub from: core::ops::Range<usize>,
    pub dst: LoadDst,
    pub interval: Interval,
}

/// A payload together with the copy instructions that place it.
pub struct PlacedData {
    pub to_load: DataCopy,
    pub data: Vec<u8>,
}

/// A placed resource: its metadata and the interval it occupies.
pub struct Stored {
    pub meta: Metadata,
    pub interval: Interval,
}

/// Sizing of the backing buffer and of the id map.
#[derive(Debug, Clone, Copy)]
pub struct Settings {
    pub mesh_buffer_length: u64,
    pub init_resources_count: usize,
}

pub const MEBIBYTE: u64 = 1024 * 1024;

impl Default for Settings {
    fn default() -> (r: Settings)
        ensures
            r.mesh_buffer_length == 128 * MEBIBYTE,
            r.init_resources_count == 1024,
    {
        Settings { mesh_buffer_length: 128 * MEBIBYTE, init_resources_count: 1024 }
    }
}

/// The id-to-placement map. It holds a concurrent map of the dashmap crate;
/// Verus sees its entries only through `meta_entries` and the contracts of
/// the methods below.
#[verifier::external_body]
pub struct MetaMap {
    inner: dashmap::DashMap<u64, Stored>,
}

/// The entries that a `MetaMap` holds, as a mathematical map.
pub uninterp spec fn meta_entries(m: MetaMap) -> Map<u64, Stored>;

/// The map holds no entries at all.
pub open spec fn no_meta_entries(m: MetaMap) -> bool {
    meta_entries(m) == Map::<u64, Stored>::empty()
}

impl MetaMap {
    /// Relies on dashmap's `DashMap::with_capacity`: a fresh map holds no
    /// entries.
    #[verifier::external_body]
    pub fn with_capacity(capacity: usize) -> (created: MetaMap)
        ensures
            no_meta_entries(created),
    {
        MetaMap { inner: dashmap::DashMap::with_capacity(capacity) }
    }

    /// Relies on dashmap's `DashMap::insert`: afterwards the key maps to
    /// the given value and every other entry is unchanged.
    #[verifier::external_body]
    pub fn insert(&mut self, id: u64, stored: Stored)
        ensures
            meta_entries(*final(self)) == meta_entries(*old(self)).insert(id, stored),
    {
        self.inner.insert(id, stored);
    }

    /// Relies on dashmap's `DashMap::remove`: takes the key's entry out of
    /// the map and returns its value; absent keys leave the map unchanged.
    #[verifier::external_body]
    pub fn remove(&mut self, id: u64) -> (r: Option<Stored>)
        ensures
            match r {
                Some(v) => meta_entries(*old(self)).contains_key(id) && v == meta_entries(
                    *old(self),
                )[id] && meta_entries(*final(self)) == meta_entries(*old(self)).remove(id),
                None => !meta_entries(*old(self)).contains_key(id) && meta_entries(*final(self))
                    == meta_entries(*old(self)),
            },
    {
        match self.inner.remove(&id) {
            Some((_, v)) => Some(v),
            None => None,
        }
    }

    /// Relies on dashmap's `DashMap::contains_key`.
    #[verifier::external_body]
    pub fn contains(&self, id: u64) -> (r: bool)
        ensures
            r == meta_entries(*self).contains_key(id),
    {
        self.inner.contains_key(&id)
    }
}

/// `r` is the least common multiple of `a` and `b`.
pub open spec fn is_lcm(a: int, b: int, r: int) -> bool {
    &&& r % a == 0
    &&& r % b == 0
    &&& 1 <= r
    &&& forall|m: int| 1 <= m && #[trigger] (m % a) == 0 && m % b == 0 ==> r <= m
}

/// Relies on the num crate's `Integer::lcm` for u64 (num-integer): the
/// lowest common multiple of two positive numbers. `a * b <= u64::MAX`
/// keeps its internal multiplication `a * (b / gcd)` from overflowing.
#[verifier::external_body]
fn lcm_u64(a: u64, b: u64) -> (r: u64)
    requires
        1 <= a,
        1 <= b,
        a * b <= u64::MAX,
    ensures
        is_lcm(a as int, b as int, r as int),
        r <= a * b,
{
    num::integer::lcm(a, b)
}

/// Divisibility is transitive: a multiple of `d1` is a multiple of every
/// divisor `d2` of `d1`.
proof fn lemma_mod_transitive(x: int, d1: int, d2: int)
    requires
        d1 >= 1,
        d2 >= 1,
        x % d1 == 0,
        d1 % d2 == 0,
    ensures
        x % d2 == 0,
{
    vstd::arithmetic::div_mod::lemma_fundamental_div_mod(x, d1);
    vstd::arithmetic::div_mod::lemma_fundamental_div_mod(d1, d2);
    let q1 = x / d1;
    let q2 = d1 / d2;
    assert(x == (q2 * q1) * d2) by (nonlinear_arith)
        requires
            x == d1 * q1,
            d1 == d2 * q2,
    ;
    vstd::arithmetic::div_mod::lemma_mod_multiples_basic(q2 * q1, d2);
}

/// A common multiple of `a` and `b` is a multiple of their least common
/// multiple; so an address divisible by both the vertex stride and the
/// index size is divisible by their lcm, and the other way round.
pub proof fn lemma_lcm_divides_common_multiples(a: int, b: int, r: int, m: int)
    requires
        a >= 1,
        b >= 1,
        is_lcm(a, b, r),
        m >= 0,
        m % a == 0,
        m % b == 0,
    ensures
        m % r == 0,
{
    let mm = m % r;
    vstd::arithmetic::div_mod::lemma_fundamental_div_mod(m, r);
    vstd::arithmetic::div_mod::lemma_mod_division_less_than_divisor(m, r);
    let q = m / r;
    vstd::arithmetic::div_mod::lemma_fundamental_div_mod(m, a);
    vstd::arithmetic::div_mod::lemma_fundamental_div_mod(r, a);
    assert(mm == a * (m / a - (r / a) * q)) by (nonlinear_arith)
        requires
            m == r * q + mm,
            m == a * (m / a),
            r == a * (r / a),
    ;
    vstd::arithmetic::div_mod::lemma_mod_multiples_basic(m / a - (r / a) * q, a);
    vstd::arithmetic::div_mod::lemma_fundamental_div_mod(m, b);
    vstd::arithmetic::div_mod::lemma_fundamental_div_mod(r, b);
    assert(mm == b * (m / b - (r / b) * q)) by (nonlinear_arith)
        requires
            m == r * q + mm,
            m == b * (m / b),
            r == b * (r / b),
    ;
    vstd::arithmetic::div_mod::lemma_mod_multiples_basic(m / b - (r / b) * q, b);
    if mm >= 1 {
        assert(r <= mm);
    }
}

/// The least common multiple is unique.
pub proof fn lemma_lcm_unique(a: int, b: int, r1: int, r2: int)
    requires
        is_lcm(a, b, r1),
        is_lcm(a, b, r2),
    ensures
        r1 == r2,
{
    assert(r1 % a == 0 && r1 % b == 0);
    assert(r2 % a == 0 && r2 % b == 0);
}

/// Tracks the free and used ranges of the fixed backing buffer, places
/// loaded resource bytes, and reclaims the range when a resource is
/// removed.
pub struct Storage {
    capacity: u64,
    free: FreeIntervals,
    meta: MetaMap,
}

impl Storage {
    /// Total size of the backing buffer, in bytes.
    pub closed spec fn capacity_int(self) -> int {
        self.capacity as int
    }

    /// The currently free addresses.
    pub closed spec fn free_set(self) -> Set<int> {
        self.free.addrs()
    }

    /// The free tracker's interval sequence, for finiteness reasoning.
    pub closed spec fn free_tracker_intervals(self) -> Seq<Interval> {
        self.free.intervals()
    }

    /// The live placements, keyed by resource id.
    pub closed spec fn entries(self) -> Map<u64, Stored> {
        meta_entries(self.meta)
    }

    /// The addresses covered by the live placements.
    pub open spec fn live_addrs(self) -> Set<int> {
        Set::new(|p: int| self.covers(p))
    }

    /// Some live placement covers address `p`.
    pub open spec fn covers(self, p: int) -> bool {
        exists|id: u64|
            #[trigger] self.entries().dom().contains(id) && self.entries()[id].interval.addrs().contains(p)
    }

    /// A region of `len` addresses could start at free address `a`.
    pub open spec fn can_place(self, a: int, len: int) -> bool {
        a >= 0 && set_int_range(a, a + len).subset_of(self.free_set())
    }

    /// The allocator's invariant: free addresses and live intervals are
    /// pairwise disjoint and together cover exactly `[0, capacity)`.
    pub closed spec fn wf(self) -> bool {
        &&& self.free.inv()
        &&& self.free_set().subset_of(set_int_range(0, self.capacity_int()))
        &&& forall|id: u64|
            #[trigger] self.entries().dom().contains(id) ==> self.entries()[id].interval.wf()
                && self.entries()[id].interval.addrs().subset_of(
                set_int_range(0, self.capacity_int()),
            ) && self.entries()[id].interval.addrs().disjoint(self.free_set())
        &&& forall|id1: u64, id2: u64|
            #[trigger] self.entries().dom().contains(id1) && #[trigger] self.entries().dom().contains(id2)
                && id1 != id2 ==> self.entries()[id1].interval.addrs().disjoint(
                self.entries()[id2].interval.addrs(),
            )
        &&& forall|p: int|
            set_int_range(0, self.capacity_int()).contains(p) <==> (
            #[trigger] self.free_set().contains(p) || self.covers(p))
    }

    /// Create the storage for a buffer of the configured capacity, with all
    /// of it free and nothing placed.
    pub fn new(settings: &Settings) -> (r: Storage)
        ensures
            r.wf(),
            r.capacity_int() == settings.mesh_buffer_length,
            r.entries() == Map::<u64, Stored>::empty(),
            r.free_set() == set_int_range(0, settings.mesh_buffer_length as int),
    {
        let free = FreeIntervals::new(settings.mesh_buffer_length);
        let meta = MetaMap::with_capacity(settings.init_resources_count);
        let r = Storage { capacity: settings.mesh_buffer_length, free, meta };
        proof {
            assert forall|p: int|
                set_int_range(0, r.capacity_int()).contains(p) <==> (
                #[trigger] r.free_set().contains(p) || r.covers(p)) by {
                if r.covers(p) {
                    let id = choose|id: u64|
                        #[trigger] r.entries().dom().contains(id)
                            && r.entries()[id].interval.addrs().contains(p);
                }
            }
        }
        r
    }

    /// Reserve space for resource `id` as `meta` describes and return the
    /// copy instructions, or `None`, with nothing changed, exactly when no
    /// suitably aligned free region of the required length exists.
    pub fn add(&mut self, id: u64, meta: Metadata) -> (r: Option<DataCopy>)
        requires
            old(self).wf(),
            !old(self).entries().contains_key(id),
            meta.is_mesh(),
            meta.wf(),
            meta.mesh().dest_len() <= usize::MAX,
            meta.mesh().data_offset <= usize::MAX,
        ensures
            final(self).wf(),
            final(self).capacity_int() == old(self).capacity_int(),
            match r {
                Some(dc) => {
                    &&& dc.interval.wf()
                    &&& dc.interval.length() == meta.mesh().dest_len()
                    &&& dc.interval.start_int() % (meta.mesh().vertex_size as int) == 0
                    &&& dc.interval.start_int() % (INDEX_SIZE as int) == 0
                    &&& dc.from.start == meta.mesh().data_offset
                    &&& dc.from.end == meta.mesh().dest_len()
                    &&& dc.dst is MeshBuffer
                    &&& dc.interval.addrs().subset_of(old(self).free_set())
                    &&& forall|al: int, a: int|
                        is_lcm(meta.mesh().vertex_size as int, INDEX_SIZE as int, al) && 0 <= a
                            < dc.interval.start_int() && #[trigger] (a % al) == 0 ==> !old(
                            self,
                        ).can_place(a, meta.mesh().dest_len())
                    &&& final(self).entries() == old(self).entries().insert(
                        id,
                        Stored { meta, interval: dc.interval },
                    )
                    &&& final(self).free_set() == old(self).free_set().difference(
                        dc.interval.addrs(),
                    )
                },
                None => {
                    &&& final(self).entries() == old(self).entries()
                    &&& final(self).free_set() == old(self).free_set()
                    &&& forall|al: int, a: int|
                        is_lcm(meta.mesh().vertex_size as int, INDEX_SIZE as int, al) && #[trigger] (
                        a % al) == 0 ==> !old(self).can_place(a, meta.mesh().dest_len())
                },
            },
    {
        match meta {
            Metadata::Mesh(m) => self.add_mesh(id, m),
            Metadata::Texture => {
                proof {
                    assert(false);
                }
                None
            },
        }
    }

    /// Mesh placement: align to the least common multiple of the vertex
    /// stride and the index element size, take the first fitting free
    /// region, and record the placement.
    fn add_mesh(&mut self, id: u64, m: MeshMetadata) -> (r: Option<DataCopy>)
        requires
            old(self).wf(),
            !old(self).entries().contains_key(id),
            m.wf(),
            m.dest_len() <= usize::MAX,
            m.data_offset <= usize::MAX,
        ensures
            final(self).wf(),
            final(self).capacity_int() == old(self).capacity_int(),
            match r {
                Some(dc) => {
                    &&& dc.interval.wf()
                    &&& dc.interval.length() == m.dest_len()
                    &&& dc.interval.start_int() % (m.vertex_size as int) == 0
                    &&& dc.interval.start_int() % (INDEX_SIZE as int) == 0
                    &&& dc.from.start == m.data_offset
                    &&& dc.from.end == m.dest_len()
                    &&& dc.dst is MeshBuffer
                    &&& dc.interval.addrs().subset_of(old(self).free_set())
                    &&& forall|al: int, a: int|
                        is_lcm(m.vertex_size as int, INDEX_SIZE as int, al) && 0 <= a
                            < dc.interval.start_int() && #[trigger] (a % al) == 0 ==> !old(
                            self,
                        ).can_place(a, m.dest_len())
                    &&& final(self).entries() == old(self).entries().insert(
                        id,
                        Stored { meta: Metadata::Mesh(m), interval: dc.interval },
                    )
                    &&& final(self).free_set() == old(self).free_set().difference(
                        dc.interval.addrs(),
                    )
                },
                None => {
                    &&& final(self).entries() == old(self).entries()
                    &&& final(self).free_set() == old(self).free_set()
                    &&& forall|al: int, a: int|
                        is_lcm(m.vertex_size as int, INDEX_SIZE as int, al) && #[trigger] (a % al)
                            == 0 ==> !old(self).can_place(a, m.dest_len())
                },
            },
    {
        let alignment = lcm_u64(m.vertex_size, INDEX_SIZE);
        let data_len = m.vertex_offset + m.vertex_count * m.vertex_size - m.data_offset;
        let taken = self.free.take_exact_aligned(data_len, alignment);
        match taken {
            None => {
                proof {
                    assert forall|al: int, a: int|
                        is_lcm(m.vertex_size as int, INDEX_SIZE as int, al) && #[trigger] (a % al)
                            == 0 implies !old(self).can_place(a, m.dest_len()) by {
                        lemma_lcm_unique(
                            m.vertex_size as int,
                            INDEX_SIZE as int,
                            al,
                            alignment as int,
                        );
                    }
                }
                None
            },
            Some(iv) => {
                let stored = Stored { meta: Metadata::Mesh(m), interval: iv };
                self.meta.insert(id, stored);
                let from = (m.data_offset as usize)..(data_len as usize);
                proof {
                    let pre = *old(self);
                    let post = *self;
                    // Alignment carries over from the least common multiple
                    // to both element sizes.
                    assert(alignment as int % (m.vertex_size as int) == 0);
                    lemma_mod_transitive(iv.start_int(), alignment as int, m.vertex_size as int);
                    lemma_mod_transitive(iv.start_int(), alignment as int, INDEX_SIZE as int);
                    // First fit: the tracker rules out every aligned start
                    // below the chosen one, for the one true lcm.
                    assert forall|al: int, a: int|
                        is_lcm(m.vertex_size as int, INDEX_SIZE as int, al) && 0 <= a
                            < iv.start_int() && #[trigger] (a % al) == 0 implies !pre.can_place(
                        a,
                        m.dest_len(),
                    ) by {
                        lemma_lcm_unique(
                            m.vertex_size as int,
                            INDEX_SIZE as int,
                            al,
                            alignment as int,
                        );
                    }
                    // The partition of [0, capacity) is preserved: the taken
                    // addresses moved from the free side to the live side.
                    assert(post.entries() == pre.entries().insert(id, stored));
                    assert forall|p: int|
                        set_int_range(0, post.capacity_int()).contains(p) <==> (
                        #[trigger] post.free_set().contains(p) || post.covers(p)) by {
                        if post.covers(p) {
                            let i2 = choose|i2: u64|
                                #[trigger] post.entries().dom().contains(i2)
                                    && post.entries()[i2].interval.addrs().contains(p);
                            if i2 != id {
                                assert(pre.entries().dom().contains(i2));
                                assert(pre.covers(p));
                            }
                        }
                        if set_int_range(0, post.capacity_int()).contains(p) {
                            if pre.covers(p) {
                                let i2 = choose|i2: u64|
                                    #[trigger] pre.entries().dom().contains(i2)
                                        && pre.entries()[i2].interval.addrs().contains(p);
                                assert(post.entries().dom().contains(i2));
                                assert(post.covers(p));
                            } else {
                                assert(pre.free_set().contains(p));
                                if iv.addrs().contains(p) {
                                    assert(post.entries().dom().contains(id));
                                    assert(post.covers(p));
                                }
                            }
                        }
                    }
                    // Each live interval other than the new one is disjoint
                    // from the taken region, which was free.
                    assert forall|i2: u64|
                        #[trigger] post.entries().dom().contains(i2) implies post.entries()[
                        i2].interval.wf() && post.entries()[i2].interval.addrs().subset_of(
                        set_int_range(0, post.capacity_int()),
                    ) && post.entries()[i2].interval.addrs().disjoint(post.free_set()) by {
                        if i2 != id {
                            assert(pre.entries().dom().contains(i2));
                        }
                    }
                    assert forall|i1: u64, i2: u64|
                        #[trigger] post.entries().dom().contains(i1)
                            && #[trigger] post.entries().dom().contains(i2) && i1 != i2 implies post.entries()[
                        i1].interval.addrs().disjoint(post.entries()[i2].interval.addrs()) by {
                        if i1 != id && i2 != id {
                            assert(pre.entries().dom().contains(i1));
                            assert(pre.entries().dom().contains(i2));
                        } else if i1 == id {
                            assert(pre.entries().dom().contains(i2));
                            assert(pre.entries()[i2].interval.addrs().disjoint(pre.free_set()));
                        } else {
                            assert(pre.entries().dom().contains(i1));
                            assert(pre.entries()[i1].interval.addrs().disjoint(pre.free_set()));
                        }
                    }
                }
                Some(DataCopy { from, dst: LoadDst::MeshBuffer, interval: iv })
            },
        }
    }

    /// Reclaim the space of resource `id`, coalescing it back into the free
    /// tracker, and return its metadata; a no-op returning `None` if the id
    /// was never placed.
    pub fn remove(&mut self, id: u64) -> (r: Option<Metadata>)
        requires
            old(self).wf(),
        ensures
            final(self).wf(),
            final(self).capacity_int() == old(self).capacity_int(),
            match r {
                Some(meta) => {
                    &&& old(self).entries().contains_key(id)
                    &&& meta == old(self).entries()[id].meta
                    &&& final(self).entries() == old(self).entries().remove(id)
                    &&& final(self).free_set() == old(self).free_set().union(
                        old(self).entries()[id].interval.addrs(),
                    )
                },
                None => {
                    &&& !old(self).entries().contains_key(id)
                    &&& final(self).entries() == old(self).entries()
                    &&& final(self).free_set() == old(self).free_set()
                },
            },
    {
        let removed = self.meta.remove(id);
        match removed {
            None => None,
            Some(stored) => {
                proof {
                    assert(old(self).entries().dom().contains(id));
                }
                self.free.insert(stored.interval);
                proof {
                    let pre = *old(self);
                    let post = *self;
                    assert(post.entries() == pre.entries().remove(id));
                    assert forall|p: int|
                        set_int_range(0, post.capacity_int()).contains(p) <==> (
                        #[trigger] post.free_set().contains(p) || post.covers(p)) by {
                        if post.covers(p) {
                            let i2 = choose|i2: u64|
                                #[trigger] post.entries().dom().contains(i2)
                                    && post.entries()[i2].interval.addrs().contains(p);
                            assert(pre.entries().dom().contains(i2));
                            assert(pre.covers(p));
                        }
                        if set_int_range(0, post.capacity_int()).contains(p) {
                            if pre.covers(p) {
                                let i2 = choose|i2: u64|
                                    #[trigger] pre.entries().dom().contains(i2)
                                        && pre.entries()[i2].interval.addrs().contains(p);
                                if i2 != id {
                                    assert(post.entries().dom().contains(i2));
                                    assert(post.covers(p));
                                }
                            }
                        }
                    }
                    assert forall|i2: u64|
                        #[trigger] post.entries().dom().contains(i2) implies post.entries()[
                        i2].interval.wf() && post.entries()[i2].interval.addrs().subset_of(
                        set_int_range(0, post.capacity_int()),
                    ) && post.entries()[i2].interval.addrs().disjoint(post.free_set()) by {
                        assert(pre.entries().dom().contains(i2));
                        assert(pre.entries()[i2].interval.addrs().disjoint(
                            pre.entries()[id].interval.addrs(),
                        ));
                    }
                }
                Some(stored.meta)
            },
        }
    }

    /// Total free length in bytes, as the free tracker reports it.
    pub fn total_free(&self) -> (r: u64)
        requires
            self.wf(),
        ensures
            r == self.free_set().len(),
    {
        self.free.total_free()
    }

    /// Whether resource `id` currently has a placement.
    pub fn contains(&self, id: u64) -> (r: bool)
        ensures
            r == self.entries().contains_key(id),
    {
        self.meta.contains(id)
    }

    /// No space leaks: once every placement has been removed, the free
    /// tracker again covers the whole buffer, so an equal number of matching
    /// adds and removes restores the total free length to the capacity.
    pub proof fn lemma_empty_all_free(self)
        requires
            self.wf(),
            self.entries().dom() =~= Set::<u64>::empty(),
        ensures
            self.free_set() =~= set_int_range(0, self.capacity_int()),
            self.free_set().len() == self.capacity_int(),
    {
        assert forall|p: int| set_int_range(0, self.capacity_int()).contains(p) implies self.free_set().contains(
            p,
        ) by {
            if self.covers(p) {
                let id = choose|id: u64|
                    #[trigger] self.entries().dom().contains(id)
                        && self.entries()[id].interval.addrs().contains(p);
            }
        }
        vstd::set_lib::lemma_int_range(0, self.capacity_int());
        assert(self.free_set() =~= set_int_range(0, self.capacity_int()));
    }

    /// Accounting: the free bytes and the live bytes always sum to the
    /// capacity, so no placement over-commits the buffer and no removal
    /// leaks space.
    pub proof fn lemma_free_plus_live_is_capacity(self)
        requires
            self.wf(),
        ensures
            self.free_set().len() + self.live_addrs().len() == self.capacity_int(),
    {
        let range = set_int_range(0, self.capacity_int());
        assert forall|p: int| self.free_set().contains(p) implies !self.live_addrs().contains(
            p,
        ) by {
            if self.covers(p) {
                let id = choose|id: u64|
                    #[trigger] self.entries().dom().contains(id)
                        && self.entries()[id].interval.addrs().contains(p);
            }
        }
        assert forall|p: int| self.live_addrs().contains(p) implies range.contains(p) by {
            if self.covers(p) {
                let id = choose|id: u64|
                    #[trigger] self.entries().dom().contains(id)
                        && self.entries()[id].interval.addrs().contains(p);
            }
        }
        assert(self.free_set().union(self.live_addrs()) =~= range);
        vstd::set_lib::lemma_int_range(0, self.capacity_int());
        crate::free::lemma_seq_addrs_finite(self.free_tracker_intervals());
        assert(self.live_addrs() =~= range.difference(self.free_set()));
        crate::free::lemma_disjoint_union_len(self.free_set(), self.live_addrs());
    }

    /// The central partition: every buffer address is either free or
    /// covered by a live placement, and never both.
    pub proof fn lemma_partition(self, p: int)
        requires
            self.wf(),
        ensures
            set_int_range(0, self.capacity_int()).contains(p) <==> (self.free_set().contains(p)
                || self.covers(p)),
            !(self.free_set().contains(p) && self.covers(p)),
    {
        if self.covers(p) {
            let id = choose|id: u64|
                #[trigger] self.entries().dom().contains(id)
                    && self.entries()[id].interval.addrs().contains(p);
        }
    }

    /// Allocator round trip: a removal hands back exactly the addresses
    /// its matching add consumed (`add` carves `t` out of the free set `f`;
    /// `remove` unions it back), so after an equal number of matching adds
    /// and removes the free set — and with it the total free length — is
    /// what it was before the sequence.
    pub proof fn lemma_add_remove_round_trip(f: Set<int>, t: Set<int>)
        requires
            t.subset_of(f),
        ensures
            f.difference(t).union(t) =~= f,
    {
    }

    /// No two concurrently live intervals overlap.
    pub proof fn lemma_live_disjoint(self, id1: u64, id2: u64)
        requires
            self.wf(),
            self.entries().contains_key(id1),
            self.entries().contains_key(id2),
            id1 != id2,
        ensures
            self.entries()[id1].interval.addrs().disjoint(self.entries()[id2].interval.addrs()),
    {
    }

    /// Live intervals never reach beyond the buffer, and are never free.
    pub proof fn lemma_live_within(self, id: u64)
        requires
            self.wf(),
            self.entries().contains_key(id),
        ensures
            self.entries()[id].interval.wf(),
            self.entries()[id].interval.addrs().subset_of(
                set_int_range(0, self.capacity_int()),
            ),
            self.entries()[id].interval.addrs().disjoint(self.free_set()),
    {
    }
}

} // verus!
