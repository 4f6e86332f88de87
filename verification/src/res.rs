//! Resource streaming: reference-counted handles, identities, and the
//! lifecycle action mailbox that carries `Add`/`Remove` actions from the
//! handles to the worker.
//!
//! Shared state is explicit: the `Registry` owns the per-id share counts
//! and loaded flags, and every handle operation takes it (and, where an
//! action may be emitted, the action `Sender`) as an argument. The drop of
//! the last reference is the explicit `release`, which enqueues the
//! `Remove` action itself.

pub mod store;
pub mod worker;

use vstd::prelude::*;

use crate::res::store::Metadata;

verus! {

broadcast use vstd::std_specs::hash::group_hash_axioms;

/// The kind of a resource, for dispatch and diagnostics.
#[derive(Debug, Clone, Copy)]
pub enum Type {
    Mesh,
    Texture,
}

/// Transport format of a payload produced by a source.
#[derive(Debug, Clone, Copy)]
pub enum Format {
    RawMesh,
    Ktx2,
}

/// Why a load attempt failed; never fatal to the subsystem, only to this
/// one resource's load.
#[derive(Debug, Clone)]
pub enum LoadError {
    Failed(String),
}

impl LoadError {
    /// The human-readable cause.
    pub fn message(&self) -> (r: &String)
        ensures
            r@ == self->Failed_0@,
    {
        match self {
            LoadError::Failed(cause) => cause,
        }
    }
}

/// The decoded payload a source produces: transport format, the decoded
/// per-resource description, and the raw bytes.
#[derive(Clone)]
pub struct Data {
    pub format: Format,
    pub meta: Metadata,
    pub data: Vec<u8>,
}

/// A pluggable producer of resource payloads from an unspecified origin;
/// implemented by the library's users, invoked from worker threads.
pub trait Source {
    fn load(&self) -> Result<Data, LoadError>;
}

/// Produces a fresh `Source` per load attempt, for origins whose sources
/// are single-use.
pub trait SourceFactory {
    type Produced: Source;

    fn source(&self) -> Self::Produced;
}

/// What an `Add` action carries: the resource's id and kind, and the
/// source that will produce its bytes.
pub struct Info<S> {
    pub id: u64,
    pub typ: Type,
    pub src: S,
}

impl<S> Info<S> {
    pub fn new(id: u64, typ: Type, src: S) -> (r: Info<S>)
        ensures
            r.id == id,
            r.typ == typ,
            r.src == src,
    {
        Info { id, typ, src }
    }
}

/// A lifecycle action flowing from the handles to the worker.
pub enum Action<S> {
    Add(Info<S>),
    Remove(u64),
}

/// The bounded, ordered action mailbox: a FIFO queue of lifecycle actions
/// with a fixed capacity. A full queue is backpressure, not an error: the
/// caller holds the action until there is room.
pub struct Sender<S> {
    queue: Vec<Action<S>>,
    capacity: usize,
}

impl<S> Sender<S> {
    /// The queued actions, oldest first.
    pub closed spec fn actions(self) -> Seq<Action<S>> {
        self.queue@
    }

    /// The fixed bound of the mailbox.
    pub closed spec fn capacity_spec(self) -> int {
        self.capacity as int
    }

    /// An action may be enqueued only while there is room.
    pub open spec fn has_room(self) -> bool {
        self.actions().len() < self.capacity_spec()
    }

    /// A fresh, empty mailbox of the given capacity.
    pub fn new(capacity: usize) -> (r: Sender<S>)
        ensures
            r.actions() =~= Seq::<Action<S>>::empty(),
            r.capacity_spec() == capacity,
    {
        Sender { queue: Vec::new(), capacity }
    }

    /// Number of queued actions.
    pub fn len(&self) -> (r: usize)
        ensures
            r == self.actions().len(),
    {
        self.queue.len()
    }

    /// Whether an action can be enqueued right now.
    pub fn ready(&self) -> (r: bool)
        ensures
            r == self.has_room(),
    {
        self.queue.len() < self.capacity
    }

    /// Enqueue one action at the back.
    pub fn send(&mut self, action: Action<S>)
        requires
            old(self).has_room(),
        ensures
            final(self).actions() == old(self).actions().push(action),
            final(self).capacity_spec() == old(self).capacity_spec(),
    {
        self.queue.push(action);
    }

    /// Dequeue the oldest action; the consumer side of the mailbox.
    pub fn recv(&mut self) -> (r: Option<Action<S>>)
        ensures
            final(self).capacity_spec() == old(self).capacity_spec(),
            match r {
                Some(a) => old(self).actions().len() > 0 && a == old(self).actions()[0]
                    && final(self).actions() == old(self).actions().drop_first(),
                None => old(self).actions().len() == 0 && final(self).actions() == old(
                    self,
                ).actions(),
            },
    {
        if self.queue.len() == 0 {
            None
        } else {
            let a = self.queue.remove(0);
            proof {
                assert(final(self).actions() =~= old(self).actions().drop_first());
            }
            Some(a)
        }
    }
}

/// Sizing of the streaming subsystem: the action mailbox depth, the worker
/// pool width, and the storage sizing.
#[derive(Debug, Clone, Copy)]
pub struct Settings {
    pub channel_size: usize,
    pub io_threads: usize,
    pub storage: crate::res::store::Settings,
}

impl Default for Settings {
    fn default() -> (r: Settings)
        ensures
            r.channel_size == 1024,
            r.io_threads == 32,
            r.storage.mesh_buffer_length == crate::res::store::MEBIBYTE * 128,
            r.storage.init_resources_count == 1024,
    {
        Settings {
            channel_size: 1024,
            io_threads: 32,
            storage: crate::res::store::Settings {
                mesh_buffer_length: 128 * crate::res::store::MEBIBYTE,
                init_resources_count: 1024,
            },
        }
    }
}

/// The identity table after recording a fresh id with a single owner.
pub open spec fn reg_register(m: Map<u64, RefEntry>, id: u64) -> Map<u64, RefEntry> {
    m.insert(id, RefEntry { refs: 1, loaded: false })
}

/// The identity table after one more owner shares the id.
pub open spec fn reg_share(m: Map<u64, RefEntry>, id: u64) -> Map<u64, RefEntry> {
    m.insert(id, RefEntry { refs: (m[id].refs + 1) as u64, loaded: m[id].loaded })
}

/// The identity table after one owner lets go of the id: the entry is
/// retired exactly when that owner was the last.
pub open spec fn reg_release(m: Map<u64, RefEntry>, id: u64) -> Map<u64, RefEntry> {
    if m[id].refs == 1 {
        m.remove(id)
    } else {
        m.insert(id, RefEntry { refs: (m[id].refs - 1) as u64, loaded: m[id].loaded })
    }
}

/// A release by the last owner, and only such a release, emits `Remove`.
pub open spec fn release_emits(m: Map<u64, RefEntry>, id: u64) -> bool {
    m[id].refs == 1
}

/// The share count and loaded flag of one live identity.
#[derive(Debug, Clone, Copy, PartialEq, Eq, Structural)]
pub struct RefEntry {
    pub refs: u64,
    pub loaded: bool,
}

/// The identity table: the explicit owner of every live id's share count
/// and loaded flag, together with the monotonic id generator. Ids are never
/// reused: the counter only grows, and every id ever handed out is below
/// it.
pub struct Registry {
    next_id: u64,
    entries: std::collections::HashMap<u64, RefEntry>,
}

impl Registry {
    /// The live identities.
    pub closed spec fn live(self) -> Map<u64, RefEntry> {
        self.entries@
    }

    /// The next id to be handed out.
    pub closed spec fn next(self) -> int {
        self.next_id as int
    }

    /// Every live id was handed out before, and every live identity is
    /// held by at least one owner.
    pub open spec fn wf(self) -> bool {
        &&& forall|id: u64|
            #[trigger] self.live().dom().contains(id) ==> id < self.next() && self.live()[id].refs
                >= 1
    }

    /// An empty table; ids start at zero.
    pub fn new() -> (r: Registry)
        ensures
            r.wf(),
            r.live() == Map::<u64, RefEntry>::empty(),
            r.next() == 0,
    {
        Registry { next_id: 0, entries: std::collections::HashMap::new() }
    }

    /// Record a freshly minted identity with a single owner.
    pub fn register(&mut self, id: u64)
        requires
            old(self).wf(),
            !old(self).live().contains_key(id),
            id < old(self).next(),
        ensures
            final(self).wf(),
            final(self).live() == reg_register(old(self).live(), id),
            final(self).next() == old(self).next(),
    {
        self.entries.insert(id, RefEntry { refs: 1, loaded: false });
    }

    /// One more owner shares the identity.
    pub fn share(&mut self, id: u64)
        requires
            old(self).wf(),
            old(self).live().contains_key(id),
            old(self).live()[id].refs < u64::MAX,
        ensures
            final(self).wf(),
            final(self).live() == reg_share(old(self).live(), id),
            final(self).next() == old(self).next(),
    {
        let entry = *self.entries.get(&id).unwrap();
        self.entries.insert(id, RefEntry { refs: entry.refs + 1, loaded: entry.loaded });
    }

    /// One owner lets go of the identity. Returns whether it was the last
    /// owner; the entry is retired exactly then.
    pub fn release(&mut self, id: u64) -> (last: bool)
        requires
            old(self).wf(),
            old(self).live().contains_key(id),
        ensures
            final(self).wf(),
            final(self).next() == old(self).next(),
            last == release_emits(old(self).live(), id),
            final(self).live() == reg_release(old(self).live(), id),
    {
        let entry = *self.entries.get(&id).unwrap();
        if entry.refs == 1 {
            self.entries.remove(&id);
            true
        } else {
            self.entries.insert(id, RefEntry { refs: entry.refs - 1, loaded: entry.loaded });
            false
        }
    }

    /// How many owners share the id; zero when it has none.
    pub fn refs(&self, id: u64) -> (r: u64)
        ensures
            r == (if self.live().contains_key(id) {
                self.live()[id].refs
            } else {
                0u64
            }),
    {
        match self.entries.get(&id) {
            Some(entry) => entry.refs,
            None => 0,
        }
    }

    /// The id the generator will hand out next.
    pub fn next_raw(&self) -> (r: u64)
        ensures
            r == self.next(),
    {
        self.next_id
    }

    /// Whether the id has any live owner.
    pub fn contains(&self, id: u64) -> (r: bool)
        ensures
            r == self.live().contains_key(id),
    {
        self.entries.contains_key(&id)
    }

    /// Read the shared loaded flag; an id without owners reads as not
    /// loaded.
    pub fn is_loaded(&self, id: u64) -> (r: bool)
        ensures
            r == (self.live().contains_key(id) && self.live()[id].loaded),
    {
        match self.entries.get(&id) {
            Some(entry) => entry.loaded,
            None => false,
        }
    }

    /// The worker sets the loaded flag after a successful placement; a
    /// no-op if the identity is already gone. Returns whether it was set.
    pub fn mark_loaded(&mut self, id: u64) -> (r: bool)
        requires
            old(self).wf(),
        ensures
            final(self).wf(),
            final(self).next() == old(self).next(),
            r == old(self).live().contains_key(id),
            r ==> final(self).live() == old(self).live().insert(
                id,
                RefEntry { refs: old(self).live()[id].refs, loaded: true },
            ),
            !r ==> final(self).live() == old(self).live(),
    {
        match self.entries.get(&id) {
            Some(entry) => {
                let refs = entry.refs;
                self.entries.insert(id, RefEntry { refs, loaded: true });
                true
            },
            None => false,
        }
    }
}

/// Mint a process-unique id: the generator's current value, which is then
/// advanced and never handed out again.
pub fn new_id(reg: &mut Registry) -> (id: u64)
    requires
        old(reg).wf(),
        old(reg).next() < u64::MAX,
    ensures
        final(reg).wf(),
        id == old(reg).next(),
        final(reg).next() == old(reg).next() + 1,
        final(reg).live() == old(reg).live(),
        !final(reg).live().contains_key(id),
{
    let id = reg.next_id;
    reg.next_id = reg.next_id + 1;
    proof {
        assert(reg.live() == old(reg).live());
        assert forall|i: u64| #[trigger] reg.live().dom().contains(i) implies i < reg.next()
            && reg.live()[i].refs >= 1 by {
            assert(old(reg).live().dom().contains(i));
        }
    }
    id
}

/// The unique, never-reused identity token behind one or more handles.
#[derive(Debug, Clone, Copy, PartialEq, Eq, Structural)]
pub struct UniqueId {
    id: u64,
}

impl UniqueId {
    /// Mint a fresh identity from the generator.
    pub fn new(reg: &mut Registry) -> (r: UniqueId)
        requires
            old(reg).wf(),
            old(reg).next() < u64::MAX,
        ensures
            final(reg).wf(),
            r.raw_spec() == old(reg).next(),
            final(reg).next() == old(reg).next() + 1,
            final(reg).live() == old(reg).live(),
            !final(reg).live().contains_key(r.raw_spec()),
    {
        UniqueId { id: new_id(reg) }
    }

    /// The numeric id.
    pub closed spec fn raw_spec(self) -> u64 {
        self.id
    }

    pub fn raw(&self) -> (r: u64)
        ensures
            r == self.raw_spec(),
    {
        self.id
    }
}

/// What a handle wraps: the identity and the loaded flag observed when the
/// handle was minted. The live flag is read through the registry.
#[derive(Debug, Clone, Copy)]
pub struct Inner {
    id: UniqueId,
    loaded: bool,
}

impl Inner {
    pub fn new(id: UniqueId, loaded: bool) -> (r: Inner)
        ensures
            r.id_spec() == id,
            r.loaded_spec() == loaded,
    {
        Inner { id, loaded }
    }

    pub closed spec fn id_spec(self) -> UniqueId {
        self.id
    }

    pub closed spec fn loaded_spec(self) -> bool {
        self.loaded
    }

    pub fn id(&self) -> (r: &UniqueId)
        ensures
            r == self.id_spec(),
    {
        &self.id
    }

    /// The loaded flag as observed when this wrapper was minted: a
    /// snapshot, not the live flag. The live flag is owned by the
    /// `Registry` and read through the handle's `is_loaded(&Registry)`.
    pub fn is_loaded(&self) -> (r: bool)
        ensures
            r == self.loaded_spec(),
    {
        self.loaded
    }
}

impl PartialEq for Inner {
    /// Identity equality: two wrappers are the same resource exactly when
    /// their ids agree.
    fn eq(&self, other: &Inner) -> (r: bool) {
        self.id.raw() == other.id.raw()
    }
}

impl vstd::std_specs::cmp::PartialEqSpecImpl for Inner {
    open spec fn obeys_eq_spec() -> bool {
        true
    }

    open spec fn eq_spec(&self, other: &Inner) -> bool {
        self.id_spec() == other.id_spec()
    }
}

/// A reference-counted mesh resource handle. Minting it enqueues `Add`;
/// `share` records one more owner; `release` of the last owner enqueues
/// `Remove`.
#[derive(Debug)]
pub struct Mesh {
    inner: Inner,
}

impl Mesh {
    /// The wrapped identity.
    pub closed spec fn inner_spec(self) -> Inner {
        self.inner
    }

    /// The id of the identity this handle shares.
    pub closed spec fn id_spec(self) -> u64 {
        self.inner.id_spec().raw_spec()
    }

    /// The resource kind this handle type carries.
    pub fn typ() -> (r: Type)
        ensures
            r is Mesh,
    {
        Type::Mesh
    }

    /// Mint a new mesh resource: allocate a fresh id, record its single
    /// owner, and enqueue the `Add` action carrying the source.
    pub fn new<S>(src: S, reg: &mut Registry, sender: &mut Sender<S>) -> (m: Mesh)
        requires
            old(reg).wf(),
            old(reg).next() < u64::MAX,
            old(sender).has_room(),
        ensures
            final(reg).wf(),
            m.id_spec() == old(reg).next(),
            final(reg).next() == old(reg).next() + 1,
            final(reg).live() == reg_register(old(reg).live(), m.id_spec()),
            final(reg).live()[m.id_spec()] == (RefEntry { refs: 1, loaded: false }),
            !m.inner_spec().loaded_spec(),
            final(sender).actions() == old(sender).actions().push(
                Action::Add((Info { id: m.id_spec(), typ: Type::Mesh, src })),
            ),
            final(sender).capacity_spec() == old(sender).capacity_spec(),
    {
        let id = UniqueId::new(reg);
        reg.register(id.raw());
        let info = Info::new(id.raw(), Type::Mesh, src);
        sender.send(Action::Add(info));
        Mesh { inner: Inner::new(id, false) }
    }

    /// The wrapped identity.
    pub fn inner(&self) -> (r: &Inner)
        ensures
            r.id_spec().raw_spec() == self.id_spec(),
    {
        &self.inner
    }

    /// Share the identity: one more owner, no new id, no action.
    pub fn share(&self, reg: &mut Registry) -> (m: Mesh)
        requires
            old(reg).wf(),
            old(reg).live().contains_key(self.id_spec()),
            old(reg).live()[self.id_spec()].refs < u64::MAX,
        ensures
            final(reg).wf(),
            m.id_spec() == self.id_spec(),
            final(reg).live() == reg_share(old(reg).live(), self.id_spec()),
            final(reg).next() == old(reg).next(),
    {
        reg.share(self.inner.id().raw());
        Mesh { inner: self.inner }
    }

    /// Let go of this reference. The last owner's release retires the
    /// identity and enqueues exactly one `Remove`; earlier releases
    /// enqueue nothing.
    pub fn release<S>(self, reg: &mut Registry, sender: &mut Sender<S>)
        requires
            old(reg).wf(),
            old(reg).live().contains_key(self.id_spec()),
            old(sender).has_room(),
        ensures
            final(reg).wf(),
            final(reg).next() == old(reg).next(),
            final(reg).live() == reg_release(old(reg).live(), self.id_spec()),
            final(sender).actions() == (if release_emits(old(reg).live(), self.id_spec()) {
                old(sender).actions().push(Action::Remove(self.id_spec()))
            } else {
                old(sender).actions()
            }),
            final(sender).capacity_spec() == old(sender).capacity_spec(),
    {
        let id = self.inner.id().raw();
        let last = reg.release(id);
        if last {
            sender.send(Action::Remove(id));
        }
    }

    /// Read the live loaded flag of this handle's resource.
    pub fn is_loaded(&self, reg: &Registry) -> (r: bool)
        ensures
            r == (reg.live().contains_key(self.id_spec()) && reg.live()[self.id_spec()].loaded),
    {
        reg.is_loaded(self.inner.id().raw())
    }
}

/// A reference-counted texture resource handle; the texture sibling of
/// `Mesh`, with the same lifecycle.
#[derive(Debug)]
pub struct Texture {
    inner: Inner,
}

impl Texture {
    /// The wrapped identity.
    pub closed spec fn inner_spec(self) -> Inner {
        self.inner
    }

    /// The id of the identity this handle shares.
    pub closed spec fn id_spec(self) -> u64 {
        self.inner.id_spec().raw_spec()
    }

    /// The resource kind this handle type carries.
    pub fn typ() -> (r: Type)
        ensures
            r is Texture,
    {
        Type::Texture
    }

    /// Mint a new texture resource: a fresh id, one owner, one `Add`.
    pub fn new<S>(src: S, reg: &mut Registry, sender: &mut Sender<S>) -> (t: Texture)
        requires
            old(reg).wf(),
            old(reg).next() < u64::MAX,
            old(sender).has_room(),
        ensures
            final(reg).wf(),
            t.id_spec() == old(reg).next(),
            final(reg).next() == old(reg).next() + 1,
            final(reg).live() == reg_register(old(reg).live(), t.id_spec()),
            final(reg).live()[t.id_spec()] == (RefEntry { refs: 1, loaded: false }),
            !t.inner_spec().loaded_spec(),
            final(sender).actions() == old(sender).actions().push(
                Action::Add((Info { id: t.id_spec(), typ: Type::Texture, src })),
            ),
            final(sender).capacity_spec() == old(sender).capacity_spec(),
    {
        let id = UniqueId::new(reg);
        reg.register(id.raw());
        let info = Info::new(id.raw(), Type::Texture, src);
        sender.send(Action::Add(info));
        Texture { inner: Inner::new(id, false) }
    }

    /// The wrapped identity.
    pub fn inner(&self) -> (r: &Inner)
        ensures
            r.id_spec().raw_spec() == self.id_spec(),
    {
        &self.inner
    }

    /// Share the identity: one more owner, no new id, no action.
    pub fn share(&self, reg: &mut Registry) -> (t: Texture)
        requires
            old(reg).wf(),
            old(reg).live().contains_key(self.id_spec()),
            old(reg).live()[self.id_spec()].refs < u64::MAX,
        ensures
            final(reg).wf(),
            t.id_spec() == self.id_spec(),
            final(reg).live() == reg_share(old(reg).live(), self.id_spec()),
            final(reg).next() == old(reg).next(),
    {
        reg.share(self.inner.id().raw());
        Texture { inner: self.inner }
    }

    /// Let go of this reference; the last owner's release enqueues the
    /// one `Remove`.
    pub fn release<S>(self, reg: &mut Registry, sender: &mut Sender<S>)
        requires
            old(reg).wf(),
            old(reg).live().contains_key(self.id_spec()),
            old(sender).has_room(),
        ensures
            final(reg).wf(),
            final(reg).next() == old(reg).next(),
            final(reg).live() == reg_release(old(reg).live(), self.id_spec()),
            final(sender).actions() == (if release_emits(old(reg).live(), self.id_spec()) {
                old(sender).actions().push(Action::Remove(self.id_spec()))
            } else {
                old(sender).actions()
            }),
            final(sender).capacity_spec() == old(sender).capacity_spec(),
    {
        let id = self.inner.id().raw();
        let last = reg.release(id);
        if last {
            sender.send(Action::Remove(id));
        }
    }

    /// Read the live loaded flag of this handle's resource.
    pub fn is_loaded(&self, reg: &Registry) -> (r: bool)
        ensures
            r == (reg.live().contains_key(self.id_spec()) && reg.live()[self.id_spec()].loaded),
    {
        reg.is_loaded(self.inner.id().raw())
    }
}

/// The identity table after the id has been shared `n` further times.
pub open spec fn after_shares(m: Map<u64, RefEntry>, id: u64, n: nat) -> Map<u64, RefEntry>
    decreases n,
{
    if n == 0 {
        m
    } else {
        reg_share(after_shares(m, id, (n - 1) as nat), id)
    }
}

/// The identity table and the action stream after `k` successive releases
/// of the id, each appending `Remove` exactly when it was the last owner's,
/// as `release` does.
pub open spec fn after_drops<S>(
    m: Map<u64, RefEntry>,
    q: Seq<Action<S>>,
    id: u64,
    k: nat,
) -> (Map<u64, RefEntry>, Seq<Action<S>>)
    decreases k,
{
    if k == 0 {
        (m, q)
    } else {
        let prev = after_drops(m, q, id, (k - 1) as nat);
        (
            reg_release(prev.0, id),
            if release_emits(prev.0, id) {
                prev.1.push(Action::Remove(id))
            } else {
                prev.1
            },
        )
    }
}

/// Sharing only raises the share count: `n` shares of an id held by one
/// owner leave it with `n + 1` owners, its loaded flag and every other
/// identity untouched.
proof fn lemma_after_shares(m: Map<u64, RefEntry>, id: u64, n: nat)
    requires
        m.contains_key(id),
        m[id].refs + n <= u64::MAX,
    ensures
        after_shares(m, id, n).contains_key(id),
        after_shares(m, id, n)[id].refs == m[id].refs + n,
        after_shares(m, id, n)[id].loaded == m[id].loaded,
        after_shares(m, id, n).remove(id) =~= m.remove(id),
    decreases n,
{
    if n > 0 {
        lemma_after_shares(m, id, (n - 1) as nat);
    }
}

/// Releasing `k` of `r` references emits nothing while owners remain and
/// exactly one `Remove` when the last owner lets go.
proof fn lemma_after_drops<S>(m: Map<u64, RefEntry>, q: Seq<Action<S>>, id: u64, k: nat)
    requires
        m.contains_key(id),
        m[id].refs >= 1,
        k <= m[id].refs,
    ensures
        ({
            let after = after_drops(m, q, id, k);
            &&& after.0.remove(id) =~= m.remove(id)
            &&& if k < m[id].refs {
                &&& after.0.contains_key(id)
                &&& after.0[id].refs == m[id].refs - k
                &&& after.0[id].loaded == m[id].loaded
                &&& after.1 =~= q
            } else {
                &&& after.0 =~= m.remove(id)
                &&& after.1 =~= q.push(Action::Remove(id))
            }
        }),
    decreases k,
{
    if k > 0 {
        lemma_after_drops(m, q, id, (k - 1) as nat);
    }
}

/// Lifecycle ordering: minting a handle appends exactly one `Add` with its
/// fresh id, and releasing its only reference appends exactly one `Remove`;
/// over the whole life, the action stream gains exactly `[Add, Remove]`,
/// in that order, and the identity is retired.
pub proof fn lemma_lifecycle_ordering<S>(m0: Map<u64, RefEntry>, q0: Seq<Action<S>>, info: Info<S>)
    requires
        !m0.contains_key(info.id),
    ensures
        ({
            let m1 = reg_register(m0, info.id);
            let q1 = q0.push(Action::Add(info));
            let after = after_drops(m1, q1, info.id, 1);
            &&& after.0 =~= m0
            &&& after.1 =~= q0.push(Action::Add(info)).push(Action::Remove(info.id))
            &&& after.1.subrange(q0.len() as int, after.1.len() as int) =~= seq![
                Action::Add(info),
                Action::Remove(info.id),
            ]
        }),
{
    let m1 = reg_register(m0, info.id);
    let q1 = q0.push(Action::Add(info));
    lemma_after_drops(m1, q1, info.id, 1);
    assert(m1.remove(info.id) =~= m0);
}

/// Refcount sharing: after minting one handle (one `Add`), sharing it `n`
/// further times (no actions), and releasing all `n + 1` references, the
/// action stream has gained exactly one `Add` and exactly one `Remove` —
/// not `n + 1` of each — and the identity is retired.
pub proof fn lemma_refcount_sharing<S>(
    m0: Map<u64, RefEntry>,
    q0: Seq<Action<S>>,
    info: Info<S>,
    n: nat,
)
    requires
        !m0.contains_key(info.id),
        n + 1 <= u64::MAX,
    ensures
        ({
            let m1 = after_shares(reg_register(m0, info.id), info.id, n);
            let q1 = q0.push(Action::Add(info));
            let after = after_drops(m1, q1, info.id, n + 1);
            &&& m1[info.id].refs == n + 1
            &&& after.0 =~= m0
            &&& after.1 =~= q1.push(Action::Remove(info.id))
            &&& after.1.subrange(q0.len() as int, after.1.len() as int) =~= seq![
                Action::Add(info),
                Action::Remove(info.id),
            ]
        }),
{
    let r1 = reg_register(m0, info.id);
    lemma_after_shares(r1, info.id, n);
    let m1 = after_shares(r1, info.id, n);
    let q1 = q0.push(Action::Add(info));
    lemma_after_drops(m1, q1, info.id, n + 1);
    assert(m1.remove(info.id) =~= m0.remove(info.id));
    assert(after_drops(m1, q1, info.id, n + 1).0 =~= m0);
}

} // verus!
