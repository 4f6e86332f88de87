//! Lifecycle tests: handles, identities, and the action mailbox.

use htb::res::new_id;
use htb::res::Action;
use htb::res::Data;
use htb::res::Format;
use htb::res::Info;
use htb::res::Inner;
use htb::res::LoadError;
use htb::res::Mesh;
use htb::res::Registry;
use htb::res::Sender;
use htb::res::Source;
use htb::res::SourceFactory;
use htb::res::Texture;
use htb::res::Type;
use htb::res::UniqueId;
use htb::res::store::MeshMetadata;
use htb::res::store::Metadata;

#[derive(Debug)]
struct NeverSource;

impl Source for NeverSource {
    fn load(&self) -> Result<Data, LoadError> {
        panic!("this source is never invoked in these tests")
    }
}

#[derive(Debug)]
struct MeshDataSrcFactory;

impl SourceFactory for MeshDataSrcFactory {
    type Produced = NeverSource;

    fn source(&self) -> NeverSource {
        panic!("this factory is never invoked in these tests")
    }
}

#[derive(Debug)]
struct MeshDataSrc;

impl Source for MeshDataSrc {
    fn load(&self) -> Result<Data, LoadError> {
        Ok(Data {
            data: Default::default(),
            format: Format::RawMesh,
            meta: Metadata::Mesh(MeshMetadata {
                vertex_size: 1,
                vertex_count: 0,
                vertex_offset: 0,
                data_offset: 0,
            }),
        })
    }
}

#[test]
fn mod_test_actions_sent() {
    let mut reg = Registry::new();
    let mut sender: Sender<MeshDataSrcFactory> = Sender::new(10);

    let mesh = Mesh::new(MeshDataSrcFactory, &mut reg, &mut sender);
    mesh.release(&mut reg, &mut sender);

    let add_action = sender.recv().unwrap();
    assert!(matches!(add_action, Action::Add(..)));
    let remove_action = sender.recv().unwrap();
    assert!(matches!(remove_action, Action::Remove(..)));
}

#[test]
fn resource_test_actions_sent() {
    let mut reg = Registry::new();
    let mut sender: Sender<MeshDataSrc> = Sender::new(10);

    let mesh = Mesh::new(MeshDataSrc, &mut reg, &mut sender);
    mesh.release(&mut reg, &mut sender);

    let add_action = sender.recv().unwrap();
    assert!(matches!(add_action, Action::Add(..)));
    let remove_action = sender.recv().unwrap();
    assert!(matches!(remove_action, Action::Remove(..)));
}

#[test]
fn sharing_emits_one_add_and_one_remove() {
    let mut reg = Registry::new();
    let mut sender: Sender<NeverSource> = Sender::new(16);

    let mesh = Mesh::new(NeverSource, &mut reg, &mut sender);
    let c1 = mesh.share(&mut reg);
    let c2 = mesh.share(&mut reg);
    let c3 = mesh.share(&mut reg);

    c1.release(&mut reg, &mut sender);
    c2.release(&mut reg, &mut sender);
    c3.release(&mut reg, &mut sender);
    mesh.release(&mut reg, &mut sender);

    let mut adds = 0;
    let mut removes = 0;
    while let Some(action) = sender.recv() {
        match action {
            Action::Add(..) => adds += 1,
            Action::Remove(..) => removes += 1,
        }
    }
    assert_eq!(adds, 1);
    assert_eq!(removes, 1);
}

#[test]
fn add_precedes_remove_with_matching_id() {
    let mut reg = Registry::new();
    let mut sender: Sender<NeverSource> = Sender::new(4);

    let texture = Texture::new(NeverSource, &mut reg, &mut sender);
    texture.release(&mut reg, &mut sender);

    let first = sender.recv().unwrap();
    let second = sender.recv().unwrap();
    let added = match first {
        Action::Add(info) => {
            assert!(matches!(info.typ, Type::Texture));
            info.id
        },
        Action::Remove(..) => panic!("remove arrived before add"),
    };
    match second {
        Action::Remove(id) => assert_eq!(id, added),
        Action::Add(..) => panic!("a second add arrived"),
    }
    assert!(sender.recv().is_none());
}

#[test]
fn ids_are_unique_and_monotonic() {
    let mut reg = Registry::new();
    let a = new_id(&mut reg);
    let b = new_id(&mut reg);
    let c = new_id(&mut reg);
    assert_eq!(a, 0);
    assert_eq!(b, 1);
    assert_eq!(c, 2);

    let id = UniqueId::new(&mut reg);
    assert_eq!(id.raw(), 3);
}

#[test]
fn inner_reads_back_its_fields() {
    let mut reg = Registry::new();
    let id = UniqueId::new(&mut reg);
    let raw = id.raw();
    let inner = Inner::new(id, false);
    assert_eq!(inner.id().raw(), raw);
    assert!(!inner.is_loaded());

    let loaded = Inner::new(UniqueId::new(&mut reg), true);
    assert!(loaded.is_loaded());
}

#[test]
fn handles_start_unloaded() {
    let mut reg = Registry::new();
    let mut sender: Sender<NeverSource> = Sender::new(4);
    let mesh = Mesh::new(NeverSource, &mut reg, &mut sender);
    assert!(!mesh.is_loaded(&reg));
    mesh.release(&mut reg, &mut sender);
}

#[test]
fn info_carries_id_and_kind() {
    let info = Info::new(7, Type::Mesh, NeverSource);
    assert_eq!(info.id, 7);
    assert!(matches!(info.typ, Type::Mesh));
}

#[test]
fn empty_mailbox_receives_nothing() {
    let mut sender: Sender<NeverSource> = Sender::new(2);
    assert_eq!(sender.len(), 0);
    assert!(sender.recv().is_none());
    assert!(sender.ready());
}

#[test]
fn load_error_carries_its_cause() {
    let err = LoadError::Failed("the origin is gone".to_string());
    assert_eq!(err.message(), "the origin is gone");
}

#[test]
fn full_mailbox_applies_backpressure() {
    let mut reg = Registry::new();
    let mut sender: Sender<NeverSource> = Sender::new(1);
    assert!(sender.ready());

    let mesh = Mesh::new(NeverSource, &mut reg, &mut sender);
    // One action fills the single slot: the producer must wait.
    assert!(!sender.ready());
    assert_eq!(sender.len(), 1);

    // The consumer drains the slot and the release can go through.
    assert!(matches!(sender.recv().unwrap(), Action::Add(..)));
    assert!(sender.ready());
    mesh.release(&mut reg, &mut sender);
    assert!(matches!(sender.recv().unwrap(), Action::Remove(..)));
}

#[test]
fn share_counts_track_owners() {
    let mut reg = Registry::new();
    let mut sender: Sender<NeverSource> = Sender::new(8);

    let mesh = Mesh::new(NeverSource, &mut reg, &mut sender);
    let id = mesh.inner().id().raw();
    assert_eq!(reg.refs(id), 1);

    let twin = mesh.share(&mut reg);
    assert_eq!(reg.refs(id), 2);

    twin.release(&mut reg, &mut sender);
    assert_eq!(reg.refs(id), 1);
    mesh.release(&mut reg, &mut sender);
    assert_eq!(reg.refs(id), 0);
    assert!(!reg.contains(id));
}
