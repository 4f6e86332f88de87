//! Worker decision tests: load completion, failure handling, the stale
//! removal race, and the full action pipeline.

use htb::res::store::MeshMetadata;
use htb::res::store::Metadata;
use htb::res::store::Settings;
use htb::res::store::Storage;
use htb::res::worker::complete_load;
use htb::res::worker::meta_placeable;
use htb::res::worker::process_action;
use htb::res::Data;
use htb::res::Format;
use htb::res::LoadError;
use htb::res::Mesh;
use htb::res::Registry;
use htb::res::Sender;
use htb::res::Source;

#[derive(Debug)]
struct FailingSource;

impl Source for FailingSource {
    fn load(&self) -> Result<Data, LoadError> {
        Err(LoadError::Failed("this source always fails".to_string()))
    }
}

#[derive(Debug)]
struct BytesSource {
    meta: MeshMetadata,
    bytes: Vec<u8>,
}

impl Source for BytesSource {
    fn load(&self) -> Result<Data, LoadError> {
        Ok(Data {
            format: Format::RawMesh,
            meta: Metadata::Mesh(self.meta),
            data: self.bytes.clone(),
        })
    }
}

fn small_storage(capacity: u64) -> Storage {
    Storage::new(&Settings { mesh_buffer_length: capacity, init_resources_count: 16 })
}

fn sample_meta(len: u64) -> MeshMetadata {
    MeshMetadata { vertex_size: 1, vertex_count: len, vertex_offset: 0, data_offset: 0 }
}

#[test]
fn failing_source_places_nothing() {
    let mut reg = Registry::new();
    let mut sender: Sender<FailingSource> = Sender::new(10);
    let mut storage = small_storage(1024);

    let mesh = Mesh::new(FailingSource, &mut reg, &mut sender);
    mesh.release(&mut reg, &mut sender);

    let mut placements = 0;
    let mut adds = 0;
    let mut removes = 0;
    while let Some(action) = sender.recv() {
        match &action {
            htb::res::Action::Add(..) => adds += 1,
            htb::res::Action::Remove(..) => removes += 1,
        }
        if process_action(action, &mut reg, &mut storage).is_some() {
            placements += 1;
        }
    }

    assert_eq!(placements, 0);
    assert_eq!(adds, 1);
    assert_eq!(removes, 1);
    assert_eq!(storage.total_free(), 1024);
}

#[test]
fn successful_load_is_placed_and_marks_loaded() {
    let mut reg = Registry::new();
    let source = BytesSource { meta: sample_meta(6), bytes: vec![1, 2, 3, 4, 5, 6] };
    let mut sender: Sender<BytesSource> = Sender::new(10);
    let mut storage = small_storage(64);

    let mesh = Mesh::new(source, &mut reg, &mut sender);
    assert!(!mesh.is_loaded(&reg));

    let action = sender.recv().unwrap();
    let placed = process_action(action, &mut reg, &mut storage).expect("the load succeeds");
    assert_eq!(placed.data, vec![1, 2, 3, 4, 5, 6]);
    assert_eq!(placed.to_load.interval.start(), 0);
    assert_eq!(placed.to_load.interval.len(), 6);
    assert_eq!(placed.to_load.from, 0..6);
    assert!(mesh.is_loaded(&reg));

    mesh.release(&mut reg, &mut sender);
    let action = sender.recv().unwrap();
    assert!(process_action(action, &mut reg, &mut storage).is_none());
    assert_eq!(storage.total_free(), 64);
}

#[test]
fn stale_removal_race_skips_the_placement() {
    let mut reg = Registry::new();
    let mut sender: Sender<BytesSource> = Sender::new(10);
    let mut storage = small_storage(64);

    let source = BytesSource { meta: sample_meta(8), bytes: vec![0; 8] };
    let mesh = Mesh::new(source, &mut reg, &mut sender);
    // The handle is dropped before the worker completes the load: the
    // identity is gone when the loaded bytes arrive.
    mesh.release(&mut reg, &mut sender);

    let id = match sender.recv().unwrap() {
        htb::res::Action::Add(info) => info.id,
        htb::res::Action::Remove(..) => panic!("add comes first"),
    };
    let late = Ok(Data {
        format: Format::RawMesh,
        meta: Metadata::Mesh(sample_meta(8)),
        data: vec![0; 8],
    });
    // The worker checks for the pending removal and wastes nothing.
    assert!(complete_load(id, late, &mut reg, &mut storage).is_none());
    assert_eq!(storage.total_free(), 64);

    let action = sender.recv().unwrap();
    assert!(process_action(action, &mut reg, &mut storage).is_none());
    assert_eq!(storage.total_free(), 64);
}

#[test]
fn capacity_exhaustion_abandons_the_resource() {
    let mut reg = Registry::new();
    let source = BytesSource { meta: sample_meta(100), bytes: vec![0; 100] };
    let mut sender: Sender<BytesSource> = Sender::new(10);
    let mut storage = small_storage(50);

    let mesh = Mesh::new(source, &mut reg, &mut sender);
    let action = sender.recv().unwrap();
    assert!(process_action(action, &mut reg, &mut storage).is_none());
    assert!(!mesh.is_loaded(&reg));
    assert_eq!(storage.total_free(), 50);
    mesh.release(&mut reg, &mut sender);
}

#[test]
fn unplaceable_metadata_is_abandoned() {
    let mut reg = Registry::new();
    let mut storage = small_storage(64);
    let mut sender: Sender<FailingSource> = Sender::new(4);
    let mesh = Mesh::new(FailingSource, &mut reg, &mut sender);
    let id = match sender.recv().unwrap() {
        htb::res::Action::Add(info) => info.id,
        htb::res::Action::Remove(..) => panic!("add comes first"),
    };

    // A zero stride cannot describe a mesh layout.
    let zero_stride = MeshMetadata {
        vertex_size: 0,
        vertex_count: 1,
        vertex_offset: 0,
        data_offset: 0,
    };
    let result = Ok(Data {
        format: Format::RawMesh,
        meta: Metadata::Mesh(zero_stride),
        data: vec![],
    });
    assert!(complete_load(id, result, &mut reg, &mut storage).is_none());
    assert!(!mesh.is_loaded(&reg));
    assert_eq!(storage.total_free(), 64);
    mesh.release(&mut reg, &mut sender);
}

#[test]
fn placeability_check_matches_the_layout_rule() {
    assert!(meta_placeable(&Metadata::Mesh(sample_meta(16))));
    assert!(!meta_placeable(&Metadata::Texture));
    assert!(!meta_placeable(&Metadata::Mesh(MeshMetadata {
        vertex_size: 0,
        vertex_count: 1,
        vertex_offset: 0,
        data_offset: 0,
    })));
    // The copied range may not start beyond the data's end.
    assert!(!meta_placeable(&Metadata::Mesh(MeshMetadata {
        vertex_size: 1,
        vertex_count: 1,
        vertex_offset: 0,
        data_offset: 2,
    })));
    // Overflowing layout arithmetic is rejected, not wrapped.
    assert!(!meta_placeable(&Metadata::Mesh(MeshMetadata {
        vertex_size: u64::MAX,
        vertex_count: 2,
        vertex_offset: 0,
        data_offset: 0,
    })));
}

#[test]
fn failed_load_error_path_changes_nothing() {
    let mut reg = Registry::new();
    let mut storage = small_storage(32);
    let err = Err(LoadError::Failed("no such asset".to_string()));
    assert!(complete_load(5, err, &mut reg, &mut storage).is_none());
    assert_eq!(storage.total_free(), 32);
}

enum MixedSource {
    Good { meta: MeshMetadata, bytes: Vec<u8> },
    Bad,
}

impl Source for MixedSource {
    fn load(&self) -> Result<Data, LoadError> {
        match self {
            MixedSource::Good { meta, bytes } => Ok(Data {
                format: Format::RawMesh,
                meta: Metadata::Mesh(*meta),
                data: bytes.clone(),
            }),
            MixedSource::Bad => Err(LoadError::Failed("broken origin".to_string())),
        }
    }
}

#[test]
fn process_all_drains_the_mailbox_in_arrival_order() {
    let mut reg = Registry::new();
    let mut sender: Sender<MixedSource> = Sender::new(16);
    let mut storage = small_storage(64);
    let mut placements: Vec<htb::res::store::PlacedData> = Vec::new();

    let good = Mesh::new(
        MixedSource::Good { meta: sample_meta(6), bytes: vec![9; 6] },
        &mut reg,
        &mut sender,
    );
    let bad = Mesh::new(MixedSource::Bad, &mut reg, &mut sender);
    bad.release(&mut reg, &mut sender);

    htb::res::worker::process_all(&mut sender, &mut reg, &mut storage, &mut placements);

    // Both adds and the one remove were consumed; only the good load placed.
    assert_eq!(sender.len(), 0);
    assert_eq!(placements.len(), 1);
    assert_eq!(placements[0].data, vec![9; 6]);
    assert!(good.is_loaded(&reg));
    assert_eq!(storage.total_free(), 64 - 6);

    let good_id = good.inner().id().raw();
    good.release(&mut reg, &mut sender);
    htb::res::worker::process_all(&mut sender, &mut reg, &mut storage, &mut placements);
    assert_eq!(placements.len(), 1);
    // The queued removal took effect: the placement is reclaimed.
    assert!(!storage.contains(good_id));
    assert_eq!(storage.total_free(), 64);
}
