//! Allocator tests: placement, alignment, exhaustion, reclamation, and
//! the no-leak round trip.

use htb::res::store::DataCopy;
use htb::res::store::LoadDst;
use htb::res::store::MeshMetadata;
use htb::res::store::Metadata;
use htb::res::store::Settings;
use htb::res::store::Storage;
use htb::FreeIntervals;
use htb::Interval;

fn small_storage(capacity: u64) -> Storage {
    Storage::new(&Settings { mesh_buffer_length: capacity, init_resources_count: 16 })
}

/// Mesh metadata whose destination length is exactly `len`, with a stride
/// of one byte (so the alignment is the index size alone).
fn plain_meta(len: u64) -> Metadata {
    Metadata::Mesh(MeshMetadata {
        vertex_size: 1,
        vertex_count: len,
        vertex_offset: 0,
        data_offset: 0,
    })
}

#[test]
fn scenario_reuse_after_remove() {
    let mut storage = small_storage(1024);

    let first = storage.add(1, plain_meta(600)).expect("600 of 1024 bytes must fit");
    assert_eq!(first.interval.start(), 0);
    assert_eq!(first.interval.end(), 600);

    assert!(storage.add(2, plain_meta(600)).is_none());
    assert_eq!(storage.total_free(), 424);

    assert!(storage.remove(1).is_some());
    assert_eq!(storage.total_free(), 1024);

    let again = storage.add(2, plain_meta(600)).expect("the space was reclaimed");
    assert_eq!(again.interval.start(), 0);
    assert_eq!(again.interval.end(), 600);
}

#[test]
fn alignment_is_the_lcm_of_stride_and_index_size() {
    let mut storage = small_storage(4096);

    // A 10-byte blocker leaves the next free address at 10.
    storage.add(1, plain_meta(10)).expect("blocker fits");

    // Stride 32: lcm(32, 4) = 32, so the placement starts at 32, not 12.
    let meta = Metadata::Mesh(MeshMetadata {
        vertex_size: 32,
        vertex_count: 4,
        vertex_offset: 0,
        data_offset: 0,
    });
    let placed = storage.add(2, meta).expect("128 aligned bytes fit");
    assert_eq!(placed.interval.start() % 32, 0);
    assert_eq!(placed.interval.start(), 32);
    assert_eq!(placed.interval.len(), 128);
}

#[test]
fn alignment_uses_the_true_lcm() {
    let mut storage = small_storage(4096);

    // A 5-byte blocker, then stride 6: lcm(6, 4) = 12, so the next
    // placement starts at 12 — not at 6, which a stride-only alignment
    // would give.
    storage.add(1, plain_meta(5)).expect("blocker fits");
    let meta = Metadata::Mesh(MeshMetadata {
        vertex_size: 6,
        vertex_count: 2,
        vertex_offset: 0,
        data_offset: 0,
    });
    let placed = storage.add(2, meta).expect("12 aligned bytes fit");
    assert_eq!(placed.interval.start(), 12);
}

#[test]
fn exhaustion_returns_none_and_changes_nothing() {
    let mut storage = small_storage(100);

    assert!(storage.add(1, plain_meta(101)).is_none());
    assert_eq!(storage.total_free(), 100);

    // The tracker state is untouched: what should still fit, still fits.
    let fit = storage.add(2, plain_meta(100)).expect("the whole buffer is still free");
    assert_eq!(fit.interval.start(), 0);
    assert_eq!(fit.interval.len(), 100);
    assert_eq!(storage.total_free(), 0);
}

#[test]
fn round_trip_restores_the_free_length() {
    let mut storage = small_storage(2048);
    let initial = storage.total_free();

    storage.add(10, plain_meta(100)).expect("fits");
    storage.add(11, plain_meta(300)).expect("fits");
    storage.add(12, plain_meta(50)).expect("fits");
    assert_eq!(storage.total_free(), 2048 - 450);

    // Remove out of order, so reclamation must coalesce across holes.
    assert!(storage.remove(11).is_some());
    storage.add(13, plain_meta(200)).expect("fits in the reclaimed hole");
    assert!(storage.remove(10).is_some());
    assert!(storage.remove(13).is_some());
    assert!(storage.remove(12).is_some());

    assert_eq!(storage.total_free(), initial);
    let whole = storage.add(14, plain_meta(2048)).expect("no byte leaked");
    assert_eq!(whole.interval.start(), 0);
    assert_eq!(whole.interval.len(), 2048);
}

#[test]
fn removal_of_an_unplaced_id_is_a_silent_no_op() {
    let mut storage = small_storage(64);
    assert!(storage.remove(42).is_none());
    assert_eq!(storage.total_free(), 64);
}

#[test]
fn remove_returns_the_stored_metadata() {
    let mut storage = small_storage(256);
    let meta = Metadata::Mesh(MeshMetadata {
        vertex_size: 4,
        vertex_count: 3,
        vertex_offset: 8,
        data_offset: 2,
    });
    // Destination length = 8 + 3 * 4 - 2 = 18; source range [2, 18).
    let placed = storage.add(9, meta).expect("18 bytes fit");
    assert_eq!(placed.interval.len(), 18);
    assert_eq!(placed.from, 2..18);
    assert!(matches!(placed.dst, LoadDst::MeshBuffer));
    assert!(storage.contains(9));

    let removed = storage.remove(9).expect("it was placed");
    match removed {
        Metadata::Mesh(m) => {
            assert_eq!(m.vertex_size, 4);
            assert_eq!(m.vertex_count, 3);
            assert_eq!(m.vertex_offset, 8);
            assert_eq!(m.data_offset, 2);
        },
        Metadata::Texture => panic!("a mesh was stored"),
    }
    assert!(!storage.contains(9));
}

#[test]
fn empty_buffer_fits_nothing() {
    let mut storage = small_storage(0);
    assert!(storage.add(1, plain_meta(1)).is_none());
    assert_eq!(storage.total_free(), 0);
}

#[test]
fn tracker_coalesces_on_insert() {
    let mut free = FreeIntervals::new(30);
    let a = free.take_exact_aligned(10, 1).expect("fits");
    let b = free.take_exact_aligned(10, 1).expect("fits");
    assert_eq!(a.start(), 0);
    assert_eq!(b.start(), 10);
    assert_eq!(free.total_free(), 10);

    free.insert(a);
    free.insert(b);
    assert_eq!(free.total_free(), 30);

    // Only a fully coalesced tracker can serve the whole range again.
    let whole = free.take_exact_aligned(30, 1).expect("coalesced");
    assert_eq!(whole.start(), 0);
    assert_eq!(whole.len(), 30);
}

#[test]
fn tracker_takes_the_first_fit_from_the_lowest_address() {
    let mut free = FreeIntervals::new(100);
    let head = free.take_exact_aligned(10, 1).expect("fits");
    let hole = free.take_exact_aligned(20, 1).expect("fits");
    let _tail_block = free.take_exact_aligned(30, 1).expect("fits");
    free.insert(head);
    free.insert(hole);
    // Free: [0, 30) and [60, 100). A 25-byte request fits both; first fit
    // takes the lower one.
    let taken = free.take_exact_aligned(25, 1).expect("fits twice over");
    assert_eq!(taken.start(), 0);
    assert_eq!(taken.len(), 25);
}

#[test]
fn tracker_pads_for_alignment_and_keeps_the_padding_free() {
    let mut free = FreeIntervals::new(40);
    let _blocker = free.take_exact_aligned(3, 1).expect("fits");
    let aligned = free.take_exact_aligned(8, 8).expect("fits");
    assert_eq!(aligned.start(), 8);
    // The 5 padding bytes [3, 8) stay free.
    assert_eq!(free.total_free(), 40 - 3 - 8);
}

#[test]
fn interval_accessors_agree() {
    let iv = Interval::new(5, 7);
    assert_eq!(iv.start(), 5);
    assert_eq!(iv.end(), 12);
    assert_eq!(iv.len(), 7);
    assert!(!iv.is_empty());
    assert!(iv.contains(5));
    assert!(iv.contains(11));
    assert!(!iv.contains(12));
    assert!(!iv.contains(4));

    let empty = Interval::new(3, 0);
    assert!(empty.is_empty());
    assert!(!empty.contains(3));
}

#[test]
fn default_settings_match_the_documented_sizing() {
    let settings = Settings::default();
    assert_eq!(settings.mesh_buffer_length, 128 * 1024 * 1024);
    assert_eq!(settings.init_resources_count, 1024);
}

#[test]
fn data_copy_fields_describe_the_copy() {
    let mut storage = small_storage(512);
    let dc: DataCopy = storage.add(1, plain_meta(32)).expect("fits");
    assert_eq!(dc.from, 0..32);
    assert_eq!(dc.interval.start(), 0);
    assert_eq!(dc.interval.end(), 32);
}

#[test]
fn tracker_spans_the_whole_address_width() {
    let mut free = FreeIntervals::new(u64::MAX);
    assert_eq!(free.total_free(), u64::MAX);
    let all = free.take_exact_aligned(u64::MAX, 1).expect("everything is free");
    assert_eq!(all.start(), 0);
    assert_eq!(all.len(), u64::MAX);
    assert_eq!(free.total_free(), 0);
    free.insert(all);
    assert_eq!(free.total_free(), u64::MAX);
}

#[test]
fn zero_length_requests_consume_nothing() {
    let mut free = FreeIntervals::new(16);
    let empty = free.take_exact_aligned(0, 4).expect("nothing always fits");
    assert!(empty.is_empty());
    assert_eq!(free.total_free(), 16);
}
