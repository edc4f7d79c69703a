use hummock::local_version::{LocalVersion, PinnedVersion};
use hummock::task::{Level, LevelType};
use hummock::value::Entry;
use hummock::value::HummockValue;
use hummock::version::{HummockVersion, Levels};
use tokio::sync::mpsc::unbounded_channel;

fn version(id: u64, max_committed_epoch: u64) -> HummockVersion {
    HummockVersion { id, levels: vec![], max_committed_epoch, safe_epoch: 0 }
}

#[test]
fn unpin_on_drop() {
    let (tx, mut rx) = unbounded_channel();
    let pinned = PinnedVersion::new(version(42, 0), tx);
    assert_eq!(pinned.id(), 42);
    assert!(rx.try_recv().is_err());
    drop(pinned);
    assert_eq!(rx.try_recv(), Ok(42));
    assert!(rx.try_recv().is_err());
}

#[test]
fn the_last_handle_posts_exactly_one_unpin() {
    let (tx, mut rx) = unbounded_channel();
    let mut local = LocalVersion::new(version(1, 10), tx);
    let read = local.read_version(10);
    let cleaned = local.set_pinned_version(version(2, 20));
    assert!(cleaned.is_empty());
    // The read still holds version 1.
    assert!(rx.try_recv().is_err());
    assert_eq!(read.pinned_version.id(), 1);
    drop(read);
    assert_eq!(rx.try_recv(), Ok(1));
    assert!(rx.try_recv().is_err());
    drop(local);
    assert_eq!(rx.try_recv(), Ok(2));
    assert!(rx.try_recv().is_err());
}

#[test]
fn a_closed_channel_does_not_stop_a_drop() {
    let (tx, rx) = unbounded_channel();
    let pinned = PinnedVersion::new(version(7, 0), tx);
    drop(rx);
    drop(pinned);
}

#[test]
fn a_read_sees_the_uncommitted_epochs_newest_first() {
    let (tx, _rx) = unbounded_channel();
    let mut local = LocalVersion::new(version(1, 10), tx);
    for epoch in [13u64, 11, 15, 9, 12, 10] {
        let buffer = local.new_shared_buffer(epoch);
        assert_eq!(buffer.epoch(), epoch);
        assert!(buffer.is_empty());
    }
    let epochs = |read_epoch: u64| -> Vec<u64> {
        local.read_version(read_epoch).shared_buffer.iter().map(|b| b.epoch()).collect()
    };
    assert_eq!(epochs(13), vec![13, 12, 11]);
    assert_eq!(epochs(14), vec![13, 12, 11]);
    assert_eq!(epochs(u64::MAX), vec![15, 13, 12, 11]);
    assert_eq!(epochs(11), vec![11]);
    assert_eq!(epochs(10), Vec::<u64>::new());
    assert_eq!(epochs(3), Vec::<u64>::new());
    assert_eq!(
        local.iter_shared_buffer().iter().map(|b| b.0).collect::<Vec<_>>(),
        vec![9, 10, 11, 12, 13, 15]
    );
}

#[test]
fn a_buffer_is_created_once_and_keeps_its_writes() {
    let (tx, _rx) = unbounded_channel();
    let mut local = LocalVersion::new(version(1, 0), tx);
    assert!(local.get_shared_buffer(5).is_none());
    assert!(local.get_mut_shared_buffer(5).is_none());
    local.new_shared_buffer(5).write(Entry { key: b"k1234567".to_vec(), value: HummockValue::delete() });
    assert_eq!(local.new_shared_buffer(5).len(), 1);
    local
        .get_mut_shared_buffer(5)
        .unwrap()
        .write(Entry { key: b"l1234567".to_vec(), value: HummockValue::put(b"v") });
    assert_eq!(local.get_shared_buffer(5).unwrap().len(), 2);
    assert_eq!(local.iter_shared_buffer().len(), 1);
    assert_eq!(local.iter_shared_buffer()[0].1.len(), 2);
    let read = local.read_version(5);
    assert_eq!(read.shared_buffer.len(), 1);
    assert_eq!(read.shared_buffer[0].len(), 2);
}

#[test]
fn committing_drops_the_buffers_of_committed_epochs() {
    let (tx, _rx) = unbounded_channel();
    let mut local = LocalVersion::new(version(1, 10), tx);
    for epoch in [11u64, 12, 13, 14] {
        local.new_shared_buffer(epoch);
    }
    assert!(local.version_ids_in_use.contains(&1));
    // A version that commits nothing new cleans nothing.
    assert_eq!(local.set_pinned_version(version(2, 10)), Vec::<u64>::new());
    assert_eq!(local.iter_shared_buffer().len(), 4);
    assert_eq!(local.set_pinned_version(version(3, 12)), vec![11, 12]);
    assert_eq!(local.pinned_version().id(), 3);
    assert_eq!(local.pinned_version().max_committed_epoch(), 12);
    assert_eq!(local.pinned_version().safe_epoch(), 0);
    assert_eq!(local.pinned_version().version().id, 3);
    assert_eq!(local.version_ids_in_use.iter().copied().collect::<Vec<_>>(), vec![1, 2, 3]);
    assert_eq!(
        local.iter_shared_buffer().iter().map(|b| b.0).collect::<Vec<_>>(),
        vec![13, 14]
    );
    assert_eq!(local.clear_shared_buffer(), vec![13, 14]);
    assert!(local.iter_shared_buffer().is_empty());
    assert_eq!(local.clear_shared_buffer(), Vec::<u64>::new());
}

fn level(level_idx: u32, level_type: LevelType) -> Level {
    Level { level_idx, level_type, table_infos: vec![] }
}

#[test]
fn levels_come_in_reading_order() {
    let (tx, _rx) = unbounded_channel();
    let v = HummockVersion {
        id: 1,
        levels: vec![
            Levels {
                group_id: 2,
                l0_sub_levels: vec![
                    level(100, LevelType::Overlapping),
                    level(101, LevelType::Overlapping),
                ],
                levels: vec![level(1, LevelType::Nonoverlapping), level(2, LevelType::Nonoverlapping)],
            },
            Levels {
                group_id: 3,
                l0_sub_levels: vec![level(200, LevelType::Overlapping)],
                levels: vec![level(11, LevelType::Nonoverlapping)],
            },
        ],
        max_committed_epoch: 0,
        safe_epoch: 0,
    };
    let pinned = PinnedVersion::new(v, tx);
    let idx = |ls: Vec<&Level>| ls.iter().map(|l| l.level_idx).collect::<Vec<_>>();
    assert_eq!(idx(pinned.levels(None)), vec![101, 100, 1, 2, 200, 11]);
    assert_eq!(idx(pinned.levels(Some(2))), vec![101, 100, 1, 2]);
    assert_eq!(idx(pinned.levels(Some(3))), vec![200, 11]);
}
