//! Tests of the disk tier: framing, the index, regions, the batch, the
//! scanner, recovery, and the store round trip.

use foyer::batch::BatchMut;
use foyer::bits::{align_down, align_up, is_aligned};
use foyer::device::{
    DirectFileDeviceOptionsBuilder, DirectFsDeviceOptionsBuilder, FsDeviceConfigBuilder,
    MemDevice, ALIGN,
};
use foyer::frame::{decode_frame, encode_frame, Compression, EntryHeader, HEADER_LEN};
use foyer::indexer::{EntryAddress, Indexer};
use foyer::none::{NoneStore, NoneStoreWriter};
use foyer::region::{
    RegionHeader, RegionInner, RegionInnerExclusiveRequire, RegionManager, RegionState,
    ReadSlice, REGION_MAGIC,
};
use foyer::scanner::{recover_region, RegionScanner};
use foyer::setman::{locate, region_sets, Metadata, SetPicker, METADATA_SIZE};
use foyer::store::Store;

#[test]
fn test_bits() {
    assert!(is_aligned(4096, 8192));
    assert!(!is_aligned(4096, 8191));
    assert_eq!(align_up(4096, 1), 4096);
    assert_eq!(align_up(4096, 4096), 4096);
    assert_eq!(align_down(4096, 8191), 4096);
}

#[test]
fn test_region_header_bytes_exact() {
    // The magic is framed big-endian: the byte image is exact.
    let header = RegionHeader { magic: 0x0102030405060708 };
    let mut buf: Vec<u8> = Vec::new();
    header.write(&mut buf);
    assert_eq!(buf, vec![1, 2, 3, 4, 5, 6, 7, 8]);
    assert_eq!(RegionHeader::read(&buf).magic, 0x0102030405060708);
}

#[test]
fn test_header_round_trip() {
    let header = EntryHeader {
        key_len: 8,
        value_len: 1024,
        hash: 0xdeadbeef,
        sequence: 42,
        checksum: 0xfeedface,
        compression: Compression::Plain,
    };
    let mut buf: Vec<u8> = Vec::new();
    header.write(&mut buf);
    assert_eq!(buf.len(), HEADER_LEN);
    let parsed = EntryHeader::read(&buf, 0).unwrap();
    assert_eq!(parsed, header);
}

#[test]
fn test_frame_round_trip() {
    let value: Vec<u8> = vec![7u8; 100];
    let mut buf: Vec<u8> = Vec::new();
    encode_frame(&mut buf, 514, &value, 3);
    let (key, decoded, header) = decode_frame(&buf, 0).unwrap();
    assert_eq!(key, 514);
    assert_eq!(decoded, value);
    assert_eq!(header.sequence, 3);
    assert_eq!(header.value_len, 100);
}

#[test]
fn test_frame_checksum_detects_corruption() {
    let value: Vec<u8> = vec![7u8; 100];
    let mut buf: Vec<u8> = Vec::new();
    encode_frame(&mut buf, 514, &value, 3);
    // Flip one payload byte: the checksum no longer matches.
    buf[HEADER_LEN + 10] ^= 0xff;
    assert!(decode_frame(&buf, 0).is_none());
}

#[test]
fn test_indexer_sequence() {
    let mut indexer = Indexer::new();
    let a1 = EntryAddress { region: 0, offset: 0, len: 64, sequence: 1 };
    let a2 = EntryAddress { region: 1, offset: 4096, len: 64, sequence: 2 };

    assert_eq!(indexer.insert(99, a2), None);
    // An older sequence never overwrites a newer one.
    assert_eq!(indexer.insert(99, a1), Some(a1));
    assert_eq!(indexer.get(99), Some(a2));
    // A newer sequence replaces, returning the prior address.
    let a3 = EntryAddress { region: 2, offset: 0, len: 64, sequence: 7 };
    assert_eq!(indexer.insert(99, a3), Some(a2));
    assert_eq!(indexer.get(99), Some(a3));

    assert_eq!(indexer.remove(99), Some(a3));
    assert_eq!(indexer.get(99), None);
    assert_eq!(indexer.len(), 0);
}

#[test]
fn test_region_header() {
    let header = RegionHeader { magic: REGION_MAGIC };
    let mut buf: Vec<u8> = Vec::new();
    header.write(&mut buf);
    assert_eq!(buf.len(), 8);
    let parsed = RegionHeader::read(&buf);
    assert_eq!(parsed.magic, REGION_MAGIC);
}

#[test]
fn test_region_inner_exclusive() {
    let inner = RegionInner { readers: 2 };
    assert_eq!(inner.reader_count(), 2);
    assert!(inner.is_exclusive(&RegionInnerExclusiveRequire { can_read: true }));
    assert!(!inner.is_exclusive(&RegionInnerExclusiveRequire { can_read: false }));
    let idle = RegionInner { readers: 0 };
    assert!(idle.is_exclusive(&RegionInnerExclusiveRequire { can_read: false }));
}

#[test]
fn test_read_slice() {
    let slice = ReadSlice { buf: vec![1, 2, 3], region: 0 };
    assert_eq!(slice.len(), 3);
    assert!(!slice.is_empty());
}

#[test]
fn test_region_reclaim_quiescence() {
    let mut manager = RegionManager::new(2);
    let r = manager.get_clean_region().unwrap();
    assert_eq!(r, 0);
    manager.mark_full(r);
    manager.mark_evictable(r);
    manager.begin_reclaim(r);

    // A reader still holds a slice: the region cannot become clean.
    manager.reader_inc(r);
    assert!(!manager.try_finish_reclaim(r));
    assert!(!matches!(manager.state(r), RegionState::Clean));

    // The reader drained: reclamation finishes.
    manager.reader_dec(r);
    assert!(manager.try_finish_reclaim(r));
    assert!(matches!(manager.state(r), RegionState::Clean));
}

#[test]
fn test_region_load_counts_readers() {
    let mut manager = RegionManager::new(2);
    let mut device = MemDevice::new(2, 8192, 512);
    let data: Vec<u8> = vec![3u8; 2048];
    device.write(&data, 1, 1024);

    let slice = foyer::region::load(&mut manager, &device, 1, 1024, 3072, 512);
    assert_eq!(slice.len(), 2048);
    assert_eq!(slice.buf, data);
    assert_eq!(manager.readers_of(1), 1);
    manager.reader_dec(1);
    assert_eq!(manager.readers_of(1), 0);
}

#[test]
fn test_mem_device_io() {
    let mut device = MemDevice::new(2, 4096, 512);
    let data: Vec<u8> = vec![9u8; 1024];
    device.write(&data, 1, 512);
    let read = device.read(1, 512, 1024);
    assert_eq!(read, data);
    let untouched = device.read(1, 0, 512);
    assert_eq!(untouched, vec![0u8; 512]);
    device.flush(None);
}

#[test]
fn test_batch_rotate() {
    let mut batch = BatchMut::new(1 << 16, 64, 0);
    let value: Vec<u8> = vec![5u8; 100];
    batch.entry(3, &value, 1);
    batch.entry(4, &value, 2);
    assert!(!batch.is_empty());

    let frozen = batch.rotate().unwrap();
    assert_eq!(frozen.groups.len(), 1);
    let group = &frozen.groups[0];
    assert_eq!(group.indices.len(), 2);
    assert_eq!(group.region.offset, 0);

    // The group's bytes decode back to the appended entries.
    let (k, v, h) = decode_frame(&group.bytes, group.indices[0].address.offset as usize)
        .unwrap();
    assert_eq!(k, 3);
    assert_eq!(v, value);
    assert_eq!(h.sequence, 1);
    let (k2, _, _) = decode_frame(&group.bytes, group.indices[1].address.offset as usize)
        .unwrap();
    assert_eq!(k2, 4);

    // The tail region continues where the batch left off.
    assert!(batch.is_empty());
    batch.tombstone(77, None);
    let frozen2 = batch.rotate().unwrap();
    assert_eq!(frozen2.tombstones.len(), 1);
    assert_eq!(frozen2.tombstones[0].hash, 77);
}

#[test]
fn test_batch_reinsertion() {
    let mut batch = BatchMut::new(1 << 16, 64, 0);
    let value: Vec<u8> = vec![5u8; 100];
    let mut raw: Vec<u8> = Vec::new();
    encode_frame(&mut raw, 9, &value, 1);

    let mut indexer = Indexer::new();
    let hash = foyer::hashing::hash_key(9);

    // The hash left the index: the reinsertion is skipped.
    assert!(!batch.reinsertion(&raw, hash, 2, &indexer));

    indexer.insert(hash, EntryAddress { region: 7, offset: 0, len: raw.len() as u32, sequence: 1 });
    assert!(batch.reinsertion(&raw, hash, 2, &indexer));

    let frozen = batch.rotate().unwrap();
    let group = &frozen.groups[0];
    assert_eq!(group.indices.len(), 1);
    assert_eq!(group.indices[0].address.sequence, 2);
    let (k, v, _) = decode_frame(&group.bytes, 0).unwrap();
    assert_eq!(k, 9);
    assert_eq!(v, value);
}

#[test]
fn test_scanner_stops_at_malformed_tail() {
    let mut buf: Vec<u8> = Vec::new();
    let v1: Vec<u8> = vec![1u8; 50];
    let v2: Vec<u8> = vec![2u8; 70];
    encode_frame(&mut buf, 1, &v1, 1);
    while buf.len() % 64 != 0 {
        buf.push(0);
    }
    encode_frame(&mut buf, 2, &v2, 2);
    while buf.len() % 64 != 0 {
        buf.push(0);
    }
    // Malformed tail bytes.
    for _ in 0..100 {
        buf.push(0xff);
    }

    let mut scanner = RegionScanner::new(0);
    let i1 = scanner.next(&buf, 64).unwrap();
    let i2 = scanner.next(&buf, 64).unwrap();
    assert_eq!(i1.sequence, 1);
    assert_eq!(i2.sequence, 2);
    assert!(scanner.next(&buf, 64).is_none());

    // Recovery publishes exactly the two valid frames.
    let mut indexer = Indexer::new();
    let published = recover_region(&mut indexer, &buf, 0, 64);
    assert_eq!(published, 2);
    assert_eq!(indexer.len(), 2);
    assert_eq!(indexer.get(i1.hash).unwrap().sequence, 1);
    assert_eq!(indexer.get(i2.hash).unwrap().sequence, 2);
}

#[test]
fn test_recovery_resolves_by_max_sequence() {
    let mut buf: Vec<u8> = Vec::new();
    let v1: Vec<u8> = vec![1u8; 10];
    let v2: Vec<u8> = vec![2u8; 10];
    // The same key twice: the higher sequence must win.
    encode_frame(&mut buf, 5, &v1, 1);
    while buf.len() % 64 != 0 {
        buf.push(0);
    }
    let second_at = buf.len() as u32;
    encode_frame(&mut buf, 5, &v2, 9);

    let mut indexer = Indexer::new();
    recover_region(&mut indexer, &buf, 3, 64);
    assert_eq!(indexer.len(), 1);
    let addr = indexer.get(foyer::hashing::hash_key(5)).unwrap();
    assert_eq!(addr.sequence, 9);
    assert_eq!(addr.offset, second_at);
    assert_eq!(addr.region, 3);
}

#[test]
fn test_store_round_trip() {
    let mut store = Store::new(16, 1 << 20, 64);
    let n: u64 = 10000;
    for i in 0..n {
        let value: Vec<u8> = vec![i as u8; 1024];
        assert!(store.enqueue(i, &value));
    }
    assert!(store.flush());

    // Reopen: a fresh store over the same device, index rebuilt by scanning.
    let mut reopened = Store::new(16, 1 << 20, 64);
    reopened.device = store.device;
    reopened.recover();

    for i in 0..n {
        let value = reopened.load(i).unwrap();
        assert_eq!(value, vec![i as u8; 1024]);
    }
    assert!(reopened.load(n + 1).is_none());
}

#[test]
fn test_set_picker() {
    let picker = SetPicker::new(8);
    assert_eq!(picker.sid(0), 1);
    assert_eq!(picker.sid(7), 1);
    assert_eq!(picker.sid(8), 2);
    for hash in 0..100u64 {
        let sid = picker.sid(hash);
        assert!(sid >= 1 && sid < 8);
    }
}

#[test]
fn test_metadata_round_trip() {
    let metadata = Metadata { watermark: 123456789 };
    let mut buf: Vec<u8> = Vec::new();
    metadata.write(&mut buf);
    assert_eq!(buf.len(), METADATA_SIZE);
    let parsed = Metadata::read(&buf, 999999999);
    assert_eq!(parsed, metadata);

    // A watermark from the future is replaced by the present.
    let stale = Metadata::read(&buf, 1000);
    assert_eq!(stale.watermark, 1000);

    // A wrong magic falls back to a fresh block.
    buf[0] ^= 0xff;
    let fresh = Metadata::read(&buf, 5000);
    assert_eq!(fresh.watermark, 5000);
}

#[test]
fn test_locate() {
    assert_eq!(region_sets(1 << 20, 4096), 256);
    let (region, offset) = locate(5, 256, 4096);
    assert_eq!(region, 0);
    assert_eq!(offset, 5 * 4096);
    let (region, offset) = locate(256, 256, 4096);
    assert_eq!(region, 1);
    assert_eq!(offset, 0);
}

#[test]
fn test_none_store() {
    let store = NoneStore::new();
    assert!(store.is_ready());
    assert!(!store.contains(1));
    assert!(store.lookup(1).is_none());
    assert!(!store.remove(1));
    store.clear();

    let mut writer = NoneStoreWriter::new(42);
    assert_eq!(writer.writer_key(), 42);
    assert!(!writer.judge());
    writer.force();
    assert!(matches!(writer.compression(), Compression::Plain));
    assert!(writer.finish(vec![1, 2, 3]).is_none());
}

#[test]
fn test_fs_config_builder() {
    let config = FsDeviceConfigBuilder::new("cache-dir".to_string())
        .with_capacity(64 * 1024 * 1024)
        .with_file_size(16 * 1024 * 1024)
        .with_align(4096)
        .with_io_size(16 * 1024)
        .build();
    assert!(config.check());
    assert_eq!(config.capacity, 64 * 1024 * 1024);
    assert_eq!(config.file_size, 16 * 1024 * 1024);
    assert_eq!(config.io_size, 16 * 1024);
}

#[test]
fn test_direct_file_options_builder() {
    let options = DirectFileDeviceOptionsBuilder::new("cache-file".to_string())
        .with_capacity(4 * 1024 * 1024)
        .with_region_size(1024 * 1024)
        .build();
    assert!(options.verify());
    assert_eq!(options.capacity, 4 * 1024 * 1024);
    assert_eq!(options.region_size, 1024 * 1024);
}

#[test]
fn test_direct_fs_options_builder() {
    let options = DirectFsDeviceOptionsBuilder::new("cache-dir".to_string())
        .with_capacity(4 * 1024 * 1024)
        .with_file_size(1024 * 1024)
        .build();
    assert!(options.verify());
    assert_eq!(options.capacity, 4 * 1024 * 1024);
    assert_eq!(options.file_size, 1024 * 1024);

    // A capacity that is no multiple of the file size is rounded down.
    let rounded = DirectFsDeviceOptionsBuilder::new("cache-dir".to_string())
        .with_capacity(4 * 1024 * 1024 + ALIGN)
        .with_file_size(1024 * 1024)
        .build();
    assert!(rounded.verify());
    assert_eq!(rounded.capacity, 4 * 1024 * 1024);
}
