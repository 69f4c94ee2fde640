use wasm_imager::disk::{SeekFrom, SparseDisk, BLOCK_SIZE};

#[test]
fn fresh_disk_reads_zero() {
    let mut d = SparseDisk::new(10_000);
    let mut buf = [7u8; 100];
    assert_eq!(d.read(&mut buf), 100);
    assert!(buf.iter().all(|&b| b == 0));
    assert!(d.blocks.is_empty());
    assert!(d.nonzero_chunks().is_empty());
}

#[test]
fn write_then_read_back() {
    let mut d = SparseDisk::new(1 << 20);
    assert_eq!(d.seek(SeekFrom::Start(5000)), 5000);
    assert_eq!(d.write(&[1, 2, 3, 4]), 4);
    assert_eq!(d.seek(SeekFrom::Current(0)), 5004);
    assert_eq!(d.seek(SeekFrom::Start(4998)), 4998);
    let mut buf = [9u8; 8];
    assert_eq!(d.read(&mut buf), 8);
    assert_eq!(buf, [0, 0, 1, 2, 3, 4, 0, 0]);
    assert_eq!(d.blocks.len(), 1);
    assert_eq!(d.blocks[&1].len(), BLOCK_SIZE as usize);
}

#[test]
fn write_stops_at_block_end() {
    let mut d = SparseDisk::new(1 << 20);
    d.seek(SeekFrom::Start(4094));
    assert_eq!(d.write(&[1, 2, 3, 4]), 2);
    assert_eq!(d.seek(SeekFrom::Current(0)), 4096);
    assert_eq!(d.write(&[3, 4]), 2);
    d.seek(SeekFrom::Start(4094));
    let mut buf = [0u8; 4];
    assert_eq!(d.read(&mut buf), 2);
    assert_eq!(&buf[..2], &[1, 2]);
    assert_eq!(d.read(&mut buf), 4);
    assert_eq!(buf, [3, 4, 0, 0]);
}

#[test]
fn read_stops_at_disk_end() {
    let mut d = SparseDisk::new(4100);
    d.seek(SeekFrom::End(-2));
    let mut buf = [5u8; 10];
    assert_eq!(d.read(&mut buf), 2);
    assert_eq!(&buf[..3], &[0, 0, 5]);
    assert_eq!(d.read(&mut buf), 0);
    d.seek(SeekFrom::End(10));
    assert_eq!(d.read(&mut buf), 0);
}

#[test]
fn empty_buffers_do_nothing() {
    let mut d = SparseDisk::new(100);
    assert_eq!(d.write(&[]), 0);
    assert_eq!(d.read(&mut []), 0);
    assert_eq!(d.seek(SeekFrom::Current(0)), 0);
    assert!(d.blocks.is_empty());
    d.flush();
}

#[test]
fn seek_variants() {
    let mut d = SparseDisk::new(1000);
    assert_eq!(d.seek(SeekFrom::End(0)), 1000);
    assert_eq!(d.seek(SeekFrom::Current(-10)), 990);
    assert_eq!(d.seek(SeekFrom::Start(3)), 3);
    assert_eq!(d.seek(SeekFrom::Current(-4)), u64::MAX);
}

#[test]
fn chunks_are_trimmed_per_block() {
    let mut d = SparseDisk::new(1 << 20);
    d.seek(SeekFrom::Start(446));
    d.write(&[0, 0xee, 0, 0x55]);
    d.seek(SeekFrom::Start(3 * 4096 + 10));
    d.write(&[0, 0, 0]);
    d.seek(SeekFrom::Start(9 * 4096 + 4095));
    d.write(&[0xaa]);
    let chunks = d.nonzero_chunks();
    assert_eq!(chunks.len(), 2);
    assert_eq!(chunks[0].offset, 447);
    assert_eq!(chunks[0].data, vec![0xee, 0, 0x55]);
    assert_eq!(chunks[1].offset, 9 * 4096 + 4095);
    assert_eq!(chunks[1].data, vec![0xaa]);
}

#[test]
fn read_after_seek_stops_at_block_end() {
    let mut d = SparseDisk::new(10000);
    assert_eq!(d.seek(SeekFrom::Start(4090)), 4090);
    let mut buf = [0xffu8; 16];
    assert_eq!(d.read(&mut buf), 6);
    assert_eq!(buf, [0, 0, 0, 0, 0, 0, 0xff, 0xff, 0xff, 0xff, 0xff, 0xff, 0xff, 0xff, 0xff, 0xff]);
    assert_eq!(d.seek(SeekFrom::Current(0)), 4096);
    assert!(d.blocks.is_empty());
}

#[test]
fn write_after_seek_fills_one_block() {
    let mut d = SparseDisk::new(8192);
    assert_eq!(d.seek(SeekFrom::Start(4094)), 4094);
    assert_eq!(d.write(&[1, 2, 3, 4]), 2);
    assert_eq!(d.blocks.len(), 1);
    assert!(d.blocks[&0][..4094].iter().all(|&b| b == 0));
    assert_eq!(&d.blocks[&0][4094..], &[1, 2]);
    assert_eq!(d.seek(SeekFrom::Current(0)), 4096);
    d.flush();
    d.seek(SeekFrom::Start(4094));
    let mut buf = [0u8; 2];
    assert_eq!(d.read(&mut buf), 2);
    assert_eq!(buf, [1, 2]);
}

#[test]
fn longer_stored_block_keeps_its_tail() {
    let mut d = SparseDisk::new(1 << 20);
    d.blocks.insert(2, vec![5u8; 5000]);
    d.seek(SeekFrom::Start(2 * 4096 + 10));
    assert_eq!(d.write(&[1, 2]), 2);
    assert_eq!(d.blocks[&2].len(), 5000);
    assert_eq!(&d.blocks[&2][8..14], &[5, 5, 1, 2, 5, 5]);
    assert_eq!(d.blocks[&2][4999], 5);
    d.seek(SeekFrom::Start(2 * 4096 + 9));
    let mut buf = [0u8; 4];
    assert_eq!(d.read(&mut buf), 4);
    assert_eq!(buf, [5, 1, 2, 5]);
}
