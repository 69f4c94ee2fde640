use std::io::{Cursor, Read, Seek, SeekFrom, Write};
use wasm_imager::disk::SparseDisk;
use wasm_imager::generator::{
    dos_disk_id_with, generate, gpt_disk_guid_with, plan_gpt_entries, plan_gpt_entries_with,
};
use wasm_imager::imaging::generate_with;
use wasm_imager::layout::{LayoutResult, ResolvedPartition};
use wasm_imager::resolver::{resolve, ResolvedInfo, Stop};
use wasm_imager::schema::{FileSizes, PartitionConfig, SchemaLayout, TableType};
use wasm_imager::table_io::TableDisk;
use wasm_imager::utils::dos_id_from_draw;

const LINUX: &str = "0FC63DAF-8483-4772-8E79-3D69D8477DE4";
const DISK: &str = "11223344-5566-7788-9900-AABBCCDDEEFF";

fn pc(id: &str, ty: Option<&str>, size: u64, hidden: Option<bool>) -> PartitionConfig {
    PartitionConfig {
        partition_type: ty.map(|t| t.to_string()),
        id: id.to_string(),
        offset: None,
        size: Some(size),
        hidden,
    }
}

fn placed(disk_size: u64, parts: &[(&str, u64, u64)]) -> ResolvedInfo {
    ResolvedInfo {
        disk_size,
        partitions: parts
            .iter()
            .map(|(id, offset, size)| ResolvedPartition { id: id.to_string(), offset: *offset, size: *size })
            .collect(),
    }
}

/// The bytes of the disk the chunks describe (zeros elsewhere).
fn image_of(layout: &LayoutResult) -> Vec<u8> {
    let mut img = vec![0u8; layout.disk_size as usize];
    for c in &layout.metadata_chunks {
        let o = c.offset as usize;
        img[o..o + c.data.len()].copy_from_slice(&c.data);
    }
    img
}

fn uniques(n: usize) -> Vec<[u8; 16]> {
    (0..n).map(|i| [i as u8 + 1; 16]).collect()
}

#[test]
fn gpt_image_matches_gptman_on_a_plain_buffer() {
    let s = SchemaLayout {
        table: TableType::Gpt,
        disk_id: Some(DISK.to_string()),
        sector: 512,
        partitions: vec![pc("boot", Some(LINUX), 16777216, None), pc("data", Some(LINUX), 4096, None)],
    };
    let info = resolve(&s, &FileSizes::new()).unwrap();
    let size = info.disk_size;
    let ids = uniques(2);
    let entries = plan_gpt_entries_with(&s, &info, &ids).unwrap();
    let layout = generate_with(&s, info, [0; 16], [0; 4], &ids).unwrap();

    let mut cur = Cursor::new(vec![0u8; size as usize]);
    let guid = gpt_disk_guid_with(&s.disk_id, [0; 16]).unwrap();
    let mut gpt = gptman::GPT::new_from(&mut cur, 512, guid).unwrap();
    for (i, e) in entries.iter().enumerate() {
        gpt[(i + 1) as u32] = gptman::GPTPartitionEntry {
            partition_type_guid: e.partition_type_guid,
            unique_partition_guid: e.unique_partition_guid,
            starting_lba: e.starting_lba,
            ending_lba: e.ending_lba,
            attribute_bits: 0,
            partition_name: e.partition_name.as_str().into(),
        };
    }
    gptman::GPT::write_protective_mbr_into(&mut cur, 512).unwrap();
    gpt.write_into(&mut cur).unwrap();

    assert_eq!(layout.disk_size, size);
    assert_eq!(image_of(&layout), cur.into_inner());
    let first = &layout.metadata_chunks[0];
    assert_eq!(first.offset, 448);
    assert_eq!(&first.data[..10], &[0x02, 0x00, 0xee, 0xff, 0xff, 0xff, 0x01, 0x00, 0x00, 0x00]);
    let sectors = (size / 512 - 1) as u32;
    assert_eq!(&first.data[10..14], &sectors.to_le_bytes());
    assert_eq!(&first.data[62..64], &[0x55, 0xaa]);
    assert_eq!(&first.data[64..72], b"EFI PART");
}

#[test]
fn dos_image_is_the_table_sector() {
    let s = SchemaLayout {
        table: TableType::Dos,
        disk_id: Some("0x12345678".to_string()),
        sector: 512,
        partitions: vec![pc("a", Some("0x0C"), 1048576, None), pc("b", Some("83"), 512, None)],
    };
    let info = resolve(&s, &FileSizes::new()).unwrap();
    let layout = generate(&s, info).unwrap();
    assert_eq!(layout.metadata_chunks.len(), 1);
    let c = &layout.metadata_chunks[0];
    assert_eq!(c.offset, 440);
    let mut want = vec![0x78, 0x56, 0x34, 0x12, 0x00, 0x00];
    want.extend_from_slice(&[0, 0, 0, 0, 0x0c, 0, 0, 0]);
    want.extend_from_slice(&2048u32.to_le_bytes());
    want.extend_from_slice(&2048u32.to_le_bytes());
    want.extend_from_slice(&[0, 0, 0, 0, 0x83, 0, 0, 0]);
    want.extend_from_slice(&4096u32.to_le_bytes());
    want.extend_from_slice(&1u32.to_le_bytes());
    want.extend_from_slice(&[0u8; 32]);
    want.extend_from_slice(&[0x55, 0xaa]);
    assert_eq!(c.data, want);
}

#[test]
fn raw_layout_has_no_chunks() {
    let s = SchemaLayout {
        table: TableType::Raw,
        disk_id: None,
        sector: 512,
        partitions: vec![pc("a", None, 1000, None)],
    };
    let info = resolve(&s, &FileSizes::new()).unwrap();
    let n = info.partitions.len();
    let layout = generate(&s, info).unwrap();
    assert!(layout.metadata_chunks.is_empty());
    assert_eq!(layout.resolved_partitions.len(), n);
}

#[test]
fn gpt_with_random_ids_is_written() {
    let s = SchemaLayout {
        table: TableType::Gpt,
        disk_id: None,
        sector: 512,
        partitions: vec![pc("boot", Some(LINUX), 16777216, None)],
    };
    let info = resolve(&s, &FileSizes::new()).unwrap();
    let layout = generate(&s, info).unwrap();
    let img = image_of(&layout);
    let mut cur = Cursor::new(img);
    let gpt = gptman::GPT::read_from(&mut cur, 512).unwrap();
    assert_eq!(gpt.header.disk_guid[7] & 0xf0, 0x40);
    assert_eq!(gpt[1].starting_lba, 2048);
    assert_eq!(gpt[1].partition_name.as_str(), "boot");
    assert_eq!(gpt[1].unique_partition_guid[8] & 0xc0, 0x80);
}

#[test]
fn gpt_refusals_come_back_as_text() {
    let s = SchemaLayout {
        table: TableType::Gpt,
        disk_id: Some(DISK.to_string()),
        sector: 512,
        partitions: vec![pc("a", Some(LINUX), 512, None), pc("b", Some(LINUX), 512, None)],
    };
    let overlap = placed(4 * 1048576, &[("a", 1048576, 1048576), ("b", 1048576, 1048576)]);
    match generate_with(&s, overlap, [0; 16], [0; 4], &uniques(2)) {
        Err(Stop::Rejected(m)) => assert_eq!(m, gptman::Error::InvalidPartitionBoundaries.to_string()),
        _ => panic!("expected a refusal"),
    }
    let apart = placed(4 * 1048576, &[("a", 1048576, 512), ("b", 2 * 1048576, 512)]);
    match generate_with(&s, apart, [0; 16], [0; 4], &vec![[9; 16], [9; 16]]) {
        Err(Stop::Rejected(m)) => assert_eq!(m, gptman::Error::ConflictPartitionGUID.to_string()),
        _ => panic!("expected a refusal"),
    }
}

#[test]
fn impossible_geometry_traps() {
    let s = SchemaLayout { table: TableType::Gpt, disk_id: Some(DISK.to_string()), sector: 512, partitions: vec![] };
    assert!(matches!(generate_with(&s, placed(16384, &[]), [0; 16], [0; 4], &vec![]), Err(Stop::Trapped)));
    let d = SchemaLayout { table: TableType::Dos, disk_id: Some("1".to_string()), sector: 1 << 32, partitions: vec![] };
    assert!(matches!(generate_with(&d, placed(1 << 40, &[]), [0; 16], [0; 4], &vec![]), Err(Stop::Trapped)));
}

#[test]
fn bad_disk_ids_are_refused() {
    let s = SchemaLayout { table: TableType::Dos, disk_id: Some("xyz".to_string()), sector: 512, partitions: vec![] };
    match generate(&s, placed(1048576, &[])) {
        Err(Stop::Rejected(m)) => assert_eq!(m, "Invalid DOS ID: invalid digit found in string"),
        _ => panic!("expected a refusal"),
    }
    let g = SchemaLayout { table: TableType::Gpt, disk_id: Some("bad".to_string()), sector: 512, partitions: vec![] };
    match generate(&g, placed(1048576, &[])) {
        Err(Stop::Rejected(m)) => assert_eq!(m, uuid::Uuid::parse_str("bad").unwrap_err().to_string()),
        _ => panic!("expected a refusal"),
    }
}

#[test]
fn gpt_entries_take_the_given_unique_guids() {
    let s = SchemaLayout {
        table: TableType::Gpt,
        disk_id: None,
        sector: 512,
        partitions: vec![pc("a", Some(LINUX), 512, None), pc("h", Some(LINUX), 512, Some(true)), pc("b", Some(LINUX), 1024, None)],
    };
    let info = resolve(&s, &FileSizes::new()).unwrap();
    let ids = uniques(2);
    let entries = plan_gpt_entries_with(&s, &info, &ids).unwrap();
    assert_eq!(entries.len(), 2);
    assert_eq!(entries[0].unique_partition_guid, [1; 16]);
    assert_eq!(entries[1].unique_partition_guid, [2; 16]);
    assert_eq!(entries[1].partition_name, "b");
    assert_eq!(entries[1].ending_lba, entries[1].starting_lba + 1);
}

#[test]
fn gpt_without_visible_partitions_plans_nothing() {
    let s = SchemaLayout { table: TableType::Gpt, disk_id: None, sector: 512, partitions: vec![pc("h", Some(LINUX), 512, Some(true))] };
    let info = resolve(&s, &FileSizes::new()).unwrap();
    assert!(plan_gpt_entries(&s, &info).unwrap().is_empty());
}

#[test]
fn drawn_ids_are_used_without_text() {
    assert_eq!(dos_id_from_draw(true, [1, 2, 3, 4]), Some([1, 2, 3, 4]));
    assert_eq!(dos_id_from_draw(false, [1, 2, 3, 4]), None);
    assert_eq!(dos_disk_id_with(&None, [5, 6, 7, 8]).unwrap(), [5, 6, 7, 8]);
    assert_eq!(dos_disk_id_with(&Some("0x0A0B0C0D".to_string()), [5, 6, 7, 8]).unwrap(), [0x0d, 0x0c, 0x0b, 0x0a]);
    assert_eq!(gpt_disk_guid_with(&None, [7; 16]).unwrap(), [7; 16]);
    let g = gpt_disk_guid_with(&Some(DISK.to_string()), [7; 16]).unwrap();
    assert_eq!(g, [0x44, 0x33, 0x22, 0x11, 0x66, 0x55, 0x88, 0x77, 0x99, 0x00, 0xAA, 0xBB, 0xCC, 0xDD, 0xEE, 0xFF]);
}

#[test]
fn table_disk_works_through_std_io() {
    let mut t = TableDisk::new(SparseDisk::new(10000));
    assert_eq!(t.seek(SeekFrom::End(-16)).unwrap(), 9984);
    assert_eq!(t.write(&[7u8; 32]).unwrap(), 32);
    assert_eq!(t.seek(SeekFrom::Current(-40)).unwrap(), 9976);
    let mut buf = [1u8; 16];
    assert_eq!(t.read(&mut buf).unwrap(), 16);
    assert_eq!(buf, [0, 0, 0, 0, 0, 0, 0, 0, 7, 7, 7, 7, 7, 7, 7, 7]);
    t.flush().unwrap();
    assert_eq!(t.seek(SeekFrom::Start(u64::MAX)).unwrap(), u64::MAX);
    assert!(t.write(&[1]).is_err());
    assert!(t.seek(SeekFrom::Current(i64::MIN)).is_err());
    let d = t.into_disk();
    assert_eq!(d.blocks.len(), 1);
}

#[test]
fn generation_without_random_values_repeats() {
    let s = SchemaLayout {
        table: TableType::Dos,
        disk_id: Some("0xCAFE".to_string()),
        sector: 512,
        partitions: vec![pc("a", Some("0x83"), 4096, None)],
    };
    let a = generate(&s, resolve(&s, &FileSizes::new()).unwrap()).unwrap();
    let b = generate(&s, resolve(&s, &FileSizes::new()).unwrap()).unwrap();
    assert_eq!(a, b);
    let g = SchemaLayout { table: TableType::Gpt, disk_id: Some(DISK.to_string()), sector: 512, partitions: vec![] };
    let x = generate(&g, resolve(&g, &FileSizes::new()).unwrap()).unwrap();
    let y = generate(&g, resolve(&g, &FileSizes::new()).unwrap()).unwrap();
    assert_eq!(x, y);
    assert!(!x.metadata_chunks.is_empty());
}
