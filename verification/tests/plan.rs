use std::io::{Read, Seek, Write};
use wasm_imager::disk::{SeekFrom as DiskSeek, SparseDisk};
use wasm_imager::generator::{
    dos_disk_id, finish_layout, gpt_disk_guid, plan_gpt_entries, plan_mbr_entries,
};
use wasm_imager::resolver::{resolve, Stop};
use wasm_imager::schema::{FileSizes, PartitionConfig, SchemaLayout, TableType};

const LINUX: &str = "0FC63DAF-8483-4772-8E79-3D69D8477DE4";

fn pc(id: &str, ty: Option<&str>, size: u64, hidden: Option<bool>) -> PartitionConfig {
    PartitionConfig {
        partition_type: ty.map(|t| t.to_string()),
        id: id.to_string(),
        offset: None,
        size: Some(size),
        hidden,
    }
}

struct Io<'a>(&'a mut SparseDisk);

impl Read for Io<'_> {
    fn read(&mut self, buf: &mut [u8]) -> std::io::Result<usize> {
        Ok(self.0.read(buf))
    }
}

impl Write for Io<'_> {
    fn write(&mut self, buf: &[u8]) -> std::io::Result<usize> {
        Ok(self.0.write(buf))
    }
    fn flush(&mut self) -> std::io::Result<()> {
        self.0.flush();
        Ok(())
    }
}

impl Seek for Io<'_> {
    fn seek(&mut self, pos: std::io::SeekFrom) -> std::io::Result<u64> {
        Ok(self.0.seek(match pos {
            std::io::SeekFrom::Start(p) => DiskSeek::Start(p),
            std::io::SeekFrom::End(p) => DiskSeek::End(p),
            std::io::SeekFrom::Current(p) => DiskSeek::Current(p),
        }))
    }
}

#[test]
fn gpt_entries_follow_placements() {
    let s = SchemaLayout {
        table: TableType::Gpt,
        disk_id: None,
        sector: 512,
        partitions: vec![pc("boot", Some(LINUX), 16777216, None), pc("blob", None, 512, Some(true)), pc("root", Some(LINUX), 1000, Some(false))],
    };
    let info = resolve(&s, &FileSizes::new()).unwrap();
    let entries = plan_gpt_entries(&s, &info).unwrap();
    assert_eq!(entries.len(), 2);
    assert_eq!(entries[0].partition_name, "boot");
    assert_eq!(entries[0].starting_lba, 2048);
    assert_eq!(entries[0].ending_lba, 2048 + 32768 - 1);
    assert_eq!(entries[0].partition_type_guid[0], 0xAF);
    assert_eq!(entries[0].unique_partition_guid[7] & 0xf0, 0x40);
    assert_eq!(entries[1].partition_name, "root");
    assert_eq!(entries[1].starting_lba, info.partitions[2].offset / 512);
    assert_eq!(entries[1].ending_lba, entries[1].starting_lba + 1);
    assert_ne!(entries[0].unique_partition_guid, entries[1].unique_partition_guid);
}

#[test]
fn gpt_entry_with_bad_type_is_refused() {
    let s = SchemaLayout {
        table: TableType::Gpt,
        disk_id: None,
        sector: 512,
        partitions: vec![pc("a", Some("bad"), 512, None)],
    };
    let info = resolve(&SchemaLayout { table: TableType::Raw, ..clone_schema(&s) }, &FileSizes::new()).unwrap();
    match plan_gpt_entries(&s, &info) {
        Err(Stop::Rejected(m)) => assert_eq!(m, uuid::Uuid::parse_str("bad").unwrap_err().to_string()),
        _ => panic!("expected a rejection"),
    }
}

fn clone_schema(s: &SchemaLayout) -> SchemaLayout {
    SchemaLayout {
        table: s.table,
        disk_id: s.disk_id.clone(),
        sector: s.sector,
        partitions: s
            .partitions
            .iter()
            .map(|p| PartitionConfig {
                partition_type: p.partition_type.clone(),
                id: p.id.clone(),
                offset: p.offset,
                size: p.size,
                hidden: p.hidden,
            })
            .collect(),
    }
}

#[test]
fn gpt_entry_without_placement_traps() {
    let s = SchemaLayout {
        table: TableType::Gpt,
        disk_id: None,
        sector: 512,
        partitions: vec![pc("a", Some(LINUX), 512, None)],
    };
    let empty = resolve(&SchemaLayout { partitions: vec![], ..clone_schema(&s) }, &FileSizes::new()).unwrap();
    assert!(matches!(plan_gpt_entries(&s, &empty), Err(Stop::Trapped)));
}

#[test]
fn mbr_entries_follow_placements() {
    let s = SchemaLayout {
        table: TableType::Dos,
        disk_id: Some("0x12345678".to_string()),
        sector: 512,
        partitions: vec![pc("a", Some("0x0C"), 1048576, None), pc("b", Some("83"), 512, None), pc("c", Some("0x7"), 512, Some(true))],
    };
    let info = resolve(&s, &FileSizes::new()).unwrap();
    let entries = plan_mbr_entries(&s, &info).unwrap();
    assert_eq!(entries.len(), 2);
    assert_eq!(entries[0].starting_lba, 2048);
    assert_eq!(entries[0].sectors, 2048);
    assert_eq!(entries[0].sys, 0x0c);
    assert_eq!(entries[1].starting_lba, 4096);
    assert_eq!(entries[1].sectors, 1);
    assert_eq!(entries[1].sys, 0x83);
}

#[test]
fn disk_ids() {
    assert_eq!(dos_disk_id(&Some("0x12345678".to_string())).unwrap(), [0x78, 0x56, 0x34, 0x12]);
    match dos_disk_id(&Some("zz".to_string())) {
        Err(Stop::Rejected(m)) => assert_eq!(m, "Invalid DOS ID: invalid digit found in string"),
        _ => panic!("expected a rejection"),
    }
    match dos_disk_id(&Some("123456789".to_string())) {
        Err(Stop::Rejected(m)) => assert_eq!(m, "Invalid DOS ID: number too large to fit in target type"),
        _ => panic!("expected a rejection"),
    }
    assert!(dos_disk_id(&None).is_ok());
    let g = gpt_disk_guid(&Some("11223344-5566-7788-9900-AABBCCDDEEFF".to_string())).unwrap();
    assert_eq!(g, [0x44, 0x33, 0x22, 0x11, 0x66, 0x55, 0x88, 0x77, 0x99, 0x00, 0xAA, 0xBB, 0xCC, 0xDD, 0xEE, 0xFF]);
    let r = gpt_disk_guid(&None).unwrap();
    assert_eq!(r[8] & 0xc0, 0x80);
    assert_eq!(r[7] & 0xf0, 0x40);
    match gpt_disk_guid(&Some("bad".to_string())) {
        Err(Stop::Rejected(m)) => assert_eq!(m, uuid::Uuid::parse_str("bad").unwrap_err().to_string()),
        _ => panic!("expected a rejection"),
    }
}

#[test]
fn written_gpt_becomes_chunks() {
    let s = SchemaLayout {
        table: TableType::Gpt,
        disk_id: Some("11223344-5566-7788-9900-AABBCCDDEEFF".to_string()),
        sector: 512,
        partitions: vec![pc("boot", Some(LINUX), 16777216, None)],
    };
    let info = resolve(&s, &FileSizes::new()).unwrap();
    let mut disk = SparseDisk::new(info.disk_size);
    let guid = gpt_disk_guid(&s.disk_id).unwrap();
    let entries = plan_gpt_entries(&s, &info).unwrap();
    {
        let mut io = Io(&mut disk);
        let mut gpt = gptman::GPT::new_from(&mut io, 512, guid).unwrap();
        for (i, e) in entries.iter().enumerate() {
            gpt[(i + 1) as u32] = gptman::GPTPartitionEntry {
                partition_type_guid: e.partition_type_guid,
                unique_partition_guid: e.unique_partition_guid,
                starting_lba: e.starting_lba,
                ending_lba: e.ending_lba,
                attribute_bits: 0,
                partition_name: e.partition_name.as_str().into(),
            };
        }
        io.seek(std::io::SeekFrom::Start(0)).unwrap();
        gptman::GPT::write_protective_mbr_into(&mut io, 512).unwrap();
        gpt.write_into(&mut io).unwrap();
    }
    let layout = finish_layout(&disk, info);
    assert_eq!(layout.disk_size, 18 * 1048576);
    assert_eq!(layout.resolved_partitions.len(), 1);
    let first = &layout.metadata_chunks[0];
    assert_eq!(first.offset, 448);
    assert_eq!(first.data[0], 0x02);
    assert_eq!(first.data[2], 0xee);
    let hdr = 512 - first.offset as usize;
    assert_eq!(&first.data[hdr..hdr + 8], b"EFI PART");
    let last = layout.metadata_chunks.last().unwrap();
    assert!(last.offset >= layout.disk_size - 512);
    let mut prev_end = 0;
    for c in &layout.metadata_chunks {
        assert!(c.offset >= prev_end);
        assert!(!c.data.is_empty() && c.data[0] != 0 && *c.data.last().unwrap() != 0);
        prev_end = c.offset + c.data.len() as u64;
    }
}
