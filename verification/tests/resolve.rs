use wasm_imager::resolver::{resolve, try_resolve, Stop};
use wasm_imager::schema::{FileSizes, PartitionConfig, SchemaLayout, TableType};

const LINUX: &str = "0FC63DAF-8483-4772-8E79-3D69D8477DE4";

fn part(id: &str, ty: Option<&str>, offset: Option<u64>, size: Option<u64>, hidden: Option<bool>) -> PartitionConfig {
    PartitionConfig {
        partition_type: ty.map(|t| t.to_string()),
        id: id.to_string(),
        offset,
        size,
        hidden,
    }
}

fn schema(table: TableType, disk_id: Option<&str>, sector: u64, partitions: Vec<PartitionConfig>) -> SchemaLayout {
    SchemaLayout { table, disk_id: disk_id.map(|d| d.to_string()), sector, partitions }
}

fn err_of(s: &SchemaLayout, sizes: &FileSizes) -> String {
    match resolve(s, sizes) {
        Ok(_) => panic!("expected an error"),
        Err(e) => e,
    }
}

#[test]
fn readme_gpt_example() {
    let s = schema(
        TableType::Gpt,
        Some("11223344-5566-7788-9900-AABBCCDDEEFF"),
        512,
        vec![part("boot", Some(LINUX), Some(1048576), Some(16777216), Some(false))],
    );
    let info = resolve(&s, &FileSizes::new()).unwrap();
    assert_eq!(info.disk_size, 18 * 1048576);
    assert_eq!(info.partitions.len(), 1);
    assert_eq!(info.partitions[0].id, "boot");
    assert_eq!(info.partitions[0].offset, 1048576);
    assert_eq!(info.partitions[0].size, 16777216);
}

#[test]
fn auto_placement_aligns_to_2048_sectors() {
    let s = schema(
        TableType::Gpt,
        None,
        512,
        vec![part("a", Some(LINUX), None, Some(1000), None), part("b", Some(LINUX), None, Some(512), None)],
    );
    let info = resolve(&s, &FileSizes::new()).unwrap();
    assert_eq!(info.partitions[0].offset, 2048 * 512);
    assert_eq!(info.partitions[0].size, 1024);
    assert_eq!(info.partitions[1].offset, 4096 * 512);
    assert_eq!(info.partitions[1].size, 512);
    // 4096 * 512 + 512 + 33 * 512, rounded up to whole MiB
    assert_eq!(info.disk_size, 3 * 1048576);
}

#[test]
fn size_inferred_from_file() {
    let s = schema(TableType::Raw, None, 512, vec![part("data", None, None, None, None)]);
    let mut sizes = FileSizes::new();
    sizes.insert("data".to_string(), 1500);
    let info = resolve(&s, &sizes).unwrap();
    assert_eq!(info.partitions[0].size, 1536);
    assert_eq!(info.partitions[0].offset, 1048576);
    assert_eq!(info.disk_size, 2 * 1048576);
}

#[test]
fn file_sizes_map_replaces() {
    let mut sizes = FileSizes::new();
    assert_eq!(sizes.get(&"x".to_string()), None);
    sizes.insert("x".to_string(), 3);
    sizes.insert("y".to_string(), 4);
    sizes.insert("x".to_string(), 5);
    assert_eq!(sizes.get(&"x".to_string()), Some(5));
    assert_eq!(sizes.get(&"y".to_string()), Some(4));
    assert_eq!(sizes.get(&"z".to_string()), None);
}

#[test]
fn explicit_size_keeps_larger_than_file() {
    let s = schema(TableType::Raw, None, 4096, vec![part("p", None, None, Some(5000), None)]);
    let mut sizes = FileSizes::new();
    sizes.insert("p".to_string(), 4000);
    let info = resolve(&s, &sizes).unwrap();
    assert_eq!(info.partitions[0].size, 8192);
    assert_eq!(info.partitions[0].offset, 2048 * 4096);
}

#[test]
fn rejects_duplicate_id() {
    let s = schema(
        TableType::Raw,
        None,
        512,
        vec![part("a", None, None, Some(512), None), part("a", None, None, Some(512), None)],
    );
    assert_eq!(err_of(&s, &FileSizes::new()), "Duplicate partition ID: a");
}

#[test]
fn rejects_missing_gpt_type() {
    let s = schema(TableType::Gpt, None, 512, vec![part("root", None, None, Some(512), None)]);
    assert_eq!(err_of(&s, &FileSizes::new()), "GPT partition root missing type (UUID)");
}

#[test]
fn hidden_partition_needs_no_type() {
    let s = schema(TableType::Gpt, None, 512, vec![part("blob", None, None, Some(512), Some(true))]);
    let info = resolve(&s, &FileSizes::new()).unwrap();
    assert_eq!(info.partitions.len(), 1);
}

#[test]
fn rejects_bad_gpt_type() {
    let s = schema(TableType::Gpt, None, 512, vec![part("root", Some("not-a-uuid"), None, Some(512), None)]);
    let e = err_of(&s, &FileSizes::new());
    let detail = uuid::Uuid::parse_str("not-a-uuid").unwrap_err().to_string();
    assert_eq!(e, format!("Partition root type is not a valid UUID: {}", detail));
}

#[test]
fn rejects_dos_types() {
    let s = schema(TableType::Dos, None, 512, vec![part("p", None, None, Some(512), None)]);
    assert_eq!(err_of(&s, &FileSizes::new()), "DOS partition p missing type (Hex)");
    let s = schema(TableType::Dos, None, 512, vec![part("p", Some("0x1FF"), None, Some(512), None)]);
    assert_eq!(err_of(&s, &FileSizes::new()), "Partition p type is not a valid DOS hex format");
}

#[test]
fn rejects_unaligned_offset() {
    let s = schema(TableType::Raw, None, 512, vec![part("p", None, Some(1000), Some(512), None)]);
    assert_eq!(err_of(&s, &FileSizes::new()), "Partition p offset is not aligned to sector");
}

#[test]
fn rejects_file_larger_than_size() {
    let s = schema(TableType::Raw, None, 512, vec![part("p", None, None, Some(512), None)]);
    let mut sizes = FileSizes::new();
    sizes.insert("p".to_string(), 513);
    assert_eq!(err_of(&s, &sizes), "Partition p input file exceeds preset size");
}

#[test]
fn rejects_missing_size() {
    let s = schema(TableType::Raw, None, 512, vec![part("p", None, None, None, None)]);
    assert_eq!(err_of(&s, &FileSizes::new()), "Partition p missing size and no input file to infer");
}

#[test]
fn rejects_size_overflow() {
    let s = schema(TableType::Raw, None, 512, vec![part("p", None, None, Some(u64::MAX), None)]);
    assert_eq!(err_of(&s, &FileSizes::new()), "Partition p size calculation overflow");
}

#[test]
fn rejects_overlap() {
    let s = schema(
        TableType::Raw,
        None,
        512,
        vec![
            part("a", None, Some(1048576), Some(4096), None),
            part("b", None, Some(1048576 + 2048), Some(512), None),
        ],
    );
    assert_eq!(
        err_of(&s, &FileSizes::new()),
        "Partition b position overlaps or is out of order with previous partition"
    );
}

#[test]
fn rejects_out_of_order() {
    let s = schema(
        TableType::Raw,
        None,
        512,
        vec![part("a", None, Some(2 * 1048576), Some(512), None), part("b", None, Some(1048576), Some(512), None)],
    );
    assert_eq!(
        err_of(&s, &FileSizes::new()),
        "Partition b position overlaps or is out of order with previous partition"
    );
}

#[test]
fn rejects_dos_capacity() {
    let s = schema(
        TableType::Dos,
        None,
        512,
        vec![part("p", Some("83"), Some((u32::MAX as u64) * 512), Some(1024), None)],
    );
    assert_eq!(err_of(&s, &FileSizes::new()), "Partition p exceeds DOS MBR capacity limit");
}

#[test]
fn rejects_space_range_overflow() {
    let s = schema(TableType::Raw, None, 512, vec![part("p", None, Some(u64::MAX - 511), Some(512), None)]);
    assert_eq!(err_of(&s, &FileSizes::new()), "Partition p space range exceeds u64 limit");
}

#[test]
fn rejects_too_many_dos_partitions() {
    let mut ps = Vec::new();
    for i in 0..5 {
        ps.push(part(&format!("p{i}"), Some("0x83"), None, Some(512), None));
    }
    let s = schema(TableType::Dos, None, 512, ps);
    assert_eq!(err_of(&s, &FileSizes::new()), "DOS MBR supports at most 4 primary partition entries");
    let mut ps = Vec::new();
    for i in 0..5 {
        ps.push(part(&format!("p{i}"), Some("0x83"), None, Some(512), Some(i == 0)));
    }
    let s = schema(TableType::Dos, None, 512, ps);
    assert!(resolve(&s, &FileSizes::new()).is_ok());
}

#[test]
fn rejects_too_many_gpt_partitions() {
    let mut ps = Vec::new();
    for i in 0..129 {
        ps.push(part(&format!("p{i}"), Some(LINUX), None, Some(512), None));
    }
    let s = schema(TableType::Gpt, None, 512, ps);
    assert_eq!(err_of(&s, &FileSizes::new()), "GPT format supports at most 128 partition entries");
}

#[test]
fn rejects_bad_disk_ids() {
    let s = schema(TableType::Dos, Some("0xZZ"), 512, vec![]);
    assert_eq!(err_of(&s, &FileSizes::new()), "disk_id must be a valid 32-bit Hex number (e.g. 0x12345678)");
    let s = schema(TableType::Gpt, Some("nope"), 512, vec![]);
    let detail = uuid::Uuid::parse_str("nope").unwrap_err().to_string();
    assert_eq!(err_of(&s, &FileSizes::new()), format!("disk_id must be a valid UUID: {}", detail));
    let s = schema(TableType::Raw, Some("anything"), 512, vec![]);
    assert!(resolve(&s, &FileSizes::new()).is_ok());
}

#[test]
fn empty_schema_gets_minimal_disk() {
    let s = schema(TableType::Gpt, None, 512, vec![]);
    let info = resolve(&s, &FileSizes::new()).unwrap();
    assert_eq!(info.disk_size, 1048576);
    assert!(info.partitions.is_empty());
    let s = schema(TableType::Raw, None, 0, vec![]);
    assert_eq!(resolve(&s, &FileSizes::new()).unwrap().disk_size, 0);
}

#[test]
fn zero_sector_traps() {
    let s = schema(TableType::Raw, None, 0, vec![part("p", None, None, Some(512), None)]);
    assert!(matches!(try_resolve(&s, &FileSizes::new()), Err(Stop::Trapped)));
    let s = schema(TableType::Raw, None, 0, vec![part("p", None, None, None, None)]);
    match try_resolve(&s, &FileSizes::new()) {
        Err(Stop::Rejected(m)) => assert_eq!(m, "Partition p missing size and no input file to infer"),
        _ => panic!("expected a rejection"),
    }
}

#[test]
fn auto_placement_overflow_traps() {
    let s = schema(
        TableType::Raw,
        None,
        1,
        vec![part("a", None, Some(u64::MAX - 10), Some(3), None), part("b", None, None, Some(1), None)],
    );
    assert!(matches!(try_resolve(&s, &FileSizes::new()), Err(Stop::Trapped)));
}

#[test]
fn sizes_of_other_ids_and_zero_sizes_change_nothing() {
    let s = schema(
        TableType::Raw,
        None,
        512,
        vec![part("a", None, None, Some(4096), None), part("b", None, None, None, None)],
    );
    let mut f1 = FileSizes::new();
    f1.insert("b".to_string(), 1000);
    let mut f2 = FileSizes::new();
    f2.insert("b".to_string(), 1000);
    f2.insert("a".to_string(), 0);
    f2.insert("unused".to_string(), 1 << 40);
    let r1 = resolve(&s, &f1).unwrap();
    let r2 = resolve(&s, &f2).unwrap();
    assert_eq!(r1.disk_size, r2.disk_size);
    assert_eq!(r1.partitions, r2.partitions);
}
