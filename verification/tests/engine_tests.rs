//! The vnode write path: buffering, series deletion, rotation on fullness,
//! flush requests, and snapshot isolation.

use tskv::column_file::ColumnFile;
use tskv::compaction::FlushReq;
use tskv::level_info::LevelInfo;
use tskv::memcache::{FieldVal, MemCache, RowData, RowGroup};
use tskv::options::{CacheOptions, StorageOptions};
use tskv::schema::{ColumnType, TableColumn, TskvTableSchema, ValueType};
use tskv::timerange::TimeRange;
use tskv::tseries_family::TseriesFamily;
use tskv::version::Version;

fn storage_opt() -> StorageOptions {
    StorageOptions::new("/tmp/test/ts_family".to_owned(), 1000)
}

fn field_schema(ids: Vec<u32>) -> TskvTableSchema {
    let mut columns = Vec::new();
    for id in ids {
        columns.push(TableColumn::new(
            id,
            format!("f{}", id),
            ColumnType::Field(ValueType::Integer),
        ));
    }
    TskvTableSchema::new("cnosdb".to_owned(), "db".to_owned(), "table".to_owned(), columns)
}

fn row_group(ts: i64, range: TimeRange, vals: Vec<i64>, size: usize) -> RowGroup {
    let fields = vals.into_iter().map(|v| Some(FieldVal::Integer(v))).collect();
    RowGroup {
        schema: field_schema(vec![0, 1, 2]),
        range,
        rows: vec![RowData { ts, fields }],
        size,
    }
}

fn empty_version(database: &str, opt: &StorageOptions) -> Version {
    Version::new(
        0,
        database.to_owned(),
        opt.clone(),
        0,
        LevelInfo::init_levels(database.to_owned(), 0, opt.clone()),
        0,
    )
}

fn new_tsf(buffer: u64, max_immutable: u32) -> (TseriesFamily, tokio::sync::mpsc::UnboundedReceiver<FlushReq>) {
    let (tx, rx) = tokio::sync::mpsc::unbounded_channel();
    let opt = storage_opt();
    let database = "db".to_owned();
    let tsf = TseriesFamily::new(
        0,
        database.clone(),
        MemCache::new(0, buffer, 0),
        empty_version(&database, &opt),
        CacheOptions { max_buffer_size: buffer, max_immutable_number: max_immutable },
        opt,
        tx,
    );
    (tsf, rx)
}

#[test]
fn test_tsf_delete() {
    // Write one row group for series 0, see one buffered row, delete the
    // series over [0,200], see none.
    let (mut tsf, _rx) = new_tsf(500, 1);
    let group = row_group(10, TimeRange::new(1, 100), vec![11, 12, 13], 100);
    tsf.put_points(0, vec![((0u32, 0u32), group)]);

    assert_eq!(tsf.cache().get_data(0).len(), 1);
    tsf.delete_series(&vec![0], &TimeRange::new(0, 200));
    assert!(tsf.cache().get_data(0).is_empty());
}

#[test]
fn memcache_fullness_triggers_rotation() {
    // Two writes of 60 bytes cross a 100-byte budget: the old buffer moves
    // to the immutable list, a new snapshot is published, and with the
    // immutable bound at one a flush request is emitted.
    let (mut tsf, mut rx) = new_tsf(100, 1);
    let sv_before = tsf.super_version();
    tsf.put_points(1, vec![((0u32, 0u32), row_group(1, TimeRange::new(1, 1), vec![1, 2, 3], 60))]);
    tsf.check_to_flush();
    assert!(tsf.im_cache().is_empty());
    tsf.put_points(2, vec![((0u32, 0u32), row_group(2, TimeRange::new(2, 2), vec![4, 5, 6], 60))]);
    tsf.check_to_flush();

    assert_eq!(tsf.im_cache().len(), 1);
    let sv_after = tsf.super_version();
    assert!(sv_after.version_number > sv_before.version_number);

    let req = rx.try_recv().expect("one flush request");
    assert_eq!(req.mems.len(), 1);
    assert_eq!(req.mems[0].0, 0);
    assert!(req.mems[0].1.flushing);
    assert!(tsf.im_cache()[0].flushing);
}

#[test]
fn snapshot_isolation_across_rotation() {
    // A reader's snapshot survives a rotation and a new version untouched;
    // a fresh snapshot reflects them.
    let (mut tsf, _rx) = new_tsf(100, 10);
    tsf.put_points(1, vec![((0u32, 0u32), row_group(5, TimeRange::new(5, 5), vec![7, 8, 9], 10))]);
    let s1 = tsf.super_version();
    let s1_rows = s1.caches.mut_cache.get_data(0).len();
    assert_eq!(s1.version_number, 0);

    tsf.switch_to_immutable();
    let opt = storage_opt();
    let mut v2 = empty_version("db", &opt);
    v2.last_seq = 9;
    tsf.new_version(v2);

    // The held snapshot is unchanged.
    assert_eq!(s1.version_number, 0);
    assert_eq!(s1.caches.immut_cache.len(), 0);
    assert_eq!(s1.caches.mut_cache.get_data(0).len(), s1_rows);
    assert_eq!(s1.version.last_seq, 0);

    // A fresh snapshot reflects both publications.
    let s2 = tsf.super_version();
    assert_eq!(s2.version_number, 2);
    assert_eq!(s2.caches.immut_cache.len(), 1);
    assert_eq!(s2.version.last_seq, 9);
    assert_eq!(tsf.seq_no(), 9);
}

#[test]
fn publication_is_monotone() {
    // Every publication strictly increases the snapshot number.
    let (mut tsf, _rx) = new_tsf(100, 10);
    let mut last = tsf.super_version().version_number;
    tsf.switch_to_immutable();
    assert!(tsf.super_version().version_number > last);
    last = tsf.super_version().version_number;
    tsf.switch_memcache(MemCache::new(0, 100, 0));
    assert!(tsf.super_version().version_number > last);
    last = tsf.super_version().version_number;
    let opt = storage_opt();
    tsf.new_version(empty_version("db", &opt));
    assert!(tsf.super_version().version_number > last);
}

#[test]
fn flush_req_sweeps_flushed_and_marks_flushing() {
    // Buffers already persisted are reclaimed; the rest are handed out
    // marked flushing; a second request without force finds nothing new.
    let (mut tsf, _rx) = new_tsf(100, 1);
    tsf.put_points(1, vec![((0u32, 0u32), row_group(1, TimeRange::new(1, 1), vec![1, 2, 3], 120))]);
    tsf.switch_to_immutable();
    let req = tsf.flush_req(true).expect("a request");
    assert_eq!(req.mems.len(), 1);
    assert!(tsf.im_cache()[0].flushing);
    // Nothing left to hand out unless forced, and a forced request carries
    // no buffer either, as the only one is already flushing.
    assert!(tsf.flush_req(false).is_none());
    let forced = tsf.flush_req(true).expect("forced request");
    assert_eq!(forced.mems.len(), 0);
}

#[test]
fn memcache_schema_mutations() {
    // Adding a column grows every row by an empty slot; changing a column
    // renames it; deleting a column removes its slot.
    let mut mem = MemCache::new(0, 1000, 0);
    mem.write_group(3, 1, row_group(1, TimeRange::new(1, 1), vec![1, 2, 3], 10));
    assert_eq!(mem.get_data(3)[0].fields.len(), 3);

    let extra = TableColumn::new(9, "f9".to_owned(), ColumnType::Field(ValueType::Integer));
    mem.add_column(&vec![3], &extra);
    assert_eq!(mem.get_data(3)[0].fields.len(), 4);

    let renamed = TableColumn::new(9, "f9b".to_owned(), ColumnType::Field(ValueType::Integer));
    mem.change_column(&vec![3], &"f9".to_owned(), &renamed);

    // Field id of column 1 in series 3.
    let fid = tskv::schema::unite_field_id(1, 3);
    mem.delete_columns(&vec![fid]);
    assert_eq!(mem.get_data(3)[0].fields.len(), 3);
    assert!(mem.is_full() == false);
}

#[test]
fn get_version_edit_lists_every_file() {
    let (mut tsf, _rx) = new_tsf(100, 1);
    let opt = storage_opt();
    let mut levels = LevelInfo::init_levels("db".to_owned(), 0, opt.clone());
    levels[1].push_column_file(ColumnFile::new(
        5,
        1,
        TimeRange::new(1, 9),
        10,
        false,
        "p".to_owned(),
    ));
    let version = Version::new(0, "db".to_owned(), opt, 4, levels, 9);
    tsf.new_version(version);
    let edit = tsf.get_version_edit(77, "db".to_owned());
    assert!(edit.add_tsf);
    assert_eq!(edit.tsf_name, "db".to_owned());
    assert_eq!(edit.add_files.len(), 1);
    assert_eq!(edit.add_files[0].file_id, 5);
    assert_eq!(edit.add_files[0].high_seq, 77);
    assert!(edit.has_seq_no);
    assert_eq!(edit.seq_no, 77);
}
