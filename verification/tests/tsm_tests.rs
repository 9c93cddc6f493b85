//! The TSM read path: flushing a buffer to file blocks, installing the file
//! through a summary edit, and tombstones honored on reads.

use tskv::column_file::ColumnFile;
use tskv::level_info::LevelInfo;
use tskv::memcache::{FieldVal, MemCache, RowData, RowGroup};
use tskv::options::StorageOptions;
use tskv::schema::{ColumnType, TableColumn, TskvTableSchema, ValueType};
use tskv::summary::{CompactMeta, VersionEdit};
use tskv::timerange::TimeRange;
use tskv::tsm::{build_tsm_blocks, DataBlock, FieldFileLocation, TsmDataStore, TsmFileData};
use tskv::version::Version;

fn storage_opt() -> StorageOptions {
    StorageOptions::new("/tmp/test/ts_family".to_owned(), 1000)
}

fn field_schema(ids: Vec<u32>) -> TskvTableSchema {
    let mut columns = Vec::new();
    for id in ids {
        columns.push(TableColumn::new(
            id,
            format!("f{}", id),
            ColumnType::Field(ValueType::Integer),
        ));
    }
    TskvTableSchema::new("cnosdb".to_owned(), "db".to_owned(), "table".to_owned(), columns)
}

#[test]
fn test_read_with_tomb() {
    // Flush a row group for series 0 at timestamp 0 into a TSM image,
    // install the file through a summary edit, read field 0 over [0,0] and
    // see one block; add a tombstone for (field 0, [0,0]) and see nothing.
    let mut mem = MemCache::new(0, 1000, 0);
    let group = RowGroup {
        schema: field_schema(vec![0, 1, 2]),
        range: TimeRange::new(0, 0),
        rows: vec![RowData {
            ts: 0,
            fields: vec![
                Some(FieldVal::Integer(11)),
                Some(FieldVal::Integer(12)),
                Some(FieldVal::Integer(13)),
            ],
        }],
        size: 64,
    };
    mem.write_group(0, 0, group);

    let blocks = build_tsm_blocks(&mem);
    assert_eq!(blocks.len(), 3);
    let mut store = TsmDataStore::new();
    store.install(TsmFileData::new(10, blocks));

    // Install the flushed file into a fresh version through an edit.
    let opt = storage_opt();
    let database = "db".to_owned();
    let version = Version::new(
        0,
        database.clone(),
        opt.clone(),
        0,
        LevelInfo::init_levels(database.clone(), 0, opt.clone()),
        0,
    );
    let mut ve = VersionEdit::new(0);
    ve.add_file(
        CompactMeta {
            file_id: 10,
            file_size: 64,
            tsf_id: 0,
            level: 1,
            min_ts: 0,
            max_ts: 0,
            high_seq: 1,
            low_seq: 0,
            is_delta: false,
        },
        0,
    );
    let (installed, _removed) = version.copy_apply_version_edits(vec![ve], Some(1));
    assert_eq!(installed.levels_info[1].files.len(), 1);

    // Field 0 of series 0 has composite id 0.
    let before = installed.levels_info[1].read_column_file(&store, 0, &TimeRange::new(0, 0));
    assert_eq!(before.len(), 1);
    assert_eq!(before[0].points.len(), 1);

    // Tombstone (field 0, [0,0]) hides the block from later reads.
    store
        .get_mut(10)
        .expect("file image")
        .tombstone
        .add_range(&vec![0], &TimeRange::new(0, 0));
    let after = installed.levels_info[1].read_column_file(&store, 0, &TimeRange::new(0, 0));
    assert!(after.is_empty());
}

#[test]
fn read_skips_deleted_and_nonoverlapping_files() {
    let mut store = TsmDataStore::new();
    let mut mem = MemCache::new(0, 1000, 0);
    mem.write_group(
        0,
        0,
        RowGroup {
            schema: field_schema(vec![0]),
            range: TimeRange::new(5, 5),
            rows: vec![RowData { ts: 5, fields: vec![Some(FieldVal::Integer(1))] }],
            size: 16,
        },
    );
    store.install(TsmFileData::new(1, build_tsm_blocks(&mem)));

    let opt = storage_opt();
    let mut lv = LevelInfo::init("db".to_owned(), 1, 0, opt);
    lv.push_column_file(ColumnFile::new(1, 1, TimeRange::new(5, 5), 16, false, "p".to_owned()));

    // Overlapping query sees the block; a disjoint query sees nothing.
    assert_eq!(lv.read_column_file(&store, 0, &TimeRange::new(0, 10)).len(), 1);
    assert!(lv.read_column_file(&store, 0, &TimeRange::new(100, 200)).is_empty());

    // A deleted file is skipped.
    lv.files[0].mark_deleted();
    assert!(lv.read_column_file(&store, 0, &TimeRange::new(0, 10)).is_empty());
}

#[test]
fn missing_file_image_aborts_level_scan() {
    let store = TsmDataStore::new();
    let opt = storage_opt();
    let mut lv = LevelInfo::init("db".to_owned(), 1, 0, opt);
    lv.push_column_file(ColumnFile::new(1, 1, TimeRange::new(5, 5), 16, false, "p".to_owned()));
    assert!(lv.read_column_file(&store, 0, &TimeRange::new(0, 10)).is_empty());
}

#[test]
fn flush_blocks_key_fields_by_series_and_column() {
    // Series 7, column 2: the block's field id is the composite of both.
    let mut mem = MemCache::new(0, 1000, 0);
    mem.write_group(
        7,
        0,
        RowGroup {
            schema: field_schema(vec![2]),
            range: TimeRange::new(1, 2),
            rows: vec![
                RowData { ts: 1, fields: vec![Some(FieldVal::Integer(5))] },
                RowData { ts: 2, fields: vec![None] },
            ],
            size: 32,
        },
    );
    let blocks = build_tsm_blocks(&mem);
    assert_eq!(blocks.len(), 1);
    assert_eq!(blocks[0].field_id, tskv::schema::unite_field_id(2, 7));
    // The row with no value in the column contributes no point.
    assert_eq!(blocks[0].points.len(), 1);
    assert_eq!(blocks[0].points[0].0, 1);
}

#[test]
fn cursor_walks_points_across_blocks() {
    let blocks = vec![
        DataBlock {
            field_id: 0,
            time_range: TimeRange::new(1, 2),
            points: vec![(1, FieldVal::Integer(10)), (2, FieldVal::Integer(20))],
        },
        DataBlock { field_id: 0, time_range: TimeRange::new(3, 3), points: vec![] },
        DataBlock {
            field_id: 0,
            time_range: TimeRange::new(4, 4),
            points: vec![(4, FieldVal::Integer(40))],
        },
    ];
    let mut cursor = FieldFileLocation::new(blocks);
    let mut seen = Vec::new();
    while let Some((ts, _v)) = cursor.peek() {
        seen.push(ts);
        cursor.next();
    }
    // The empty middle block is skipped; the points come in order.
    assert_eq!(seen, vec![1, 2, 4]);
}
