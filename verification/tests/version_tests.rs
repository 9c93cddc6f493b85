//! Version snapshots and edit application: the carried-over edit tests and
//! the deletion/addition behavior around them.

use tskv::column_file::ColumnFile;
use tskv::level_info::LevelInfo;
use tskv::options::{make_tsm_file_name, StorageOptions};
use tskv::summary::{CompactMeta, VersionEdit};
use tskv::timerange::TimeRange;
use tskv::version::Version;

fn storage_opt() -> StorageOptions {
    StorageOptions::new("/tmp/test/ts_family".to_owned(), 1000)
}

fn level_with_files(
    database: &str,
    tsf_id: u32,
    level: u32,
    max_size: u64,
    files: Vec<ColumnFile>,
) -> LevelInfo {
    let mut cur_size = 0u64;
    let mut time_range = TimeRange::none();
    for f in &files {
        cur_size += f.size;
        time_range.merge(&f.time_range);
    }
    LevelInfo {
        files,
        database: database.to_owned(),
        tsf_id,
        storage_opt: storage_opt(),
        level,
        cur_size,
        max_size,
        time_range,
    }
}

#[test]
fn test_version_apply_version_edits_1() {
    // Lv.1 holds file 3 (3001..3100); Lv.2 holds files 1 and 2. Adding
    // (4, 3051..3150) to Lv.1 and deleting 3 leaves Lv.1 = [4] and Lv.2
    // unchanged.
    let opt = storage_opt();
    let database = "test".to_owned();
    let ts_family_id = 1u32;
    let tsm_dir = opt.tsm_dir(&database, ts_family_id);
    let version = Version {
        ts_family_id,
        database: database.clone(),
        storage_opt: opt.clone(),
        last_seq: 1,
        max_level_ts: 3100,
        levels_info: vec![
            LevelInfo::init(database.clone(), 0, 1, opt.clone()),
            level_with_files(
                &database,
                1,
                1,
                1000,
                vec![ColumnFile::new(
                    3,
                    1,
                    TimeRange::new(3001, 3100),
                    100,
                    false,
                    make_tsm_file_name(&tsm_dir, 3),
                )],
            ),
            level_with_files(
                &database,
                1,
                2,
                10000,
                vec![
                    ColumnFile::new(
                        1,
                        2,
                        TimeRange::new(1, 1000),
                        1000,
                        false,
                        make_tsm_file_name(&tsm_dir, 1),
                    ),
                    ColumnFile::new(
                        2,
                        2,
                        TimeRange::new(1001, 2000),
                        1000,
                        false,
                        make_tsm_file_name(&tsm_dir, 2),
                    ),
                ],
            ),
            LevelInfo::init(database.clone(), 3, 1, opt.clone()),
            LevelInfo::init(database.clone(), 4, 1, opt.clone()),
        ],
    };
    let mut version_edits = Vec::new();
    let mut ve = VersionEdit::new(1);
    ve.add_file(
        CompactMeta {
            file_id: 4,
            file_size: 100,
            tsf_id: 1,
            level: 1,
            min_ts: 3051,
            max_ts: 3150,
            high_seq: 2,
            low_seq: 2,
            is_delta: false,
        },
        3100,
    );
    version_edits.push(ve);
    let mut ve = VersionEdit::new(1);
    ve.del_file(1, 3, false);
    version_edits.push(ve);
    let (new_version, removed) = version.copy_apply_version_edits(version_edits, Some(3));

    assert_eq!(new_version.last_seq, 3);
    assert_eq!(new_version.max_level_ts, 3150);

    let lvl = new_version.levels_info.get(1).unwrap();
    assert_eq!(lvl.time_range, TimeRange::new(3051, 3150));
    assert_eq!(lvl.files.len(), 1);
    let col_file = lvl.files.first().unwrap();
    assert_eq!(col_file.time_range, TimeRange::new(3051, 3150));

    // Lv.2 is unchanged; the removed file comes back marked deleted.
    let lvl2 = new_version.levels_info.get(2).unwrap();
    assert_eq!(lvl2.files.len(), 2);
    assert_eq!(removed.len(), 1);
    assert_eq!(removed[0].file_id, 3);
    assert!(removed[0].deleted);
}

#[test]
fn test_version_apply_version_edits_2() {
    // Compact Lv.1 files 3 and 4 into (5, Lv.2) and Lv.2 files 1 and 2 into
    // (6, Lv.3): Lv.1 collapses to the sentinel, Lv.2 = [5], Lv.3 = [6].
    let opt = storage_opt();
    let database = "test".to_owned();
    let ts_family_id = 1u32;
    let tsm_dir = opt.tsm_dir(&database, ts_family_id);
    let version = Version {
        ts_family_id: 1,
        database: database.clone(),
        storage_opt: opt.clone(),
        last_seq: 1,
        max_level_ts: 3150,
        levels_info: vec![
            LevelInfo::init(database.clone(), 0, 1, opt.clone()),
            level_with_files(
                &database,
                1,
                1,
                1000,
                vec![
                    ColumnFile::new(
                        3,
                        1,
                        TimeRange::new(3001, 3100),
                        100,
                        false,
                        make_tsm_file_name(&tsm_dir, 3),
                    ),
                    ColumnFile::new(
                        4,
                        1,
                        TimeRange::new(3051, 3150),
                        100,
                        false,
                        make_tsm_file_name(&tsm_dir, 4),
                    ),
                ],
            ),
            level_with_files(
                &database,
                1,
                2,
                10000,
                vec![
                    ColumnFile::new(
                        1,
                        2,
                        TimeRange::new(1, 1000),
                        1000,
                        false,
                        make_tsm_file_name(&tsm_dir, 1),
                    ),
                    ColumnFile::new(
                        2,
                        2,
                        TimeRange::new(1001, 2000),
                        1000,
                        false,
                        make_tsm_file_name(&tsm_dir, 2),
                    ),
                ],
            ),
            LevelInfo::init(database.clone(), 3, 1, opt.clone()),
            LevelInfo::init(database.clone(), 4, 1, opt.clone()),
        ],
    };
    let mut version_edits = Vec::new();
    let mut ve = VersionEdit::new(1);
    ve.add_file(
        CompactMeta {
            file_id: 5,
            file_size: 150,
            tsf_id: 1,
            level: 2,
            min_ts: 3001,
            max_ts: 3150,
            high_seq: 2,
            low_seq: 2,
            is_delta: false,
        },
        3150,
    );
    ve.add_file(
        CompactMeta {
            file_id: 6,
            file_size: 2000,
            tsf_id: 1,
            level: 3,
            min_ts: 1,
            max_ts: 2000,
            high_seq: 2,
            low_seq: 2,
            is_delta: false,
        },
        3150,
    );
    version_edits.push(ve);
    let mut ve = VersionEdit::new(1);
    ve.del_file(1, 3, false);
    ve.del_file(1, 4, false);
    ve.del_file(2, 1, false);
    ve.del_file(2, 2, false);
    version_edits.push(ve);
    let (new_version, removed) = version.copy_apply_version_edits(version_edits, Some(3));

    assert_eq!(new_version.last_seq, 3);
    assert_eq!(new_version.max_level_ts, 3150);

    let lvl = new_version.levels_info.get(1).unwrap();
    assert_eq!(lvl.time_range, TimeRange::new(i64::MAX, i64::MIN));
    assert_eq!(lvl.files.len(), 0);

    let lvl = new_version.levels_info.get(2).unwrap();
    assert_eq!(lvl.time_range, TimeRange::new(3001, 3150));
    let col_file = lvl.files.last().unwrap();
    assert_eq!(col_file.time_range, TimeRange::new(3001, 3150));

    let lvl = new_version.levels_info.get(3).unwrap();
    assert_eq!(lvl.time_range, TimeRange::new(1, 2000));
    assert_eq!(lvl.files.len(), 1);
    let col_file = lvl.files.last().unwrap();
    assert_eq!(col_file.time_range, TimeRange::new(1, 2000));

    // Every deleted file comes back marked deleted, exactly once.
    let mut removed_ids: Vec<u64> = removed.iter().map(|f| f.file_id).collect();
    removed_ids.sort();
    assert_eq!(removed_ids, vec![1, 2, 3, 4]);
    assert!(removed.iter().all(|f| f.deleted));
}

#[test]
fn apply_edits_twice_gives_equal_versions() {
    // Applying the same edits to the same version twice produces versions
    // that agree on every observable.
    let opt = storage_opt();
    let database = "test".to_owned();
    let tsm_dir = opt.tsm_dir(&database, 1);
    let build = || Version {
        ts_family_id: 1,
        database: database.clone(),
        storage_opt: storage_opt(),
        last_seq: 1,
        max_level_ts: 3100,
        levels_info: vec![
            LevelInfo::init(database.clone(), 0, 1, storage_opt()),
            level_with_files(
                &database,
                1,
                1,
                1000,
                vec![ColumnFile::new(
                    3,
                    1,
                    TimeRange::new(3001, 3100),
                    100,
                    false,
                    make_tsm_file_name(&tsm_dir, 3),
                )],
            ),
            LevelInfo::init(database.clone(), 2, 1, storage_opt()),
            LevelInfo::init(database.clone(), 3, 1, storage_opt()),
            LevelInfo::init(database.clone(), 4, 1, storage_opt()),
        ],
    };
    let edits = || {
        let mut ve = VersionEdit::new(1);
        ve.add_file(
            CompactMeta {
                file_id: 7,
                file_size: 10,
                tsf_id: 1,
                level: 1,
                min_ts: 1,
                max_ts: 5,
                high_seq: 2,
                low_seq: 2,
                is_delta: false,
            },
            3100,
        );
        vec![ve]
    };
    let (v1, _) = build().copy_apply_version_edits(edits(), Some(2));
    let (v2, _) = build().copy_apply_version_edits(edits(), Some(2));
    assert_eq!(v1.last_seq, v2.last_seq);
    assert_eq!(v1.max_level_ts, v2.max_level_ts);
    for l in 0..5 {
        let a = &v1.levels_info[l];
        let b = &v2.levels_info[l];
        assert_eq!(a.cur_size, b.cur_size);
        assert_eq!(a.time_range, b.time_range);
        assert_eq!(a.files.len(), b.files.len());
        for k in 0..a.files.len() {
            assert_eq!(a.files[k].file_id, b.files[k].file_id);
            assert_eq!(a.files[k].path, b.files[k].path);
            assert_eq!(a.files[k].time_range, b.files[k].time_range);
        }
    }
}

#[test]
fn empty_edit_list_keeps_the_files() {
    let opt = storage_opt();
    let database = "test".to_owned();
    let tsm_dir = opt.tsm_dir(&database, 1);
    let version = Version {
        ts_family_id: 1,
        database: database.clone(),
        storage_opt: opt.clone(),
        last_seq: 1,
        max_level_ts: 3100,
        levels_info: vec![
            LevelInfo::init(database.clone(), 0, 1, opt.clone()),
            level_with_files(
                &database,
                1,
                1,
                1000,
                vec![ColumnFile::new(
                    3,
                    1,
                    TimeRange::new(3001, 3100),
                    100,
                    false,
                    make_tsm_file_name(&tsm_dir, 3),
                )],
            ),
            LevelInfo::init(database.clone(), 2, 1, opt.clone()),
            LevelInfo::init(database.clone(), 3, 1, opt.clone()),
            LevelInfo::init(database.clone(), 4, 1, opt.clone()),
        ],
    };
    let (unchanged, removed) = version.copy_apply_version_edits(Vec::new(), None);
    assert_eq!(unchanged.last_seq, 1);
    assert_eq!(unchanged.levels_info[1].files.len(), 1);
    assert_eq!(unchanged.levels_info[1].files[0].file_id, 3);
    assert_eq!(unchanged.max_level_ts, 3100);
    assert!(removed.is_empty());
}

#[test]
fn level_invariants_after_mutation() {
    // Pushed files stay sorted strictly by id; the aggregate size is the
    // sum; the bounds are the union of the file ranges.
    let opt = storage_opt();
    let mut lv = LevelInfo::init("db".to_owned(), 1, 1, opt);
    lv.push_column_file(ColumnFile::new(9, 1, TimeRange::new(50, 60), 10, false, "b".to_owned()));
    lv.push_column_file(ColumnFile::new(3, 1, TimeRange::new(5, 20), 30, false, "a".to_owned()));
    lv.push_column_file(ColumnFile::new(7, 1, TimeRange::new(90, 95), 5, false, "c".to_owned()));
    let ids: Vec<u64> = lv.files.iter().map(|f| f.file_id).collect();
    assert_eq!(ids, vec![3, 7, 9]);
    assert_eq!(lv.cur_size, 45);
    assert_eq!(lv.time_range, TimeRange::new(5, 95));
    lv.update_time_range();
    assert_eq!(lv.time_range, TimeRange::new(5, 95));
}

#[test]
fn column_files_filters_by_range_and_bloom() {
    let opt = storage_opt();
    let database = "db".to_owned();
    let mut f1 = ColumnFile::new(1, 1, TimeRange::new(0, 10), 5, false, "p1".to_owned());
    f1.insert_field_id(42);
    let f2 = ColumnFile::new(2, 1, TimeRange::new(20, 30), 5, false, "p2".to_owned());
    let mut lv = LevelInfo::init(database.clone(), 1, 1, opt.clone());
    lv.push_column_file(f1);
    lv.push_column_file(f2);
    let version = Version {
        ts_family_id: 1,
        database: database.clone(),
        storage_opt: opt.clone(),
        last_seq: 0,
        max_level_ts: 30,
        levels_info: vec![
            LevelInfo::init(database.clone(), 0, 1, opt.clone()),
            lv,
            LevelInfo::init(database.clone(), 2, 1, opt.clone()),
            LevelInfo::init(database.clone(), 3, 1, opt.clone()),
            LevelInfo::init(database.clone(), 4, 1, opt.clone()),
        ],
    };
    // File 1 overlaps [0,5] and its bloom admits field 42; file 2 does not
    // overlap; a fresh bloom admits nothing.
    let hits = version.column_files(&vec![42], &TimeRange::new(0, 5));
    assert_eq!(hits.len(), 1);
    assert_eq!(hits[0].file_id, 1);
    let misses = version.column_files(&vec![7], &TimeRange::new(0, 5));
    assert!(misses.is_empty());
}
