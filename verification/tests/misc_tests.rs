//! Interval algebra, the bloom filter, the codec and digest wrappers, path
//! rendering, the registry, the picker, and the query-layer plans.

use tskv::bloom::BloomFilter;
use tskv::codec::SnappyCodec;
use tskv::column_file::ColumnFile;
use tskv::compaction::LevelCompactionPicker;
use tskv::errors::EngineError;
use tskv::fileinfo::file_info_of;
use tskv::level_info::LevelInfo;
use tskv::memcache::{FieldVal, MemCache, RowData, RowGroup};
use tskv::meta::{
    bucket_by_timestamp, mapping_bucket, plan_watch_delta, BucketInfo, DatabaseSchema,
    DeltaDecision, MemoryMetaManager, MetaManager, ReplicationSet, VnodeInfo,
};
use tskv::options::{make_delta_file_name, make_tsm_file_name, CacheOptions, Options, StorageOptions};
use tskv::query::{
    plan_alter_table, plan_create_role, plan_remote_read, project_schema, select_tables,
    AlterTableAction, LabelMatcher, MatcherKind, RoleDecision, TableSelector,
};
use tskv::schema::{ColumnType, TableColumn, TskvTableSchema, ValueType};
use tskv::strutil::{i64_to_string, make_owner, u64_to_string};
use tskv::timerange::TimeRange;
use tskv::version::Version;
use tskv::version_set::VersionSet;

#[test]
fn time_range_algebra() {
    let a = TimeRange::new(1, 10);
    let b = TimeRange::new(5, 20);
    let c = TimeRange::new(11, 12);
    // Overlap is symmetric; inclusion implies overlap.
    assert_eq!(a.overlaps(&b), b.overlaps(&a));
    assert_eq!(a.overlaps(&c), c.overlaps(&a));
    assert!(a.overlaps(&b));
    assert!(!a.overlaps(&c));
    let wide = TimeRange::new(0, 100);
    assert!(wide.includes(&a));
    assert!(wide.overlaps(&a));
    let mut m = a;
    m.merge(&c);
    assert_eq!(m, TimeRange::new(1, 12));
    assert!(a.contains(10));
    assert!(!a.contains(11));
    assert!(TimeRange::all().is_boundless());
}

#[test]
fn bloom_has_no_false_negatives() {
    let mut bf = BloomFilter::new();
    assert!(!bf.contains(12345));
    bf.insert(12345);
    bf.insert(777);
    assert!(bf.contains(12345));
    assert!(bf.contains(777));
    let mut cf = ColumnFile::new(1, 1, TimeRange::new(0, 1), 1, false, "p".to_owned());
    assert!(!cf.contains_any_field_id(&vec![5, 6]));
    cf.insert_field_id(5);
    assert!(cf.contains_any_field_id(&vec![5, 6]));
    assert!(cf.contains_field_id(5));
}

#[test]
fn snappy_round_trip_and_shrink() {
    let mut codec = SnappyCodec::new();
    let input: Vec<u8> = std::iter::repeat(7u8).take(4096).collect();
    let mut compressed: Vec<u8> = Vec::new();
    codec.compress(&input, &mut compressed).expect("compress");
    // A constant run compresses well below its size, so an identity codec
    // would fail here.
    assert!(compressed.len() < input.len());

    let mut recovered: Vec<u8> = Vec::new();
    let n = codec.decompress(&compressed, &mut recovered, None).expect("decompress");
    assert_eq!(n, input.len());
    assert_eq!(recovered, input);

    // With the exact size given, the result is the same.
    let mut recovered2: Vec<u8> = Vec::new();
    codec.decompress(&compressed, &mut recovered2, Some(input.len())).expect("decompress sized");
    assert_eq!(recovered2, input);
}

#[test]
fn snappy_rejects_garbage_and_handles_empty() {
    let mut codec = SnappyCodec::new();
    // An input that no conforming compressor produced is rejected.
    let garbage: Vec<u8> = vec![255, 255, 255, 255, 255, 255];
    let mut out: Vec<u8> = Vec::new();
    assert!(matches!(
        codec.decompress(&garbage, &mut out, None),
        Err(EngineError::IndexCorrupt { .. })
    ));
    // The empty input round-trips.
    let empty: Vec<u8> = Vec::new();
    let mut compressed: Vec<u8> = Vec::new();
    codec.compress(&empty, &mut compressed).expect("compress empty");
    let mut recovered: Vec<u8> = Vec::new();
    let n = codec.decompress(&compressed, &mut recovered, None).expect("decompress empty");
    assert_eq!(n, 0);
    assert!(recovered.is_empty());
}

#[test]
fn md5_digest_of_known_input() {
    let info = file_info_of("a.txt".to_owned(), &b"abc".to_vec());
    assert_eq!(info.md5, "900150983cd24fb0d6963f7d28e17f72".to_owned());
    assert_eq!(info.name, "a.txt".to_owned());
    assert_eq!(info.size, 3);
}

#[test]
fn decimal_and_path_rendering() {
    assert_eq!(u64_to_string(0), "0".to_owned());
    assert_eq!(u64_to_string(1234), "1234".to_owned());
    assert_eq!(i64_to_string(-56), "-56".to_owned());
    assert_eq!(i64_to_string(7), "7".to_owned());
    assert_eq!(make_owner("cnosdb", "db"), "cnosdb.db".to_owned());
    assert_eq!(make_tsm_file_name("/data/tsm", 42), "/data/tsm/42.tsm".to_owned());
    assert_eq!(make_delta_file_name("/data/delta", 9), "/data/delta/9.delta".to_owned());
    let opt = StorageOptions::new("/root".to_owned(), 100);
    assert_eq!(opt.tsm_dir("db", 7), "/root/db/7/tsm".to_owned());
    assert_eq!(opt.delta_dir("db", 7), "/root/db/7/delta".to_owned());
    assert_eq!(opt.level_file_size(0), 100);
    assert_eq!(opt.level_file_size(2), 1600);
}

fn options() -> Options {
    Options {
        storage: StorageOptions::new("/tmp/test/vs".to_owned(), 1000),
        cache: CacheOptions { max_buffer_size: 100, max_immutable_number: 1 },
    }
}

#[test]
fn version_set_registry_and_global_floor() {
    let opt = options();
    let mut meta = MemoryMetaManager::new();
    meta.add_schema(DatabaseSchema::new("cnosdb".to_owned(), "db".to_owned()));
    assert!(meta.db_schema_for_owner("cnosdb.db").is_some());
    assert!(meta.db_schema_for_owner("cnosdb.other").is_none());

    let mk_version = |id: u32, seq: u64| {
        let database = "cnosdb.db".to_owned();
        let mut v = Version::new(
            id,
            database.clone(),
            opt.storage.clone(),
            seq,
            LevelInfo::init_levels(database, id, opt.storage.clone()),
            0,
        );
        v.last_seq = seq;
        v
    };
    let (tx, _rx) = tokio::sync::mpsc::unbounded_channel();
    let vs = VersionSet::new(
        &meta,
        opt.clone(),
        vec![(1, mk_version(1, 5)), (2, mk_version(2, 9))],
        &tx,
    );
    assert!(vs.db_exists("cnosdb", "db"));
    assert!(!vs.db_exists("cnosdb", "nope"));
    assert!(vs.get_tsfamily_by_tf_id(1).is_some());
    assert!(vs.get_tsfamily_by_tf_id(2).is_some());
    assert!(vs.get_tsfamily_by_name_id("cnosdb", "db", 2).is_some());
    assert!(vs.get_tsfamily_by_name("cnosdb", "db").is_some());
    assert_eq!(vs.tsf_num(), 2);
    assert_eq!(vs.get_version_edits(3).len(), 2);

    // The global floor never exceeds any live vnode's sequence.
    let ctx = vs.get_global_sequence_context();
    assert!(ctx.min_seq() <= 5);
    assert!(ctx.min_seq() <= 9);
    assert!(ctx.tsf_seq_map.contains(&(1, 5)));
    assert!(ctx.tsf_seq_map.contains(&(2, 9)));
}

#[test]
fn version_set_create_and_delete_db() {
    let opt = options();
    let mut vs = VersionSet::empty(opt);
    let ix = vs.create_db(DatabaseSchema::new("t".to_owned(), "d".to_owned()));
    assert_eq!(ix, 0);
    assert!(vs.db_exists("t", "d"));
    assert!(vs.get_db("t", "d").is_some());
    assert!(vs.get_db_schema("t", "d").is_some());
    // Creating again keeps the existing database.
    let ix2 = vs.create_db(DatabaseSchema::new("t".to_owned(), "d".to_owned()));
    assert_eq!(ix2, 0);
    assert!(vs.delete_db("t", "d"));
    assert!(!vs.db_exists("t", "d"));
    assert!(!vs.delete_db("t", "d"));
    assert!(vs.get_db_schema("t", "d").is_none());
}

#[test]
fn picker_prefers_fullest_level_and_extends_overlap() {
    let opt = StorageOptions::new("/tmp/test/pick".to_owned(), 100);
    let database = "db".to_owned();
    let mut l1 = LevelInfo::init(database.clone(), 1, 1, opt.clone());
    l1.push_column_file(ColumnFile::new(3, 1, TimeRange::new(0, 50), 300, false, "a".to_owned()));
    let mut l2 = LevelInfo::init(database.clone(), 2, 1, opt.clone());
    l2.push_column_file(ColumnFile::new(4, 2, TimeRange::new(10, 20), 10, false, "b".to_owned()));
    l2.push_column_file(ColumnFile::new(5, 2, TimeRange::new(900, 950), 10, false, "c".to_owned()));
    let version = Version {
        ts_family_id: 1,
        database: database.clone(),
        storage_opt: opt.clone(),
        last_seq: 0,
        max_level_ts: 950,
        levels_info: vec![
            LevelInfo::init(database.clone(), 0, 1, opt.clone()),
            l1,
            l2,
            LevelInfo::init(database.clone(), 3, 1, opt.clone()),
            LevelInfo::init(database.clone(), 4, 1, opt.clone()),
        ],
    };
    let picker = LevelCompactionPicker::new();
    let req = picker.pick_compaction(&version).expect("a compaction");
    // Level 1 is far beyond its budget; its only file seeds the pick, and
    // only the overlapping file of level 2 joins it.
    assert_eq!(req.out_level, 2);
    assert_eq!(req.files.len(), 2);
    assert_eq!(req.files[0].file_id, 3);
    assert_eq!(req.files[1].file_id, 4);

    // An empty version yields nothing.
    let empty = Version::new(
        1,
        database.clone(),
        opt.clone(),
        0,
        LevelInfo::init_levels(database, 1, opt),
        0,
    );
    assert!(picker.pick_compaction(&empty).is_none());
}

#[test]
fn project_schema_handles_time_and_missing_columns() {
    let schema = TskvTableSchema::new(
        "t".to_owned(),
        "d".to_owned(),
        "m".to_owned(),
        vec![
            TableColumn::new(1, "tag1".to_owned(), ColumnType::Tag),
            TableColumn::new(2, "value".to_owned(), ColumnType::Field(ValueType::Float)),
        ],
    );
    let cols = project_schema(
        &schema,
        &vec!["time".to_owned(), "tag1".to_owned(), "value".to_owned()],
    )
    .expect("projection");
    assert_eq!(cols.len(), 3);
    assert_eq!(cols[0].name, "time".to_owned());
    assert!(matches!(cols[0].column_type, ColumnType::Time));
    assert_eq!(cols[1].name, "tag1".to_owned());
    assert_eq!(cols[2].name, "value".to_owned());

    let err = project_schema(&schema, &vec!["absent".to_owned()]);
    assert!(matches!(err, Err(EngineError::SchemaMissing { .. })));
}

#[test]
fn remote_read_planning() {
    let matchers = vec![
        LabelMatcher {
            kind: MatcherKind::MatchEqual,
            name: "__name__".to_owned(),
            value: "cpu".to_owned(),
        },
        LabelMatcher {
            kind: MatcherKind::MatchNotEqual,
            name: "host".to_owned(),
            value: "a".to_owned(),
        },
    ];
    let plan = plan_remote_read(&matchers, 1_000, 2_000).expect("plan");
    assert!(matches!(plan.selector, TableSelector::ByName(ref n) if n == "cpu"));
    assert_eq!(plan.filters.len(), 1);
    assert_eq!(plan.filters[0].name, "host".to_owned());
    assert_eq!(plan.start_ns, 1_000_000_000);
    assert_eq!(plan.end_ns, 2_000_000_000);

    // A negated metric-name matcher is rejected.
    let bad = vec![LabelMatcher {
        kind: MatcherKind::MatchNotEqual,
        name: "__name__".to_owned(),
        value: "cpu".to_owned(),
    }];
    assert!(plan_remote_read(&bad, 0, 0).is_err());
}

#[test]
fn table_selection_by_pattern() {
    let names = vec!["up".to_owned(), "down".to_owned(), "upstream".to_owned()];
    let sel = select_tables("^up", &names).expect("selection");
    assert_eq!(sel, vec!["up".to_owned(), "upstream".to_owned()]);
    // An always-true stand-in would keep "down"; an unchanged hand-back
    // would too.
    assert!(!sel.contains(&"down".to_owned()));
    assert!(select_tables("(", &names).is_err());
}

#[test]
fn alter_table_plans() {
    let schema = TskvTableSchema::new(
        "t".to_owned(),
        "d".to_owned(),
        "m".to_owned(),
        vec![TableColumn::new(1, "a".to_owned(), ColumnType::Field(ValueType::Integer))],
    );
    let added = plan_alter_table(
        &schema,
        &AlterTableAction::AddColumn {
            table_column: TableColumn::new(2, "b".to_owned(), ColumnType::Field(ValueType::Integer)),
        },
    );
    assert_eq!(added.schema_id, 1);
    assert_eq!(added.columns.len(), 2);
    assert_eq!(added.columns[1].name, "b".to_owned());

    let dropped = plan_alter_table(&schema, &AlterTableAction::DropColumn {
        column_name: "a".to_owned(),
    });
    assert_eq!(dropped.columns.len(), 0);
    assert_eq!(dropped.schema_id, 1);

    let altered = plan_alter_table(&schema, &AlterTableAction::AlterColumn {
        column_name: "a".to_owned(),
        new_column: TableColumn::new(1, "a2".to_owned(), ColumnType::Field(ValueType::Unsigned)),
    });
    assert_eq!(altered.columns.len(), 1);
    assert_eq!(altered.columns[0].name, "a2".to_owned());
}

#[test]
fn create_role_decisions() {
    assert_eq!(plan_create_role(true, true), RoleDecision::KeepExisting);
    assert_eq!(plan_create_role(true, false), RoleDecision::Reject);
    assert_eq!(plan_create_role(false, true), RoleDecision::Create);
    assert_eq!(plan_create_role(false, false), RoleDecision::Create);
}

#[test]
fn memcache_write_and_full() {
    let mut mem = MemCache::new(0, 50, 3);
    assert!(!mem.is_full());
    let group = RowGroup {
        schema: TskvTableSchema::new(
            "t".to_owned(),
            "d".to_owned(),
            "m".to_owned(),
            vec![TableColumn::new(0, "f0".to_owned(), ColumnType::Field(ValueType::Integer))],
        ),
        range: TimeRange::new(1, 1),
        rows: vec![RowData { ts: 1, fields: vec![Some(FieldVal::Integer(1))] }],
        size: 60,
    };
    mem.write_group(0, 4, group.clone());
    assert!(mem.is_full());
    assert_eq!(mem.max_seq, 4);
    // A second group for the same series lands in the same entry.
    mem.write_group(0, 5, group);
    assert_eq!(mem.get_data(0).len(), 2);
    assert_eq!(mem.get_data(1).len(), 0);
}

#[test]
fn bucket_location() {
    let buckets = vec![
        BucketInfo {
            id: 1,
            start_time: 0,
            end_time: 100,
            shard_group: vec![
                ReplicationSet { id: 10, vnodes: vec![VnodeInfo { id: 1, node_id: 1 }] },
                ReplicationSet { id: 11, vnodes: vec![VnodeInfo { id: 2, node_id: 2 }] },
            ],
        },
        BucketInfo { id: 2, start_time: 100, end_time: 200, shard_group: vec![] },
    ];
    let hit = bucket_by_timestamp(&buckets, 50).expect("bucket for 50");
    assert_eq!(hit.id, 1);
    assert_eq!(hit.vnode_for(3).expect("placement").id, 11);
    assert!(bucket_by_timestamp(&buckets, 500).is_none());
    // The empty shard group places nothing.
    assert!(buckets[1].vnode_for(3).is_none());

    let window = mapping_bucket(&buckets, 150, 180);
    assert_eq!(window.len(), 1);
    assert_eq!(window[0].id, 2);

    assert_eq!(plan_watch_delta(5, true, 6, 0, 0), DeltaDecision::ReplaceAll);
    assert_eq!(plan_watch_delta(5, true, 5, 0, 0), DeltaDecision::Ignore);
    assert_eq!(plan_watch_delta(5, false, 0, 4, 8), DeltaDecision::MergeInto);
    assert_eq!(plan_watch_delta(5, false, 0, 6, 8), DeltaDecision::Ignore);
}
