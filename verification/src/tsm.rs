//! The in-memory model of TSM files: per-field data blocks with a time
//! range, the companion tombstone list applied at read time, the
//! block-indexed read path, and the construction of a file's blocks from a
//! write buffer.

use vstd::prelude::*;
use crate::column_file::ColumnFileV;
use crate::level_info::{files_view, LevelInfo};
use crate::memcache::{
    fields_view, groups_view, rows_view, series_table_view, FieldVal, FieldValV, MemCache,
    RowDataV, RowGroupV, SeriesEntryV,
};
use crate::schema::{spec_field_id, ColumnType};
use crate::timerange::TimeRange;

verus! {

/// One decoded data block: the points of one field inside one time range.
#[derive(Debug)]
pub struct DataBlock {
    pub field_id: u64,
    pub time_range: TimeRange,
    pub points: Vec<(i64, FieldVal)>,
}

/// The mathematical value of a `DataBlock`.
pub ghost struct DataBlockV {
    pub field_id: u64,
    pub time_range: TimeRange,
    pub points: Seq<(i64, FieldValV)>,
}

/// The values of a point vector.
pub open spec fn points_view(points: Seq<(i64, FieldVal)>) -> Seq<(i64, FieldValV)> {
    points.map_values(|p: (i64, FieldVal)| (p.0, p.1@))
}

impl View for DataBlock {
    type V = DataBlockV;

    open spec fn view(&self) -> DataBlockV {
        DataBlockV {
            field_id: self.field_id,
            time_range: self.time_range,
            points: points_view(self.points@),
        }
    }
}

impl DataBlock {
    /// The number of points in the block.
    pub fn len(&self) -> (r: usize)
        ensures
            r == self@.points.len(),
    {
        self.points.len()
    }
}

/// The values of a block vector.
pub open spec fn blocks_view(blocks: Seq<DataBlock>) -> Seq<DataBlockV> {
    blocks.map_values(|b: DataBlock| b@)
}

/// One tombstone record: the fields and the closed range it deletes.
#[derive(Debug)]
pub struct TombstoneEntry {
    pub field_ids: Vec<u64>,
    pub time_range: TimeRange,
}

/// The mathematical value of a `TombstoneEntry`.
pub ghost struct TombstoneEntryV {
    pub field_ids: Seq<u64>,
    pub time_range: TimeRange,
}

impl View for TombstoneEntry {
    type V = TombstoneEntryV;

    open spec fn view(&self) -> TombstoneEntryV {
        TombstoneEntryV { field_ids: self.field_ids@, time_range: self.time_range }
    }
}

/// The values of a tombstone list.
pub open spec fn tomb_view(entries: Seq<TombstoneEntry>) -> Seq<TombstoneEntryV> {
    entries.map_values(|e: TombstoneEntry| e@)
}

/// The companion tombstone of one TSM file: an append-only list of
/// (field set, range) deletions applied during reads. At most one writer
/// appends at a time; the durable side file is the caller's concern.
#[derive(Debug)]
pub struct TsmTombstone {
    pub entries: Vec<TombstoneEntry>,
}

/// Whether the tombstone list deletes `(field_id, ts)`.
pub open spec fn spec_tomb_deletes(entries: Seq<TombstoneEntryV>, field_id: u64, ts: i64) -> bool {
    exists|e: int|
        0 <= e < entries.len() && (#[trigger] entries[e]).field_ids.contains(field_id)
            && entries[e].time_range.min_ts <= ts && ts <= entries[e].time_range.max_ts
}

impl TsmTombstone {
    pub fn new() -> (r: Self)
        ensures
            tomb_view(r.entries@) == Seq::<TombstoneEntryV>::empty(),
    {
        let r = Self { entries: Vec::new() };
        proof {
            assert(tomb_view(r.entries@) =~= Seq::<TombstoneEntryV>::empty());
        }
        r
    }

    /// Appends one deletion record. Existing deletions stay in force: the
    /// tombstone only ever grows.
    pub fn add_range(&mut self, field_ids: &Vec<u64>, time_range: &TimeRange)
        ensures
            tomb_view(final(self).entries@) == tomb_view(old(self).entries@).push(
                TombstoneEntryV { field_ids: field_ids@, time_range: *time_range },
            ),
            forall|f: u64, ts: i64|
                spec_tomb_deletes(tomb_view(old(self).entries@), f, ts) ==> spec_tomb_deletes(
                    tomb_view(final(self).entries@),
                    f,
                    ts,
                ),
            forall|f: u64, ts: i64|
                field_ids@.contains(f) && time_range.min_ts <= ts && ts <= time_range.max_ts
                    ==> spec_tomb_deletes(tomb_view(final(self).entries@), f, ts),
    {
        let ghost before = tomb_view(self.entries@);
        let mut ids: Vec<u64> = Vec::new();
        let mut i: usize = 0;
        while i < field_ids.len()
            invariant
                i <= field_ids@.len(),
                ids@ == field_ids@.take(i as int),
            decreases field_ids@.len() - i,
        {
            ids.push(field_ids[i]);
            proof {
                assert(ids@ =~= field_ids@.take(i + 1));
            }
            i = i + 1;
        }
        proof {
            assert(ids@ =~= field_ids@);
        }
        let entry = TombstoneEntry { field_ids: ids, time_range: *time_range };
        let ghost ev = entry@;
        self.entries.push(entry);
        proof {
            assert(tomb_view(self.entries@) =~= before.push(ev));
            let n = before.len();
            assert forall|f: u64, ts: i64|
                spec_tomb_deletes(before, f, ts) implies spec_tomb_deletes(
                tomb_view(self.entries@),
                f,
                ts,
            ) by {
                let e = choose|e: int|
                    0 <= e < before.len() && (#[trigger] before[e]).field_ids.contains(f)
                        && before[e].time_range.min_ts <= ts && ts <= before[e].time_range.max_ts;
                assert(tomb_view(self.entries@)[e] == before[e]);
            }
            assert forall|f: u64, ts: i64|
                field_ids@.contains(f) && time_range.min_ts <= ts && ts
                    <= time_range.max_ts implies spec_tomb_deletes(
                tomb_view(self.entries@),
                f,
                ts,
            ) by {
                assert(tomb_view(self.entries@)[n as int].field_ids.contains(f));
            }
        }
    }
}

/// The in-memory image of one TSM file: its blocks and its tombstone.
#[derive(Debug)]
pub struct TsmFileData {
    pub file_id: u64,
    pub blocks: Vec<DataBlock>,
    pub tombstone: TsmTombstone,
}

/// A store of TSM file images, looked up by file id; stands where the
/// engine would open readers on disk files.
#[derive(Debug)]
pub struct TsmDataStore {
    pub files: Vec<TsmFileData>,
}

/// The points of one block that a query over `range` returns: inside the
/// query range and not deleted by the tombstone.
pub open spec fn spec_block_query(
    b: DataBlockV,
    tomb: Seq<TombstoneEntryV>,
    range: TimeRange,
) -> Seq<(i64, FieldValV)> {
    b.points.filter(
        |p: (i64, FieldValV)|
            range.min_ts <= p.0 && p.0 <= range.max_ts && !spec_tomb_deletes(tomb, b.field_id, p.0),
    )
}

/// The blocks one file returns for a field over a range: each block of the
/// field whose range overlaps the query, restricted to its surviving
/// points, kept only when points survive.
pub open spec fn spec_file_query(
    blocks: Seq<DataBlockV>,
    tomb: Seq<TombstoneEntryV>,
    field_id: u64,
    range: TimeRange,
) -> Seq<DataBlockV>
    decreases blocks.len(),
{
    if blocks.len() == 0 {
        Seq::<DataBlockV>::empty()
    } else {
        let rest = spec_file_query(blocks.drop_last(), tomb, field_id, range);
        let b = blocks.last();
        if b.field_id == field_id && b.time_range.spec_overlaps(range) && spec_block_query(
            b,
            tomb,
            range,
        ).len() > 0 {
            rest.push(
                DataBlockV {
                    field_id: b.field_id,
                    time_range: b.time_range,
                    points: spec_block_query(b, tomb, range),
                },
            )
        } else {
            rest
        }
    }
}

impl TsmFileData {
    /// Builds the image of a freshly flushed file: no tombstone yet.
    pub fn new(file_id: u64, blocks: Vec<DataBlock>) -> (r: Self)
        ensures
            r.file_id == file_id,
            blocks_view(r.blocks@) == blocks_view(blocks@),
            tomb_view(r.tombstone.entries@) == Seq::<TombstoneEntryV>::empty(),
    {
        Self { file_id, blocks, tombstone: TsmTombstone::new() }
    }

    /// Reads the blocks of one field over a range, honoring the tombstone.
    pub fn read_field(&self, field_id: u64, time_range: &TimeRange) -> (r: Vec<DataBlock>)
        ensures
            blocks_view(r@) == spec_file_query(
                blocks_view(self.blocks@),
                tomb_view(self.tombstone.entries@),
                field_id,
                *time_range,
            ),
    {
        let ghost bs = blocks_view(self.blocks@);
        let ghost tomb = tomb_view(self.tombstone.entries@);
        let mut out: Vec<DataBlock> = Vec::new();
        let mut i: usize = 0;
        while i < self.blocks.len()
            invariant
                i <= bs.len(),
                bs == blocks_view(self.blocks@),
                tomb == tomb_view(self.tombstone.entries@),
                blocks_view(out@) =~= spec_file_query(
                    bs.take(i as int),
                    tomb,
                    field_id,
                    *time_range,
                ),
            decreases bs.len() - i,
        {
            proof {
                assert(blocks_view(self.blocks@)[i as int] == self.blocks@[i as int]@);
                assert(bs.take(i as int + 1).drop_last() =~= bs.take(i as int));
                assert(bs.take(i as int + 1).last() == bs[i as int]);
            }
            let b = &self.blocks[i];
            if b.field_id == field_id && b.time_range.overlaps(time_range) {
                let ghost pk = |p: (i64, FieldValV)|
                    time_range.min_ts <= p.0 && p.0 <= time_range.max_ts && !spec_tomb_deletes(
                        tomb,
                        bs[i as int].field_id,
                        p.0,
                    );
                let mut surviving: Vec<(i64, FieldVal)> = Vec::new();
                let mut p: usize = 0;
                let ghost pts = bs[i as int].points;
                while p < b.points.len()
                    invariant
                        p <= pts.len(),
                        pts == points_view(b.points@),
                        tomb == tomb_view(self.tombstone.entries@),
                        b@.field_id == bs[i as int].field_id,
                        b.field_id == field_id,
                        0 <= i < bs.len(),
                        bs[i as int] == b@,
                        pk == (|p0: (i64, FieldValV)|
                            time_range.min_ts <= p0.0 && p0.0 <= time_range.max_ts
                                && !spec_tomb_deletes(tomb, bs[i as int].field_id, p0.0)),
                        points_view(surviving@) =~= pts.take(p as int).filter(pk),
                    decreases pts.len() - p,
                {
                    proof {
                        assert(points_view(b.points@)[p as int] == (
                            b.points@[p as int].0,
                            b.points@[p as int].1@,
                        ));
                        crate::version::lemma_filter_take_step(pts, pk, p as int);
                    }
                    let ts = b.points[p].0;
                    if time_range.min_ts <= ts && ts <= time_range.max_ts && !tomb_deletes(
                        &self.tombstone,
                        field_id,
                        ts,
                    ) {
                        let ghost sb = points_view(surviving@);
                        let val = b.points[p].1.clone();
                        let ghost pv = (ts, val@);
                        surviving.push((ts, val));
                        proof {
                            assert(points_view(surviving@) =~= sb.push(pv));
                        }
                    }
                    p = p + 1;
                }
                proof {
                    assert(pts.take(pts.len() as int) =~= pts);
                    assert(points_view(surviving@) =~= spec_block_query(
                        bs[i as int],
                        tomb,
                        *time_range,
                    ));
                }
                if surviving.len() > 0 {
                    let ghost ob = blocks_view(out@);
                    let nb = DataBlock {
                        field_id: b.field_id,
                        time_range: b.time_range,
                        points: surviving,
                    };
                    let ghost nbv = nb@;
                    out.push(nb);
                    proof {
                        assert(blocks_view(out@) =~= ob.push(nbv));
                    }
                }
            }
            i = i + 1;
        }
        proof {
            assert(bs.take(bs.len() as int) =~= bs);
        }
        out
    }
}

/// Runtime check of `spec_tomb_deletes`.
fn tomb_deletes(tomb: &TsmTombstone, field_id: u64, ts: i64) -> (r: bool)
    ensures
        r == spec_tomb_deletes(tomb_view(tomb.entries@), field_id, ts),
{
    let ghost tv = tomb_view(tomb.entries@);
    let mut e: usize = 0;
    while e < tomb.entries.len()
        invariant
            e <= tv.len(),
            tv == tomb_view(tomb.entries@),
            forall|e0: int|
                0 <= e0 < e ==> !((#[trigger] tv[e0]).field_ids.contains(field_id)
                    && tv[e0].time_range.min_ts <= ts && ts <= tv[e0].time_range.max_ts),
        decreases tv.len() - e,
    {
        proof {
            assert(tomb_view(tomb.entries@)[e as int] == tomb.entries@[e as int]@);
        }
        let entry = &tomb.entries[e];
        if entry.time_range.min_ts <= ts && ts <= entry.time_range.max_ts {
            let mut f: usize = 0;
            while f < entry.field_ids.len()
                invariant
                    f <= entry.field_ids@.len(),
                    tv == tomb_view(tomb.entries@),
                    0 <= e < tv.len(),
                    tv[e as int] == entry@,
                    entry.time_range.min_ts <= ts && ts <= entry.time_range.max_ts,
                    forall|f0: int| 0 <= f0 < f ==> entry.field_ids@[f0] != field_id,
                decreases entry.field_ids@.len() - f,
            {
                if entry.field_ids[f] == field_id {
                    proof {
                        assert(tv[e as int].field_ids[f as int] == field_id);
                        assert(tv[e as int].field_ids.contains(field_id));
                    }
                    return true;
                }
                f = f + 1;
            }
            proof {
                if tv[e as int].field_ids.contains(field_id) {
                    let f0 = choose|f0: int|
                        0 <= f0 < tv[e as int].field_ids.len() && tv[e as int].field_ids[f0]
                            == field_id;
                    assert(false);
                }
            }
        }
        e = e + 1;
    }
    proof {
        if spec_tomb_deletes(tv, field_id, ts) {
            let e0 = choose|e0: int|
                0 <= e0 < tv.len() && (#[trigger] tv[e0]).field_ids.contains(field_id)
                    && tv[e0].time_range.min_ts <= ts && ts <= tv[e0].time_range.max_ts;
            assert(false);
        }
    }
    false
}

impl TsmDataStore {
    pub fn new() -> (r: Self)
        ensures
            r.files@.len() == 0,
    {
        Self { files: Vec::new() }
    }

    /// Whether an image for this file id is present.
    pub open spec fn spec_has_file(self, file_id: u64) -> bool {
        exists|i: int| 0 <= i < self.files@.len() && (#[trigger] self.files@[i]).file_id == file_id
    }

    /// Installs a file image.
    pub fn install(&mut self, file: TsmFileData)
        ensures
            final(self).files@.len() == old(self).files@.len() + 1,
            final(self).files@.last() == file,
            forall|i: int|
                0 <= i < old(self).files@.len() ==> (#[trigger] final(self).files@[i]) == old(
                    self,
                ).files@[i],
    {
        self.files.push(file);
    }

    /// The image of this file, if present: the first installed match.
    pub fn get(&self, file_id: u64) -> (r: Option<&TsmFileData>)
        ensures
            match r {
                Some(f) => f.file_id == file_id && self.spec_has_file(file_id) && *f
                    == self.files@[store_find(self.files@, file_id)],
                None => !self.spec_has_file(file_id),
            },
    {
        let ghost fs = self.files@;
        let mut i: usize = 0;
        while i < self.files.len()
            invariant
                i <= fs.len(),
                fs == self.files@,
                forall|j: int| 0 <= j < i ==> (#[trigger] fs[j]).file_id != file_id,
            decreases fs.len() - i,
        {
            if self.files[i].file_id == file_id {
                proof {
                    lemma_store_find(fs, file_id);
                    let fi = store_find(fs, file_id);
                    if fi < i {
                        assert(fs[fi].file_id == file_id);
                        assert(false);
                    }
                    if fi > i as int {
                        assert(fs[i as int].file_id != file_id);
                        assert(false);
                    }
                }
                return Some(&self.files[i]);
            }
            i = i + 1;
        }
        proof {
            if self.spec_has_file(file_id) {
                let j = choose|j: int|
                    0 <= j < self.files@.len() && (#[trigger] self.files@[j]).file_id == file_id;
                assert(false);
            }
        }
        None
    }

    /// Exclusive access to the image of this file, if present.
    pub fn get_mut(&mut self, file_id: u64) -> (r: Option<&mut TsmFileData>)
        ensures
            match r {
                Some(f) => f.file_id == file_id,
                None => *final(self) == *old(self) && !old(self).spec_has_file(file_id),
            },
    {
        let mut i: usize = 0;
        let n = self.files.len();
        while i < n
            invariant
                i <= self.files@.len(),
                n == self.files@.len(),
                self == old(self),
                forall|j: int| 0 <= j < i ==> (#[trigger] self.files@[j]).file_id != file_id,
            decreases n - i,
        {
            if self.files[i].file_id == file_id {
                return Some(&mut self.files[i]);
            }
            i = i + 1;
        }
        proof {
            if old(self).spec_has_file(file_id) {
                let j = choose|j: int|
                    0 <= j < self.files@.len() && (#[trigger] self.files@[j]).file_id == file_id;
                assert(false);
            }
        }
        None
    }
}

/// Law: a tombstone record whose range covers the query range and whose
/// field set names the queried field empties the read of that field.
pub proof fn lemma_tombstone_covers_read(
    blocks: Seq<DataBlockV>,
    tomb: Seq<TombstoneEntryV>,
    field_id: u64,
    range: TimeRange,
    e: int,
)
    requires
        0 <= e < tomb.len(),
        tomb[e].field_ids.contains(field_id),
        tomb[e].time_range.spec_includes(range),
    ensures
        spec_file_query(blocks, tomb, field_id, range) == Seq::<DataBlockV>::empty(),
    decreases blocks.len(),
{
    if blocks.len() > 0 {
        lemma_tombstone_covers_read(blocks.drop_last(), tomb, field_id, range, e);
        let b = blocks.last();
        if b.field_id == field_id {
            let pk = |p: (i64, FieldValV)|
                range.min_ts <= p.0 && p.0 <= range.max_ts && !spec_tomb_deletes(
                    tomb,
                    b.field_id,
                    p.0,
                );
            assert(spec_block_query(b, tomb, range).len() == 0) by {
                b.points.lemma_filter_len(pk);
                if spec_block_query(b, tomb, range).len() > 0 {
                    b.points.lemma_filter_pred(pk, 0);
                    let p0 = spec_block_query(b, tomb, range)[0];
                    assert(tomb[e].time_range.min_ts <= p0.0 && p0.0
                        <= tomb[e].time_range.max_ts);
                    assert(spec_tomb_deletes(tomb, b.field_id, p0.0));
                }
            }
        }
    }
}

impl LevelInfo {
    /// Reads the blocks of one field over a range from every live,
    /// overlapping file of the level, through the store of file images. A
    /// missing image aborts the scan of the level, as a failed reader open
    /// does, and the result is then empty.
    pub fn read_column_file(&self, store: &TsmDataStore, field_id: u64, time_range: &TimeRange)
        -> (r: Vec<DataBlock>)
        ensures
            (forall|k: int|
                0 <= k < self@.files.len() && file_scanned(#[trigger] self@.files[k], *time_range)
                    ==> store.spec_has_file(self@.files[k].file_id)) ==> blocks_view(r@)
                == spec_level_query(self@.files, *store, field_id, *time_range),
            (exists|k: int|
                0 <= k < self@.files.len() && file_scanned(#[trigger] self@.files[k], *time_range)
                    && !store.spec_has_file(self@.files[k].file_id)) ==> r@.len() == 0,
    {
        let ghost fvs = files_view(self.files@);
        let mut out: Vec<DataBlock> = Vec::new();
        let mut k: usize = 0;
        while k < self.files.len()
            invariant
                k <= fvs.len(),
                fvs == files_view(self.files@),
                forall|k0: int|
                    0 <= k0 < k && file_scanned(#[trigger] fvs[k0], *time_range)
                        ==> store.spec_has_file(fvs[k0].file_id),
                blocks_view(out@) =~= spec_level_query_upto(
                    fvs,
                    *store,
                    field_id,
                    *time_range,
                    k as int,
                ),
            decreases fvs.len() - k,
        {
            proof {
                assert(files_view(self.files@)[k as int] == self.files@[k as int]@);
            }
            let file = &self.files[k];
            if !file.deleted && file.time_range.overlaps(time_range) {
                match store.get(file.file_id) {
                    Some(data) => {
                        let mut blocks = data.read_field(field_id, time_range);
                        let ghost ob = blocks_view(out@);
                        let ghost nb = blocks_view(blocks@);
                        out.append(&mut blocks);
                        proof {
                            assert(blocks_view(out@) =~= ob + nb);
                            lemma_store_find(store.files@, fvs[k as int].file_id);
                            assert(spec_store_lookup(*store, fvs[k as int].file_id) == Some(
                                store_find(store.files@, fvs[k as int].file_id),
                            ));
                        }
                    },
                    None => {
                        let empty: Vec<DataBlock> = Vec::new();
                        proof {
                            assert(file_scanned(fvs[k as int], *time_range));
                            assert(!store.spec_has_file(fvs[k as int].file_id));
                            assert(blocks_view(empty@) =~= Seq::<DataBlockV>::empty());
                        }
                        return empty;
                    },
                }
            }
            k = k + 1;
        }
        proof {
            assert(spec_level_query_upto(fvs, *store, field_id, *time_range, fvs.len() as int)
                == spec_level_query(fvs, *store, field_id, *time_range));
        }
        out
    }
}

/// The points of column `j` of a group: each row that carries a value in
/// that slot, as `(timestamp, value)`.
pub open spec fn spec_column_points(rows: Seq<RowDataV>, j: int) -> Seq<(i64, FieldValV)>
    decreases rows.len(),
{
    if rows.len() == 0 {
        Seq::<(i64, FieldValV)>::empty()
    } else {
        let rest = spec_column_points(rows.drop_last(), j);
        if 0 <= j < rows.last().fields.len() {
            match rows.last().fields[j] {
                Some(v) => rest.push((rows.last().ts, v)),
                None => rest,
            }
        } else {
            rest
        }
    }
}

/// The blocks the first `n` columns of one group contribute: one block per
/// field column that holds at least one value, keyed by the composite field
/// id of (series, column), covering the group's range.
pub open spec fn spec_group_blocks_upto(g: RowGroupV, sid: u32, n: int) -> Seq<DataBlockV>
    decreases n,
{
    if n <= 0 {
        Seq::<DataBlockV>::empty()
    } else {
        let rest = spec_group_blocks_upto(g, sid, n - 1);
        let c = g.schema.columns[n - 1];
        let pts = spec_column_points(g.rows, n - 1);
        if (c.column_type matches ColumnType::Field(_)) && pts.len() > 0 {
            rest.push(
                DataBlockV {
                    field_id: spec_field_id(c.id, sid),
                    time_range: g.range,
                    points: pts,
                },
            )
        } else {
            rest
        }
    }
}

/// The blocks one group contributes.
pub open spec fn spec_group_blocks(g: RowGroupV, sid: u32) -> Seq<DataBlockV> {
    spec_group_blocks_upto(g, sid, g.schema.columns.len() as int)
}

/// The blocks one series contributes, group by group.
pub open spec fn spec_series_blocks(groups: Seq<RowGroupV>, sid: u32) -> Seq<DataBlockV>
    decreases groups.len(),
{
    if groups.len() == 0 {
        Seq::<DataBlockV>::empty()
    } else {
        spec_series_blocks(groups.drop_last(), sid) + spec_group_blocks(groups.last(), sid)
    }
}

/// The blocks a whole buffer contributes, series by series.
pub open spec fn spec_cache_blocks(series: Seq<SeriesEntryV>) -> Seq<DataBlockV>
    decreases series.len(),
{
    if series.len() == 0 {
        Seq::<DataBlockV>::empty()
    } else {
        spec_cache_blocks(series.drop_last()) + spec_series_blocks(
            series.last().groups,
            series.last().sid,
        )
    }
}

/// Collects the points of one column of a group.
fn column_points(rows: &Vec<crate::memcache::RowData>, j: usize) -> (r: Vec<(i64, FieldVal)>)
    ensures
        points_view(r@) == spec_column_points(rows_view(rows@), j as int),
{
    let ghost rvs = rows_view(rows@);
    let mut out: Vec<(i64, FieldVal)> = Vec::new();
    let mut i: usize = 0;
    while i < rows.len()
        invariant
            i <= rvs.len(),
            rvs == rows_view(rows@),
            points_view(out@) =~= spec_column_points(rvs.take(i as int), j as int),
        decreases rvs.len() - i,
    {
        proof {
            assert(rows_view(rows@)[i as int] == rows@[i as int]@);
            assert(rvs.take(i as int + 1).drop_last() =~= rvs.take(i as int));
            assert(rvs.take(i as int + 1).last() == rvs[i as int]);
        }
        let row = &rows[i];
        if j < row.fields.len() {
            proof {
                assert(fields_view(row.fields@)[j as int] == crate::memcache::opt_field_view(
                    row.fields@[j as int],
                ));
            }
            match &row.fields[j] {
                Some(v) => {
                    let ghost ob = points_view(out@);
                    let val = v.clone();
                    let ghost pv = (row.ts, val@);
                    out.push((row.ts, val));
                    proof {
                        assert(points_view(out@) =~= ob.push(pv));
                    }
                },
                None => {},
            }
        }
        i = i + 1;
    }
    proof {
        assert(rvs.take(rvs.len() as int) =~= rvs);
    }
    out
}

/// Builds the blocks of one group.
fn group_blocks(g: &crate::memcache::RowGroup, sid: u32) -> (r: Vec<DataBlock>)
    ensures
        blocks_view(r@) == spec_group_blocks(g@, sid),
{
    let ghost gv = g@;
    let mut out: Vec<DataBlock> = Vec::new();
    let mut j: usize = 0;
    while j < g.schema.columns.len()
        invariant
            j <= gv.schema.columns.len(),
            gv == g@,
            blocks_view(out@) =~= spec_group_blocks_upto(gv, sid, j as int),
        decreases gv.schema.columns.len() - j,
    {
        proof {
            assert(crate::schema::columns_view(g.schema.columns@)[j as int]
                == g.schema.columns@[j as int]@);
        }
        let c = &g.schema.columns[j];
        let is_field = match c.column_type {
            ColumnType::Field(_) => true,
            _ => false,
        };
        if is_field {
            let pts = column_points(&g.rows, j);
            if pts.len() > 0 {
                let fid = crate::schema::unite_field_id(c.id, sid);
                let ghost ob = blocks_view(out@);
                let nb = DataBlock { field_id: fid, time_range: g.range, points: pts };
                let ghost nbv = nb@;
                out.push(nb);
                proof {
                    assert(blocks_view(out@) =~= ob.push(nbv));
                    assert(nbv == (DataBlockV {
                        field_id: spec_field_id(gv.schema.columns[j as int].id, sid),
                        time_range: gv.range,
                        points: spec_column_points(gv.rows, j as int),
                    }));
                }
            }
        }
        j = j + 1;
    }
    out
}

/// Builds the blocks of a whole buffer, as the flush worker would write
/// them into one TSM file.
pub fn build_tsm_blocks(mem: &MemCache) -> (r: Vec<DataBlock>)
    ensures
        blocks_view(r@) == spec_cache_blocks(mem@.series),
{
    let ghost series = mem@.series;
    let mut out: Vec<DataBlock> = Vec::new();
    let mut i: usize = 0;
    while i < mem.series.len()
        invariant
            i <= series.len(),
            series == mem@.series,
            blocks_view(out@) =~= spec_cache_blocks(series.take(i as int)),
        decreases series.len() - i,
    {
        proof {
            assert(series_table_view(mem.series@)[i as int] == mem.series@[i as int]@);
            assert(series.take(i as int + 1).drop_last() =~= series.take(i as int));
            assert(series.take(i as int + 1).last() == series[i as int]);
        }
        let entry = &mem.series[i];
        let ghost gs = series[i as int].groups;
        let mut g: usize = 0;
        while g < entry.groups.len()
            invariant
                g <= gs.len(),
                groups_view(entry.groups@) == gs,
                entry@.sid == series[i as int].sid,
                0 <= i < series.len(),
                series == mem@.series,
                blocks_view(out@) =~= spec_cache_blocks(series.take(i as int))
                    + spec_series_blocks(gs.take(g as int), series[i as int].sid),
            decreases gs.len() - g,
        {
            proof {
                assert(groups_view(entry.groups@)[g as int] == entry.groups@[g as int]@);
                assert(gs.take(g as int + 1).drop_last() =~= gs.take(g as int));
                assert(gs.take(g as int + 1).last() == gs[g as int]);
            }
            let mut blocks = group_blocks(&entry.groups[g], entry.sid);
            let ghost ob = blocks_view(out@);
            let ghost nb = blocks_view(blocks@);
            out.append(&mut blocks);
            proof {
                assert(blocks_view(out@) =~= ob + nb);
            }
            g = g + 1;
        }
        proof {
            assert(gs.take(gs.len() as int) =~= gs);
        }
        i = i + 1;
    }
    proof {
        assert(series.take(series.len() as int) =~= series);
    }
    out
}

/// The enclosing time range of a file's points; the sentinel when the file
/// holds none.
pub fn tsm_time_range(file: &TsmFileData) -> (r: TimeRange)
    ensures
        forall|b: int, p: int|
            0 <= b < blocks_view(file.blocks@).len() && 0 <= p < blocks_view(
                file.blocks@,
            )[b].points.len() ==> r.min_ts <= (#[trigger] blocks_view(file.blocks@)[b].points[p]).0
                <= r.max_ts,
{
    let mut min_ts: i64 = i64::MAX;
    let mut max_ts: i64 = i64::MIN;
    let ghost bs = blocks_view(file.blocks@);
    let mut b: usize = 0;
    while b < file.blocks.len()
        invariant
            b <= bs.len(),
            bs == blocks_view(file.blocks@),
            forall|b0: int, p0: int|
                0 <= b0 < b && 0 <= p0 < bs[b0].points.len() ==> min_ts <= (
                #[trigger] bs[b0].points[p0]).0 <= max_ts,
        decreases bs.len() - b,
    {
        proof {
            assert(blocks_view(file.blocks@)[b as int] == file.blocks@[b as int]@);
        }
        let blk = &file.blocks[b];
        let mut p: usize = 0;
        while p < blk.points.len()
            invariant
                p <= blk.points@.len(),
                bs == blocks_view(file.blocks@),
                0 <= b < bs.len(),
                blk@ == bs[b as int],
                forall|b0: int, p0: int|
                    0 <= b0 < b && 0 <= p0 < bs[b0].points.len() ==> min_ts <= (
                    #[trigger] bs[b0].points[p0]).0 <= max_ts,
                forall|p0: int|
                    0 <= p0 < p ==> min_ts <= (#[trigger] bs[b as int].points[p0]).0 <= max_ts,
            decreases blk.points@.len() - p,
        {
            proof {
                assert(points_view(blk.points@)[p as int] == (
                    blk.points@[p as int].0,
                    blk.points@[p as int].1@,
                ));
            }
            let ts = blk.points[p].0;
            if ts < min_ts {
                min_ts = ts;
            }
            if ts > max_ts {
                max_ts = ts;
            }
            p = p + 1;
        }
        b = b + 1;
    }
    TimeRange { min_ts, max_ts }
}

/// The points of a block list, in order.
pub open spec fn spec_flat_points(blocks: Seq<DataBlockV>) -> Seq<(i64, FieldValV)>
    decreases blocks.len(),
{
    if blocks.len() == 0 {
        Seq::<(i64, FieldValV)>::empty()
    } else {
        spec_flat_points(blocks.drop_last()) + blocks.last().points
    }
}

/// A read cursor over the decoded blocks of one field: `peek` yields the
/// point under the cursor, loading the next block when the current one is
/// exhausted, and `next` advances by one point.
#[derive(Debug)]
pub struct FieldFileLocation {
    pub blocks: Vec<DataBlock>,
    pub block_ix: usize,
    pub read_index: usize,
}

impl FieldFileLocation {
    /// The cursor points into its blocks.
    pub open spec fn wf(self) -> bool {
        &&& self.block_ix <= self.blocks@.len()
        &&& (self.block_ix < self.blocks@.len() ==> self.read_index <= blocks_view(
            self.blocks@,
        )[self.block_ix as int].points.len())
        &&& (self.block_ix == self.blocks@.len() ==> self.read_index == 0)
    }

    /// How many points the cursor has passed, counted in the flattened
    /// point sequence.
    pub open spec fn consumed(self) -> int {
        spec_flat_points(blocks_view(self.blocks@).take(self.block_ix as int)).len()
            + self.read_index
    }

    /// A cursor at the start of a block list.
    pub fn new(blocks: Vec<DataBlock>) -> (r: Self)
        ensures
            r.wf(),
            blocks_view(r.blocks@) == blocks_view(blocks@),
            r.consumed() == 0,
    {
        let r = Self { blocks, block_ix: 0, read_index: 0 };
        proof {
            if r.block_ix < r.blocks@.len() {
                assert(blocks_view(r.blocks@).take(0) =~= Seq::<DataBlockV>::empty());
            } else {
                assert(blocks_view(r.blocks@).take(0) =~= Seq::<DataBlockV>::empty());
            }
        }
        r
    }

    /// The point under the cursor, if any point remains; exhausted blocks
    /// are skipped on the way.
    pub fn peek(&mut self) -> (r: Option<(i64, FieldVal)>)
        requires
            old(self).wf(),
        ensures
            final(self).wf(),
            blocks_view(final(self).blocks@) == blocks_view(old(self).blocks@),
            final(self).consumed() == old(self).consumed(),
            ({
                let flat = spec_flat_points(blocks_view(old(self).blocks@));
                match r {
                    Some(p) => old(self).consumed() < flat.len() && (p.0, p.1@) == flat[old(
                        self,
                    ).consumed()],
                    None => old(self).consumed() >= flat.len(),
                }
            }),
    {
        let ghost bs = blocks_view(self.blocks@);
        let ghost flat = spec_flat_points(bs);
        proof {
            lemma_flat_points_prefix(bs, self.block_ix as int);
        }
        while self.block_ix < self.blocks.len() && self.read_index >= self.blocks[
            self.block_ix
        ].points.len()
            invariant
                self.wf(),
                bs == blocks_view(self.blocks@),
                flat == spec_flat_points(bs),
                self.consumed() == old(self).consumed(),
            decreases bs.len() - self.block_ix,
        {
            proof {
                assert(blocks_view(self.blocks@)[self.block_ix as int]
                    == self.blocks@[self.block_ix as int]@);
                assert(bs.take(self.block_ix as int + 1).drop_last() =~= bs.take(
                    self.block_ix as int,
                ));
                assert(bs.take(self.block_ix as int + 1).last() == bs[self.block_ix as int]);
            }
            self.block_ix = self.block_ix + 1;
            self.read_index = 0;
        }
        if self.block_ix >= self.blocks.len() {
            proof {
                assert(bs.take(bs.len() as int) =~= bs);
                lemma_flat_points_prefix(bs, self.block_ix as int);
            }
            return None;
        }
        proof {
            assert(blocks_view(self.blocks@)[self.block_ix as int]
                == self.blocks@[self.block_ix as int]@);
            assert(points_view(self.blocks@[self.block_ix as int].points@)[self.read_index as int]
                == (
            self.blocks@[self.block_ix as int].points@[self.read_index as int].0,
            self.blocks@[self.block_ix as int].points@[self.read_index as int].1@,
            ));
            lemma_flat_points_index(bs, self.block_ix as int, self.read_index as int);
        }
        let p = &self.blocks[self.block_ix].points[self.read_index];
        Some((p.0, p.1.clone()))
    }

    /// Advances the cursor by one point.
    pub fn next(&mut self)
        requires
            old(self).wf(),
            old(self).read_index < usize::MAX,
        ensures
            final(self).blocks@ == old(self).blocks@,
            final(self).consumed() == old(self).consumed() + 1,
    {
        self.read_index = self.read_index + 1;
    }
}

/// The flattened prefix of a block list never outgrows the whole.
proof fn lemma_flat_points_prefix(bs: Seq<DataBlockV>, n: int)
    requires
        0 <= n <= bs.len(),
    ensures
        spec_flat_points(bs.take(n)).len() <= spec_flat_points(bs).len(),
        n == bs.len() ==> spec_flat_points(bs.take(n)).len() == spec_flat_points(bs).len(),
    decreases bs.len() - n,
{
    if n == bs.len() {
        assert(bs.take(n) =~= bs);
    } else {
        lemma_flat_points_prefix(bs, n + 1);
        assert(bs.take(n + 1).drop_last() =~= bs.take(n));
        assert(bs.take(n + 1).last() == bs[n]);
    }
}

/// A position inside one block maps to the flattened sequence.
proof fn lemma_flat_points_index(bs: Seq<DataBlockV>, b: int, i: int)
    requires
        0 <= b < bs.len(),
        0 <= i < bs[b].points.len(),
    ensures
        spec_flat_points(bs.take(b)).len() + i < spec_flat_points(bs).len(),
        spec_flat_points(bs)[spec_flat_points(bs.take(b)).len() + i] == bs[b].points[i],
    decreases bs.len(),
{
    if b == bs.len() - 1 {
        assert(bs.drop_last() =~= bs.take(b));
    } else {
        lemma_flat_points_index(bs.drop_last(), b, i);
        assert(bs.drop_last().take(b) =~= bs.take(b));
        assert(spec_flat_points(bs)[spec_flat_points(bs.take(b)).len() + i] == (spec_flat_points(
            bs.drop_last(),
        ) + bs.last().points)[spec_flat_points(bs.take(b)).len() + i]);
    }
}

/// Whether the level scan opens this file: live and overlapping the query.
pub open spec fn file_scanned(f: ColumnFileV, range: TimeRange) -> bool {
    !f.deleted && f.time_range.spec_overlaps(range)
}

/// The first index holding this file id, or the length when absent.
pub open spec fn store_find(files: Seq<TsmFileData>, file_id: u64) -> int
    decreases files.len(),
{
    if files.len() == 0 {
        0
    } else if files[0].file_id == file_id {
        0
    } else {
        1 + store_find(files.drop_first(), file_id)
    }
}

pub proof fn lemma_store_find(files: Seq<TsmFileData>, file_id: u64)
    ensures
        0 <= store_find(files, file_id) <= files.len(),
        store_find(files, file_id) < files.len() ==> files[store_find(files, file_id)].file_id
            == file_id,
        forall|j: int|
            0 <= j < store_find(files, file_id) ==> (#[trigger] files[j]).file_id != file_id,
    decreases files.len(),
{
    if files.len() > 0 && files[0].file_id != file_id {
        lemma_store_find(files.drop_first(), file_id);
        assert(forall|j: int|
            0 <= j < files.drop_first().len() ==> files.drop_first()[j] == files[j + 1]);
        assert forall|j: int|
            0 <= j < store_find(files, file_id) implies (#[trigger] files[j]).file_id
            != file_id by {
            if j > 0 {
                assert(files.drop_first()[j - 1].file_id != file_id);
            }
        }
    }
}

/// The image a store holds for a file id (the first match).
pub open spec fn spec_store_lookup(store: TsmDataStore, file_id: u64) -> Option<int> {
    if store_find(store.files@, file_id) < store.files@.len() {
        Some(store_find(store.files@, file_id))
    } else {
        None
    }
}

/// The blocks the first `n` files of a level contribute.
pub open spec fn spec_level_query_upto(
    files: Seq<ColumnFileV>,
    store: TsmDataStore,
    field_id: u64,
    range: TimeRange,
    n: int,
) -> Seq<DataBlockV>
    decreases n,
{
    if n <= 0 {
        Seq::<DataBlockV>::empty()
    } else {
        let rest = spec_level_query_upto(files, store, field_id, range, n - 1);
        let f = files[n - 1];
        if file_scanned(f, range) {
            match spec_store_lookup(store, f.file_id) {
                Some(i) => rest + spec_file_query(
                    blocks_view(store.files@[i].blocks@),
                    tomb_view(store.files@[i].tombstone.entries@),
                    field_id,
                    range,
                ),
                None => rest,
            }
        } else {
            rest
        }
    }
}

/// The blocks a whole level contributes when every scanned file has an
/// image in the store.
pub open spec fn spec_level_query(
    files: Seq<ColumnFileV>,
    store: TsmDataStore,
    field_id: u64,
    range: TimeRange,
) -> Seq<DataBlockV> {
    spec_level_query_upto(files, store, field_id, range, files.len() as int)
}

} // verus!
