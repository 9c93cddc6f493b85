//! The mutable in-memory row buffer of a vnode: per-series row groups with
//! fullness detection, read-time series deletion, and schema-aware column
//! mutations. Single writer per vnode; the flush worker flips the monotone
//! `flushing` and `flushed` flags.

use vstd::prelude::*;
use crate::schema::{columns_view, spec_field_id, TableColumn, TableColumnV, TskvTableSchema, TskvTableSchemaV};
use crate::timerange::TimeRange;

verus! {

/// One field value of a row.
#[derive(Debug)]
pub enum FieldVal {
    Integer(i64),
    Unsigned(u64),
    Boolean(bool),
    Bytes(Vec<u8>),
}

/// The mathematical value of a `FieldVal`.
pub ghost enum FieldValV {
    Integer(i64),
    Unsigned(u64),
    Boolean(bool),
    Bytes(Seq<u8>),
}

impl View for FieldVal {
    type V = FieldValV;

    open spec fn view(&self) -> FieldValV {
        match self {
            FieldVal::Integer(v) => FieldValV::Integer(*v),
            FieldVal::Unsigned(v) => FieldValV::Unsigned(*v),
            FieldVal::Boolean(v) => FieldValV::Boolean(*v),
            FieldVal::Bytes(v) => FieldValV::Bytes(v@),
        }
    }
}

fn clone_bytes(v: &Vec<u8>) -> (r: Vec<u8>)
    ensures
        r@ == v@,
{
    let mut out: Vec<u8> = Vec::new();
    let mut i: usize = 0;
    while i < v.len()
        invariant
            i <= v@.len(),
            out@ == v@.take(i as int),
        decreases v@.len() - i,
    {
        out.push(v[i]);
        proof {
            assert(out@ =~= v@.take(i + 1));
        }
        i = i + 1;
    }
    proof {
        assert(out@ =~= v@);
    }
    out
}

impl Clone for FieldVal {
    /// A clone carries the same mathematical value as the original.
    fn clone(&self) -> (r: Self)
        ensures
            r@ == self@,
    {
        match self {
            FieldVal::Integer(v) => FieldVal::Integer(*v),
            FieldVal::Unsigned(v) => FieldVal::Unsigned(*v),
            FieldVal::Boolean(v) => FieldVal::Boolean(*v),
            FieldVal::Bytes(v) => FieldVal::Bytes(clone_bytes(v)),
        }
    }
}

/// The value of one optional field slot.
pub open spec fn opt_field_view(o: Option<FieldVal>) -> Option<FieldValV> {
    match o {
        Some(f) => Some(f@),
        None => None,
    }
}

/// The values of a row's field slots.
pub open spec fn fields_view(fields: Seq<Option<FieldVal>>) -> Seq<Option<FieldValV>> {
    fields.map_values(|o: Option<FieldVal>| opt_field_view(o))
}

/// One row: a timestamp and one optional value per field column.
#[derive(Debug)]
pub struct RowData {
    pub ts: i64,
    pub fields: Vec<Option<FieldVal>>,
}

/// The mathematical value of a `RowData`.
pub ghost struct RowDataV {
    pub ts: i64,
    pub fields: Seq<Option<FieldValV>>,
}

impl View for RowData {
    type V = RowDataV;

    open spec fn view(&self) -> RowDataV {
        RowDataV { ts: self.ts, fields: fields_view(self.fields@) }
    }
}

impl Clone for RowData {
    /// A clone carries the same mathematical value as the original.
    fn clone(&self) -> (r: Self)
        ensures
            r@ == self@,
    {
        let mut fields: Vec<Option<FieldVal>> = Vec::new();
        let mut i: usize = 0;
        while i < self.fields.len()
            invariant
                i <= self.fields@.len(),
                fields_view(fields@) =~= fields_view(self.fields@).take(i as int),
            decreases self.fields@.len() - i,
        {
            proof {
                assert(fields_view(self.fields@)[i as int] == opt_field_view(
                    self.fields@[i as int],
                ));
            }
            let ghost fb = fields@;
            let slot = match &self.fields[i] {
                Some(f) => Some(f.clone()),
                None => None,
            };
            let ghost sv = opt_field_view(slot);
            fields.push(slot);
            proof {
                assert(fields_view(fields@) =~= fields_view(fb).push(sv));
                assert(fields_view(fields@) =~= fields_view(self.fields@).take(i + 1));
            }
            i = i + 1;
        }
        proof {
            assert(fields_view(fields@) =~= fields_view(self.fields@));
        }
        Self { ts: self.ts, fields }
    }
}

/// The values of a row vector.
pub open spec fn rows_view(rows: Seq<RowData>) -> Seq<RowDataV> {
    rows.map_values(|r: RowData| r@)
}

/// A batch of rows for one series under one schema, covering `range`.
#[derive(Debug)]
pub struct RowGroup {
    pub schema: TskvTableSchema,
    pub range: TimeRange,
    pub rows: Vec<RowData>,
    pub size: usize,
}

/// The mathematical value of a `RowGroup`.
pub ghost struct RowGroupV {
    pub schema: TskvTableSchemaV,
    pub range: TimeRange,
    pub rows: Seq<RowDataV>,
    pub size: int,
}

impl View for RowGroup {
    type V = RowGroupV;

    open spec fn view(&self) -> RowGroupV {
        RowGroupV {
            schema: self.schema@,
            range: self.range,
            rows: rows_view(self.rows@),
            size: self.size as int,
        }
    }
}

impl RowGroup {
    /// Every row has one slot per schema column.
    pub open spec fn wf(self) -> bool {
        forall|i: int|
            0 <= i < self@.rows.len() ==> (#[trigger] self@.rows[i]).fields.len()
                == self@.schema.columns.len()
    }
}

fn clone_rows(rows: &Vec<RowData>) -> (r: Vec<RowData>)
    ensures
        rows_view(r@) == rows_view(rows@),
{
    let mut out: Vec<RowData> = Vec::new();
    let mut i: usize = 0;
    while i < rows.len()
        invariant
            i <= rows@.len(),
            rows_view(out@) =~= rows_view(rows@).take(i as int),
        decreases rows@.len() - i,
    {
        proof {
            assert(rows_view(rows@)[i as int] == rows@[i as int]@);
        }
        let ghost ob = out@;
        let row = rows[i].clone();
        let ghost rv = row@;
        out.push(row);
        proof {
            assert(rows_view(out@) =~= rows_view(ob).push(rv));
            assert(rows_view(out@) =~= rows_view(rows@).take(i + 1));
        }
        i = i + 1;
    }
    proof {
        assert(rows_view(out@) =~= rows_view(rows@));
    }
    out
}

impl Clone for RowGroup {
    /// A clone carries the same mathematical value as the original.
    fn clone(&self) -> (r: Self)
        ensures
            r@ == self@,
    {
        Self {
            schema: self.schema.clone(),
            range: self.range,
            rows: clone_rows(&self.rows),
            size: self.size,
        }
    }
}

/// The values of a group vector.
pub open spec fn groups_view(groups: Seq<RowGroup>) -> Seq<RowGroupV> {
    groups.map_values(|g: RowGroup| g@)
}

/// The row groups buffered for one series.
#[derive(Debug)]
pub struct SeriesEntry {
    pub sid: u32,
    pub groups: Vec<RowGroup>,
}

/// The mathematical value of a `SeriesEntry`.
pub ghost struct SeriesEntryV {
    pub sid: u32,
    pub groups: Seq<RowGroupV>,
}

impl View for SeriesEntry {
    type V = SeriesEntryV;

    open spec fn view(&self) -> SeriesEntryV {
        SeriesEntryV { sid: self.sid, groups: groups_view(self.groups@) }
    }
}

fn clone_groups(groups: &Vec<RowGroup>) -> (r: Vec<RowGroup>)
    ensures
        groups_view(r@) == groups_view(groups@),
{
    let mut out: Vec<RowGroup> = Vec::new();
    let mut i: usize = 0;
    while i < groups.len()
        invariant
            i <= groups@.len(),
            groups_view(out@) =~= groups_view(groups@).take(i as int),
        decreases groups@.len() - i,
    {
        proof {
            assert(groups_view(groups@)[i as int] == groups@[i as int]@);
        }
        let ghost ob = out@;
        let g = groups[i].clone();
        let ghost gv = g@;
        out.push(g);
        proof {
            assert(groups_view(out@) =~= groups_view(ob).push(gv));
            assert(groups_view(out@) =~= groups_view(groups@).take(i + 1));
        }
        i = i + 1;
    }
    proof {
        assert(groups_view(out@) =~= groups_view(groups@));
    }
    out
}

impl Clone for SeriesEntry {
    /// A clone carries the same mathematical value as the original.
    fn clone(&self) -> (r: Self)
        ensures
            r@ == self@,
    {
        Self { sid: self.sid, groups: clone_groups(&self.groups) }
    }
}

/// The values of the series table.
pub open spec fn series_table_view(series: Seq<SeriesEntry>) -> Seq<SeriesEntryV> {
    series.map_values(|e: SeriesEntry| e@)
}

/// The first index holding `sid`, or the length when absent.
pub open spec fn find_sid(series: Seq<SeriesEntryV>, sid: u32) -> int
    decreases series.len(),
{
    if series.len() == 0 {
        0
    } else if series[0].sid == sid {
        0
    } else {
        1 + find_sid(series.drop_first(), sid)
    }
}

/// Whether some entry holds `sid`.
pub open spec fn has_sid(series: Seq<SeriesEntryV>, sid: u32) -> bool {
    exists|i: int| 0 <= i < series.len() && (#[trigger] series[i]).sid == sid
}

/// `find_sid` lands on the first matching entry, or past the end.
pub proof fn lemma_find_sid(series: Seq<SeriesEntryV>, sid: u32)
    ensures
        0 <= find_sid(series, sid) <= series.len(),
        find_sid(series, sid) < series.len() ==> series[find_sid(series, sid)].sid == sid,
        forall|j: int| 0 <= j < find_sid(series, sid) ==> (#[trigger] series[j]).sid != sid,
        (find_sid(series, sid) < series.len()) == has_sid(series, sid),
    decreases series.len(),
{
    if series.len() > 0 && series[0].sid != sid {
        lemma_find_sid(series.drop_first(), sid);
        assert(forall|j: int|
            0 <= j < series.drop_first().len() ==> series.drop_first()[j] == series[j + 1]);
        assert forall|j: int| 0 <= j < find_sid(series, sid) implies (#[trigger] series[j]).sid
            != sid by {
            if j > 0 {
                assert(series.drop_first()[j - 1].sid != sid);
            }
        }
        if has_sid(series, sid) {
            let i = choose|i: int| 0 <= i < series.len() && (#[trigger] series[i]).sid == sid;
            assert(series.drop_first()[i - 1].sid == sid);
            assert(has_sid(series.drop_first(), sid));
        }
        if has_sid(series.drop_first(), sid) {
            let i = choose|i: int|
                0 <= i < series.drop_first().len() && (#[trigger] series.drop_first()[i]).sid
                    == sid;
            assert(series[i + 1].sid == sid);
        }
    }
}

/// Adding `b` saturating at the top of `u64`.
pub open spec fn spec_sat_add(a: u64, b: int) -> u64 {
    if a + b > u64::MAX {
        u64::MAX
    } else {
        (a + b) as u64
    }
}

/// The mathematical value of a `MemCache`.
pub ghost struct MemCacheV {
    pub tf_id: u32,
    pub flushed: bool,
    pub flushing: bool,
    pub max_size: u64,
    pub seq_no: u64,
    pub max_seq: u64,
    pub cache_size: u64,
    pub series: Seq<SeriesEntryV>,
}

/// The in-memory write buffer of one vnode.
#[derive(Debug)]
pub struct MemCache {
    pub tf_id: u32,
    /// Set by the flush worker once the buffer is durable.
    pub flushed: bool,
    /// Set when the buffer is handed to a flush request.
    pub flushing: bool,
    pub max_size: u64,
    /// The write sequence number the buffer was opened at.
    pub seq_no: u64,
    /// The greatest write sequence number buffered so far.
    pub max_seq: u64,
    pub cache_size: u64,
    pub series: Vec<SeriesEntry>,
}

impl View for MemCache {
    type V = MemCacheV;

    open spec fn view(&self) -> MemCacheV {
        MemCacheV {
            tf_id: self.tf_id,
            flushed: self.flushed,
            flushing: self.flushing,
            max_size: self.max_size,
            seq_no: self.seq_no,
            max_seq: self.max_seq,
            cache_size: self.cache_size,
            series: series_table_view(self.series@),
        }
    }
}

impl Clone for MemCache {
    /// A clone carries the same mathematical value as the original.
    fn clone(&self) -> (r: Self)
        ensures
            r@ == self@,
    {
        let mut series: Vec<SeriesEntry> = Vec::new();
        let mut i: usize = 0;
        while i < self.series.len()
            invariant
                i <= self.series@.len(),
                series_table_view(series@) =~= series_table_view(self.series@).take(i as int),
            decreases self.series@.len() - i,
        {
            proof {
                assert(series_table_view(self.series@)[i as int] == self.series@[i as int]@);
            }
            let ghost sb = series@;
            let entry = self.series[i].clone();
            let ghost ev = entry@;
            series.push(entry);
            proof {
                assert(series_table_view(series@) =~= series_table_view(sb).push(ev));
                assert(series_table_view(series@) =~= series_table_view(self.series@).take(i + 1));
            }
            i = i + 1;
        }
        proof {
            assert(series_table_view(series@) =~= series_table_view(self.series@));
        }
        Self {
            tf_id: self.tf_id,
            flushed: self.flushed,
            flushing: self.flushing,
            max_size: self.max_size,
            seq_no: self.seq_no,
            max_seq: self.max_seq,
            cache_size: self.cache_size,
            series,
        }
    }
}

/// Entries hold pairwise distinct series ids.
pub open spec fn mcv_wf(m: MemCacheV) -> bool {
    forall|i: int, j: int|
        0 <= i < j < m.series.len() ==> (#[trigger] m.series[i]).sid != (
        #[trigger] m.series[j]).sid
}

impl MemCache {
    /// Entries hold pairwise distinct series ids.
    pub open spec fn wf(self) -> bool {
        mcv_wf(self@)
    }

    /// An empty buffer opened at write sequence `seq_no` with the given
    /// capacity.
    pub fn new(tf_id: u32, max_size: u64, seq_no: u64) -> (r: Self)
        ensures
            r.wf(),
            r@ == (MemCacheV {
                tf_id,
                flushed: false,
                flushing: false,
                max_size,
                seq_no,
                max_seq: seq_no,
                cache_size: 0,
                series: Seq::<SeriesEntryV>::empty(),
            }),
    {
        let r = Self {
            tf_id,
            flushed: false,
            flushing: false,
            max_size,
            seq_no,
            max_seq: seq_no,
            cache_size: 0,
            series: Vec::new(),
        };
        proof {
            assert(series_table_view(r.series@) =~= Seq::<SeriesEntryV>::empty());
        }
        r
    }

    /// Whether the buffered bytes have reached the capacity.
    pub fn is_full(&self) -> (r: bool)
        ensures
            r == (self@.cache_size >= self@.max_size),
    {
        self.cache_size >= self.max_size
    }

    /// Merges a row group into the series' buffered groups, growing the
    /// byte count (saturating) and the greatest buffered sequence number.
    pub fn write_group(&mut self, sid: u32, seq: u64, group: RowGroup)
        requires
            old(self).wf(),
        ensures
            final(self).wf(),
            final(self)@ == (MemCacheV {
                series: final(self)@.series,
                cache_size: spec_sat_add(old(self)@.cache_size, group@.size),
                max_seq: if seq > old(self)@.max_seq {
                    seq
                } else {
                    old(self)@.max_seq
                },
                ..old(self)@
            }),
            has_sid(old(self)@.series, sid) ==> final(self)@.series == old(self)@.series.update(
                find_sid(old(self)@.series, sid),
                SeriesEntryV {
                    sid,
                    groups: old(self)@.series[find_sid(old(self)@.series, sid)].groups.push(
                        group@,
                    ),
                },
            ),
            !has_sid(old(self)@.series, sid) ==> final(self)@.series == old(self)@.series.push(
                SeriesEntryV { sid, groups: seq![group@] },
            ),
            final(self)@ == spec_write_mc(old(self)@, sid, seq, group@),
    {
        let ghost oldseries = self@.series;
        proof {
            lemma_find_sid(oldseries, sid);
        }
        if seq > self.max_seq {
            self.max_seq = seq;
        }
        if self.cache_size > u64::MAX - (group.size as u64) {
            self.cache_size = u64::MAX;
        } else {
            self.cache_size = self.cache_size + (group.size as u64);
        }
        let ghost gv = group@;
        let mut i: usize = 0;
        let n = self.series.len();
        while i < n
            invariant
                i <= oldseries.len(),
                n == oldseries.len(),
                oldseries == old(self)@.series,
                old(self).wf(),
                self@ == (MemCacheV {
                    series: oldseries,
                    cache_size: spec_sat_add(old(self)@.cache_size, gv.size),
                    max_seq: if seq > old(self)@.max_seq {
                        seq
                    } else {
                        old(self)@.max_seq
                    },
                    ..old(self)@
                }),
                forall|j: int| 0 <= j < i ==> (#[trigger] oldseries[j]).sid != sid,
                gv == group@,
            decreases n - i,
        {
            proof {
                assert(series_table_view(self.series@)[i as int] == self.series@[i as int]@);
            }
            if self.series[i].sid == sid {
                let ghost entrygroups = oldseries[i as int].groups;
                let mut entry = self.series.remove(i);
                proof {
                    assert(groups_view(entry.groups@) == entrygroups);
                }
                let ghost gb = entry.groups@;
                entry.groups.push(group);
                proof {
                    assert(groups_view(entry.groups@) =~= groups_view(gb).push(gv));
                }
                self.series.insert(i, entry);
                proof {
                    assert(series_table_view(self.series@) =~= oldseries.update(
                        i as int,
                        SeriesEntryV { sid, groups: entrygroups.push(gv) },
                    ));
                    assert(oldseries[i as int].sid == sid);
                    assert(has_sid(oldseries, sid));
                    lemma_find_sid(oldseries, sid);
                    let fi = find_sid(oldseries, sid);
                    if fi < i {
                        assert(oldseries[fi].sid == sid);
                        assert(false);
                    }
                    if fi > i as int {
                        assert(oldseries[i as int].sid != sid);
                        assert(false);
                    }
                    assert(i as int == find_sid(oldseries, sid));
                    assert forall|a: int, b: int|
                        0 <= a < b < series_table_view(self.series@).len() implies (
                    #[trigger] series_table_view(self.series@)[a]).sid != (
                    #[trigger] series_table_view(self.series@)[b]).sid by {
                        assert(series_table_view(self.series@)[a].sid == oldseries[a].sid);
                        assert(series_table_view(self.series@)[b].sid == oldseries[b].sid);
                    }
                }
                return ;
            }
            i = i + 1;
        }
        let ghost sb = series_table_view(self.series@);
        let mut singleton: Vec<RowGroup> = Vec::new();
        singleton.push(group);
        proof {
            assert(groups_view(singleton@) =~= seq![gv]);
        }
        self.series.push(SeriesEntry { sid, groups: singleton });
        proof {
            assert(series_table_view(self.series@) =~= sb.push(
                SeriesEntryV { sid, groups: seq![gv] },
            ));
            assert(!has_sid(oldseries, sid));
            assert forall|a: int, b: int|
                0 <= a < b < series_table_view(self.series@).len() implies (
            #[trigger] series_table_view(self.series@)[a]).sid != (#[trigger] series_table_view(
                self.series@,
            )[b]).sid by {
                if b < oldseries.len() {
                } else {
                    assert(series_table_view(self.series@)[b].sid == sid);
                    assert(series_table_view(self.series@)[a].sid == oldseries[a].sid);
                }
            }
        }
    }

    /// All buffered rows of one series, oldest group first.
    pub fn get_data(&self, series_id: u32) -> (r: Vec<RowData>)
        requires
            self.wf(),
        ensures
            rows_view(r@) == spec_series_rows(self@.series, series_id),
    {
        let ghost series = self@.series;
        proof {
            lemma_find_sid(series, series_id);
        }
        let mut out: Vec<RowData> = Vec::new();
        let mut i: usize = 0;
        while i < self.series.len()
            invariant
                i <= series.len(),
                series == self@.series,
                self.wf(),
                rows_view(out@) =~= Seq::<RowDataV>::empty(),
                forall|j: int| 0 <= j < i ==> (#[trigger] series[j]).sid != series_id,
            decreases series.len() - i,
        {
            proof {
                assert(series_table_view(self.series@)[i as int] == self.series@[i as int]@);
            }
            if self.series[i].sid == series_id {
                let entry = &self.series[i];
                let ghost gs = series[i as int].groups;
                proof {
                    assert(groups_view(entry.groups@) == gs);
                    assert(series[i as int].sid == series_id);
                    assert(has_sid(series, series_id));
                    lemma_find_sid(series, series_id);
                    let fi = find_sid(series, series_id);
                    if fi < i {
                        assert(series[fi].sid == series_id);
                        assert(false);
                    }
                    if fi > i as int {
                        assert(series[i as int].sid != series_id);
                        assert(false);
                    }
                    assert(i as int == find_sid(series, series_id));
                    assert(spec_series_rows(series, series_id) == spec_groups_rows(gs));
                }
                let mut g: usize = 0;
                while g < entry.groups.len()
                    invariant
                        g <= gs.len(),
                        groups_view(entry.groups@) == gs,
                        rows_view(out@) =~= spec_groups_rows(gs.take(g as int)),
                    decreases gs.len() - g,
                {
                    proof {
                        assert(groups_view(entry.groups@)[g as int] == entry.groups@[g as int]@);
                        assert(gs.take(g as int + 1).drop_last() =~= gs.take(g as int));
                        assert(gs.take(g as int + 1).last() == gs[g as int]);
                    }
                    let grp = &entry.groups[g];
                    let mut rix: usize = 0;
                    while rix < grp.rows.len()
                        invariant
                            rix <= grp.rows@.len(),
                            rows_view(out@) =~= spec_groups_rows(gs.take(g as int)) + rows_view(
                                grp.rows@,
                            ).take(rix as int),
                        decreases grp.rows@.len() - rix,
                    {
                        proof {
                            assert(rows_view(grp.rows@)[rix as int] == grp.rows@[rix as int]@);
                        }
                        let ghost ob = rows_view(out@);
                        let row = grp.rows[rix].clone();
                        let ghost rv = row@;
                        out.push(row);
                        proof {
                            assert(rows_view(out@) =~= ob.push(rv));
                            assert(rows_view(out@) =~= spec_groups_rows(gs.take(g as int))
                                + rows_view(grp.rows@).take(rix + 1));
                        }
                        rix = rix + 1;
                    }
                    proof {
                        assert(rows_view(grp.rows@).take(rows_view(grp.rows@).len() as int)
                            =~= rows_view(grp.rows@));
                        assert(grp@.rows == rows_view(grp.rows@));
                        assert(gs[g as int].rows == rows_view(grp.rows@));
                        assert(rows_view(out@) =~= spec_groups_rows(gs.take(g as int + 1)));
                    }
                    g = g + 1;
                }
                proof {
                    assert(gs.take(gs.len() as int) =~= gs);
                }
                return out;
            }
            i = i + 1;
        }
        proof {
            assert(!has_sid(series, series_id));
            assert(spec_series_rows(series, series_id) =~= Seq::<RowDataV>::empty());
        }
        out
    }

    /// Drops every buffered row of the named series whose timestamp lies in
    /// `range`. The rows vanish from reads; the byte count is unchanged, as
    /// the memory stays occupied until the buffer is flushed or dropped.
    pub fn delete_series(&mut self, sids: &Vec<u32>, time_range: &TimeRange)
        requires
            old(self).wf(),
        ensures
            final(self).wf(),
            final(self)@ == (MemCacheV { series: final(self)@.series, ..old(self)@ }),
            final(self)@.series.len() == old(self)@.series.len(),
            forall|i: int|
                0 <= i < old(self)@.series.len() ==> (#[trigger] final(self)@.series[i])
                    == (if sids@.contains(old(self)@.series[i].sid) {
                    SeriesEntryV {
                        sid: old(self)@.series[i].sid,
                        groups: spec_delete_rows_groups(old(self)@.series[i].groups, *time_range),
                    }
                } else {
                    old(self)@.series[i]
                }),
            final(self)@ == spec_delete_series_mc(old(self)@, sids@, *time_range),
    {
        let ghost oldseries = self@.series;
        let mut i: usize = 0;
        let n = self.series.len();
        while i < n
            invariant
                i <= oldseries.len(),
                n == oldseries.len(),
                oldseries == old(self)@.series,
                self@ == (MemCacheV { series: series_table_view(self.series@), ..old(self)@ }),
                series_table_view(self.series@).len() == oldseries.len(),
                forall|j: int|
                    i <= j < oldseries.len() ==> (#[trigger] series_table_view(self.series@)[j])
                        == oldseries[j],
                forall|j: int|
                    0 <= j < i ==> (#[trigger] series_table_view(self.series@)[j]) == (if sids@.contains(
                        oldseries[j].sid,
                    ) {
                        SeriesEntryV {
                            sid: oldseries[j].sid,
                            groups: spec_delete_rows_groups(oldseries[j].groups, *time_range),
                        }
                    } else {
                        oldseries[j]
                    }),
            decreases n - i,
        {
            proof {
                assert(series_table_view(self.series@)[i as int] == self.series@[i as int]@);
            }
            let ghost before = series_table_view(self.series@);
            if contains_u32(sids, self.series[i].sid) {
                let sid = self.series[i].sid;
                let mut entry = self.series.remove(i);
                let ghost gs = groups_view(entry.groups@);
                let mut newgroups: Vec<RowGroup> = Vec::new();
                let mut g: usize = 0;
                while g < entry.groups.len()
                    invariant
                        g <= gs.len(),
                        groups_view(entry.groups@) == gs,
                        groups_view(newgroups@) =~= spec_delete_rows_groups(
                            gs.take(g as int),
                            *time_range,
                        ),
                    decreases gs.len() - g,
                {
                    proof {
                        assert(groups_view(entry.groups@)[g as int] == entry.groups@[g as int]@);
                        assert(gs.take(g as int + 1).drop_last() =~= gs.take(g as int));
                        assert(gs.take(g as int + 1).last() == gs[g as int]);
                    }
                    let grp = &entry.groups[g];
                    let mut newrows: Vec<RowData> = Vec::new();
                    let ghost rs = rows_view(grp.rows@);
                    let ghost pk = |r: RowDataV|
                        !(time_range.min_ts <= r.ts && r.ts <= time_range.max_ts);
                    let mut rix: usize = 0;
                    while rix < grp.rows.len()
                        invariant
                            rix <= rs.len(),
                            rows_view(grp.rows@) == rs,
                            pk == (|r: RowDataV|
                                !(time_range.min_ts <= r.ts && r.ts <= time_range.max_ts)),
                            rows_view(newrows@) =~= rs.take(rix as int).filter(pk),
                        decreases rs.len() - rix,
                    {
                        proof {
                            assert(rows_view(grp.rows@)[rix as int] == grp.rows@[rix as int]@);
                            crate::version::lemma_filter_take_step(rs, pk, rix as int);
                        }
                        let row_ts = grp.rows[rix].ts;
                        if !(time_range.min_ts <= row_ts && row_ts <= time_range.max_ts) {
                            let ghost ob = rows_view(newrows@);
                            let row = grp.rows[rix].clone();
                            let ghost rv = row@;
                            newrows.push(row);
                            proof {
                                assert(rows_view(newrows@) =~= ob.push(rv));
                            }
                        }
                        rix = rix + 1;
                    }
                    proof {
                        assert(rs.take(rs.len() as int) =~= rs);
                    }
                    let ghost ngb = groups_view(newgroups@);
                    let newgroup = RowGroup {
                        schema: grp.schema.clone(),
                        range: grp.range,
                        rows: newrows,
                        size: grp.size,
                    };
                    let ghost ngv = newgroup@;
                    newgroups.push(newgroup);
                    proof {
                        assert(groups_view(newgroups@) =~= ngb.push(ngv));
                        assert(ngv == spec_delete_rows_group(gs[g as int], *time_range));
                        assert(groups_view(newgroups@) =~= spec_delete_rows_groups(
                            gs.take(g as int + 1),
                            *time_range,
                        ));
                    }
                    g = g + 1;
                }
                proof {
                    assert(gs.take(gs.len() as int) =~= gs);
                }
                entry.groups = newgroups;
                self.series.insert(i, entry);
                proof {
                    assert(series_table_view(self.series@) =~= before.update(
                        i as int,
                        SeriesEntryV {
                            sid,
                            groups: spec_delete_rows_groups(gs, *time_range),
                        },
                    ));
                }
            }
            i = i + 1;
        }
        proof {
            assert forall|a: int, b: int|
                0 <= a < b < series_table_view(self.series@).len() implies (
            #[trigger] series_table_view(self.series@)[a]).sid != (#[trigger] series_table_view(
                self.series@,
            )[b]).sid by {
                assert(series_table_view(self.series@)[a].sid == oldseries[a].sid);
                assert(series_table_view(self.series@)[b].sid == oldseries[b].sid);
            }
            assert(series_table_view(self.series@) =~= spec_delete_series_mc(
                old(self)@,
                sids@,
                *time_range,
            ).series);
        }
    }
}

/// A row after appending an empty slot for a new column.
pub open spec fn spec_add_col_row(r: RowDataV) -> RowDataV {
    RowDataV { ts: r.ts, fields: r.fields.push(None) }
}

/// A group after appending a column: the schema gains the column, every row
/// gains an empty slot.
pub open spec fn spec_add_col_group(g: RowGroupV, c: TableColumnV) -> RowGroupV {
    RowGroupV {
        schema: TskvTableSchemaV { columns: g.schema.columns.push(c), ..g.schema },
        rows: g.rows.map_values(|r: RowDataV| spec_add_col_row(r)),
        ..g
    }
}

pub open spec fn spec_add_col_groups(gs: Seq<RowGroupV>, c: TableColumnV) -> Seq<RowGroupV> {
    gs.map_values(|g: RowGroupV| spec_add_col_group(g, c))
}

/// A schema after replacing the column of this name.
pub open spec fn spec_change_col_schema(
    s: TskvTableSchemaV,
    name: Seq<char>,
    c: TableColumnV,
) -> TskvTableSchemaV {
    TskvTableSchemaV {
        columns: s.columns.map_values(
            |col: TableColumnV|
                if col.name == name {
                    c
                } else {
                    col
                },
        ),
        ..s
    }
}

pub open spec fn spec_change_col_group(g: RowGroupV, name: Seq<char>, c: TableColumnV)
    -> RowGroupV {
    RowGroupV { schema: spec_change_col_schema(g.schema, name, c), ..g }
}

pub open spec fn spec_change_col_groups(
    gs: Seq<RowGroupV>,
    name: Seq<char>,
    c: TableColumnV,
) -> Seq<RowGroupV> {
    gs.map_values(|g: RowGroupV| spec_change_col_group(g, name, c))
}

/// Whether a column of a series is targeted by a field-id list.
pub open spec fn col_targeted(c: TableColumnV, sid: u32, fids: Seq<u64>) -> bool {
    fids.contains(spec_field_id(c.id, sid))
}

/// The columns that survive a column deletion.
pub open spec fn spec_filter_cols(cols: Seq<TableColumnV>, sid: u32, fids: Seq<u64>) -> Seq<
    TableColumnV,
> {
    cols.filter(|c: TableColumnV| !col_targeted(c, sid, fids))
}

/// A row's slots after the deletion, kept in step with the columns.
pub open spec fn spec_filter_fields(
    fields: Seq<Option<FieldValV>>,
    cols: Seq<TableColumnV>,
    sid: u32,
    fids: Seq<u64>,
) -> Seq<Option<FieldValV>>
    decreases cols.len(),
{
    if cols.len() == 0 {
        Seq::<Option<FieldValV>>::empty()
    } else {
        let rest = spec_filter_fields(fields.drop_last(), cols.drop_last(), sid, fids);
        if !col_targeted(cols.last(), sid, fids) {
            rest.push(fields.last())
        } else {
            rest
        }
    }
}

/// A group after deleting the targeted columns of its series.
pub open spec fn spec_delete_cols_group(g: RowGroupV, sid: u32, fids: Seq<u64>) -> RowGroupV {
    RowGroupV {
        schema: TskvTableSchemaV {
            columns: spec_filter_cols(g.schema.columns, sid, fids),
            ..g.schema
        },
        rows: g.rows.map_values(
            |r: RowDataV| RowDataV {
                ts: r.ts,
                fields: spec_filter_fields(r.fields, g.schema.columns, sid, fids),
            },
        ),
        ..g
    }
}

pub open spec fn spec_delete_cols_groups(gs: Seq<RowGroupV>, sid: u32, fids: Seq<u64>) -> Seq<
    RowGroupV,
> {
    gs.map_values(|g: RowGroupV| spec_delete_cols_group(g, sid, fids))
}

fn clone_slot(slot: &Option<FieldVal>) -> (r: Option<FieldVal>)
    ensures
        opt_field_view(r) == opt_field_view(*slot),
{
    match slot {
        Some(f) => Some(f.clone()),
        None => None,
    }
}

/// Appends a column to one group: schema and every row in step.
fn group_add_column(g: &mut RowGroup, new_column: &TableColumn)
    ensures
        final(g)@ == spec_add_col_group(old(g)@, new_column@),
        old(g).wf() ==> final(g).wf(),
{
    let ghost oldg = g@;
    let ghost cb = columns_view(g.schema.columns@);
    g.schema.columns.push(new_column.clone());
    proof {
        assert(columns_view(g.schema.columns@) =~= cb.push(new_column@));
    }
    let ghost oldrows = rows_view(g.rows@);
    let mut i: usize = 0;
    let n = g.rows.len();
    while i < n
        invariant
            i <= oldrows.len(),
            n == oldrows.len(),
            rows_view(g.rows@).len() == oldrows.len(),
            g.schema@ == (TskvTableSchemaV { columns: cb.push(new_column@), ..oldg.schema }),
            g.range == oldg.range,
            g.size as int == oldg.size,
            forall|j: int|
                i <= j < oldrows.len() ==> (#[trigger] rows_view(g.rows@)[j]) == oldrows[j],
            forall|j: int|
                0 <= j < i ==> (#[trigger] rows_view(g.rows@)[j]) == spec_add_col_row(oldrows[j]),
        decreases n - i,
    {
        proof {
            assert(rows_view(g.rows@)[i as int] == g.rows@[i as int]@);
        }
        let ghost before = rows_view(g.rows@);
        let mut row = g.rows.remove(i);
        let ghost fb = fields_view(row.fields@);
        row.fields.push(None);
        proof {
            assert(fields_view(row.fields@) =~= fb.push(None));
        }
        g.rows.insert(i, row);
        proof {
            assert(rows_view(g.rows@) =~= before.update(
                i as int,
                RowDataV { ts: oldrows[i as int].ts, fields: fb.push(None) },
            ));
        }
        i = i + 1;
    }
    proof {
        assert(rows_view(g.rows@) =~= oldrows.map_values(|r: RowDataV| spec_add_col_row(r)));
    }
}

/// Replaces the column of this name in one group's schema.
fn group_change_column(g: &mut RowGroup, column_name: &String, new_column: &TableColumn)
    ensures
        final(g)@ == spec_change_col_group(old(g)@, column_name@, new_column@),
        old(g).wf() ==> final(g).wf(),
{
    let ghost oldcols = columns_view(g.schema.columns@);
    let mut i: usize = 0;
    let n = g.schema.columns.len();
    while i < n
        invariant
            i <= oldcols.len(),
            n == oldcols.len(),
            columns_view(g.schema.columns@).len() == oldcols.len(),
            g.range == old(g).range,
            g.size == old(g).size,
            rows_view(g.rows@) == rows_view(old(g).rows@),
            g.schema.tenant@ == old(g).schema@.tenant,
            g.schema.db@ == old(g).schema@.db,
            g.schema.name@ == old(g).schema@.name,
            g.schema.schema_id == old(g).schema@.schema_id,
            oldcols == old(g)@.schema.columns,
            forall|j: int|
                i <= j < oldcols.len() ==> (#[trigger] columns_view(g.schema.columns@)[j])
                    == oldcols[j],
            forall|j: int|
                0 <= j < i ==> (#[trigger] columns_view(g.schema.columns@)[j]) == (if oldcols[j].name
                    == column_name@ {
                    new_column@
                } else {
                    oldcols[j]
                }),
        decreases n - i,
    {
        proof {
            assert(columns_view(g.schema.columns@)[i as int] == g.schema.columns@[i as int]@);
        }
        let ghost before = columns_view(g.schema.columns@);
        if g.schema.columns[i].name == *column_name {
            let replaced = new_column.clone();
            let _old_col = g.schema.columns.remove(i);
            g.schema.columns.insert(i, replaced);
            proof {
                assert(columns_view(g.schema.columns@) =~= before.update(
                    i as int,
                    new_column@,
                ));
            }
        }
        i = i + 1;
    }
    proof {
        assert(columns_view(g.schema.columns@) =~= oldcols.map_values(
            |col: TableColumnV|
                if col.name == column_name@ {
                    new_column@
                } else {
                    col
                },
        ));
    }
}

impl MemCache {
    /// Applies one group mutation to the groups of the entry at `i`.
    /// Used by the schema mutations below.
    fn mutate_entry_groups_add(&mut self, i: usize, new_column: &TableColumn)
        requires
            i < old(self)@.series.len(),
        ensures
            final(self)@ == (MemCacheV {
                series: old(self)@.series.update(
                    i as int,
                    SeriesEntryV {
                        sid: old(self)@.series[i as int].sid,
                        groups: spec_add_col_groups(
                            old(self)@.series[i as int].groups,
                            new_column@,
                        ),
                    },
                ),
                ..old(self)@
            }),
    {
        let ghost before = self@.series;
        let ghost oldgroups = before[i as int].groups;
        proof {
            assert(series_table_view(self.series@)[i as int] == self.series@[i as int]@);
        }
        let mut entry = self.series.remove(i);
        let sid = entry.sid;
        let mut g: usize = 0;
        let n = entry.groups.len();
        while g < n
            invariant
                g <= oldgroups.len(),
                n == oldgroups.len(),
                entry.sid == before[i as int].sid,
                groups_view(entry.groups@).len() == oldgroups.len(),
                forall|j: int|
                    g <= j < oldgroups.len() ==> (#[trigger] groups_view(entry.groups@)[j])
                        == oldgroups[j],
                forall|j: int|
                    0 <= j < g ==> (#[trigger] groups_view(entry.groups@)[j])
                        == spec_add_col_group(oldgroups[j], new_column@),
            decreases n - g,
        {
            proof {
                assert(groups_view(entry.groups@)[g as int] == entry.groups@[g as int]@);
            }
            let ghost gb = groups_view(entry.groups@);
            let mut grp = entry.groups.remove(g);
            group_add_column(&mut grp, new_column);
            entry.groups.insert(g, grp);
            proof {
                assert(groups_view(entry.groups@) =~= gb.update(
                    g as int,
                    spec_add_col_group(oldgroups[g as int], new_column@),
                ));
            }
            g = g + 1;
        }
        self.series.insert(i, entry);
        proof {
            assert(groups_view(self.series@[i as int].groups@) =~= spec_add_col_groups(
                oldgroups,
                new_column@,
            ));
            assert(series_table_view(self.series@) =~= before.update(
                i as int,
                SeriesEntryV {
                    sid: before[i as int].sid,
                    groups: spec_add_col_groups(oldgroups, new_column@),
                },
            ));
        }
    }

    /// Adds a column to every buffered group of the named series.
    pub fn add_column(&mut self, sids: &Vec<u32>, new_column: &TableColumn)
        requires
            old(self).wf(),
        ensures
            final(self).wf(),
            final(self)@ == (MemCacheV { series: final(self)@.series, ..old(self)@ }),
            final(self)@.series.len() == old(self)@.series.len(),
            forall|i: int|
                0 <= i < old(self)@.series.len() ==> (#[trigger] final(self)@.series[i]) == (
                if sids@.contains(old(self)@.series[i].sid) {
                    SeriesEntryV {
                        sid: old(self)@.series[i].sid,
                        groups: spec_add_col_groups(old(self)@.series[i].groups, new_column@),
                    }
                } else {
                    old(self)@.series[i]
                }),
            final(self)@ == spec_add_column_mc(old(self)@, sids@, new_column@),
    {
        let ghost oldseries = self@.series;
        let mut i: usize = 0;
        let n = self.series.len();
        while i < n
            invariant
                i <= oldseries.len(),
                n == oldseries.len(),
                oldseries == old(self)@.series,
                self@ == (MemCacheV { series: series_table_view(self.series@), ..old(self)@ }),
                series_table_view(self.series@).len() == oldseries.len(),
                forall|j: int|
                    i <= j < oldseries.len() ==> (#[trigger] series_table_view(self.series@)[j])
                        == oldseries[j],
                forall|j: int|
                    0 <= j < i ==> (#[trigger] series_table_view(self.series@)[j]) == (
                    if sids@.contains(oldseries[j].sid) {
                        SeriesEntryV {
                            sid: oldseries[j].sid,
                            groups: spec_add_col_groups(oldseries[j].groups, new_column@),
                        }
                    } else {
                        oldseries[j]
                    }),
            decreases n - i,
        {
            proof {
                assert(series_table_view(self.series@)[i as int] == self.series@[i as int]@);
            }
            if contains_u32(sids, self.series[i].sid) {
                self.mutate_entry_groups_add(i, new_column);
            }
            i = i + 1;
        }
        proof {
            assert forall|a: int, b: int|
                0 <= a < b < series_table_view(self.series@).len() implies (
            #[trigger] series_table_view(self.series@)[a]).sid != (#[trigger] series_table_view(
                self.series@,
            )[b]).sid by {
                assert(series_table_view(self.series@)[a].sid == oldseries[a].sid);
                assert(series_table_view(self.series@)[b].sid == oldseries[b].sid);
            }
            assert(series_table_view(self.series@) =~= spec_add_column_mc(
                old(self)@,
                sids@,
                new_column@,
            ).series);
        }
    }

    /// Replaces the named column in every buffered group of the named
    /// series.
    pub fn change_column(&mut self, sids: &Vec<u32>, column_name: &String, new_column: &TableColumn)
        requires
            old(self).wf(),
        ensures
            final(self).wf(),
            final(self)@ == (MemCacheV { series: final(self)@.series, ..old(self)@ }),
            final(self)@.series.len() == old(self)@.series.len(),
            forall|i: int|
                0 <= i < old(self)@.series.len() ==> (#[trigger] final(self)@.series[i]) == (
                if sids@.contains(old(self)@.series[i].sid) {
                    SeriesEntryV {
                        sid: old(self)@.series[i].sid,
                        groups: spec_change_col_groups(
                            old(self)@.series[i].groups,
                            column_name@,
                            new_column@,
                        ),
                    }
                } else {
                    old(self)@.series[i]
                }),
            final(self)@ == spec_change_column_mc(old(self)@, sids@, column_name@, new_column@),
    {
        let ghost oldseries = self@.series;
        let mut i: usize = 0;
        let n = self.series.len();
        while i < n
            invariant
                i <= oldseries.len(),
                n == oldseries.len(),
                oldseries == old(self)@.series,
                self@ == (MemCacheV { series: series_table_view(self.series@), ..old(self)@ }),
                series_table_view(self.series@).len() == oldseries.len(),
                forall|j: int|
                    i <= j < oldseries.len() ==> (#[trigger] series_table_view(self.series@)[j])
                        == oldseries[j],
                forall|j: int|
                    0 <= j < i ==> (#[trigger] series_table_view(self.series@)[j]) == (
                    if sids@.contains(oldseries[j].sid) {
                        SeriesEntryV {
                            sid: oldseries[j].sid,
                            groups: spec_change_col_groups(
                                oldseries[j].groups,
                                column_name@,
                                new_column@,
                            ),
                        }
                    } else {
                        oldseries[j]
                    }),
            decreases n - i,
        {
            proof {
                assert(series_table_view(self.series@)[i as int] == self.series@[i as int]@);
            }
            if contains_u32(sids, self.series[i].sid) {
                let ghost before = series_table_view(self.series@);
                let ghost oldgroups = before[i as int].groups;
                let mut entry = self.series.remove(i);
                let mut g: usize = 0;
                let gn = entry.groups.len();
                while g < gn
                    invariant
                        g <= oldgroups.len(),
                        gn == oldgroups.len(),
                        entry.sid == before[i as int].sid,
                        groups_view(entry.groups@).len() == oldgroups.len(),
                        forall|j: int|
                            g <= j < oldgroups.len() ==> (#[trigger] groups_view(entry.groups@)[j])
                                == oldgroups[j],
                        forall|j: int|
                            0 <= j < g ==> (#[trigger] groups_view(entry.groups@)[j])
                                == spec_change_col_group(
                                oldgroups[j],
                                column_name@,
                                new_column@,
                            ),
                    decreases gn - g,
                {
                    proof {
                        assert(groups_view(entry.groups@)[g as int] == entry.groups@[g as int]@);
                    }
                    let ghost gb = groups_view(entry.groups@);
                    let mut grp = entry.groups.remove(g);
                    group_change_column(&mut grp, column_name, new_column);
                    entry.groups.insert(g, grp);
                    proof {
                        assert(groups_view(entry.groups@) =~= gb.update(
                            g as int,
                            spec_change_col_group(oldgroups[g as int], column_name@, new_column@),
                        ));
                    }
                    g = g + 1;
                }
                self.series.insert(i, entry);
                proof {
                    assert(groups_view(self.series@[i as int].groups@) =~= spec_change_col_groups(
                        oldgroups,
                        column_name@,
                        new_column@,
                    ));
                    assert(series_table_view(self.series@) =~= before.update(
                        i as int,
                        SeriesEntryV {
                            sid: before[i as int].sid,
                            groups: spec_change_col_groups(oldgroups, column_name@, new_column@),
                        },
                    ));
                }
            }
            i = i + 1;
        }
        proof {
            assert forall|a: int, b: int|
                0 <= a < b < series_table_view(self.series@).len() implies (
            #[trigger] series_table_view(self.series@)[a]).sid != (#[trigger] series_table_view(
                self.series@,
            )[b]).sid by {
                assert(series_table_view(self.series@)[a].sid == oldseries[a].sid);
                assert(series_table_view(self.series@)[b].sid == oldseries[b].sid);
            }
            assert(series_table_view(self.series@) =~= spec_change_column_mc(
                old(self)@,
                sids@,
                column_name@,
                new_column@,
            ).series);
        }
    }

    /// Drops the columns the composite field ids name, in every buffered
    /// group of every series they target.
    pub fn delete_columns(&mut self, field_ids: &Vec<u64>)
        requires
            old(self).wf(),
            forall|i: int|
                0 <= i < old(self)@.series.len() ==> all_groups_wf(
                    (#[trigger] old(self)@.series[i]).groups,
                ),
        ensures
            final(self).wf(),
            final(self)@ == (MemCacheV { series: final(self)@.series, ..old(self)@ }),
            final(self)@.series.len() == old(self)@.series.len(),
            forall|i: int|
                0 <= i < old(self)@.series.len() ==> (#[trigger] final(self)@.series[i])
                    == (SeriesEntryV {
                    sid: old(self)@.series[i].sid,
                    groups: spec_delete_cols_groups(
                        old(self)@.series[i].groups,
                        old(self)@.series[i].sid,
                        field_ids@,
                    ),
                }),
            final(self)@ == spec_delete_columns_mc(old(self)@, field_ids@),
    {
        let ghost oldseries = self@.series;
        let mut i: usize = 0;
        let n = self.series.len();
        while i < n
            invariant
                i <= oldseries.len(),
                n == oldseries.len(),
                oldseries == old(self)@.series,
                forall|j: int| 0 <= j < oldseries.len() ==> all_groups_wf((#[trigger] oldseries[j]).groups),
                self@ == (MemCacheV { series: series_table_view(self.series@), ..old(self)@ }),
                series_table_view(self.series@).len() == oldseries.len(),
                forall|j: int|
                    i <= j < oldseries.len() ==> (#[trigger] series_table_view(self.series@)[j])
                        == oldseries[j],
                forall|j: int|
                    0 <= j < i ==> (#[trigger] series_table_view(self.series@)[j])
                        == (SeriesEntryV {
                        sid: oldseries[j].sid,
                        groups: spec_delete_cols_groups(
                            oldseries[j].groups,
                            oldseries[j].sid,
                            field_ids@,
                        ),
                    }),
            decreases n - i,
        {
            proof {
                assert(series_table_view(self.series@)[i as int] == self.series@[i as int]@);
            }
            let ghost before = series_table_view(self.series@);
            let ghost oldgroups = before[i as int].groups;
            proof {
                assert(all_groups_wf(oldseries[i as int].groups));
                assert(oldgroups == oldseries[i as int].groups);
            }
            let mut entry = self.series.remove(i);
            let sid = entry.sid;
            let mut g: usize = 0;
            let gn = entry.groups.len();
            while g < gn
                invariant
                    g <= oldgroups.len(),
                    gn == oldgroups.len(),
                    entry.sid == before[i as int].sid,
                    sid == before[i as int].sid,
                    all_groups_wf(oldgroups),
                    groups_view(entry.groups@).len() == oldgroups.len(),
                    forall|j: int|
                        g <= j < oldgroups.len() ==> (#[trigger] groups_view(entry.groups@)[j])
                            == oldgroups[j],
                    forall|j: int|
                        0 <= j < g ==> (#[trigger] groups_view(entry.groups@)[j])
                            == spec_delete_cols_group(oldgroups[j], sid, field_ids@),
                decreases gn - g,
            {
                proof {
                    assert(groups_view(entry.groups@)[g as int] == entry.groups@[g as int]@);
                }
                let ghost gb = groups_view(entry.groups@);
                let mut grp = entry.groups.remove(g);
                proof {
                    assert(rows_cols_aligned(oldgroups[g as int]));
                    assert(grp.wf());
                }
                group_delete_columns(&mut grp, sid, field_ids);
                entry.groups.insert(g, grp);
                proof {
                    assert(groups_view(entry.groups@) =~= gb.update(
                        g as int,
                        spec_delete_cols_group(oldgroups[g as int], sid, field_ids@),
                    ));
                }
                g = g + 1;
            }
            proof {
                assert(groups_view(entry.groups@) =~= spec_delete_cols_groups(
                    oldgroups,
                    sid,
                    field_ids@,
                ));
            }
            self.series.insert(i, entry);
            proof {
                assert(series_table_view(self.series@) =~= before.update(
                    i as int,
                    SeriesEntryV {
                        sid: before[i as int].sid,
                        groups: spec_delete_cols_groups(oldgroups, sid, field_ids@),
                    },
                ));
            }
            i = i + 1;
        }
        proof {
            assert forall|a: int, b: int|
                0 <= a < b < series_table_view(self.series@).len() implies (
            #[trigger] series_table_view(self.series@)[a]).sid != (#[trigger] series_table_view(
                self.series@,
            )[b]).sid by {
                assert(series_table_view(self.series@)[a].sid == oldseries[a].sid);
                assert(series_table_view(self.series@)[b].sid == oldseries[b].sid);
            }
            assert(series_table_view(self.series@) =~= spec_delete_columns_mc(
                old(self)@,
                field_ids@,
            ).series);
        }
    }
}

/// Every group in the list keeps rows and columns in step.
pub open spec fn all_groups_wf(gs: Seq<RowGroupV>) -> bool {
    forall|i: int| 0 <= i < gs.len() ==> rows_cols_aligned(#[trigger] gs[i])
}

/// A group keeps one slot per column in every row.
pub open spec fn rows_cols_aligned(g: RowGroupV) -> bool {
    forall|i: int| 0 <= i < g.rows.len() ==> (#[trigger] g.rows[i]).fields.len() == g.schema.columns.len()
}


/// The surviving slots are in step with the surviving columns.
proof fn lemma_filter_fields_len(
    fields: Seq<Option<FieldValV>>,
    cols: Seq<TableColumnV>,
    sid: u32,
    fids: Seq<u64>,
)
    requires
        fields.len() == cols.len(),
    ensures
        spec_filter_fields(fields, cols, sid, fids).len() == spec_filter_cols(
            cols,
            sid,
            fids,
        ).len(),
    decreases cols.len(),
{
    reveal(Seq::filter);
    if cols.len() > 0 {
        lemma_filter_fields_len(fields.drop_last(), cols.drop_last(), sid, fids);
    }
}

/// One step of the column-and-slot filter over a prefix.
proof fn lemma_filter_fields_take_step(
    fields: Seq<Option<FieldValV>>,
    cols: Seq<TableColumnV>,
    sid: u32,
    fids: Seq<u64>,
    j: int,
)
    requires
        0 <= j < cols.len(),
        fields.len() == cols.len(),
    ensures
        !col_targeted(cols[j], sid, fids) ==> spec_filter_fields(
            fields.take(j + 1),
            cols.take(j + 1),
            sid,
            fids,
        ) == spec_filter_fields(fields.take(j), cols.take(j), sid, fids).push(fields[j]),
        col_targeted(cols[j], sid, fids) ==> spec_filter_fields(
            fields.take(j + 1),
            cols.take(j + 1),
            sid,
            fids,
        ) == spec_filter_fields(fields.take(j), cols.take(j), sid, fids),
{
    assert(fields.take(j + 1).drop_last() =~= fields.take(j));
    assert(cols.take(j + 1).drop_last() =~= cols.take(j));
    assert(fields.take(j + 1).last() == fields[j]);
    assert(cols.take(j + 1).last() == cols[j]);
}

/// Drops the targeted columns of one group: schema and every row in step.
fn group_delete_columns(g: &mut RowGroup, sid: u32, fids: &Vec<u64>)
    requires
        old(g).wf(),
    ensures
        final(g)@ == spec_delete_cols_group(old(g)@, sid, fids@),
        final(g).wf(),
{
    let ghost oldg = g@;
    let ghost oldcols = columns_view(g.schema.columns@);
    let ghost pk = |c: TableColumnV| !col_targeted(c, sid, fids@);
    let mut keep: Vec<bool> = Vec::new();
    let mut newcols: Vec<TableColumn> = Vec::new();
    let mut i: usize = 0;
    while i < g.schema.columns.len()
        invariant
            i <= oldcols.len(),
            g == old(g),
            oldcols == columns_view(g.schema.columns@),
            pk == (|c: TableColumnV| !col_targeted(c, sid, fids@)),
            keep@.len() == i,
            forall|j: int| 0 <= j < i ==> keep@[j] == !col_targeted(oldcols[j], sid, fids@),
            columns_view(newcols@) =~= oldcols.take(i as int).filter(pk),
        decreases oldcols.len() - i,
    {
        proof {
            assert(columns_view(g.schema.columns@)[i as int] == g.schema.columns@[i as int]@);
            crate::version::lemma_filter_take_step(oldcols, pk, i as int);
        }
        let c = &g.schema.columns[i];
        let targeted = contains_u64(fids, crate::schema::unite_field_id(c.id, sid));
        keep.push(!targeted);
        if !targeted {
            let ghost cb = columns_view(newcols@);
            let cc = c.clone();
            let ghost cv = cc@;
            newcols.push(cc);
            proof {
                assert(columns_view(newcols@) =~= cb.push(cv));
            }
        }
        i = i + 1;
    }
    proof {
        assert(oldcols.take(oldcols.len() as int) =~= oldcols);
        assert(columns_view(newcols@) =~= spec_filter_cols(oldcols, sid, fids@));
    }
    let ghost oldrows = rows_view(g.rows@);
    let mut newrows: Vec<RowData> = Vec::new();
    let mut r: usize = 0;
    while r < g.rows.len()
        invariant
            r <= oldrows.len(),
            g == old(g),
            old(g).wf(),
            oldrows == rows_view(g.rows@),
            oldcols == columns_view(g.schema.columns@),
            keep@.len() == oldcols.len(),
            forall|j: int| 0 <= j < oldcols.len() ==> keep@[j] == !col_targeted(oldcols[j], sid, fids@),
            rows_view(newrows@) =~= oldrows.take(r as int).map_values(
                |row: RowDataV| RowDataV {
                    ts: row.ts,
                    fields: spec_filter_fields(row.fields, oldcols, sid, fids@),
                },
            ),
        decreases oldrows.len() - r,
    {
        proof {
            assert(rows_view(g.rows@)[r as int] == g.rows@[r as int]@);
            assert(oldrows[r as int] == old(g)@.rows[r as int]);
            assert(old(g)@.rows[r as int].fields.len() == old(g)@.schema.columns.len());
            assert(oldrows[r as int].fields.len() == oldcols.len());
        }
        let row = &g.rows[r];
        let ghost oldfields = fields_view(row.fields@);
        let mut newfields: Vec<Option<FieldVal>> = Vec::new();
        let mut j: usize = 0;
        while j < row.fields.len()
            invariant
                j <= oldcols.len(),
                oldfields == fields_view(row.fields@),
                row.fields@.len() == oldcols.len(),
                oldfields.len() == oldcols.len(),
                keep@.len() == oldcols.len(),
                forall|j0: int|
                    0 <= j0 < oldcols.len() ==> keep@[j0] == !col_targeted(
                        oldcols[j0],
                        sid,
                        fids@,
                    ),
                fields_view(newfields@) =~= spec_filter_fields(
                    oldfields.take(j as int),
                    oldcols.take(j as int),
                    sid,
                    fids@,
                ),
            decreases oldcols.len() - j,
        {
            proof {
                assert(fields_view(row.fields@)[j as int] == opt_field_view(
                    row.fields@[j as int],
                ));
                lemma_filter_fields_take_step(oldfields, oldcols, sid, fids@, j as int);
            }
            if keep[j] {
                let ghost fb = fields_view(newfields@);
                let slot = clone_slot(&row.fields[j]);
                let ghost sv = opt_field_view(slot);
                newfields.push(slot);
                proof {
                    assert(fields_view(newfields@) =~= fb.push(sv));
                }
            }
            j = j + 1;
        }
        proof {
            assert(oldfields.take(oldfields.len() as int) =~= oldfields);
            assert(oldcols.take(oldcols.len() as int) =~= oldcols);
        }
        let ghost rb = rows_view(newrows@);
        let newrow = RowData { ts: row.ts, fields: newfields };
        let ghost nrv = newrow@;
        newrows.push(newrow);
        proof {
            assert(rows_view(newrows@) =~= rb.push(nrv));
            assert(nrv == (RowDataV {
                ts: oldrows[r as int].ts,
                fields: spec_filter_fields(oldrows[r as int].fields, oldcols, sid, fids@),
            }));
            assert(rows_view(newrows@) =~= oldrows.take(r as int + 1).map_values(
                |row0: RowDataV| RowDataV {
                    ts: row0.ts,
                    fields: spec_filter_fields(row0.fields, oldcols, sid, fids@),
                },
            ));
        }
        r = r + 1;
    }
    proof {
        assert(oldrows.take(oldrows.len() as int) =~= oldrows);
    }
    g.schema.columns = newcols;
    g.rows = newrows;
    proof {
        assert(g@ == spec_delete_cols_group(oldg, sid, fids@));
        assert forall|i0: int| 0 <= i0 < g@.rows.len() implies (#[trigger] g@.rows[i0]).fields.len()
            == g@.schema.columns.len() by {
            assert(g@.rows[i0].fields == spec_filter_fields(oldrows[i0].fields, oldcols, sid, fids@));
            lemma_filter_fields_len(oldrows[i0].fields, oldcols, sid, fids@);
        }
    }
}

/// Membership scan over a field-id list.
fn contains_u64(v: &Vec<u64>, x: u64) -> (r: bool)
    ensures
        r == v@.contains(x),
{
    let mut i: usize = 0;
    while i < v.len()
        invariant
            i <= v@.len(),
            forall|j: int| 0 <= j < i ==> v@[j] != x,
        decreases v@.len() - i,
    {
        if v[i] == x {
            return true;
        }
        i = i + 1;
    }
    proof {
        if v@.contains(x) {
            let j = choose|j: int| 0 <= j < v@.len() && v@[j] == x;
            assert(false);
        }
    }
    false
}

/// Membership scan over a plain id list.
fn contains_u32(v: &Vec<u32>, x: u32) -> (r: bool)
    ensures
        r == v@.contains(x),
{
    let mut i: usize = 0;
    while i < v.len()
        invariant
            i <= v@.len(),
            forall|j: int| 0 <= j < i ==> v@[j] != x,
        decreases v@.len() - i,
    {
        if v[i] == x {
            return true;
        }
        i = i + 1;
    }
    proof {
        if v@.contains(x) {
            let j = choose|j: int| 0 <= j < v@.len() && v@[j] == x;
            assert(false);
        }
    }
    false
}

/// The rows of a group list, in order.
pub open spec fn spec_groups_rows(groups: Seq<RowGroupV>) -> Seq<RowDataV>
    decreases groups.len(),
{
    if groups.len() == 0 {
        Seq::<RowDataV>::empty()
    } else {
        spec_groups_rows(groups.drop_last()) + groups.last().rows
    }
}

/// The buffered rows of one series.
pub open spec fn spec_series_rows(series: Seq<SeriesEntryV>, sid: u32) -> Seq<RowDataV> {
    if has_sid(series, sid) {
        spec_groups_rows(series[find_sid(series, sid)].groups)
    } else {
        Seq::<RowDataV>::empty()
    }
}

/// One group after dropping the rows inside `range`.
pub open spec fn spec_delete_rows_group(g: RowGroupV, range: TimeRange) -> RowGroupV {
    RowGroupV {
        rows: g.rows.filter(|r: RowDataV| !(range.min_ts <= r.ts && r.ts <= range.max_ts)),
        ..g
    }
}

/// A group list after dropping the rows inside `range`.
pub open spec fn spec_delete_rows_groups(groups: Seq<RowGroupV>, range: TimeRange) -> Seq<
    RowGroupV,
> {
    groups.map_values(|g: RowGroupV| spec_delete_rows_group(g, range))
}

/// The whole-buffer value after `write_group`.
pub open spec fn spec_write_mc(m: MemCacheV, sid: u32, seq: u64, g: RowGroupV) -> MemCacheV {
    MemCacheV {
        cache_size: spec_sat_add(m.cache_size, g.size),
        max_seq: if seq > m.max_seq {
            seq
        } else {
            m.max_seq
        },
        series: if has_sid(m.series, sid) {
            m.series.update(
                find_sid(m.series, sid),
                SeriesEntryV { sid, groups: m.series[find_sid(m.series, sid)].groups.push(g) },
            )
        } else {
            m.series.push(SeriesEntryV { sid, groups: seq![g] })
        },
        ..m
    }
}

/// The whole-buffer value after `delete_series`.
pub open spec fn spec_delete_series_mc(m: MemCacheV, sids: Seq<u32>, range: TimeRange)
    -> MemCacheV {
    MemCacheV {
        series: m.series.map_values(
            |e: SeriesEntryV|
                if sids.contains(e.sid) {
                    SeriesEntryV { sid: e.sid, groups: spec_delete_rows_groups(e.groups, range) }
                } else {
                    e
                },
        ),
        ..m
    }
}

/// The whole-buffer value after `add_column`.
pub open spec fn spec_add_column_mc(m: MemCacheV, sids: Seq<u32>, c: TableColumnV) -> MemCacheV {
    MemCacheV {
        series: m.series.map_values(
            |e: SeriesEntryV|
                if sids.contains(e.sid) {
                    SeriesEntryV { sid: e.sid, groups: spec_add_col_groups(e.groups, c) }
                } else {
                    e
                },
        ),
        ..m
    }
}

/// The whole-buffer value after `change_column`.
pub open spec fn spec_change_column_mc(
    m: MemCacheV,
    sids: Seq<u32>,
    name: Seq<char>,
    c: TableColumnV,
) -> MemCacheV {
    MemCacheV {
        series: m.series.map_values(
            |e: SeriesEntryV|
                if sids.contains(e.sid) {
                    SeriesEntryV { sid: e.sid, groups: spec_change_col_groups(e.groups, name, c) }
                } else {
                    e
                },
        ),
        ..m
    }
}

/// The whole-buffer value after `delete_columns`.
pub open spec fn spec_delete_columns_mc(m: MemCacheV, fids: Seq<u64>) -> MemCacheV {
    MemCacheV {
        series: m.series.map_values(
            |e: SeriesEntryV|
                SeriesEntryV {
                    sid: e.sid,
                    groups: spec_delete_cols_groups(e.groups, e.sid, fids),
                },
        ),
        ..m
    }
}

} // verus!
