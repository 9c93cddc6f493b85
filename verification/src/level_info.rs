//! One level of a vnode's leveled file set: files kept sorted strictly
//! ascending by file id, with the aggregate size and time bounds maintained
//! on every mutation.

use vstd::prelude::*;
use vstd::seq_lib::lemma_multiset_commutative;
use vstd::multiset::Multiset;
use crate::column_file::{spec_file_of_meta, ColumnFile, ColumnFileV};
use crate::bloom::empty_bloom;
use crate::options::{
    make_delta_file_name, make_tsm_file_name, spec_delta_dir, spec_delta_file_name,
    spec_level_file_size, spec_tsm_dir, spec_tsm_file_name, StorageOptions, StorageOptionsV,
};
use crate::summary::CompactMeta;
use crate::timerange::TimeRange;

verus! {

/// The file sequence of a level: strictly ascending by file id.
pub open spec fn files_sorted(files: Seq<ColumnFileV>) -> bool {
    forall|i: int, j: int|
        0 <= i < j < files.len() ==> #[trigger] files[i].file_id < #[trigger] files[j].file_id
}

/// The sum of the file sizes.
pub open spec fn sum_sizes(files: Seq<ColumnFileV>) -> int
    decreases files.len(),
{
    if files.len() == 0 {
        0
    } else {
        sum_sizes(files.drop_last()) + files.last().size
    }
}

/// `tr` is the expanding union of the file ranges: its bounds are attained
/// by some file and bound every file; an empty level carries the sentinel.
pub open spec fn is_merged_range(files: Seq<ColumnFileV>, tr: TimeRange) -> bool {
    if files.len() == 0 {
        tr == TimeRange::spec_none()
    } else {
        (exists|i: int| 0 <= i < files.len() && (#[trigger] files[i]).time_range.min_ts == tr.min_ts)
            && (exists|i: int|
            0 <= i < files.len() && (#[trigger] files[i]).time_range.max_ts == tr.max_ts)
            && (forall|i: int|
            0 <= i < files.len() ==> tr.min_ts <= (#[trigger] files[i]).time_range.min_ts)
            && (forall|i: int|
            0 <= i < files.len() ==> (#[trigger] files[i]).time_range.max_ts <= tr.max_ts)
    }
}

/// The mathematical value of a `LevelInfo`.
pub ghost struct LevelInfoV {
    pub files: Seq<ColumnFileV>,
    pub database: Seq<char>,
    pub tsf_id: u32,
    pub storage: StorageOptionsV,
    pub level: u32,
    pub cur_size: u64,
    pub max_size: u64,
    pub time_range: TimeRange,
}

impl LevelInfoV {
    /// The level's invariant: files sorted strictly by id and belonging to
    /// this level, the aggregate size equal to the sum of the file sizes,
    /// and the time bounds equal to the union of the file ranges.
    pub open spec fn wf(self) -> bool {
        &&& files_sorted(self.files)
        &&& sum_sizes(self.files) == self.cur_size
        &&& is_merged_range(self.files, self.time_range)
        &&& forall|i: int| 0 <= i < self.files.len() ==> (#[trigger] self.files[i]).wf()
        &&& forall|i: int| 0 <= i < self.files.len() ==> (#[trigger] self.files[i]).level == self.level
    }

    /// Whether some file in the level carries `file_id`.
    pub open spec fn has_file_id(self, file_id: u64) -> bool {
        exists|i: int| 0 <= i < self.files.len() && (#[trigger] self.files[i]).file_id == file_id
    }
}

/// An ordered collection of column files of one level.
#[derive(Debug)]
pub struct LevelInfo {
    pub files: Vec<ColumnFile>,
    pub database: String,
    pub tsf_id: u32,
    pub storage_opt: StorageOptions,
    pub level: u32,
    pub cur_size: u64,
    pub max_size: u64,
    pub time_range: TimeRange,
}

/// The values of a file vector.
pub open spec fn files_view(files: Seq<ColumnFile>) -> Seq<ColumnFileV> {
    files.map_values(|f: ColumnFile| f@)
}

impl View for LevelInfo {
    type V = LevelInfoV;

    open spec fn view(&self) -> LevelInfoV {
        LevelInfoV {
            files: files_view(self.files@),
            database: self.database@,
            tsf_id: self.tsf_id,
            storage: self.storage_opt@,
            level: self.level,
            cur_size: self.cur_size,
            max_size: self.max_size,
            time_range: self.time_range,
        }
    }
}

impl LevelInfo {
    pub open spec fn wf(self) -> bool {
        self@.wf()
    }

    /// An empty level with its size budget taken from the storage options.
    pub fn init(database: String, level: u32, tsf_id: u32, storage_opt: StorageOptions) -> (r:
        Self)
        ensures
            r.wf(),
            r@ == (LevelInfoV {
                files: Seq::<ColumnFileV>::empty(),
                database: database@,
                tsf_id,
                storage: storage_opt@,
                level,
                cur_size: 0,
                max_size: spec_level_file_size(storage_opt.base_file_size, level),
                time_range: TimeRange::spec_none(),
            }),
    {
        let max_size = storage_opt.level_file_size(level);
        let r = Self {
            files: Vec::new(),
            database,
            tsf_id,
            storage_opt,
            level,
            cur_size: 0,
            max_size,
            time_range: TimeRange::none(),
        };
        proof {
            assert(files_view(r.files@) =~= Seq::<ColumnFileV>::empty());
        }
        r
    }

    /// The five empty levels of a fresh vnode.
    pub fn init_levels(database: String, tsf_id: u32, storage_opt: StorageOptions) -> (r: Vec<
        LevelInfo,
    >)
        ensures
            r@.len() == 5,
            forall|l: int|
                0 <= l < 5 ==> (#[trigger] r@[l])@ == (LevelInfoV {
                    files: Seq::<ColumnFileV>::empty(),
                    database: database@,
                    tsf_id,
                    storage: storage_opt@,
                    level: l as u32,
                    cur_size: 0,
                    max_size: spec_level_file_size(storage_opt.base_file_size, l as u32),
                    time_range: TimeRange::spec_none(),
                }),
            forall|l: int| 0 <= l < 5 ==> (#[trigger] r@[l]).wf(),
    {
        let mut levels: Vec<LevelInfo> = Vec::new();
        levels.push(Self::init(database.clone(), 0, tsf_id, storage_opt.clone()));
        levels.push(Self::init(database.clone(), 1, tsf_id, storage_opt.clone()));
        levels.push(Self::init(database.clone(), 2, tsf_id, storage_opt.clone()));
        levels.push(Self::init(database.clone(), 3, tsf_id, storage_opt.clone()));
        levels.push(Self::init(database, 4, tsf_id, storage_opt));
        levels
    }

    /// Appends a file, grows the aggregate size, widens the time bounds, and
    /// keeps the files sorted by id.
    pub fn push_column_file(&mut self, file: ColumnFile)
        requires
            old(self).wf(),
            file.wf(),
            file@.level == old(self)@.level,
            !old(self)@.has_file_id(file@.file_id),
            old(self)@.cur_size + file@.size <= u64::MAX,
        ensures
            final(self).wf(),
            final(self)@.files.to_multiset() == old(self)@.files.to_multiset().insert(file@),
            final(self)@ == (LevelInfoV {
                files: final(self)@.files,
                cur_size: (old(self)@.cur_size + file@.size) as u64,
                time_range: old(self)@.time_range.spec_merge(file@.time_range),
                ..old(self)@
            }),
    {
        let ghost oldv = self@;
        let ghost fv = file@;
        let mut idx: usize = 0;
        while idx < self.files.len() && self.files[idx].file_id < file.file_id
            invariant
                idx <= self.files@.len(),
                self == old(self),
                forall|j: int|
                    0 <= j < idx ==> (#[trigger] files_view(self.files@)[j]).file_id < fv.file_id,
                fv == file@,
            decreases self.files@.len() - idx,
        {
            proof {
                assert(files_view(self.files@)[idx as int] == self.files@[idx as int]@);
            }
            idx = idx + 1;
        }
        proof {
            // Every file at or after the insertion point has a greater id.
            assert forall|j: int| idx <= j < oldv.files.len() implies fv.file_id < (
            #[trigger] oldv.files[j]).file_id by {
                if idx < oldv.files.len() {
                    assert(oldv.files[idx as int] == self.files@[idx as int]@);
                    assert(!(oldv.files[idx as int].file_id < fv.file_id));
                    assert(oldv.files[idx as int].file_id != fv.file_id);
                }
            }
        }
        self.cur_size = self.cur_size + file.size;
        self.time_range.merge(&file.time_range);
        self.files.insert(idx, file);
        proof {
            assert(files_view(self.files@) =~= oldv.files.insert(idx as int, fv));
            lemma_insert_files_multiset(oldv.files, idx as int, fv);
            lemma_sum_sizes_insert(oldv.files, idx as int, fv);
            lemma_merged_range_insert(oldv.files, idx as int, fv, oldv.time_range);
        }
    }

    /// Constructs the file a `CompactMeta` announces (a delta file under the
    /// delta directory, a main-level file under the tsm directory), installs
    /// it, takes over the vnode id of the meta, and updates the bounds.
    pub fn push_compact_meta(&mut self, compact_meta: &CompactMeta)
        requires
            old(self).wf(),
            compact_meta.level == old(self)@.level,
            !old(self)@.has_file_id(compact_meta.file_id),
            old(self)@.cur_size + compact_meta.file_size <= u64::MAX,
        ensures
            final(self).wf(),
            final(self)@.files.to_multiset() == old(self)@.files.to_multiset().insert(
                spec_meta_file(*compact_meta, old(self)@),
            ),
            final(self)@ == (LevelInfoV {
                files: final(self)@.files,
                tsf_id: compact_meta.tsf_id,
                cur_size: (old(self)@.cur_size + compact_meta.file_size) as u64,
                time_range: old(self)@.time_range.spec_merge(
                    TimeRange { min_ts: compact_meta.min_ts, max_ts: compact_meta.max_ts },
                ),
                ..old(self)@
            }),
    {
        let file_path: String = if compact_meta.is_delta {
            let base_dir = self.storage_opt.delta_dir(self.database.as_str(), self.tsf_id);
            make_delta_file_name(base_dir.as_str(), compact_meta.file_id)
        } else {
            let base_dir = self.storage_opt.tsm_dir(self.database.as_str(), self.tsf_id);
            make_tsm_file_name(base_dir.as_str(), compact_meta.file_id)
        };
        let file = ColumnFile::with_compact_data(compact_meta, file_path);
        self.push_column_file(file);
        self.tsf_id = compact_meta.tsf_id;
    }

    /// Builds fresh levels and installs every announced file in its level.
    pub fn with_compact_metas(
        database: String,
        vnode_id: u32,
        storage_opt: StorageOptions,
        compact_metas: &Vec<CompactMeta>,
    ) -> (r: Vec<LevelInfo>)
        requires
            forall|i: int|
                0 <= i < compact_metas@.len() ==> (#[trigger] compact_metas@[i]).level < 5,
            forall|i: int, j: int|
                0 <= i < j < compact_metas@.len() ==> (#[trigger] compact_metas@[i]).file_id != (
                #[trigger] compact_metas@[j]).file_id,
            sum_meta_sizes(compact_metas@) <= u64::MAX,
        ensures
            r@.len() == 5,
            forall|l: int| 0 <= l < 5 ==> (#[trigger] r@[l]).wf(),
            forall|l: int| 0 <= l < 5 ==> (#[trigger] r@[l])@.level == l as u32,
            forall|l: int, k: int|
                0 <= l < 5 && 0 <= k < r@[l]@.files.len() ==> (#[trigger] r@[l]@.files[k]).level
                    == l as u32,
    {
        let mut levels = Self::init_levels(database, vnode_id, storage_opt);
        let mut i: usize = 0;
        while i < compact_metas.len()
            invariant
                i <= compact_metas@.len(),
                levels@.len() == 5,
                forall|l: int| 0 <= l < 5 ==> (#[trigger] levels@[l]).wf(),
                forall|l: int| 0 <= l < 5 ==> (#[trigger] levels@[l])@.level == l as u32,
                forall|i0: int|
                    0 <= i0 < compact_metas@.len() ==> (#[trigger] compact_metas@[i0]).level < 5,
                forall|i0: int, j0: int|
                    0 <= i0 < j0 < compact_metas@.len() ==> (#[trigger] compact_metas@[i0]).file_id
                        != (#[trigger] compact_metas@[j0]).file_id,
                forall|l: int, k: int|
                    0 <= l < 5 && 0 <= k < levels@[l]@.files.len() ==> metas_prefix_has_id(
                        compact_metas@,
                        i as int,
                        (#[trigger] levels@[l]@.files[k]).file_id,
                    ),
                forall|l: int|
                    0 <= l < 5 ==> (#[trigger] levels@[l])@.cur_size
                        <= sum_meta_sizes_prefix(compact_metas@, i as int),
                sum_meta_sizes(compact_metas@) <= u64::MAX,
            decreases compact_metas@.len() - i,
        {
            let c = &compact_metas[i];
            let lvl = c.level as usize;
            proof {
                assert(compact_metas@[i as int].level < 5);
                lemma_sum_meta_sizes_prefix_step(compact_metas@, i as int);
                lemma_sum_meta_sizes_prefix_bound(compact_metas@, i + 1);
                assert(!levels@[lvl as int]@.has_file_id(c.file_id)) by {
                    if levels@[lvl as int]@.has_file_id(c.file_id) {
                        let k = choose|k: int|
                            0 <= k < levels@[lvl as int]@.files.len() && (
                            #[trigger] levels@[lvl as int]@.files[k]).file_id == c.file_id;
                        assert(metas_prefix_has_id(compact_metas@, i as int, c.file_id));
                        let i0 = choose|i0: int|
                            0 <= i0 < i && (#[trigger] compact_metas@[i0]).file_id == c.file_id;
                        assert(compact_metas@[i0].file_id != compact_metas@[i as int].file_id);
                    }
                }
            }
            let ghost old_levels = levels@;
            let ghost old_lv = levels@[lvl as int]@;
            let mut level_entry = levels.remove(lvl);
            level_entry.push_compact_meta(c);
            levels.insert(lvl, level_entry);
            proof {
                broadcast use vstd::seq_lib::group_to_multiset_ensures;
                broadcast use vstd::multiset::group_multiset_axioms;

                assert(levels@ =~= old_levels.update(lvl as int, levels@[lvl as int]));
                let newf = spec_meta_file(compact_metas@[i as int], old_lv);
                assert(newf.file_id == compact_metas@[i as int].file_id);
                assert forall|l: int, k: int|
                    0 <= l < 5 && 0 <= k < levels@[l]@.files.len() implies metas_prefix_has_id(
                    compact_metas@,
                    i as int + 1,
                    (#[trigger] levels@[l]@.files[k]).file_id,
                ) by {
                    let x = levels@[l]@.files[k];
                    if l == lvl as int {
                        assert(levels@[l]@.files.contains(x));
                        assert(levels@[l]@.files.to_multiset().count(x) > 0);
                        assert(levels@[l]@.files.to_multiset() == old_lv.files.to_multiset().insert(
                            newf,
                        ));
                        if x == newf {
                            assert(0 <= i < i + 1 && compact_metas@[i as int].file_id == x.file_id);
                        } else {
                            assert(old_lv.files.to_multiset().count(x) > 0);
                            assert(old_lv.files.contains(x));
                            let k0 = choose|k0: int|
                                0 <= k0 < old_lv.files.len() && old_lv.files[k0] == x;
                            assert(metas_prefix_has_id(compact_metas@, i as int, x.file_id));
                            let i0 = choose|i0: int|
                                0 <= i0 < i && (#[trigger] compact_metas@[i0]).file_id == x.file_id;
                            assert(0 <= i0 < i + 1);
                        }
                    } else {
                        assert(levels@[l] == old_levels[l]);
                        assert(metas_prefix_has_id(compact_metas@, i as int, x.file_id));
                        let i0 = choose|i0: int|
                            0 <= i0 < i && (#[trigger] compact_metas@[i0]).file_id == x.file_id;
                        assert(0 <= i0 < i + 1);
                    }
                }
            }
            i = i + 1;
        }
        levels
    }

    /// Recomputes the time bounds from the files now present; an empty level
    /// collapses to the sentinel.
    pub fn update_time_range(&mut self)
        ensures
            final(self)@ == (LevelInfoV { time_range: final(self)@.time_range, ..old(self)@ }),
            is_merged_range(final(self)@.files, final(self)@.time_range),
            old(self).wf() ==> final(self).wf(),
    {
        let mut min_ts: i64 = i64::MAX;
        let mut max_ts: i64 = i64::MIN;
        let mut i: usize = 0;
        while i < self.files.len()
            invariant
                i <= self.files@.len(),
                self == old(self),
                i > 0 ==> exists|k: int|
                    0 <= k < i && (#[trigger] files_view(self.files@)[k]).time_range.min_ts
                        == min_ts,
                i > 0 ==> exists|k: int|
                    0 <= k < i && (#[trigger] files_view(self.files@)[k]).time_range.max_ts
                        == max_ts,
                forall|k: int|
                    0 <= k < i ==> min_ts <= (#[trigger] files_view(self.files@)[k]).time_range.min_ts,
                forall|k: int|
                    0 <= k < i ==> (#[trigger] files_view(self.files@)[k]).time_range.max_ts
                        <= max_ts,
                i == 0 ==> min_ts == i64::MAX && max_ts == i64::MIN,
            decreases self.files@.len() - i,
        {
            proof {
                assert(files_view(self.files@)[i as int] == self.files@[i as int]@);
            }
            let ghost m0 = min_ts;
            let ghost x0 = max_ts;
            let f = &self.files[i];
            if f.time_range.min_ts < min_ts {
                min_ts = f.time_range.min_ts;
            }
            if f.time_range.max_ts > max_ts {
                max_ts = f.time_range.max_ts;
            }
            proof {
                let fv = files_view(self.files@)[i as int];
                if min_ts == fv.time_range.min_ts {
                    assert(exists|k: int|
                        0 <= k < i + 1 && (#[trigger] files_view(self.files@)[k]).time_range.min_ts
                            == min_ts);
                } else {
                    assert(min_ts == m0 && i > 0);
                }
                if max_ts == fv.time_range.max_ts {
                    assert(exists|k: int|
                        0 <= k < i + 1 && (#[trigger] files_view(self.files@)[k]).time_range.max_ts
                            == max_ts);
                } else {
                    assert(max_ts == x0 && i > 0);
                }
            }
            i = i + 1;
        }
        self.time_range = TimeRange::new(min_ts, max_ts);
    }

    pub fn level(&self) -> (r: u32)
        ensures
            r == self@.level,
    {
        self.level
    }
}

impl Clone for LevelInfo {
    /// A clone carries the same mathematical value as the original.
    fn clone(&self) -> (r: Self)
        ensures
            r@ == self@,
    {
        let mut files: Vec<ColumnFile> = Vec::new();
        let mut i: usize = 0;
        while i < self.files.len()
            invariant
                i <= self.files@.len(),
                files_view(files@) =~= files_view(self.files@).take(i as int),
            decreases self.files@.len() - i,
        {
            proof {
                assert(files_view(self.files@)[i as int] == self.files@[i as int]@);
            }
            let ghost fb = files_view(files@);
            let f = self.files[i].clone();
            let ghost fv = f@;
            files.push(f);
            proof {
                assert(files_view(files@) =~= fb.push(fv));
                assert(files_view(files@) =~= files_view(self.files@).take(i + 1));
            }
            i = i + 1;
        }
        proof {
            assert(files_view(files@) =~= files_view(self.files@));
        }
        Self {
            files,
            database: self.database.clone(),
            tsf_id: self.tsf_id,
            storage_opt: self.storage_opt.clone(),
            level: self.level,
            cur_size: self.cur_size,
            max_size: self.max_size,
            time_range: self.time_range,
        }
    }
}

/// The value of the file that `push_compact_meta` installs for `meta` in a
/// level currently valued `lv`.
pub open spec fn spec_meta_file(meta: CompactMeta, lv: LevelInfoV) -> ColumnFileV {
    spec_file_of_meta(
        meta,
        if meta.is_delta {
            spec_delta_file_name(spec_delta_dir(lv.storage.path, lv.database, lv.tsf_id), meta.file_id)
        } else {
            spec_tsm_file_name(spec_tsm_dir(lv.storage.path, lv.database, lv.tsf_id), meta.file_id)
        },
        empty_bloom(),
    )
}

/// Whether one of the first `n` metas carries `file_id`.
pub open spec fn metas_prefix_has_id(metas: Seq<CompactMeta>, n: int, file_id: u64) -> bool {
    exists|i0: int| 0 <= i0 < n && (#[trigger] metas[i0]).file_id == file_id
}

/// The sum of the announced file sizes.
pub open spec fn sum_meta_sizes(metas: Seq<CompactMeta>) -> int
    decreases metas.len(),
{
    if metas.len() == 0 {
        0
    } else {
        sum_meta_sizes(metas.drop_last()) + metas.last().file_size
    }
}

/// The sum of the first `n` announced file sizes.
pub open spec fn sum_meta_sizes_prefix(metas: Seq<CompactMeta>, n: int) -> int {
    sum_meta_sizes(metas.take(n))
}

proof fn lemma_sum_meta_sizes_prefix_step(metas: Seq<CompactMeta>, i: int)
    requires
        0 <= i < metas.len(),
    ensures
        sum_meta_sizes_prefix(metas, i + 1) == sum_meta_sizes_prefix(metas, i)
            + metas[i].file_size,
{
    assert(metas.take(i + 1).drop_last() =~= metas.take(i));
    assert(metas.take(i + 1).last() == metas[i]);
}

proof fn lemma_sum_meta_sizes_prefix_bound(metas: Seq<CompactMeta>, n: int)
    requires
        0 <= n <= metas.len(),
    ensures
        sum_meta_sizes_prefix(metas, n) <= sum_meta_sizes(metas),
    decreases metas.len() - n,
{
    if n == metas.len() {
        assert(metas.take(n) =~= metas);
    } else {
        lemma_sum_meta_sizes_prefix_bound(metas, n + 1);
        lemma_sum_meta_sizes_prefix_step(metas, n);
    }
}

/// The sum of file sizes distributes over concatenation.
proof fn lemma_sum_sizes_concat(a: Seq<ColumnFileV>, b: Seq<ColumnFileV>)
    ensures
        sum_sizes(a + b) == sum_sizes(a) + sum_sizes(b),
    decreases b.len(),
{
    if b.len() == 0 {
        assert(a + b =~= a);
    } else {
        lemma_sum_sizes_concat(a, b.drop_last());
        assert((a + b).drop_last() =~= a + b.drop_last());
        assert((a + b).last() == b.last());
    }
}

/// Inserting a file adds its size to the sum.
proof fn lemma_sum_sizes_insert(s: Seq<ColumnFileV>, i: int, f: ColumnFileV)
    requires
        0 <= i <= s.len(),
    ensures
        sum_sizes(s.insert(i, f)) == sum_sizes(s) + f.size,
{
    assert(s.insert(i, f) =~= s.take(i) + (seq![f] + s.skip(i)));
    assert(s =~= s.take(i) + s.skip(i));
    lemma_sum_sizes_concat(s.take(i), seq![f] + s.skip(i));
    lemma_sum_sizes_concat(seq![f], s.skip(i));
    lemma_sum_sizes_concat(s.take(i), s.skip(i));
    assert(sum_sizes(seq![f]) == f.size) by {
        assert(seq![f].drop_last() =~= Seq::<ColumnFileV>::empty());
        assert(sum_sizes(Seq::<ColumnFileV>::empty()) == 0);
        assert(seq![f].last() == f);
    }
}

/// Inserting a file inserts its value into the multiset of the level.
proof fn lemma_insert_files_multiset(s: Seq<ColumnFileV>, i: int, f: ColumnFileV)
    requires
        0 <= i <= s.len(),
    ensures
        s.insert(i, f).to_multiset() == s.to_multiset().insert(f),
{
    broadcast use vstd::seq_lib::group_to_multiset_ensures;
    broadcast use vstd::multiset::group_multiset_axioms;

    assert(s.insert(i, f) =~= s.take(i) + (seq![f] + s.skip(i)));
    assert(s =~= s.take(i) + s.skip(i));
    lemma_multiset_commutative(s.take(i), seq![f] + s.skip(i));
    lemma_multiset_commutative(seq![f], s.skip(i));
    lemma_multiset_commutative(s.take(i), s.skip(i));
    assert(seq![f].to_multiset() =~= Multiset::<ColumnFileV>::empty().insert(f)) by {
        assert(seq![f] =~= Seq::<ColumnFileV>::empty().push(f));
        assert(Seq::<ColumnFileV>::empty().push(f).to_multiset() =~= Seq::<
            ColumnFileV,
        >::empty().to_multiset().insert(f));
    }
    assert(s.insert(i, f).to_multiset() =~= s.to_multiset().insert(f));
}

/// Inserting a file widens the union of the ranges by exactly its range.
proof fn lemma_merged_range_insert(s: Seq<ColumnFileV>, i: int, f: ColumnFileV, tr: TimeRange)
    requires
        0 <= i <= s.len(),
        is_merged_range(s, tr),
    ensures
        is_merged_range(s.insert(i, f), tr.spec_merge(f.time_range)),
{
    let s2 = s.insert(i, f);
    let tr2 = tr.spec_merge(f.time_range);
    assert(s2[i] == f);
    assert(forall|k: int| 0 <= k < i ==> #[trigger] s2[k] == s[k]);
    assert(forall|k: int| i < k < s2.len() ==> #[trigger] s2[k] == s[k - 1]);
    if s.len() == 0 {
        assert(tr2 == f.time_range);
        assert(s2.len() == 1);
    } else {
        let wmin = choose|k: int|
            0 <= k < s.len() && (#[trigger] s[k]).time_range.min_ts == tr.min_ts;
        let wmax = choose|k: int|
            0 <= k < s.len() && (#[trigger] s[k]).time_range.max_ts == tr.max_ts;
        if tr2.min_ts == tr.min_ts {
            let w2 = if wmin < i { wmin } else { wmin + 1 };
            assert(s2[w2].time_range.min_ts == tr2.min_ts);
        } else {
            assert(s2[i].time_range.min_ts == tr2.min_ts);
        }
        if tr2.max_ts == tr.max_ts {
            let w2 = if wmax < i { wmax } else { wmax + 1 };
            assert(s2[w2].time_range.max_ts == tr2.max_ts);
        } else {
            assert(s2[i].time_range.max_ts == tr2.max_ts);
        }
    }
}

/// Law: the union bounds of a level are determined by its files.
pub proof fn lemma_merged_range_unique(files: Seq<ColumnFileV>, a: TimeRange, b: TimeRange)
    requires
        is_merged_range(files, a),
        is_merged_range(files, b),
    ensures
        a == b,
{
}

} // verus!
