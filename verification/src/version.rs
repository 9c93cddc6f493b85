//! Immutable snapshots of a vnode's on-disk state, and their replacement by
//! applying durable edit records: deletions drop files from their level and
//! hand them back marked deleted, additions install fresh files, and the
//! aggregate bounds are recomputed.

use vstd::prelude::*;
use vstd::multiset::Multiset;
use crate::column_file::{spec_file_of_meta, ColumnFile, ColumnFileV};
use crate::bloom::empty_bloom;
use crate::level_info::{
    files_sorted, files_view, sum_meta_sizes, sum_sizes, LevelInfo, LevelInfoV,
};
use crate::options::{
    spec_delta_dir, spec_delta_file_name, spec_level_file_size, spec_tsm_dir, spec_tsm_file_name,
    StorageOptions, StorageOptionsV,
};
use crate::summary::{CompactMeta, VersionEdit, VersionEditV};
use crate::timerange::TimeRange;

verus! {

/// The mathematical value of a `Version`.
pub ghost struct VersionV {
    pub ts_family_id: u32,
    pub database: Seq<char>,
    pub storage: StorageOptionsV,
    pub last_seq: u64,
    pub max_level_ts: i64,
    pub levels: Seq<LevelInfoV>,
}

impl VersionV {
    /// The snapshot invariant: five well-formed levels, numbered by their
    /// position, all belonging to this vnode's database, holding only files
    /// that are still live.
    pub open spec fn wf(self) -> bool {
        &&& self.levels.len() == 5
        &&& forall|l: int| 0 <= l < 5 ==> (#[trigger] self.levels[l]).wf()
        &&& forall|l: int| 0 <= l < 5 ==> (#[trigger] self.levels[l]).level == l as u32
        &&& forall|l: int| 0 <= l < 5 ==> (#[trigger] self.levels[l]).database == self.database
        &&& forall|l: int| 0 <= l < 5 ==> (#[trigger] self.levels[l]).storage == self.storage
        &&& forall|l: int, k: int|
            0 <= l < 5 && 0 <= k < self.levels[l].files.len() ==> !(
            #[trigger] self.levels[l].files[k]).deleted
    }
}

/// An immutable snapshot of a vnode's leveled file set, shared freely and
/// never mutated; replaced wholesale by `copy_apply_version_edits`.
#[derive(Debug)]
pub struct Version {
    pub ts_family_id: u32,
    pub database: String,
    pub storage_opt: StorageOptions,
    /// The max sequence number of the write batches flushed to column files.
    pub last_seq: u64,
    /// The max timestamp among the flushed column files.
    pub max_level_ts: i64,
    pub levels_info: Vec<LevelInfo>,
}

/// The values of a level vector.
pub open spec fn levels_view(levels: Seq<LevelInfo>) -> Seq<LevelInfoV> {
    levels.map_values(|l: LevelInfo| l@)
}

impl View for Version {
    type V = VersionV;

    open spec fn view(&self) -> VersionV {
        VersionV {
            ts_family_id: self.ts_family_id,
            database: self.database@,
            storage: self.storage_opt@,
            last_seq: self.last_seq,
            max_level_ts: self.max_level_ts,
            levels: levels_view(self.levels_info@),
        }
    }
}

/// The values of an edit vector.
pub open spec fn edits_view(edits: Seq<VersionEdit>) -> Seq<VersionEditV> {
    edits.map_values(|e: VersionEdit| e@)
}

/// Whether the edit list removes `file_id` from `level`.
pub open spec fn edits_delete(edits: Seq<VersionEditV>, level: u32, file_id: u64) -> bool {
    exists|e: int, d: int|
        0 <= e < edits.len() && 0 <= d < edits[e].del_files.len() && (
        #[trigger] edits[e].del_files[d]).level == level && edits[e].del_files[d].file_id
            == file_id
}

/// The files of a level that the edit list does not remove, in order.
pub open spec fn survivors_of(
    files: Seq<ColumnFileV>,
    edits: Seq<VersionEditV>,
    level: u32,
) -> Seq<ColumnFileV> {
    files.filter(|f: ColumnFileV| !edits_delete(edits, level, f.file_id))
}

/// The files of a level that the edit list removes, in order, each marked
/// deleted.
pub open spec fn removed_of(
    files: Seq<ColumnFileV>,
    edits: Seq<VersionEditV>,
    level: u32,
) -> Seq<ColumnFileV> {
    files.filter(|f: ColumnFileV| edits_delete(edits, level, f.file_id)).map_values(
        |f: ColumnFileV| ColumnFileV { deleted: true, ..f },
    )
}

/// All removed files of a version, level by level in order.
pub open spec fn removed_all(
    levels: Seq<LevelInfoV>,
    edits: Seq<VersionEditV>,
) -> Seq<ColumnFileV>
    decreases levels.len(),
{
    if levels.len() == 0 {
        Seq::<ColumnFileV>::empty()
    } else {
        removed_all(levels.drop_last(), edits) + removed_of(
            levels.last().files,
            edits,
            levels.last().level,
        )
    }
}

/// The metas the edit list adds to `level`, in append order.
pub open spec fn added_metas(edits: Seq<VersionEditV>, level: u32) -> Seq<CompactMeta>
    decreases edits.len(),
{
    if edits.len() == 0 {
        Seq::<CompactMeta>::empty()
    } else {
        added_metas(edits.drop_last(), level) + edits.last().add_files.filter(
            |m: CompactMeta| m.level == level,
        )
    }
}

/// The value of the file installed for an added meta: its path is built from
/// the version's storage root, database and vnode id, and its bloom filter
/// starts empty.
pub open spec fn spec_added_file(m: CompactMeta, v: VersionV) -> ColumnFileV {
    spec_file_of_meta(
        m,
        if m.is_delta {
            spec_delta_file_name(
                spec_delta_dir(v.storage.path, v.database, v.ts_family_id),
                m.file_id,
            )
        } else {
            spec_tsm_file_name(spec_tsm_dir(v.storage.path, v.database, v.ts_family_id), m.file_id)
        },
        empty_bloom(),
    )
}

/// The files a query returns: from every level whose bounds overlap the
/// range, in level order, the files whose own range overlaps it and whose
/// bloom filter admits one of the ids, in file order.
pub open spec fn spec_column_files(
    levels: Seq<LevelInfoV>,
    field_ids: Seq<u64>,
    tr: TimeRange,
) -> Seq<ColumnFileV>
    decreases levels.len(),
{
    if levels.len() == 0 {
        Seq::<ColumnFileV>::empty()
    } else {
        spec_column_files(levels.drop_last(), field_ids, tr) + (
        if levels.last().time_range.spec_overlaps(tr) {
            levels.last().files.filter(
                |f: ColumnFileV|
                    f.time_range.spec_overlaps(tr) && f.contains_any_field_id(field_ids),
            )
        } else {
            Seq::<ColumnFileV>::empty()
        })
    }
}

/// Whether `files` holds a file with `file_id`.
pub open spec fn files_has_id(files: Seq<ColumnFileV>, file_id: u64) -> bool {
    exists|k: int| 0 <= k < files.len() && (#[trigger] files[k]).file_id == file_id
}

/// `m` bounds every file timestamp of `levels` and is attained by one of
/// them; with no files at all, `m` is the minimum timestamp.
pub open spec fn is_max_level_ts(levels: Seq<LevelInfoV>, m: i64) -> bool {
    &&& forall|l: int, k: int|
        0 <= l < levels.len() && 0 <= k < levels[l].files.len() ==> (
        #[trigger] levels[l].files[k]).time_range.max_ts <= m
    &&& ((exists|l: int, k: int|
        0 <= l < levels.len() && 0 <= k < levels[l].files.len() && (
        #[trigger] levels[l].files[k]).time_range.max_ts == m) || (m == i64::MIN && forall|l: int|
        0 <= l < levels.len() ==> (#[trigger] levels[l]).files.len() == 0))
}

/// How one level of the result relates to the same level of the source: the
/// survivors keep their values, the added files are installed exactly once,
/// the vnode id is taken over, and the bounds are recomputed.
pub open spec fn is_applied_level(
    v: VersionV,
    l: int,
    edits: Seq<VersionEditV>,
    newlv: LevelInfoV,
) -> bool {
    &&& newlv.wf()
    &&& newlv.files.to_multiset() == survivors_of(
        v.levels[l].files,
        edits,
        l as u32,
    ).to_multiset().add(
        added_metas(edits, l as u32).map_values(|m: CompactMeta| spec_added_file(m, v))
            .to_multiset(),
    )
    &&& newlv.database == v.database
    &&& newlv.storage == v.storage
    &&& newlv.level == l as u32
    &&& newlv.max_size == spec_level_file_size(v.storage.base_file_size, l as u32)
    &&& newlv.tsf_id == (if added_metas(edits, l as u32).len() == 0 {
        v.ts_family_id
    } else {
        added_metas(edits, l as u32).last().tsf_id
    })
}

/// The full relation between a source version, an edit list, and the version
/// that applying the edits produces.
pub open spec fn is_applied_version(
    v: VersionV,
    edits: Seq<VersionEditV>,
    last_seq: Option<u64>,
    newv: VersionV,
) -> bool {
    &&& newv.wf()
    &&& newv.ts_family_id == v.ts_family_id
    &&& newv.database == v.database
    &&& newv.storage == v.storage
    &&& newv.last_seq == (match last_seq {
        Some(s) => s,
        None => v.last_seq,
    })
    &&& newv.levels.len() == 5
    &&& forall|l: int| 0 <= l < 5 ==> is_applied_level(v, l, edits, #[trigger] newv.levels[l])
    &&& is_max_level_ts(newv.levels, newv.max_level_ts)
}

/// The inputs on which applying an edit list is defined: announced levels
/// exist, announced files carry this vnode's id, added ids are fresh and
/// pairwise distinct per level, and the level sizes stay representable.
pub open spec fn edits_applicable(v: VersionV, edits: Seq<VersionEditV>) -> bool {
    &&& forall|e: int, a: int|
        0 <= e < edits.len() && 0 <= a < edits[e].add_files.len() ==> (
        #[trigger] edits[e].add_files[a]).level < 5
    &&& forall|e: int, a: int|
        0 <= e < edits.len() && 0 <= a < edits[e].add_files.len() ==> (
        #[trigger] edits[e].add_files[a]).tsf_id == v.ts_family_id
    &&& forall|l: u32, i: int, j: int|
        l < 5 && 0 <= i < j < added_metas(edits, l).len() ==> (#[trigger] added_metas(
            edits,
            l,
        )[i]).file_id != (#[trigger] added_metas(edits, l)[j]).file_id
    &&& forall|l: u32, i: int|
        l < 5 && 0 <= i < added_metas(edits, l).len() ==> !files_has_id(
            survivors_of(v.levels[l as int].files, edits, l),
            (#[trigger] added_metas(edits, l)[i]).file_id,
        )
    &&& forall|l: u32|
        l < 5 ==> sum_sizes(#[trigger] survivors_of(v.levels[l as int].files, edits, l))
            + sum_meta_sizes(added_metas(edits, l)) <= u64::MAX
}

impl Version {
    pub open spec fn wf(self) -> bool {
        self@.wf()
    }

    /// Assembles a snapshot from its parts.
    pub fn new(
        ts_family_id: u32,
        database: String,
        storage_opt: StorageOptions,
        last_seq: u64,
        levels_info: Vec<LevelInfo>,
        max_level_ts: i64,
    ) -> (r: Self)
        ensures
            r@ == (VersionV {
                ts_family_id,
                database: database@,
                storage: storage_opt@,
                last_seq,
                max_level_ts,
                levels: levels_view(levels_info@),
            }),
    {
        Self { ts_family_id, database, storage_opt, last_seq, max_level_ts, levels_info }
    }

    pub fn tf_id(&self) -> (r: u32)
        ensures
            r == self@.ts_family_id,
    {
        self.ts_family_id
    }

    pub fn database(&self) -> (r: &String)
        ensures
            r@ == self@.database,
    {
        &self.database
    }

    pub fn levels_info(&self) -> (r: &Vec<LevelInfo>)
        ensures
            levels_view(r@) == self@.levels,
    {
        &self.levels_info
    }

    pub fn storage_opt(&self) -> (r: StorageOptions)
        ensures
            r@ == self@.storage,
    {
        self.storage_opt.clone()
    }

    pub fn last_seq(&self) -> (r: u64)
        ensures
            r == self@.last_seq,
    {
        self.last_seq
    }

    pub fn max_level_ts(&self) -> (r: i64)
        ensures
            r == self@.max_level_ts,
    {
        self.max_level_ts
    }
}

impl Clone for Version {
    /// A clone carries the same mathematical value as the original.
    fn clone(&self) -> (r: Self)
        ensures
            r@ == self@,
    {
        let mut levels: Vec<LevelInfo> = Vec::new();
        let mut i: usize = 0;
        while i < self.levels_info.len()
            invariant
                i <= self.levels_info@.len(),
                levels_view(levels@) =~= levels_view(self.levels_info@).take(i as int),
            decreases self.levels_info@.len() - i,
        {
            proof {
                assert(levels_view(self.levels_info@)[i as int] == self.levels_info@[i as int]@);
            }
            let ghost lb = levels_view(levels@);
            let lv = self.levels_info[i].clone();
            let ghost lvv = lv@;
            levels.push(lv);
            proof {
                assert(levels_view(levels@) =~= lb.push(lvv));
                assert(levels_view(levels@) =~= levels_view(self.levels_info@).take(i + 1));
            }
            i = i + 1;
        }
        proof {
            assert(levels_view(levels@) =~= levels_view(self.levels_info@));
        }
        Self {
            ts_family_id: self.ts_family_id,
            database: self.database.clone(),
            storage_opt: self.storage_opt.clone(),
            last_seq: self.last_seq,
            max_level_ts: self.max_level_ts,
            levels_info: levels,
        }
    }
}

/// Runtime check of `edits_delete`.
fn edit_deletes(version_edits: &Vec<VersionEdit>, level: u32, file_id: u64) -> (r: bool)
    ensures
        r == edits_delete(edits_view(version_edits@), level, file_id),
{
    let ghost ev = edits_view(version_edits@);
    let mut e: usize = 0;
    while e < version_edits.len()
        invariant
            e <= ev.len(),
            ev == edits_view(version_edits@),
            forall|e0: int, d0: int|
                0 <= e0 < e && 0 <= d0 < ev[e0].del_files.len() ==> !((#[trigger] ev[e0].del_files[d0]).level
                    == level && ev[e0].del_files[d0].file_id == file_id),
        decreases ev.len() - e,
    {
        proof {
            assert(ev[e as int] == version_edits@[e as int]@);
        }
        let edit = &version_edits[e];
        let mut d: usize = 0;
        while d < edit.del_files.len()
            invariant
                d <= edit.del_files@.len(),
                ev == edits_view(version_edits@),
                e < ev.len(),
                ev[e as int] == edit@,
                forall|d0: int|
                    0 <= d0 < d ==> !((#[trigger] ev[e as int].del_files[d0]).level == level
                        && ev[e as int].del_files[d0].file_id == file_id),
            decreases edit.del_files@.len() - d,
        {
            let df = edit.del_files[d];
            if df.level == level && df.file_id == file_id {
                proof {
                    assert(ev[e as int].del_files[d as int].level == level
                        && ev[e as int].del_files[d as int].file_id == file_id);
                }
                return true;
            }
            d = d + 1;
        }
        e = e + 1;
    }
    proof {
        if edits_delete(ev, level, file_id) {
            let (e0, d0) = choose|e0: int, d0: int|
                0 <= e0 < ev.len() && 0 <= d0 < ev[e0].del_files.len() && (
                #[trigger] ev[e0].del_files[d0]).level == level && ev[e0].del_files[d0].file_id
                    == file_id;
            assert(false);
        }
    }
    false
}

proof fn lemma_sum_sizes_nonneg(s: Seq<ColumnFileV>)
    ensures
        0 <= sum_sizes(s),
    decreases s.len(),
{
    if s.len() > 0 {
        lemma_sum_sizes_nonneg(s.drop_last());
    }
}

proof fn lemma_sum_meta_sizes_nonneg(s: Seq<CompactMeta>)
    ensures
        0 <= sum_meta_sizes(s),
    decreases s.len(),
{
    if s.len() > 0 {
        lemma_sum_meta_sizes_nonneg(s.drop_last());
    }
}

/// Filtering a prefix never sums to more than filtering the whole.
proof fn lemma_filter_take_sum_files(s: Seq<ColumnFileV>, p: spec_fn(ColumnFileV) -> bool, j: int)
    requires
        0 <= j <= s.len(),
    ensures
        sum_sizes(s.take(j).filter(p)) <= sum_sizes(s.filter(p)),
    decreases s.len() - j,
{
    if j == s.len() {
        assert(s.take(j) =~= s);
    } else {
        lemma_filter_take_sum_files(s, p, j + 1);
        lemma_filter_take_step(s, p, j);
        if p(s[j]) {
            assert(s.take(j + 1).filter(p).drop_last() =~= s.take(j).filter(p));
            assert(sum_sizes(s.take(j + 1).filter(p)) == sum_sizes(s.take(j).filter(p))
                + s[j].size);
        }
    }
}

proof fn lemma_filter_take_sum_metas(s: Seq<CompactMeta>, p: spec_fn(CompactMeta) -> bool, j: int)
    requires
        0 <= j <= s.len(),
    ensures
        sum_meta_sizes(s.take(j).filter(p)) <= sum_meta_sizes(s.filter(p)),
    decreases s.len() - j,
{
    if j == s.len() {
        assert(s.take(j) =~= s);
    } else {
        lemma_filter_take_sum_metas(s, p, j + 1);
        lemma_filter_take_step(s, p, j);
        if p(s[j]) {
            assert(s.take(j + 1).filter(p).drop_last() =~= s.take(j).filter(p));
            assert(sum_meta_sizes(s.take(j + 1).filter(p)) == sum_meta_sizes(s.take(j).filter(p))
                + s[j].file_size);
        }
    }
}

proof fn lemma_sum_meta_sizes_concat(a: Seq<CompactMeta>, b: Seq<CompactMeta>)
    ensures
        sum_meta_sizes(a + b) == sum_meta_sizes(a) + sum_meta_sizes(b),
    decreases b.len(),
{
    if b.len() == 0 {
        assert(a + b =~= a);
    } else {
        lemma_sum_meta_sizes_concat(a, b.drop_last());
        assert((a + b).drop_last() =~= a + b.drop_last());
        assert((a + b).last() == b.last());
    }
}

/// Unfolding step: the metas added by a prefix of the edits.
proof fn lemma_added_metas_take_step(ev: Seq<VersionEditV>, level: u32, e: int)
    requires
        0 <= e < ev.len(),
    ensures
        added_metas(ev.take(e + 1), level) == added_metas(ev.take(e), level) + ev[e].add_files
            .filter(|m: CompactMeta| m.level == level),
{
    assert(ev.take(e + 1).drop_last() =~= ev.take(e));
    assert(ev.take(e + 1).last() == ev[e]);
}

/// The metas a prefix of the edits adds never sum to more than the whole.
proof fn lemma_added_metas_take_sum(ev: Seq<VersionEditV>, level: u32, e: int)
    requires
        0 <= e <= ev.len(),
    ensures
        sum_meta_sizes(added_metas(ev.take(e), level)) <= sum_meta_sizes(added_metas(ev, level)),
    decreases ev.len() - e,
{
    if e == ev.len() {
        assert(ev.take(e) =~= ev);
    } else {
        lemma_added_metas_take_sum(ev, level, e + 1);
        lemma_added_metas_take_step(ev, level, e);
        lemma_sum_meta_sizes_concat(
            added_metas(ev.take(e), level),
            ev[e].add_files.filter(|m: CompactMeta| m.level == level),
        );
        let p = |m: CompactMeta| m.level == level;
        assert(sum_meta_sizes(ev[e].add_files.filter(p)) >= 0) by {
            lemma_sum_meta_sizes_nonneg(ev[e].add_files.filter(p));
        }
    }
}

/// Every meta added to `level` is one of the announced add entries of some
/// edit, and carries that level.
proof fn lemma_added_metas_membership(ev: Seq<VersionEditV>, level: u32)
    ensures
        forall|i: int|
            0 <= i < added_metas(ev, level).len() ==> (#[trigger] added_metas(ev, level)[i]).level
                == level && exists|e: int, a: int|
                0 <= e < ev.len() && 0 <= a < ev[e].add_files.len() && (
                #[trigger] ev[e].add_files[a]) == added_metas(ev, level)[i],
    decreases ev.len(),
{
    if ev.len() > 0 {
        lemma_added_metas_membership(ev.drop_last(), level);
        let p = |m: CompactMeta| m.level == level;
        let front = added_metas(ev.drop_last(), level);
        let back = ev.last().add_files.filter(p);
        assert forall|i: int|
            0 <= i < added_metas(ev, level).len() implies (#[trigger] added_metas(
            ev,
            level,
        )[i]).level == level && exists|e: int, a: int|
            0 <= e < ev.len() && 0 <= a < ev[e].add_files.len() && (#[trigger] ev[e].add_files[a])
                == added_metas(ev, level)[i] by {
            let x = added_metas(ev, level)[i];
            if i < front.len() {
                assert(front[i] == x);
                assert(forall|e: int| 0 <= e < ev.len() - 1 ==> ev.drop_last()[e] == ev[e]);
                let (e0, a0) = choose|e0: int, a0: int|
                    0 <= e0 < ev.drop_last().len() && 0 <= a0 < ev.drop_last()[e0].add_files.len()
                        && (#[trigger] ev.drop_last()[e0].add_files[a0]) == front[i];
                assert(ev[e0].add_files[a0] == x);
            } else {
                let j = i - front.len();
                assert(back[j] == x);
                assert(back.contains(x));
                ev.last().add_files.lemma_filter_contains_rev(p, x);
                assert(ev.last().add_files.contains(x));
                ev.last().add_files.lemma_filter_pred(p, j);
                let a0 = choose|a0: int|
                    0 <= a0 < ev.last().add_files.len() && ev.last().add_files[a0] == x;
                assert(ev[ev.len() - 1].add_files[a0] == x);
                assert(p(x));
            }
        }
    }
}

impl Version {
    /// Builds the version that results from applying the edits, together
    /// with the files the edits removed, each marked deleted. The source is
    /// left untouched; holders of it keep their snapshot.
    #[verifier::rlimit(100)]
    pub fn copy_apply_version_edits(
        &self,
        version_edits: Vec<VersionEdit>,
        last_seq: Option<u64>,
    ) -> (r: (Version, Vec<ColumnFile>))
        requires
            self.wf(),
            edits_applicable(self@, edits_view(version_edits@)),
        ensures
            is_applied_version(self@, edits_view(version_edits@), last_seq, r.0@),
            files_view(r.1@) == removed_all(self@.levels, edits_view(version_edits@)),
    {
        let ghost v = self@;
        let ghost ev = edits_view(version_edits@);
        let mut new_levels: Vec<LevelInfo> = Vec::new();
        let mut removed: Vec<ColumnFile> = Vec::new();
        let mut l: usize = 0;
        while l < 5
            invariant
                l <= 5,
                v == self@,
                ev == edits_view(version_edits@),
                self.wf(),
                edits_applicable(v, ev),
                new_levels@.len() == l,
                forall|l0: int|
                    0 <= l0 < l ==> is_applied_level(v, l0, ev, (#[trigger] new_levels@[l0])@),
                files_view(removed@) == removed_all(v.levels.take(l as int), ev),
            decreases 5 - l,
        {
            let lu: u32 = l as u32;
            let ghost oldfiles = v.levels[l as int].files;
            let ghost pdel = |f: ColumnFileV| edits_delete(ev, lu, f.file_id);
            let ghost pkeep = |f: ColumnFileV| !edits_delete(ev, lu, f.file_id);
            let mut lv = LevelInfo::init(
                self.database.clone(),
                lu,
                self.ts_family_id,
                self.storage_opt.clone(),
            );
            let ghost removed_before = files_view(removed@);
            // Re-push the survivors in order; collect the removed files.
            let level_ref = &self.levels_info[l];
            proof {
                assert(levels_view(self.levels_info@)[l as int] == self.levels_info@[l as int]@);
                assert(level_ref@.files == oldfiles);
            }
            proof {
                assert(oldfiles.take(0) =~= Seq::<ColumnFileV>::empty());
                lemma_filter_empty(pkeep);
                lemma_filter_empty(pdel);
                lemma_to_multiset_empty::<ColumnFileV>();
                assert(files_view(removed@) =~= removed_before + oldfiles.take(0).filter(
                    pdel,
                ).map_values(|f: ColumnFileV| ColumnFileV { deleted: true, ..f }));
            }
            let mut k: usize = 0;
            while k < level_ref.files.len()
                invariant
                    k <= oldfiles.len(),
                    v == self@,
                    ev == edits_view(version_edits@),
                    self.wf(),
                    edits_applicable(v, ev),
                    level_ref@.files == oldfiles,
                    level_ref.wf(),
                    oldfiles == v.levels[l as int].files,
                    0 <= l < 5,
                    lu == l as u32,
                    pdel == (|f: ColumnFileV| edits_delete(ev, lu, f.file_id)),
                    pkeep == (|f: ColumnFileV| !edits_delete(ev, lu, f.file_id)),
                    lv.wf(),
                    lv@.files.to_multiset() == oldfiles.take(k as int).filter(pkeep).to_multiset(),
                    lv@.cur_size == sum_sizes(oldfiles.take(k as int).filter(pkeep)),
                    lv@.database == v.database,
                    lv@.storage == v.storage,
                    lv@.tsf_id == v.ts_family_id,
                    lv@.level == lu,
                    lv@.max_size == spec_level_file_size(v.storage.base_file_size, lu),
                    files_view(removed@) == removed_before + oldfiles.take(k as int).filter(
                        pdel,
                    ).map_values(|f: ColumnFileV| ColumnFileV { deleted: true, ..f }),
                decreases oldfiles.len() - k,
            {
                proof {
                    assert(files_view(level_ref.files@)[k as int] == level_ref.files@[k as int]@);
                    assert(oldfiles.take(k as int + 1).drop_last() =~= oldfiles.take(k as int));
                    assert(oldfiles.take(k as int + 1).last() == oldfiles[k as int]);
                }
                let file = &level_ref.files[k];
                let ghost fv = file@;
                if edit_deletes(&version_edits, lu, file.file_id) {
                    let ghost rb = files_view(removed@);
                    let mut dead = file.clone();
                    dead.mark_deleted();
                    proof {
                        assert(dead@ == (ColumnFileV { deleted: true, ..fv }));
                    }
                    removed.push(dead);
                    proof {
                        assert(files_view(removed@) =~= rb.push(
                            ColumnFileV { deleted: true, ..fv },
                        ));
                        assert(pdel(fv));
                        lemma_filter_take_step(oldfiles, pdel, k as int);
                        lemma_filter_take_step(oldfiles, pkeep, k as int);
                        assert(oldfiles.take(k as int + 1).filter(pdel).map_values(
                            |f: ColumnFileV| ColumnFileV { deleted: true, ..f },
                        ) =~= oldfiles.take(k as int).filter(pdel).map_values(
                            |f: ColumnFileV| ColumnFileV { deleted: true, ..f },
                        ).push(ColumnFileV { deleted: true, ..fv }));
                        assert(files_view(removed@) =~= removed_before + oldfiles.take(
                            k as int + 1,
                        ).filter(pdel).map_values(
                            |f: ColumnFileV| ColumnFileV { deleted: true, ..f },
                        ));
                    }
                } else {
                    proof {
                        assert(pkeep(fv));
                        let taken = oldfiles.take(k as int).filter(pkeep);
                        lemma_filter_take_step(oldfiles, pkeep, k as int);
                        lemma_filter_take_step(oldfiles, pdel, k as int);
                        assert(oldfiles.take(k as int + 1).filter(pkeep) == taken.push(fv));
                        // Freshness: a file with this id in the level so far would be an
                        // earlier survivor with the same id, against strict sorting.
                        broadcast use vstd::seq_lib::group_to_multiset_ensures;
                        broadcast use vstd::multiset::group_multiset_axioms;

                        if lv@.has_file_id(fv.file_id) {
                            let k0 = choose|k0: int|
                                0 <= k0 < lv@.files.len() && (#[trigger] lv@.files[k0]).file_id
                                    == fv.file_id;
                            let x = lv@.files[k0];
                            assert(lv@.files.contains(x));
                            assert(lv@.files.to_multiset().count(x) > 0);
                            assert(taken.contains(x));
                            oldfiles.take(k as int).lemma_filter_contains_rev(pkeep, x);
                            assert(oldfiles.take(k as int).contains(x));
                            let k1 = choose|k1: int|
                                0 <= k1 < k && oldfiles.take(k as int)[k1] == x;
                            assert(oldfiles[k1].file_id == oldfiles[k as int].file_id);
                            assert(files_sorted(oldfiles));
                            assert(false);
                        }
                        // The growing sum stays within the requires bound.
                        lemma_filter_take_sum_files(oldfiles, pkeep, k as int + 1);
                        assert(oldfiles.filter(pkeep) == survivors_of(oldfiles, ev, lu));
                        lemma_sum_meta_sizes_nonneg(added_metas(ev, lu));
                        assert(taken.push(fv).drop_last() =~= taken);
                        assert(sum_sizes(taken.push(fv)) == sum_sizes(taken) + fv.size);
                        assert(sum_sizes(taken) + fv.size <= u64::MAX);
                    }
                    lv.push_column_file(file.clone());
                    proof {
                        lemma_to_multiset_push(oldfiles.take(k as int).filter(pkeep), fv);
                    }
                }
                k = k + 1;
            }
            proof {
                assert(oldfiles.take(oldfiles.len() as int) =~= oldfiles);
            }
            // Install the added files of this level, in edit order.
            let ghost madd = |m: CompactMeta| m.level == lu;
            let ghost addfile = |m: CompactMeta| spec_added_file(m, v);
            let ghost survivors = survivors_of(oldfiles, ev, lu);
            proof {
                broadcast use vstd::multiset::group_multiset_axioms;

                lemma_added_metas_membership(ev, lu);
                assert(ev.take(0) =~= Seq::<VersionEditV>::empty());
                assert(added_metas(ev.take(0), lu).map_values(addfile) =~= Seq::<
                    ColumnFileV,
                >::empty());
                lemma_to_multiset_empty::<ColumnFileV>();
                assert(survivors.to_multiset().add(
                    added_metas(ev.take(0), lu).map_values(addfile).to_multiset(),
                ) =~= survivors.to_multiset());
            }
            let mut e: usize = 0;
            while e < version_edits.len()
                invariant
                    e <= ev.len(),
                    v == self@,
                    ev == edits_view(version_edits@),
                    edits_applicable(v, ev),
                    0 <= l < 5,
                    lu == l as u32,
                    madd == (|m: CompactMeta| m.level == lu),
                    addfile == (|m: CompactMeta| spec_added_file(m, v)),
                    survivors == survivors_of(v.levels[l as int].files, ev, lu),
                    lv.wf(),
                    lv@.files.to_multiset() == survivors.to_multiset().add(
                        added_metas(ev.take(e as int), lu).map_values(addfile).to_multiset(),
                    ),
                    lv@.cur_size == sum_sizes(survivors) + sum_meta_sizes(
                        added_metas(ev.take(e as int), lu),
                    ),
                    lv@.database == v.database,
                    lv@.storage == v.storage,
                    lv@.tsf_id == (if added_metas(ev.take(e as int), lu).len() == 0 {
                        v.ts_family_id
                    } else {
                        added_metas(ev.take(e as int), lu).last().tsf_id
                    }),
                    lv@.tsf_id == v.ts_family_id,
                    lv@.level == lu,
                    lv@.max_size == spec_level_file_size(v.storage.base_file_size, lu),
                decreases ev.len() - e,
            {
                proof {
                    assert(ev[e as int] == version_edits@[e as int]@);
                }
                let edit = &version_edits[e];
                let ghost adds = edit@.add_files;
                let mut a: usize = 0;
                while a < edit.add_files.len()
                    invariant
                        a <= adds.len(),
                        v == self@,
                        ev == edits_view(version_edits@),
                        edits_applicable(v, ev),
                        0 <= l < 5,
                        0 <= e < ev.len(),
                        lu == l as u32,
                        madd == (|m: CompactMeta| m.level == lu),
                        addfile == (|m: CompactMeta| spec_added_file(m, v)),
                        survivors == survivors_of(v.levels[l as int].files, ev, lu),
                        adds == ev[e as int].add_files,
                        adds == edit.add_files@,
                        lv.wf(),
                        lv@.files.to_multiset() == survivors.to_multiset().add(
                            (added_metas(ev.take(e as int), lu) + adds.take(a as int).filter(
                                madd,
                            )).map_values(addfile).to_multiset(),
                        ),
                        lv@.cur_size == sum_sizes(survivors) + sum_meta_sizes(
                            added_metas(ev.take(e as int), lu) + adds.take(a as int).filter(madd),
                        ),
                        lv@.database == v.database,
                        lv@.storage == v.storage,
                        lv@.tsf_id == (if (added_metas(ev.take(e as int), lu) + adds.take(
                            a as int,
                        ).filter(madd)).len() == 0 {
                            v.ts_family_id
                        } else {
                            (added_metas(ev.take(e as int), lu) + adds.take(a as int).filter(
                                madd,
                            )).last().tsf_id
                        }),
                        lv@.tsf_id == v.ts_family_id,
                        lv@.level == lu,
                        lv@.max_size == spec_level_file_size(v.storage.base_file_size, lu),
                    decreases adds.len() - a,
                {
                    let ghost sofar = added_metas(ev.take(e as int), lu) + adds.take(
                        a as int,
                    ).filter(madd);
                    proof {
                        lemma_filter_take_step(adds, madd, a as int);
                    }
                    let m = edit.add_files[a];
                    if m.level == l as u32 {
                        proof {
                            lemma_added_metas_take_step(ev, lu, e as int);
                            lemma_added_metas_take_sum(ev, lu, e as int + 1);
                            lemma_filter_take_sum_metas(adds, madd, a as int + 1);
                            lemma_sum_meta_sizes_concat(
                                added_metas(ev.take(e as int), lu),
                                adds.take(a as int + 1).filter(madd),
                            );
                            lemma_sum_meta_sizes_concat(
                                added_metas(ev.take(e as int), lu),
                                adds.filter(madd),
                            );
                            lemma_sum_sizes_nonneg(survivors);
                            // This meta's file id is fresh in the level built so far.
                            broadcast use vstd::seq_lib::group_to_multiset_ensures;
                            broadcast use vstd::multiset::group_multiset_axioms;

                            let full = added_metas(ev, lu);
                            assert(madd(adds[a as int]));
                            assert(sofar.push(adds[a as int]) =~= added_metas(
                                ev.take(e as int),
                                lu,
                            ) + adds.take(a as int + 1).filter(madd));
                            lemma_added_prefix_of_full(ev, lu, e as int, a as int);
                            if lv@.has_file_id(m.file_id) {
                                let k0 = choose|k0: int|
                                    0 <= k0 < lv@.files.len() && (#[trigger] lv@.files[k0]).file_id
                                        == m.file_id;
                                let x = lv@.files[k0];
                                assert(lv@.files.contains(x));
                                assert(lv@.files.to_multiset().count(x) > 0);
                                if survivors.to_multiset().count(x) > 0 {
                                    assert(survivors.contains(x));
                                    let i1 = choose|i1: int|
                                        0 <= i1 < sofar.len() + 1 && full[i1] == adds[a as int];
                                    assert(files_has_id(survivors, full[i1].file_id));
                                } else {
                                    assert(sofar.map_values(addfile).to_multiset().count(x) > 0);
                                    assert(sofar.map_values(addfile).contains(x));
                                    let j0 = choose|j0: int|
                                        0 <= j0 < sofar.len() && sofar.map_values(addfile)[j0]
                                            == x;
                                    assert(addfile(sofar[j0]) == x);
                                    assert(sofar[j0].file_id == m.file_id);
                                    lemma_added_prefix_index(ev, lu, e as int, a as int, j0);
                                }
                                assert(false);
                            }
                            assert(sofar.push(m).drop_last() =~= sofar);
                            assert(sum_meta_sizes(sofar.push(m)) == sum_meta_sizes(sofar)
                                + m.file_size);
                            assert(sum_meta_sizes(added_metas(ev.take(e as int), lu) + adds.take(
                                a as int + 1,
                            ).filter(madd)) <= sum_meta_sizes(added_metas(ev.take(e as int + 1), lu)));
                            assert(sum_sizes(survivors) + sum_meta_sizes(sofar) + m.file_size
                                <= u64::MAX);
                        }
                        let lvl_tsf = lv.tsf_id;
                        lv.push_compact_meta(&m);
                        proof {
                            broadcast use vstd::seq_lib::group_to_multiset_ensures;
                            broadcast use vstd::multiset::group_multiset_axioms;

                            assert(crate::level_info::spec_meta_file(
                                m,
                                LevelInfoV {
                                    files: survivors,
                                    database: v.database,
                                    tsf_id: v.ts_family_id,
                                    storage: v.storage,
                                    level: lu,
                                    cur_size: 0,
                                    max_size: 0,
                                    time_range: TimeRange::spec_none(),
                                },
                            ) == spec_added_file(m, v));
                            assert(sofar.push(m).map_values(addfile) =~= sofar.map_values(
                                addfile,
                            ).push(addfile(m)));
                            lemma_to_multiset_push(sofar.map_values(addfile), addfile(m));
                            assert(sofar.push(m).drop_last() =~= sofar);
                            assert(sum_meta_sizes(sofar.push(m)) == sum_meta_sizes(sofar)
                                + m.file_size);
                        }
                    } else {
                        proof {
                            assert(!madd(adds[a as int]));
                        }
                    }
                    a = a + 1;
                }
                proof {
                    assert(adds.take(adds.len() as int) =~= adds);
                    lemma_added_metas_take_step(ev, lu, e as int);
                }
                e = e + 1;
            }
            proof {
                assert(ev.take(ev.len() as int) =~= ev);
            }
            lv.update_time_range();
            new_levels.push(lv);
            proof {
                assert(v.levels.take(l as int + 1).drop_last() =~= v.levels.take(l as int));
                assert(v.levels.take(l as int + 1).last() == v.levels[l as int]);
                assert(v.levels[l as int].level == lu);
                assert(files_view(removed@) =~= removed_all(v.levels.take(l as int + 1), ev));
                assert(new_levels@[l as int]@ == new_levels@.last()@);
            }
            l = l + 1;
        }
        proof {
            assert(v.levels.take(5) =~= v.levels);
        }
        // Recompute the max level timestamp over the new levels.
        let mut max_ts: i64 = i64::MIN;
        let ghost nls = levels_view(new_levels@);
        let mut l2: usize = 0;
        while l2 < 5
            invariant
                l2 <= 5,
                new_levels@.len() == 5,
                nls == levels_view(new_levels@),
                forall|l0: int, k0: int|
                    0 <= l0 < l2 && 0 <= k0 < nls[l0].files.len() ==> (
                    #[trigger] nls[l0].files[k0]).time_range.max_ts <= max_ts,
                (exists|l0: int, k0: int|
                    0 <= l0 < l2 && 0 <= k0 < nls[l0].files.len() && (
                    #[trigger] nls[l0].files[k0]).time_range.max_ts == max_ts) || (max_ts
                    == i64::MIN),
            decreases 5 - l2,
        {
            proof {
                assert(nls[l2 as int] == new_levels@[l2 as int]@);
            }
            let level_ref = &new_levels[l2];
            let mut k: usize = 0;
            while k < level_ref.files.len()
                invariant
                    k <= level_ref.files@.len(),
                    nls == levels_view(new_levels@),
                    0 <= l2 < 5,
                    new_levels@.len() == 5,
                    nls[l2 as int] == level_ref@,
                    forall|l0: int, k0: int|
                        0 <= l0 < l2 && 0 <= k0 < nls[l0].files.len() ==> (
                        #[trigger] nls[l0].files[k0]).time_range.max_ts <= max_ts,
                    forall|k0: int|
                        0 <= k0 < k ==> (#[trigger] nls[l2 as int].files[k0]).time_range.max_ts
                            <= max_ts,
                    (exists|l0: int, k0: int|
                        0 <= l0 <= l2 && 0 <= k0 < nls[l0].files.len() && (
                        #[trigger] nls[l0].files[k0]).time_range.max_ts == max_ts) || (max_ts
                        == i64::MIN),
                decreases level_ref.files@.len() - k,
            {
                proof {
                    assert(files_view(level_ref.files@)[k as int] == level_ref.files@[k as int]@);
                }
                let f = &level_ref.files[k];
                if f.time_range.max_ts > max_ts {
                    max_ts = f.time_range.max_ts;
                    proof {
                        assert(nls[l2 as int].files[k as int].time_range.max_ts == max_ts);
                    }
                }
                k = k + 1;
            }
            proof {
                if max_ts != i64::MIN {
                    let (l0, k0) = choose|l0: int, k0: int|
                        0 <= l0 <= l2 && 0 <= k0 < nls[l0].files.len() && (
                        #[trigger] nls[l0].files[k0]).time_range.max_ts == max_ts;
                    assert(l0 < l2 + 1);
                }
            }
            l2 = l2 + 1;
        }
        let new_last_seq: u64 = match last_seq {
            Some(s) => s,
            None => self.last_seq,
        };
        let new_version = Version {
            ts_family_id: self.ts_family_id,
            database: self.database.clone(),
            storage_opt: self.storage_opt.clone(),
            last_seq: new_last_seq,
            max_level_ts: max_ts,
            levels_info: new_levels,
        };
        proof {
            let newv = new_version@;
            assert(newv.levels == nls);
            assert forall|l0: int| 0 <= l0 < 5 implies is_applied_level(
                v,
                l0,
                ev,
                #[trigger] newv.levels[l0],
            ) by {
                assert(newv.levels[l0] == nls[l0]);
            }
            // The new snapshot holds no deleted file: survivors were live in
            // the source, added files start live.
            assert forall|l0: int, k0: int|
                0 <= l0 < 5 && 0 <= k0 < newv.levels[l0].files.len() implies !(
            #[trigger] newv.levels[l0].files[k0]).deleted by {
                broadcast use vstd::seq_lib::group_to_multiset_ensures;
                broadcast use vstd::multiset::group_multiset_axioms;

                let x = newv.levels[l0].files[k0];
                let survivors = survivors_of(v.levels[l0].files, ev, l0 as u32);
                let addedf = added_metas(ev, l0 as u32).map_values(
                    |m: CompactMeta| spec_added_file(m, v),
                );
                assert(newv.levels[l0].files.contains(x));
                assert(newv.levels[l0].files.to_multiset().count(x) > 0);
                if survivors.to_multiset().count(x) > 0 {
                    assert(survivors.contains(x));
                    v.levels[l0].files.lemma_filter_contains_rev(
                        |f: ColumnFileV| !edits_delete(ev, l0 as u32, f.file_id),
                        x,
                    );
                    assert(v.levels[l0].files.contains(x));
                    let k1 = choose|k1: int|
                        0 <= k1 < v.levels[l0].files.len() && v.levels[l0].files[k1] == x;
                    assert(!v.levels[l0].files[k1].deleted);
                } else {
                    assert(addedf.to_multiset().count(x) > 0);
                    assert(addedf.contains(x));
                    let j0 = choose|j0: int| 0 <= j0 < addedf.len() && addedf[j0] == x;
                    assert(spec_added_file(added_metas(ev, l0 as u32)[j0], v) == x);
                }
            }
        }
        (new_version, removed)
    }
}

/// A meta being pushed stands in the full added list right after the part
/// already installed.
proof fn lemma_added_prefix_of_full(ev: Seq<VersionEditV>, level: u32, e: int, a: int)
    requires
        0 <= e < ev.len(),
        0 <= a < ev[e].add_files.len(),
        ev[e].add_files[a].level == level,
    ensures
        ({
            let sofar = added_metas(ev.take(e), level) + ev[e].add_files.take(a).filter(
                |m: CompactMeta| m.level == level,
            );
            let full = added_metas(ev, level);
            sofar.len() < full.len() && full[sofar.len() as int] == ev[e].add_files[a] && forall|
                j: int,
            |
                0 <= j < sofar.len() ==> full[j] == sofar[j]
        }),
{
    let p = |m: CompactMeta| m.level == level;
    let sofar = added_metas(ev.take(e), level) + ev[e].add_files.take(a).filter(p);
    let withm = sofar.push(ev[e].add_files[a]);
    lemma_added_take_extends(ev, level, e, a);
    let rest = added_suffix(ev, level, e, a);
    assert(added_metas(ev, level) == withm + rest);
    assert forall|j: int| 0 <= j < sofar.len() implies added_metas(ev, level)[j] == sofar[j] by {
        assert((withm + rest)[j] == withm[j]);
    }
    assert((withm + rest)[sofar.len() as int] == withm[sofar.len() as int]);
}

/// From an installed prefix index, a pair of indexes into the edits.
proof fn lemma_added_prefix_index(ev: Seq<VersionEditV>, level: u32, e: int, a: int, j: int)
    requires
        0 <= e < ev.len(),
        0 <= a < ev[e].add_files.len(),
        ev[e].add_files[a].level == level,
        0 <= j < (added_metas(ev.take(e), level) + ev[e].add_files.take(a).filter(
            |m: CompactMeta| m.level == level,
        )).len(),
    ensures
        ({
            let sofar = added_metas(ev.take(e), level) + ev[e].add_files.take(a).filter(
                |m: CompactMeta| m.level == level,
            );
            let full = added_metas(ev, level);
            full[j] == sofar[j] && sofar.len() < full.len() && full[sofar.len() as int]
                == ev[e].add_files[a]
        }),
{
    lemma_added_prefix_of_full(ev, level, e, a);
}

/// What remains of the full added list beyond the point `(e, a)`.
spec fn added_suffix(ev: Seq<VersionEditV>, level: u32, e: int, a: int) -> Seq<CompactMeta> {
    let p = |m: CompactMeta| m.level == level;
    ev[e].add_files.skip(a + 1).filter(p) + added_tail(ev, level, e + 1)
}

/// The metas added by the edits from position `e` on.
spec fn added_tail(ev: Seq<VersionEditV>, level: u32, e: int) -> Seq<CompactMeta>
    decreases ev.len() - e when 0 <= e <= ev.len()
{
    if e >= ev.len() {
        Seq::<CompactMeta>::empty()
    } else {
        ev[e].add_files.filter(|m: CompactMeta| m.level == level) + added_tail(ev, level, e + 1)
    }
}

/// The full added list splits at any processing point `(e, a)` into the
/// installed prefix, the meta at `(e, a)` if it matches, and the suffix.
proof fn lemma_added_take_extends(ev: Seq<VersionEditV>, level: u32, e: int, a: int)
    requires
        0 <= e < ev.len(),
        0 <= a < ev[e].add_files.len(),
        ev[e].add_files[a].level == level,
    ensures
        added_metas(ev, level) == (added_metas(ev.take(e), level) + ev[e].add_files.take(a).filter(
            |m: CompactMeta| m.level == level,
        )).push(ev[e].add_files[a]) + added_suffix(ev, level, e, a),
{
    reveal(Seq::filter);
    let p = |m: CompactMeta| m.level == level;
    lemma_added_full_as_take_tail(ev, level, e);
    // Split this edit's adds at `a`.
    let adds = ev[e].add_files;
    assert(adds =~= adds.take(a) + (adds.skip(a).take(1) + adds.skip(a + 1)));
    Seq::filter_distributes_over_add(adds.take(a), adds.skip(a).take(1) + adds.skip(a + 1), p);
    Seq::filter_distributes_over_add(adds.skip(a).take(1), adds.skip(a + 1), p);
    assert(adds.skip(a).take(1) =~= seq![adds[a]]);
    assert(seq![adds[a]].filter(p) == seq![adds[a]]) by {
        assert(seq![adds[a]].drop_last() =~= Seq::<CompactMeta>::empty());
        assert(seq![adds[a]].last() == adds[a]);
        assert(p(adds[a]));
        assert(Seq::<CompactMeta>::empty().filter(p) == Seq::<CompactMeta>::empty());
        assert(seq![adds[a]].filter(p) == Seq::<CompactMeta>::empty().push(adds[a]));
        assert(Seq::<CompactMeta>::empty().push(adds[a]) =~= seq![adds[a]]);
    }
    assert(added_tail(ev, level, e) == adds.filter(p) + added_tail(ev, level, e + 1));
    assert(adds.filter(p) =~= adds.take(a).filter(p) + seq![adds[a]] + adds.skip(a + 1).filter(p));
    assert(added_metas(ev, level) =~= (added_metas(ev.take(e), level) + adds.take(a).filter(
        p,
    )).push(adds[a]) + (adds.skip(a + 1).filter(p) + added_tail(ev, level, e + 1)));
}

/// The full added list is the part added by the first `e` edits followed by
/// the part added by the rest.
proof fn lemma_added_full_as_take_tail(ev: Seq<VersionEditV>, level: u32, e: int)
    requires
        0 <= e <= ev.len(),
    ensures
        added_metas(ev, level) == added_metas(ev.take(e), level) + added_tail(ev, level, e),
    decreases ev.len() - e,
{
    if e == ev.len() {
        assert(ev.take(e) =~= ev);
        assert(added_metas(ev, level) + added_tail(ev, level, e) =~= added_metas(ev, level));
        assert(added_metas(ev.take(e), level) + added_tail(ev, level, e) =~= added_metas(
            ev,
            level,
        ));
    } else {
        lemma_added_full_as_take_tail(ev, level, e + 1);
        lemma_added_metas_take_step(ev, level, e);
        assert(added_metas(ev.take(e + 1), level) + added_tail(ev, level, e + 1) =~= added_metas(
            ev.take(e),
            level,
        ) + (ev[e].add_files.filter(|m: CompactMeta| m.level == level) + added_tail(
            ev,
            level,
            e + 1,
        )));
    }
}

impl Version {
    /// The files that may hold data for one of `field_ids` inside
    /// `time_range`: from every level whose bounds overlap the range, in
    /// level order, the files whose own range overlaps it and whose bloom
    /// filter admits at least one of the ids, in file order — each exactly
    /// once.
    pub fn column_files(&self, field_ids: &Vec<u64>, time_range: &TimeRange) -> (r: Vec<
        ColumnFile,
    >)
        requires
            self.wf(),
        ensures
            files_view(r@) == spec_column_files(self@.levels, field_ids@, *time_range),
    {
        let ghost v = self@;
        let ghost fids = field_ids@;
        let ghost tr = *time_range;
        let ghost pk = |f: ColumnFileV|
            f.time_range.spec_overlaps(tr) && f.contains_any_field_id(fids);
        let mut out: Vec<ColumnFile> = Vec::new();
        let mut l: usize = 0;
        while l < 5
            invariant
                l <= 5,
                v == self@,
                self.wf(),
                fids == field_ids@,
                tr == *time_range,
                pk == (|f: ColumnFileV|
                    f.time_range.spec_overlaps(tr) && f.contains_any_field_id(fids)),
                files_view(out@) =~= spec_column_files(v.levels.take(l as int), fids, tr),
            decreases 5 - l,
        {
            proof {
                assert(levels_view(self.levels_info@)[l as int] == self.levels_info@[l as int]@);
                assert(v.levels.take(l as int + 1).drop_last() =~= v.levels.take(l as int));
                assert(v.levels.take(l as int + 1).last() == v.levels[l as int]);
            }
            let level_ref = &self.levels_info[l];
            if level_ref.time_range.overlaps(time_range) {
                let ghost before_level = files_view(out@);
                let mut k: usize = 0;
                while k < level_ref.files.len()
                    invariant
                        k <= level_ref.files@.len(),
                        v == self@,
                        self.wf(),
                        0 <= l < 5,
                        fids == field_ids@,
                        tr == *time_range,
                        pk == (|f: ColumnFileV|
                            f.time_range.spec_overlaps(tr) && f.contains_any_field_id(fids)),
                        level_ref@ == v.levels[l as int],
                        files_view(out@) =~= before_level + v.levels[l as int].files.take(
                            k as int,
                        ).filter(pk),
                    decreases level_ref.files@.len() - k,
                {
                    proof {
                        assert(files_view(level_ref.files@)[k as int]
                            == level_ref.files@[k as int]@);
                        assert(v.levels[l as int].files[k as int].wf());
                        lemma_filter_take_step(v.levels[l as int].files, pk, k as int);
                    }
                    let f = &level_ref.files[k];
                    if f.overlap(time_range) && f.contains_any_field_id(field_ids) {
                        let ghost ob = files_view(out@);
                        let cl = f.clone();
                        let ghost cv = cl@;
                        out.push(cl);
                        proof {
                            assert(files_view(out@) =~= ob.push(cv));
                        }
                    }
                    k = k + 1;
                }
                proof {
                    assert(v.levels[l as int].files.take(v.levels[l as int].files.len() as int)
                        =~= v.levels[l as int].files);
                    assert(files_view(out@) =~= spec_column_files(
                        v.levels.take(l as int + 1),
                        fids,
                        tr,
                    ));
                }
            } else {
                proof {
                    assert(files_view(out@) =~= spec_column_files(
                        v.levels.take(l as int + 1),
                        fids,
                        tr,
                    ));
                }
            }
            l = l + 1;
        }
        proof {
            assert(v.levels.take(5) =~= v.levels);
        }
        out
    }

    /// Placeholder kept from the engine's interface: no per-level overlap
    /// query is offered yet, so the result is always empty.
    pub fn get_ts_overlap(&self, level: u32, ts_min: i64, ts_max: i64) -> (r: Vec<ColumnFile>)
        ensures
            r@.len() == 0,
    {
        Vec::new()
    }
}

/// Two file sequences sorted strictly by id with the same multiset are the
/// same sequence.
pub proof fn lemma_sorted_by_id_unique(x: Seq<ColumnFileV>, y: Seq<ColumnFileV>)
    requires
        files_sorted(x),
        files_sorted(y),
        x.to_multiset() == y.to_multiset(),
    ensures
        x == y,
    decreases x.len(),
{
    broadcast use vstd::seq_lib::group_to_multiset_ensures;
    broadcast use vstd::multiset::group_multiset_axioms;

    if x.len() == 0 || y.len() == 0 {
        assert(x.to_multiset().len() == x.len());
        assert(y.to_multiset().len() == y.len());
        assert(x.to_multiset().len() == y.to_multiset().len());
        assert(x.len() == 0 && y.len() == 0);
        assert(x =~= y);
    } else {
        assert(y.to_multiset().contains(y[0]));
        assert(x.to_multiset().contains(y[0]));
        assert(x.contains(y[0]));
        let i = choose|i: int| 0 <= i < x.len() && x[i] == y[0];
        assert(x.to_multiset().contains(x[0]));
        assert(y.to_multiset().contains(x[0]));
        assert(y.contains(x[0]));
        let j = choose|j: int| 0 <= j < y.len() && y[j] == x[0];
        if i > 0 && j > 0 {
            assert(x[0].file_id < x[i].file_id);
            assert(y[0].file_id < y[j].file_id);
            assert(false);
        }
        assert(x[0] == y[0]);
        assert(x.drop_first().to_multiset() =~= x.to_multiset().remove(x[0])) by {
            assert(x.remove(0) =~= x.drop_first());
        }
        assert(y.drop_first().to_multiset() =~= y.to_multiset().remove(y[0])) by {
            assert(y.remove(0) =~= y.drop_first());
        }
        assert(files_sorted(x.drop_first()));
        assert(files_sorted(y.drop_first()));
        lemma_sorted_by_id_unique(x.drop_first(), y.drop_first());
        assert(x =~= Seq::<ColumnFileV>::empty().push(x[0]) + x.drop_first());
        assert(y =~= Seq::<ColumnFileV>::empty().push(y[0]) + y.drop_first());
        assert(x =~= y);
    }
}

/// The greatest file timestamp of a level set is unique.
pub proof fn lemma_max_level_ts_unique(levels: Seq<LevelInfoV>, a: i64, b: i64)
    requires
        is_max_level_ts(levels, a),
        is_max_level_ts(levels, b),
    ensures
        a == b,
{
}

/// Law: applying an edit list is pure. Two results of applying the same
/// edits and sequence number to the same version are equal.
pub proof fn lemma_copy_apply_deterministic(
    v: VersionV,
    edits: Seq<VersionEditV>,
    last_seq: Option<u64>,
    r1: VersionV,
    r2: VersionV,
)
    requires
        is_applied_version(v, edits, last_seq, r1),
        is_applied_version(v, edits, last_seq, r2),
    ensures
        r1 == r2,
{
    assert forall|l: int| 0 <= l < 5 implies #[trigger] r1.levels[l] == r2.levels[l] by {
        assert(is_applied_level(v, l, edits, r1.levels[l]));
        assert(is_applied_level(v, l, edits, r2.levels[l]));
        lemma_sorted_by_id_unique(r1.levels[l].files, r2.levels[l].files);
        crate::level_info::lemma_merged_range_unique(
            r1.levels[l].files,
            r1.levels[l].time_range,
            r2.levels[l].time_range,
        );
        assert(r1.levels[l].cur_size == r2.levels[l].cur_size);
    }
    assert(r1.levels =~= r2.levels);
    lemma_max_level_ts_unique(r1.levels, r1.max_level_ts, r2.max_level_ts);
}

/// Law: after applying edits, every file removed by a `del_files` entry
/// comes back marked deleted, it is gone from its level unless an added
/// entry reuses its id, and every added meta's file stands in its target
/// level exactly once.
pub proof fn lemma_apply_deletes_and_adds(
    v: VersionV,
    edits: Seq<VersionEditV>,
    last_seq: Option<u64>,
    newv: VersionV,
    removed: Seq<ColumnFileV>,
)
    requires
        v.wf(),
        edits_applicable(v, edits),
        is_applied_version(v, edits, last_seq, newv),
        removed == removed_all(v.levels, edits),
    ensures
        forall|i: int| 0 <= i < removed.len() ==> (#[trigger] removed[i]).deleted,
        forall|l: int, k: int|
            0 <= l < 5 && 0 <= k < v.levels[l].files.len() && edits_delete(
                edits,
                l as u32,
                (#[trigger] v.levels[l].files[k]).file_id,
            ) && !metas_have_id(added_metas(edits, l as u32), v.levels[l].files[k].file_id)
                ==> !files_has_id(newv.levels[l].files, v.levels[l].files[k].file_id),
        forall|l: int, k: int|
            0 <= l < 5 && 0 <= k < v.levels[l].files.len() && edits_delete(
                edits,
                l as u32,
                (#[trigger] v.levels[l].files[k]).file_id,
            ) ==> removed.contains(ColumnFileV { deleted: true, ..v.levels[l].files[k] }),
        forall|l: u32, i: int|
            l < 5 && 0 <= i < added_metas(edits, l).len()
                ==> newv.levels[l as int].files.to_multiset().count(
                spec_added_file(#[trigger] added_metas(edits, l)[i], v),
            ) == 1,
{
    broadcast use vstd::seq_lib::group_to_multiset_ensures;
    broadcast use vstd::multiset::group_multiset_axioms;

    lemma_removed_all_props(v.levels, edits, v);
    assert forall|l: int, k: int|
        0 <= l < 5 && 0 <= k < v.levels[l].files.len() && edits_delete(
            edits,
            l as u32,
            (#[trigger] v.levels[l].files[k]).file_id,
        ) && !metas_have_id(added_metas(edits, l as u32), v.levels[l].files[k].file_id) implies !files_has_id(
        newv.levels[l].files,
        v.levels[l].files[k].file_id,
    ) by {
        let id = v.levels[l].files[k].file_id;
        if files_has_id(newv.levels[l].files, id) {
            let k0 = choose|k0: int|
                0 <= k0 < newv.levels[l].files.len() && (#[trigger] newv.levels[l].files[k0]).file_id
                    == id;
            let x = newv.levels[l].files[k0];
            assert(newv.levels[l].files.contains(x));
            assert(newv.levels[l].files.to_multiset().count(x) > 0);
            let pkeep = |f: ColumnFileV| !edits_delete(edits, l as u32, f.file_id);
            let survivors = survivors_of(v.levels[l].files, edits, l as u32);
            let addedf = added_metas(edits, l as u32).map_values(
                |m: CompactMeta| spec_added_file(m, v),
            );
            if survivors.to_multiset().count(x) > 0 {
                assert(survivors.contains(x));
                let i1 = choose|i1: int| 0 <= i1 < survivors.len() && survivors[i1] == x;
                survivors.lemma_filter_pred(pkeep, i1);
                assert(!edits_delete(edits, l as u32, x.file_id));
            } else {
                assert(addedf.to_multiset().count(x) > 0);
                assert(addedf.contains(x));
                let j0 = choose|j0: int| 0 <= j0 < addedf.len() && addedf[j0] == x;
                assert(spec_added_file(added_metas(edits, l as u32)[j0], v) == x);
                assert(added_metas(edits, l as u32)[j0].file_id == id);
            }
            assert(false);
        }
    }
    assert forall|l: u32, i: int|
        l < 5 && 0 <= i < added_metas(edits, l).len() implies newv.levels[l as int].files
        .to_multiset().count(spec_added_file(#[trigger] added_metas(edits, l)[i], v)) == 1 by {
        let m = added_metas(edits, l)[i];
        let x = spec_added_file(m, v);
        let survivors = survivors_of(v.levels[l as int].files, edits, l);
        let addedf = added_metas(edits, l).map_values(|m0: CompactMeta| spec_added_file(m0, v));
        assert(survivors.to_multiset().count(x) == 0) by {
            if survivors.to_multiset().count(x) > 0 {
                assert(survivors.contains(x));
                let i1 = choose|i1: int| 0 <= i1 < survivors.len() && survivors[i1] == x;
                assert(files_has_id(survivors, m.file_id));
            }
        }
        assert(addedf.to_multiset().count(x) == 1) by {
            assert(addedf[i] == x);
            lemma_count_of_unique_entry(addedf, i, x);
            assert forall|j: int| 0 <= j < addedf.len() && j != i implies addedf[j] != x by {
                if addedf[j] == x {
                    assert(spec_added_file(added_metas(edits, l)[j], v) == x);
                    assert(added_metas(edits, l)[j].file_id == m.file_id);
                }
            }
            lemma_count_of_unique_entry(addedf, i, x);
        }
    }
}

/// Whether one of the metas carries `file_id`.
pub open spec fn metas_have_id(metas: Seq<CompactMeta>, file_id: u64) -> bool {
    exists|i: int| 0 <= i < metas.len() && (#[trigger] metas[i]).file_id == file_id
}

/// An element that occurs at exactly one index has multiset count one.
proof fn lemma_count_of_unique_entry(s: Seq<ColumnFileV>, i: int, x: ColumnFileV)
    requires
        0 <= i < s.len(),
        s[i] == x,
        forall|j: int| 0 <= j < s.len() && j != i ==> s[j] != x,
    ensures
        s.to_multiset().count(x) == 1,
{
    broadcast use vstd::seq_lib::group_to_multiset_ensures;
    broadcast use vstd::multiset::group_multiset_axioms;

    assert(s.remove(i).to_multiset() =~= s.to_multiset().remove(s[i]));
    assert(!s.remove(i).contains(x)) by {
        if s.remove(i).contains(x) {
            let j = choose|j: int| 0 <= j < s.remove(i).len() && s.remove(i)[j] == x;
            if j < i {
                assert(s[j] == x);
            } else {
                assert(s[j + 1] == x);
            }
        }
    }
    assert(s.remove(i).to_multiset().count(x) == 0);
    assert(s.contains(x));
    assert(s.to_multiset().count(x) > 0);
}

/// Every entry of the removed list is marked deleted, and every file a
/// `del_files` entry names is in it.
proof fn lemma_removed_all_props(levels: Seq<LevelInfoV>, edits: Seq<VersionEditV>, v: VersionV)
    requires
        levels == v.levels,
        v.wf(),
    ensures
        forall|i: int|
            0 <= i < removed_all(levels, edits).len() ==> (#[trigger] removed_all(
                levels,
                edits,
            )[i]).deleted,
        forall|l: int, k: int|
            0 <= l < levels.len() && 0 <= k < levels[l].files.len() && edits_delete(
                edits,
                levels[l].level,
                (#[trigger] levels[l].files[k]).file_id,
            ) ==> removed_all(levels, edits).contains(
                ColumnFileV { deleted: true, ..levels[l].files[k] },
            ),
{
    lemma_removed_all_props_rec(levels, edits);
}

proof fn lemma_removed_all_props_rec(levels: Seq<LevelInfoV>, edits: Seq<VersionEditV>)
    ensures
        forall|i: int|
            0 <= i < removed_all(levels, edits).len() ==> (#[trigger] removed_all(
                levels,
                edits,
            )[i]).deleted,
        forall|l: int, k: int|
            0 <= l < levels.len() && 0 <= k < levels[l].files.len() && edits_delete(
                edits,
                levels[l].level,
                (#[trigger] levels[l].files[k]).file_id,
            ) ==> removed_all(levels, edits).contains(
                ColumnFileV { deleted: true, ..levels[l].files[k] },
            ),
    decreases levels.len(),
{
    if levels.len() > 0 {
        lemma_removed_all_props_rec(levels.drop_last(), edits);
        let front = removed_all(levels.drop_last(), edits);
        let lastlv = levels.last();
        let pdel = |f: ColumnFileV| edits_delete(edits, lastlv.level, f.file_id);
        let back = lastlv.files.filter(pdel).map_values(
            |f: ColumnFileV| ColumnFileV { deleted: true, ..f },
        );
        assert forall|i: int|
            0 <= i < removed_all(levels, edits).len() implies (#[trigger] removed_all(
            levels,
            edits,
        )[i]).deleted by {
            if i < front.len() {
                assert(removed_all(levels, edits)[i] == front[i]);
            } else {
                let j = i - front.len();
                assert(removed_all(levels, edits)[i] == back[j]);
                assert(back[j] == (ColumnFileV { deleted: true, ..lastlv.files.filter(pdel)[j] }));
            }
        }
        assert forall|l: int, k: int|
            0 <= l < levels.len() && 0 <= k < levels[l].files.len() && edits_delete(
                edits,
                levels[l].level,
                (#[trigger] levels[l].files[k]).file_id,
            ) implies removed_all(levels, edits).contains(
            ColumnFileV { deleted: true, ..levels[l].files[k] },
        ) by {
            if l < levels.len() - 1 {
                assert(levels.drop_last()[l] == levels[l]);
                assert(front.contains(ColumnFileV { deleted: true, ..levels[l].files[k] }));
                let i0 = choose|i0: int|
                    0 <= i0 < front.len() && front[i0] == (ColumnFileV {
                        deleted: true,
                        ..levels[l].files[k]
                    });
                assert(removed_all(levels, edits)[i0] == front[i0]);
            } else {
                let f = levels[l].files[k];
                assert(pdel(f));
                lastlv.files.lemma_filter_contains(pdel, k);
                assert(lastlv.files.filter(pdel).contains(f));
                let i1 = choose|i1: int|
                    0 <= i1 < lastlv.files.filter(pdel).len() && lastlv.files.filter(pdel)[i1]
                        == f;
                assert(back[i1] == (ColumnFileV { deleted: true, ..f }));
                assert(removed_all(levels, edits)[front.len() + i1] == back[i1]);
            }
        }
    }
}

/// Filtering the empty sequence gives the empty sequence.
proof fn lemma_filter_empty<A>(p: spec_fn(A) -> bool)
    ensures
        Seq::<A>::empty().filter(p) == Seq::<A>::empty(),
{
    reveal(Seq::filter);
}

/// One step of filtering a prefix: the element enters iff it matches.
pub proof fn lemma_filter_take_step<A>(s: Seq<A>, p: spec_fn(A) -> bool, j: int)
    requires
        0 <= j < s.len(),
    ensures
        p(s[j]) ==> s.take(j + 1).filter(p) == s.take(j).filter(p).push(s[j]),
        !p(s[j]) ==> s.take(j + 1).filter(p) == s.take(j).filter(p),
{
    reveal(Seq::filter);
    assert(s.take(j + 1).drop_last() =~= s.take(j));
    assert(s.take(j + 1).last() == s[j]);
}

/// The multiset of the empty sequence is empty.
proof fn lemma_to_multiset_empty<A>()
    ensures
        Seq::<A>::empty().to_multiset() == Multiset::<A>::empty(),
{
    broadcast use vstd::seq_lib::group_to_multiset_ensures;
    broadcast use vstd::multiset::group_multiset_axioms;

    assert forall|x: A| Seq::<A>::empty().to_multiset().count(x) == 0 by {
        assert(!Seq::<A>::empty().contains(x));
    }
    assert(Seq::<A>::empty().to_multiset() =~= Multiset::<A>::empty());
}

/// Pushing to a sequence inserts into its multiset.
proof fn lemma_to_multiset_push(s: Seq<ColumnFileV>, f: ColumnFileV)
    ensures
        s.push(f).to_multiset() == s.to_multiset().insert(f),
{
    broadcast use vstd::seq_lib::group_to_multiset_ensures;
    broadcast use vstd::multiset::group_multiset_axioms;

    assert(s.push(f).to_multiset() =~= s.to_multiset().insert(f));
}

} // verus!
