//! The flush/compaction request pipeline: the request records handed to the
//! workers, and the leveled compaction picker.

use vstd::prelude::*;
use crate::column_file::{ColumnFile, ColumnFileV};
use crate::level_info::files_view;
use crate::memcache::{MemCache, MemCacheV};
use crate::options::StorageOptions;
use crate::version::{levels_view, Version};

verus! {

/// A request to persist immutable buffers: one entry per (vnode, buffer).
#[derive(Debug)]
pub struct FlushReq {
    pub mems: Vec<(u32, MemCache)>,
}

/// The values of the request entries.
pub open spec fn mems_view(mems: Seq<(u32, MemCache)>) -> Seq<(u32, MemCacheV)> {
    mems.map_values(|p: (u32, MemCache)| (p.0, p.1@))
}

impl FlushReq {
    pub fn new(mems: Vec<(u32, MemCache)>) -> (r: Self)
        ensures
            mems_view(r.mems@) == mems_view(mems@),
    {
        Self { mems }
    }
}

/// A request to rewrite the chosen input files into `out_level`.
#[derive(Debug)]
pub struct CompactReq {
    pub ts_family_id: u32,
    pub database: String,
    pub storage_opt: StorageOptions,
    pub files: Vec<ColumnFile>,
    pub version: Version,
    pub out_level: u32,
}

/// The weight of a level for picking: its fill ratio `cur_size / max_size`,
/// compared without division as `cur_a * max_b >= cur_b * max_a`.
pub open spec fn ratio_at_least(cur_a: u64, max_a: u64, cur_b: u64, max_b: u64) -> bool {
    cur_a * max_b >= cur_b * max_a
}

/// Whether a level holds at least one file that is neither deleted nor
/// already feeding a compaction.
pub open spec fn level_eligible(files: Seq<ColumnFileV>) -> bool {
    exists|i: int|
        0 <= i < files.len() && !(#[trigger] files[i]).compacting && !files[i].deleted
}

/// The first eligible file with the smallest `min_ts` in a level.
pub open spec fn is_picked_file(files: Seq<ColumnFileV>, k: int) -> bool {
    &&& 0 <= k < files.len()
    &&& !files[k].compacting
    &&& !files[k].deleted
    &&& forall|i: int|
        0 <= i < files.len() && !(#[trigger] files[i]).compacting && !files[i].deleted
            ==> files[k].time_range.min_ts <= files[i].time_range.min_ts
    &&& forall|i: int|
        0 <= i < k && !(#[trigger] files[i]).compacting && !files[i].deleted
            ==> files[k].time_range.min_ts < files[i].time_range.min_ts
}

/// Cross-multiplied fill-ratio comparison is transitive.
proof fn lemma_ratio_trans(cl: u64, ml: u64, cb: u64, mb: u64, c2: u64, m2: u64)
    requires
        cl * mb > cb * ml,
        cb * m2 >= c2 * mb,
    ensures
        cl * m2 >= c2 * ml,
{
    assert(cl * m2 >= c2 * ml) by (nonlinear_arith)
        requires
            cl * mb > cb * ml,
            cb * m2 >= c2 * mb,
            cl >= 0,
            ml >= 0,
            cb >= 0,
            mb >= 0,
            c2 >= 0,
            m2 >= 0,
    ;
}

/// The leveled compaction picker of the engine.
#[derive(Debug, Clone, Copy, PartialEq, Eq, Structural)]
pub struct LevelCompactionPicker {
    pub dummy: bool,
}

impl LevelCompactionPicker {
    pub fn new() -> (r: Self)
        ensures
            r == (LevelCompactionPicker { dummy: false }),
    {
        Self { dummy: false }
    }

    /// Picks a compaction: the level with the greatest fill ratio among the
    /// input levels that still hold an eligible file; within it, the
    /// eligible file with the smallest `min_ts`; extended by every eligible
    /// file of the next level whose range overlaps it. Returns nothing when
    /// no input level holds an eligible file.
    pub fn pick_compaction(&self, version: &Version) -> (r: Option<CompactReq>)
        requires
            version.wf(),
        ensures
            match r {
                Some(req) => {
                    let l = req.out_level - 1;
                    &&& 1 <= req.out_level <= 4
                    &&& level_eligible(version@.levels[l as int].files)
                    &&& forall|l2: int|
                        0 <= l2 < 4 && level_eligible(
                            (#[trigger] version@.levels[l2]).files,
                        ) ==> ratio_at_least(
                            version@.levels[l as int].cur_size,
                            version@.levels[l as int].max_size,
                            version@.levels[l2].cur_size,
                            version@.levels[l2].max_size,
                        )
                    &&& req.files@.len() >= 1
                    &&& is_picked_file(version@.levels[l as int].files, choose|k: int|
                        0 <= k < version@.levels[l as int].files.len()
                            && version@.levels[l as int].files[k] == files_view(req.files@)[0])
                    &&& version@.levels[l as int].files.contains(files_view(req.files@)[0])
                    &&& forall|i: int|
                        1 <= i < req.files@.len() ==> version@.levels[req.out_level as int].files
                            .contains(#[trigger] files_view(req.files@)[i])
                            && files_view(req.files@)[i].time_range.spec_overlaps(
                            files_view(req.files@)[0].time_range,
                        )
                    &&& req.ts_family_id == version@.ts_family_id
                    &&& req.database@ == version@.database
                    &&& req.version@ == version@
                },
                None => forall|l2: int|
                    0 <= l2 < 4 ==> !level_eligible((#[trigger] version@.levels[l2]).files),
            },
    {
        let ghost v = version@;
        // Choose the fullest eligible input level.
        let mut best: Option<usize> = None;
        let mut l: usize = 0;
        while l < 4
            invariant
                l <= 4,
                v == version@,
                version.wf(),
                match best {
                    Some(b) => b < l && level_eligible(v.levels[b as int].files) && forall|
                        l2: int,
                    |
                        0 <= l2 < l && level_eligible((#[trigger] v.levels[l2]).files)
                            ==> ratio_at_least(
                            v.levels[b as int].cur_size,
                            v.levels[b as int].max_size,
                            v.levels[l2].cur_size,
                            v.levels[l2].max_size,
                        ),
                    None => forall|l2: int|
                        0 <= l2 < l ==> !level_eligible((#[trigger] v.levels[l2]).files),
                },
            decreases 4 - l,
        {
            proof {
                assert(levels_view(version.levels_info@)[l as int]
                    == version.levels_info@[l as int]@);
            }
            let level_ref = &version.levels_info[l];
            let mut has_candidate = false;
            let mut k: usize = 0;
            while k < level_ref.files.len()
                invariant
                    k <= level_ref.files@.len(),
                    level_ref@ == v.levels[l as int],
                    has_candidate == exists|i: int|
                        0 <= i < k && !(#[trigger] v.levels[l as int].files[i]).compacting && !v.levels[l as int].files[i].deleted,
                decreases level_ref.files@.len() - k,
            {
                proof {
                    assert(files_view(level_ref.files@)[k as int] == level_ref.files@[k as int]@);
                }
                if !level_ref.files[k].compacting && !level_ref.files[k].deleted {
                    has_candidate = true;
                    proof {
                        assert(!(v.levels[l as int].files[k as int]).compacting && !v.levels[
                            l as int].files[k as int].deleted);
                    }
                }
                k = k + 1;
            }
            if has_candidate {
                match best {
                    None => {
                        best = Some(l);
                    },
                    Some(b) => {
                        proof {
                            assert(levels_view(version.levels_info@)[b as int]
                                == version.levels_info@[b as int]@);
                        }
                        let cur_l = version.levels_info[l].cur_size;
                        let max_l = version.levels_info[l].max_size;
                        let cur_b = version.levels_info[b].cur_size;
                        let max_b = version.levels_info[b].max_size;
                        proof {
                            assert((cur_l as u128) as int * ((max_b as u128) as int)
                                <= u128::MAX) by (nonlinear_arith)
                                requires
                                    cur_l <= u64::MAX,
                                    max_b <= u64::MAX,
                            ;
                            assert((cur_b as u128) as int * ((max_l as u128) as int)
                                <= u128::MAX) by (nonlinear_arith)
                                requires
                                    cur_b <= u64::MAX,
                                    max_l <= u64::MAX,
                            ;
                        }
                        if (cur_l as u128) * (max_b as u128) > (cur_b as u128) * (max_l as u128) {
                            proof {
                                assert(cur_l * max_b > cur_b * max_l);
                                assert forall|l2: int|
                                    0 <= l2 < l + 1 && level_eligible(
                                        (#[trigger] v.levels[l2]).files,
                                    ) implies ratio_at_least(
                                    cur_l,
                                    max_l,
                                    v.levels[l2].cur_size,
                                    v.levels[l2].max_size,
                                ) by {
                                    if l2 < l {
                                        lemma_ratio_trans(
                                            cur_l,
                                            max_l,
                                            cur_b,
                                            max_b,
                                            v.levels[l2].cur_size,
                                            v.levels[l2].max_size,
                                        );
                                    }
                                }
                            }
                            best = Some(l);
                        }
                    },
                }
            }
            l = l + 1;
        }
        let picked_level = match best {
            None => {
                return None;
            },
            Some(b) => b,
        };
        proof {
            assert(levels_view(version.levels_info@)[picked_level as int]
                == version.levels_info@[picked_level as int]@);
        }
        // The eligible file with the smallest min_ts in the picked level.
        let level_ref = &version.levels_info[picked_level];
        let mut pick: Option<usize> = None;
        let mut k: usize = 0;
        while k < level_ref.files.len()
            invariant
                k <= level_ref.files@.len(),
                v == version@,
                version.wf(),
                picked_level < 4,
                level_ref@ == v.levels[picked_level as int],
                match pick {
                    Some(p) => {
                        &&& p < k
                        &&& !v.levels[picked_level as int].files[p as int].compacting
                        &&& !v.levels[picked_level as int].files[p as int].deleted
                        &&& forall|i: int|
                            0 <= i < k && !(
                            #[trigger] v.levels[picked_level as int].files[i]).compacting
                                && !v.levels[picked_level as int].files[i].deleted ==> v.levels[
                                picked_level as int].files[p as int].time_range.min_ts <= v.levels[
                                picked_level as int].files[i].time_range.min_ts
                        &&& forall|i: int|
                            0 <= i < p && !(
                            #[trigger] v.levels[picked_level as int].files[i]).compacting
                                && !v.levels[picked_level as int].files[i].deleted ==> v.levels[
                                picked_level as int].files[p as int].time_range.min_ts < v.levels[
                                picked_level as int].files[i].time_range.min_ts
                    },
                    None => forall|i: int|
                        0 <= i < k ==> (#[trigger] v.levels[picked_level as int].files[i]).compacting
                            || v.levels[picked_level as int].files[i].deleted,
                },
            decreases level_ref.files@.len() - k,
        {
            proof {
                assert(files_view(level_ref.files@)[k as int] == level_ref.files@[k as int]@);
            }
            let f = &level_ref.files[k];
            if !f.compacting && !f.deleted {
                match pick {
                    None => {
                        pick = Some(k);
                    },
                    Some(p) => {
                        proof {
                            assert(files_view(level_ref.files@)[p as int]
                                == level_ref.files@[p as int]@);
                        }
                        if f.time_range.min_ts < level_ref.files[p].time_range.min_ts {
                            pick = Some(k);
                        }
                    },
                }
            }
            k = k + 1;
        }
        let picked_ix = match pick {
            None => {
                // The level was eligible, so an eligible file exists.
                proof {
                    assert(level_eligible(v.levels[picked_level as int].files));
                    let i = choose|i: int|
                        0 <= i < v.levels[picked_level as int].files.len() && !(
                        #[trigger] v.levels[picked_level as int].files[i]).compacting && !v.levels[
                        picked_level as int].files[i].deleted;
                    assert(false);
                }
                return None;
            },
            Some(p) => p,
        };
        proof {
            assert(files_view(level_ref.files@)[picked_ix as int]
                == level_ref.files@[picked_ix as int]@);
        }
        let picked = level_ref.files[picked_ix].clone();
        let ghost pickedv = picked@;
        let picked_range = picked.time_range;
        let mut files: Vec<ColumnFile> = Vec::new();
        files.push(picked);
        // Extend by the overlapping eligible files of the next level.
        let out_level = picked_level + 1;
        proof {
            assert(levels_view(version.levels_info@)[out_level as int]
                == version.levels_info@[out_level as int]@);
        }
        let next_ref = &version.levels_info[out_level];
        let mut k2: usize = 0;
        while k2 < next_ref.files.len()
            invariant
                k2 <= next_ref.files@.len(),
                v == version@,
                out_level == picked_level + 1,
                picked_level < 4,
                next_ref@ == v.levels[out_level as int],
                pickedv.time_range == picked_range,
                files@.len() >= 1,
                files_view(files@)[0] == pickedv,
                forall|i: int|
                    1 <= i < files@.len() ==> v.levels[out_level as int].files.contains(
                        #[trigger] files_view(files@)[i],
                    ) && files_view(files@)[i].time_range.spec_overlaps(pickedv.time_range),
            decreases next_ref.files@.len() - k2,
        {
            proof {
                assert(files_view(next_ref.files@)[k2 as int] == next_ref.files@[k2 as int]@);
            }
            let f = &next_ref.files[k2];
            if !f.compacting && !f.deleted && f.overlap(&picked_range) {
                let ghost fb = files_view(files@);
                let cl = f.clone();
                let ghost cv = cl@;
                files.push(cl);
                proof {
                    assert(files_view(files@) =~= fb.push(cv));
                    assert(v.levels[out_level as int].files.contains(cv));
                }
            }
            k2 = k2 + 1;
        }
        let req = CompactReq {
            ts_family_id: version.ts_family_id,
            database: version.database.clone(),
            storage_opt: version.storage_opt.clone(),
            files,
            version: version.clone(),
            out_level: out_level as u32,
        };
        proof {
            let l = req.out_level - 1;
            assert(l == picked_level);
            assert(is_picked_file(v.levels[picked_level as int].files, picked_ix as int));
            assert(v.levels[picked_level as int].files[picked_ix as int] == files_view(
                req.files@,
            )[0]);
            let kk = choose|kk: int|
                0 <= kk < v.levels[l as int].files.len() && v.levels[l as int].files[kk]
                    == files_view(req.files@)[0];
            assert(kk == picked_ix as int) by {
                if kk != picked_ix as int {
                    assert(v.levels[l as int].wf());
                    assert(crate::level_info::files_sorted(v.levels[l as int].files));
                    assert(v.levels[l as int].files[kk].file_id == v.levels[l as int].files[
                        picked_ix as int].file_id);
                    assert(false);
                }
            }
        }
        Some(req)
    }
}

} // verus!
