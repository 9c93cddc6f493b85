//! The vnode (time-series family): the sole mutable buffer, the ordered
//! immutable buffers, the current `Version`, and the published
//! `SuperVersion` snapshot. Publication is a value: a reader that takes the
//! snapshot keeps it unchanged whatever the writer does afterwards, and the
//! snapshot number strictly increases on every publication.

use vstd::prelude::*;
use crate::channel::send_flush_req;
use crate::compaction::{mems_view, CompactReq, FlushReq, LevelCompactionPicker};
use crate::memcache::{
    mcv_wf, spec_add_column_mc, spec_change_column_mc, spec_delete_columns_mc,
    spec_delete_series_mc, spec_write_mc, all_groups_wf, MemCache, MemCacheV, RowGroup,
    RowGroupV, SeriesEntryV,
};
use crate::options::{CacheOptions, StorageOptions, StorageOptionsV};
use crate::schema::TableColumn;
use crate::summary::{CompactMeta, VersionEdit};
use crate::timerange::TimeRange;
use crate::version::{levels_view, Version, VersionV};

verus! {

/// The caches a snapshot carries: the mutable buffer and the immutable
/// buffers as of publication.
#[derive(Debug)]
pub struct CacheGroup {
    pub mut_cache: MemCache,
    pub immut_cache: Vec<MemCache>,
}

/// The mathematical value of a `CacheGroup`.
pub ghost struct CacheGroupV {
    pub mut_cache: MemCacheV,
    pub immut_cache: Seq<MemCacheV>,
}

/// The values of a buffer list.
pub open spec fn caches_view(caches: Seq<MemCache>) -> Seq<MemCacheV> {
    caches.map_values(|m: MemCache| m@)
}

impl View for CacheGroup {
    type V = CacheGroupV;

    open spec fn view(&self) -> CacheGroupV {
        CacheGroupV {
            mut_cache: self.mut_cache@,
            immut_cache: caches_view(self.immut_cache@),
        }
    }
}

fn clone_cache_list(caches: &Vec<MemCache>) -> (r: Vec<MemCache>)
    ensures
        caches_view(r@) == caches_view(caches@),
{
    let mut out: Vec<MemCache> = Vec::new();
    let mut i: usize = 0;
    while i < caches.len()
        invariant
            i <= caches@.len(),
            caches_view(out@) =~= caches_view(caches@).take(i as int),
        decreases caches@.len() - i,
    {
        proof {
            assert(caches_view(caches@)[i as int] == caches@[i as int]@);
        }
        let ghost ob = caches_view(out@);
        let m = caches[i].clone();
        let ghost mv = m@;
        out.push(m);
        proof {
            assert(caches_view(out@) =~= ob.push(mv));
            assert(caches_view(out@) =~= caches_view(caches@).take(i + 1));
        }
        i = i + 1;
    }
    proof {
        assert(caches_view(out@) =~= caches_view(caches@));
    }
    out
}

impl Clone for CacheGroup {
    /// A clone carries the same mathematical value as the original.
    fn clone(&self) -> (r: Self)
        ensures
            r@ == self@,
    {
        Self {
            mut_cache: self.mut_cache.clone(),
            immut_cache: clone_cache_list(&self.immut_cache),
        }
    }
}

/// One published snapshot: the tuple a reader works against. It is a value,
/// frozen at publication; later writes and rotations leave it untouched.
#[derive(Debug)]
pub struct SuperVersion {
    pub ts_family_id: u32,
    pub storage_opt: StorageOptions,
    pub caches: CacheGroup,
    pub version: Version,
    pub version_number: u64,
}

/// The mathematical value of a `SuperVersion`.
pub ghost struct SuperVersionV {
    pub ts_family_id: u32,
    pub storage: StorageOptionsV,
    pub caches: CacheGroupV,
    pub version: VersionV,
    pub version_number: u64,
}

impl View for SuperVersion {
    type V = SuperVersionV;

    open spec fn view(&self) -> SuperVersionV {
        SuperVersionV {
            ts_family_id: self.ts_family_id,
            storage: self.storage_opt@,
            caches: self.caches@,
            version: self.version@,
            version_number: self.version_number,
        }
    }
}

impl Clone for SuperVersion {
    /// A clone carries the same mathematical value as the original.
    fn clone(&self) -> (r: Self)
        ensures
            r@ == self@,
    {
        Self {
            ts_family_id: self.ts_family_id,
            storage_opt: self.storage_opt.clone(),
            caches: self.caches.clone(),
            version: self.version.clone(),
            version_number: self.version_number,
        }
    }
}

impl SuperVersion {
    pub fn new(
        ts_family_id: u32,
        storage_opt: StorageOptions,
        caches: CacheGroup,
        version: Version,
        version_number: u64,
    ) -> (r: Self)
        ensures
            r@ == (SuperVersionV {
                ts_family_id,
                storage: storage_opt@,
                caches: caches@,
                version: version@,
                version_number,
            }),
    {
        Self { ts_family_id, storage_opt, caches, version, version_number }
    }
}

/// The mathematical value of a `TseriesFamily` (the flush channel handle is
/// opaque and carries no value).
pub ghost struct TseriesFamilyV {
    pub tf_id: u32,
    pub database: Seq<char>,
    pub mut_cache: MemCacheV,
    pub immut_cache: Seq<MemCacheV>,
    pub super_version: SuperVersionV,
    pub super_version_id: u64,
    pub version: VersionV,
    pub cache_opt: CacheOptions,
    pub storage: StorageOptionsV,
    pub seq_no: u64,
    pub immut_ts_min: i64,
    pub mut_ts_max: i64,
}

/// A fresh empty mutable buffer for this vnode.
pub open spec fn spec_fresh_cache(t: TseriesFamilyV) -> MemCacheV {
    MemCacheV {
        tf_id: t.tf_id,
        flushed: false,
        flushing: false,
        max_size: t.cache_opt.max_buffer_size,
        seq_no: t.seq_no,
        max_seq: t.seq_no,
        cache_size: 0,
        series: Seq::<SeriesEntryV>::empty(),
    }
}

/// Publication: the snapshot number increases by one and a fresh snapshot of
/// the current caches is installed, carrying `version`.
pub open spec fn spec_publish(t: TseriesFamilyV, version: VersionV) -> TseriesFamilyV {
    TseriesFamilyV {
        super_version_id: (t.super_version_id + 1) as u64,
        super_version: SuperVersionV {
            ts_family_id: t.tf_id,
            storage: t.storage,
            caches: CacheGroupV { mut_cache: t.mut_cache, immut_cache: t.immut_cache },
            version,
            version_number: (t.super_version_id + 1) as u64,
        },
        ..t
    }
}

/// Rotation: the mutable buffer joins the immutable list, a fresh buffer
/// takes its place, and a new snapshot is published.
pub open spec fn spec_switch_to_immutable(t: TseriesFamilyV) -> TseriesFamilyV {
    spec_publish(
        TseriesFamilyV {
            immut_cache: t.immut_cache.push(t.mut_cache),
            mut_cache: spec_fresh_cache(t),
            ..t
        },
        t.version,
    )
}

/// Installing a recovered or replacement buffer: the old mutable buffer
/// joins the immutable list and a snapshot is published before the new
/// buffer takes over.
pub open spec fn spec_switch_memcache(t: TseriesFamilyV, c: MemCacheV) -> TseriesFamilyV {
    TseriesFamilyV {
        mut_cache: c,
        ..spec_publish(TseriesFamilyV { immut_cache: t.immut_cache.push(t.mut_cache), ..t }, t.version)
    }
}

/// Installing a new version: publish it, then adopt its sequence number.
pub open spec fn spec_new_version(t: TseriesFamilyV, v: VersionV) -> TseriesFamilyV {
    TseriesFamilyV { version: v, seq_no: v.last_seq, ..spec_publish(t, v) }
}

/// The immutable buffers that are not yet durable.
pub open spec fn spec_unflushed(s: Seq<MemCacheV>) -> Seq<MemCacheV> {
    s.filter(|m: MemCacheV| !m.flushed)
}

/// The sweep at the head of a flush request: durable buffers are reclaimed
/// (with a republication if any were), and the immutable floor rises to the
/// mutable ceiling.
pub open spec fn spec_flush_sweep(t: TseriesFamilyV) -> TseriesFamilyV {
    let kept = spec_unflushed(t.immut_cache);
    let t1 = if kept.len() != t.immut_cache.len() {
        spec_publish(TseriesFamilyV { immut_cache: kept, ..t }, t.version)
    } else {
        t
    };
    TseriesFamilyV { immut_ts_min: t.mut_ts_max, ..t1 }
}

/// The buffers eligible for the request: not yet handed to a flush.
pub open spec fn spec_candidates(s: Seq<MemCacheV>) -> Seq<MemCacheV> {
    s.filter(|m: MemCacheV| !m.flushing)
}

/// After emitting a request every immutable buffer is in flushing state.
pub open spec fn spec_mark_flushing(s: Seq<MemCacheV>) -> Seq<MemCacheV> {
    s.map_values(|m: MemCacheV| MemCacheV { flushing: true, ..m })
}

/// The full effect of `flush_req`: the state after it, and the request it
/// returns, if any.
pub open spec fn spec_flush_req(t: TseriesFamilyV, force: bool) -> (TseriesFamilyV, Option<
    Seq<(u32, MemCacheV)>,
>) {
    let t1 = spec_flush_sweep(t);
    let cands = spec_candidates(t1.immut_cache);
    if !force && cands.len() < t.cache_opt.max_immutable_number as int {
        (t1, None)
    } else {
        (
            TseriesFamilyV { immut_cache: spec_mark_flushing(t1.immut_cache), ..t1 },
            Some(
                cands.map_values(|m: MemCacheV| (t.tf_id, MemCacheV { flushing: true, ..m })),
            ),
        )
    }
}

/// The points of one write call, as values.
pub open spec fn points_view(points: Seq<((u32, u32), RowGroup)>) -> Seq<((u32, u32), RowGroupV)> {
    points.map_values(|p: ((u32, u32), RowGroup)| (p.0, p.1@))
}

/// The mutable buffer after writing a batch of row groups in order.
pub open spec fn spec_write_points(
    m: MemCacheV,
    seq: u64,
    pts: Seq<((u32, u32), RowGroupV)>,
) -> MemCacheV
    decreases pts.len(),
{
    if pts.len() == 0 {
        m
    } else {
        spec_write_mc(spec_write_points(m, seq, pts.drop_last()), pts.last().0.0, seq, pts.last().1)
    }
}

/// One vnode of the storage engine.
#[derive(Debug)]
pub struct TseriesFamily {
    pub tf_id: u32,
    pub database: String,
    pub mut_cache: MemCache,
    pub immut_cache: Vec<MemCache>,
    pub super_version: SuperVersion,
    pub super_version_id: u64,
    pub version: Version,
    pub cache_opt: CacheOptions,
    pub storage_opt: StorageOptions,
    pub compact_picker: LevelCompactionPicker,
    pub seq_no: u64,
    pub immut_ts_min: i64,
    pub mut_ts_max: i64,
    pub flush_task_sender: tokio::sync::mpsc::UnboundedSender<FlushReq>,
}

impl View for TseriesFamily {
    type V = TseriesFamilyV;

    open spec fn view(&self) -> TseriesFamilyV {
        TseriesFamilyV {
            tf_id: self.tf_id,
            database: self.database@,
            mut_cache: self.mut_cache@,
            immut_cache: caches_view(self.immut_cache@),
            super_version: self.super_version@,
            super_version_id: self.super_version_id,
            version: self.version@,
            cache_opt: self.cache_opt,
            storage: self.storage_opt@,
            seq_no: self.seq_no,
            immut_ts_min: self.immut_ts_min,
            mut_ts_max: self.mut_ts_max,
        }
    }
}

impl TseriesFamily {
    /// The vnode's invariant: well-formed buffers and version.
    pub open spec fn wf(self) -> bool {
        &&& mcv_wf(self@.mut_cache)
        &&& forall|i: int| 0 <= i < self@.immut_cache.len() ==> mcv_wf(#[trigger] self@.immut_cache[i])
        &&& self@.version.wf()
    }

    /// Opens a vnode around an initial buffer and version. The first
    /// snapshot carries number zero.
    pub fn new(
        tf_id: u32,
        database: String,
        cache: MemCache,
        version: Version,
        cache_opt: CacheOptions,
        storage_opt: StorageOptions,
        flush_task_sender: tokio::sync::mpsc::UnboundedSender<FlushReq>,
    ) -> (r: Self)
        requires
            cache.wf(),
            version.wf(),
        ensures
            r.wf(),
            r@.tf_id == tf_id,
            r@.database == database@,
            r@.mut_cache == cache@,
            r@.immut_cache == Seq::<MemCacheV>::empty(),
            r@.super_version == (SuperVersionV {
                ts_family_id: tf_id,
                storage: storage_opt@,
                caches: CacheGroupV {
                    mut_cache: cache@,
                    immut_cache: Seq::<MemCacheV>::empty(),
                },
                version: version@,
                version_number: 0,
            }),
            r@.super_version_id == 0,
            r@.version == version@,
            r@.cache_opt == cache_opt,
            r@.storage == storage_opt@,
            r@.seq_no == version@.last_seq,
            r@.immut_ts_min == version@.max_level_ts,
            r@.mut_ts_max == i64::MIN,
    {
        let seq = version.last_seq;
        let max_level_ts = version.max_level_ts;
        let sv_cache = cache.clone();
        let sv_version = version.clone();
        let r = Self {
            tf_id,
            database,
            seq_no: seq,
            mut_cache: cache,
            immut_cache: Vec::new(),
            super_version: SuperVersion::new(
                tf_id,
                storage_opt.clone(),
                CacheGroup { mut_cache: sv_cache, immut_cache: Vec::new() },
                sv_version,
                0,
            ),
            super_version_id: 0,
            version,
            cache_opt,
            storage_opt,
            compact_picker: LevelCompactionPicker::new(),
            immut_ts_min: max_level_ts,
            mut_ts_max: i64::MIN,
            flush_task_sender,
        };
        proof {
            assert(caches_view(r.immut_cache@) =~= Seq::<MemCacheV>::empty());
            assert(caches_view(r.super_version.caches.immut_cache@) =~= Seq::<
                MemCacheV,
            >::empty());
        }
        r
    }

    /// Publishes a fresh snapshot of the current caches under `version`.
    fn new_super_version(&mut self, version: Version)
        requires
            old(self)@.super_version_id < u64::MAX,
        ensures
            final(self)@ == spec_publish(old(self)@, version@),
            old(self).wf() && version.wf() ==> final(self).wf(),
    {
        self.super_version_id = self.super_version_id + 1;
        self.super_version = SuperVersion::new(
            self.tf_id,
            self.storage_opt.clone(),
            CacheGroup {
                mut_cache: self.mut_cache.clone(),
                immut_cache: clone_cache_list(&self.immut_cache),
            },
            version,
            self.super_version_id,
        );
        proof {
            assert(self@.immut_cache == old(self)@.immut_cache);
            assert(self@.mut_cache == old(self)@.mut_cache);
            assert(self@.version == old(self)@.version);
        }
    }

    /// Installs a new `Version`, publishes it, and adopts its sequence
    /// number.
    pub fn new_version(&mut self, new_version: Version)
        requires
            old(self)@.super_version_id < u64::MAX,
            new_version.wf(),
        ensures
            final(self)@ == spec_new_version(old(self)@, new_version@),
            old(self).wf() ==> final(self).wf(),
            final(self)@.super_version_id == old(self)@.super_version_id + 1,
    {
        let seq = new_version.last_seq;
        let version_for_publish = new_version.clone();
        self.new_super_version(version_for_publish);
        self.seq_no = seq;
        self.version = new_version;
    }

    /// Hands the current mutable buffer to the immutable list, publishes,
    /// and installs the given buffer as the new mutable one.
    pub fn switch_memcache(&mut self, cache: MemCache)
        requires
            old(self)@.super_version_id < u64::MAX,
            cache.wf(),
        ensures
            final(self)@ == spec_switch_memcache(old(self)@, cache@),
            old(self).wf() ==> final(self).wf(),
            final(self)@.super_version_id == old(self)@.super_version_id + 1,
    {
        let ghost before = caches_view(self.immut_cache@);
        let moved = self.mut_cache.clone();
        let ghost mv = moved@;
        self.immut_cache.push(moved);
        proof {
            assert(caches_view(self.immut_cache@) =~= before.push(mv));
        }
        let version = self.version.clone();
        self.new_super_version(version);
        self.mut_cache = cache;
    }

    /// Rotates the full mutable buffer into the immutable list, opens a
    /// fresh mutable buffer at the current sequence number, and publishes.
    pub fn switch_to_immutable(&mut self)
        requires
            old(self)@.super_version_id < u64::MAX,
        ensures
            final(self)@ == spec_switch_to_immutable(old(self)@),
            old(self).wf() ==> final(self).wf(),
            final(self)@.super_version_id == old(self)@.super_version_id + 1,
    {
        let ghost before = caches_view(self.immut_cache@);
        let moved = self.mut_cache.clone();
        let ghost mv = moved@;
        self.immut_cache.push(moved);
        proof {
            assert(caches_view(self.immut_cache@) =~= before.push(mv));
        }
        self.mut_cache = MemCache::new(self.tf_id, self.cache_opt.max_buffer_size, self.seq_no);
        let version = self.version.clone();
        self.new_super_version(version);
    }

    /// Writes a batch of row groups keyed by (series id, schema id) into the
    /// mutable buffer, in order.
    pub fn put_points(&mut self, seq: u64, points: Vec<((u32, u32), RowGroup)>)
        requires
            old(self).wf(),
        ensures
            final(self).wf(),
            final(self)@ == (TseriesFamilyV {
                mut_cache: spec_write_points(old(self)@.mut_cache, seq, points_view(points@)),
                ..old(self)@
            }),
    {
        let ghost pts = points_view(points@);
        let mut i: usize = 0;
        let n = points.len();
        let mut rest = points;
        while i < n
            invariant
                i <= pts.len(),
                n == pts.len(),
                rest@.len() == n,
                points_view(rest@) == pts,
                old(self).wf(),
                self.wf(),
                self@ == (TseriesFamilyV {
                    mut_cache: spec_write_points(
                        old(self)@.mut_cache,
                        seq,
                        pts.take(i as int),
                    ),
                    ..old(self)@
                }),
            decreases n - i,
        {
            proof {
                assert(points_view(rest@)[i as int] == (rest@[i as int].0, rest@[i as int].1@));
                assert(pts.take(i as int + 1).drop_last() =~= pts.take(i as int));
                assert(pts.take(i as int + 1).last() == pts[i as int]);
            }
            let sid = rest[i].0.0;
            let group = rest[i].1.clone();
            proof {
                assert(group@ == pts[i as int].1);
            }
            self.mut_cache.write_group(sid, seq, group);
            i = i + 1;
        }
        proof {
            assert(pts.take(pts.len() as int) =~= pts);
        }
    }

    /// If the mutable buffer is full, rotates it, and when the immutable
    /// list has reached the configured bound, emits a flush request.
    pub fn check_to_flush(&mut self)
        requires
            old(self).wf(),
            old(self)@.super_version_id + 2 <= u64::MAX,
        ensures
            old(self)@.mut_cache.cache_size < old(self)@.mut_cache.max_size ==> final(self)@
                == old(self)@,
            old(self)@.mut_cache.cache_size >= old(self)@.mut_cache.max_size ==> ({
                let t1 = spec_switch_to_immutable(old(self)@);
                if t1.immut_cache.len() >= old(self)@.cache_opt.max_immutable_number as int {
                    final(self)@ == spec_flush_req(t1, false).0
                } else {
                    final(self)@ == t1
                }
            }),
            final(self).wf(),
    {
        if self.mut_cache.is_full() {
            self.switch_to_immutable();
            if self.immut_cache.len() >= self.cache_opt.max_immutable_number as usize {
                self.wrap_flush_req(false);
            }
        }
    }

    /// Computes the flush request: reclaims durable immutable buffers
    /// (republishing when any were dropped), raises the immutable floor,
    /// and, unless the eligible buffers are too few and the request is not
    /// forced, marks them flushing and hands them out.
    pub fn flush_req(&mut self, force: bool) -> (r: Option<FlushReq>)
        requires
            old(self).wf(),
            old(self)@.super_version_id < u64::MAX,
        ensures
            final(self).wf(),
            final(self)@ == spec_flush_req(old(self)@, force).0,
            match r {
                Some(req) => spec_flush_req(old(self)@, force).1 == Some(mems_view(req.mems@)),
                None => spec_flush_req(old(self)@, force).1 == None::<Seq<(u32, MemCacheV)>>,
            },
    {
        let ghost t0 = self@;
        let ghost oldimmut = caches_view(self.immut_cache@);
        let ghost pk = |m: MemCacheV| !m.flushed;
        // Reclaim the buffers the flush worker has already persisted.
        let mut kept: Vec<MemCache> = Vec::new();
        let mut i: usize = 0;
        while i < self.immut_cache.len()
            invariant
                i <= oldimmut.len(),
                self == old(self),
                oldimmut == caches_view(self.immut_cache@),
                pk == (|m: MemCacheV| !m.flushed),
                caches_view(kept@) =~= oldimmut.take(i as int).filter(pk),
            decreases oldimmut.len() - i,
        {
            proof {
                assert(caches_view(self.immut_cache@)[i as int] == self.immut_cache@[i as int]@);
                crate::version::lemma_filter_take_step(oldimmut, pk, i as int);
            }
            if !self.immut_cache[i].flushed {
                let ghost kb = caches_view(kept@);
                let m = self.immut_cache[i].clone();
                let ghost mv = m@;
                kept.push(m);
                proof {
                    assert(caches_view(kept@) =~= kb.push(mv));
                }
            }
            i = i + 1;
        }
        proof {
            assert(oldimmut.take(oldimmut.len() as int) =~= oldimmut);
            assert(caches_view(kept@) =~= spec_unflushed(oldimmut));
        }
        proof {
            assert forall|j: int|
                0 <= j < spec_unflushed(oldimmut).len() implies mcv_wf(
                #[trigger] spec_unflushed(oldimmut)[j],
            ) by {
                let x = spec_unflushed(oldimmut)[j];
                assert(spec_unflushed(oldimmut).contains(x));
                oldimmut.lemma_filter_contains_rev(pk, x);
                let j0 = choose|j0: int| 0 <= j0 < oldimmut.len() && oldimmut[j0] == x;
                assert(mcv_wf(old(self)@.immut_cache[j0]));
            }
        }
        let changed = kept.len() != self.immut_cache.len();
        self.immut_cache = kept;
        if changed {
            let version = self.version.clone();
            self.new_super_version(version);
        } else {
            proof {
                assert(caches_view(self.immut_cache@) =~= oldimmut) by {
                    lemma_filter_same_len(oldimmut, pk);
                }
                assert(self@ == t0);
            }
        }
        self.immut_ts_min = self.mut_ts_max;
        let ghost t1 = spec_flush_sweep(t0);
        proof {
            assert(self@ == t1);
        }
        // Count the buffers not yet feeding a flush.
        let ghost ck = |m: MemCacheV| !m.flushing;
        let mut count: usize = 0;
        let mut j: usize = 0;
        while j < self.immut_cache.len()
            invariant
                j <= caches_view(self.immut_cache@).len(),
                self@ == t1,
                ck == (|m: MemCacheV| !m.flushing),
                count == caches_view(self.immut_cache@).take(j as int).filter(ck).len(),
            decreases caches_view(self.immut_cache@).len() - j,
        {
            proof {
                assert(caches_view(self.immut_cache@)[j as int] == self.immut_cache@[j as int]@);
                crate::version::lemma_filter_take_step(
                    caches_view(self.immut_cache@),
                    ck,
                    j as int,
                );
            }
            if !self.immut_cache[j].flushing {
                count = count + 1;
            }
            j = j + 1;
        }
        proof {
            let s = caches_view(self.immut_cache@);
            assert(s.take(s.len() as int) =~= s);
            assert(count == spec_candidates(t1.immut_cache).len());
        }
        proof {
            assert(self.wf());
        }
        if !force && count < self.cache_opt.max_immutable_number as usize {
            return None;
        }
        // Mark every eligible buffer and collect the request entries.
        let ghost immut1 = caches_view(self.immut_cache@);
        let mut req_mems: Vec<(u32, MemCache)> = Vec::new();
        let mut k: usize = 0;
        let n = self.immut_cache.len();
        while k < n
            invariant
                k <= immut1.len(),
                n == immut1.len(),
                self@ == (TseriesFamilyV { immut_cache: caches_view(self.immut_cache@), ..t1 }),
                immut1 == t1.immut_cache,
                ck == (|m: MemCacheV| !m.flushing),
                caches_view(self.immut_cache@).len() == immut1.len(),
                forall|j0: int|
                    k <= j0 < immut1.len() ==> (#[trigger] caches_view(self.immut_cache@)[j0])
                        == immut1[j0],
                forall|j0: int|
                    0 <= j0 < k ==> (#[trigger] caches_view(self.immut_cache@)[j0])
                        == (MemCacheV { flushing: true, ..immut1[j0] }),
                forall|j0: int| 0 <= j0 < immut1.len() ==> mcv_wf(#[trigger] immut1[j0]),
                mcv_wf(t1.mut_cache),
                t1.version.wf(),
                mems_view(req_mems@) =~= immut1.take(k as int).filter(ck).map_values(
                    |m: MemCacheV| (t1.tf_id, MemCacheV { flushing: true, ..m }),
                ),
                t1.tf_id == self.tf_id,
            decreases n - k,
        {
            proof {
                assert(caches_view(self.immut_cache@)[k as int] == self.immut_cache@[k as int]@);
                crate::version::lemma_filter_take_step(immut1, ck, k as int);
            }
            let ghost before = caches_view(self.immut_cache@);
            let was_flushing = self.immut_cache[k].flushing;
            let mut m = self.immut_cache.remove(k);
            m.flushing = true;
            let ghost mv = m@;
            if !was_flushing {
                let ghost rb = mems_view(req_mems@);
                let mc = m.clone();
                req_mems.push((self.tf_id, mc));
                proof {
                    assert(mems_view(req_mems@) =~= rb.push((self.tf_id, mv)));
                }
            }
            self.immut_cache.insert(k, m);
            proof {
                assert(caches_view(self.immut_cache@) =~= before.update(k as int, mv));
                assert(mv == (MemCacheV { flushing: true, ..immut1[k as int] }));
            }
            k = k + 1;
        }
        proof {
            assert(immut1.take(immut1.len() as int) =~= immut1);
            assert(caches_view(self.immut_cache@) =~= spec_mark_flushing(immut1));
            assert forall|j0: int|
                0 <= j0 < caches_view(self.immut_cache@).len() implies mcv_wf(
                #[trigger] caches_view(self.immut_cache@)[j0],
            ) by {
                assert(caches_view(self.immut_cache@)[j0] == (MemCacheV {
                    flushing: true,
                    ..immut1[j0]
                }));
                assert(mcv_wf(immut1[j0]));
            }
            assert(mems_view(req_mems@) =~= spec_candidates(immut1).map_values(
                |m: MemCacheV| (t0.tf_id, MemCacheV { flushing: true, ..m }),
            ));
        }
        Some(FlushReq { mems: req_mems })
    }

    /// Computes the flush request and, if one is due, emits it onto the
    /// flush channel. Whether the worker still listens is outside the
    /// engine's control, so only the state change is promised.
    pub fn wrap_flush_req(&mut self, force: bool)
        requires
            old(self).wf(),
            old(self)@.super_version_id < u64::MAX,
        ensures
            final(self).wf(),
            final(self)@ == spec_flush_req(old(self)@, force).0,
    {
        match self.flush_req(force) {
            Some(req) => {
                let _sent = send_flush_req(&self.flush_task_sender, req);
            },
            None => {},
        }
    }

    /// Forwards a series deletion to the mutable buffer and to every
    /// immutable buffer.
    pub fn delete_series(&mut self, sids: &Vec<u32>, time_range: &TimeRange)
        requires
            old(self).wf(),
        ensures
            final(self).wf(),
            final(self)@ == (TseriesFamilyV {
                mut_cache: spec_delete_series_mc(old(self)@.mut_cache, sids@, *time_range),
                immut_cache: old(self)@.immut_cache.map_values(
                    |m: MemCacheV| spec_delete_series_mc(m, sids@, *time_range),
                ),
                ..old(self)@
            }),
    {
        self.mut_cache.delete_series(sids, time_range);
        let ghost immut0 = caches_view(self.immut_cache@);
        let mut i: usize = 0;
        let n = self.immut_cache.len();
        while i < n
            invariant
                i <= immut0.len(),
                n == immut0.len(),
                self@ == (TseriesFamilyV {
                    mut_cache: spec_delete_series_mc(old(self)@.mut_cache, sids@, *time_range),
                    immut_cache: caches_view(self.immut_cache@),
                    ..old(self)@
                }),
                self.mut_cache.wf(),
                caches_view(self.immut_cache@).len() == immut0.len(),
                forall|j: int|
                    i <= j < immut0.len() ==> (#[trigger] caches_view(self.immut_cache@)[j])
                        == immut0[j] && mcv_wf(caches_view(self.immut_cache@)[j]),
                forall|j: int|
                    0 <= j < i ==> (#[trigger] caches_view(self.immut_cache@)[j])
                        == spec_delete_series_mc(immut0[j], sids@, *time_range) && mcv_wf(caches_view(self.immut_cache@)[j]),
            decreases n - i,
        {
            proof {
                assert(caches_view(self.immut_cache@)[i as int] == self.immut_cache@[i as int]@);
            }
            let ghost before = caches_view(self.immut_cache@);
            let mut m = self.immut_cache.remove(i);
            m.delete_series(sids, time_range);
            let ghost mv = m@;
            self.immut_cache.insert(i, m);
            proof {
                assert(caches_view(self.immut_cache@) =~= before.update(i as int, mv));
            }
            i = i + 1;
        }
        proof {
            assert(caches_view(self.immut_cache@) =~= immut0.map_values(
                |m: MemCacheV| spec_delete_series_mc(m, sids@, *time_range),
            ));
        }
    }

    /// Forwards a column deletion to the mutable buffer and to every
    /// immutable buffer.
    pub fn delete_columns(&mut self, field_ids: &Vec<u64>)
        requires
            old(self).wf(),
            tsf_caches_aligned(old(self)@),
        ensures
            final(self).wf(),
            final(self)@ == (TseriesFamilyV {
                mut_cache: spec_delete_columns_mc(old(self)@.mut_cache, field_ids@),
                immut_cache: old(self)@.immut_cache.map_values(
                    |m: MemCacheV| spec_delete_columns_mc(m, field_ids@),
                ),
                ..old(self)@
            }),
    {
        proof {
            assert(mc_aligned(old(self)@.mut_cache));
        }
        self.mut_cache.delete_columns(field_ids);
        let ghost immut0 = caches_view(self.immut_cache@);
        proof {
            assert(self@.mut_cache == spec_delete_columns_mc(old(self)@.mut_cache, field_ids@));
            assert(immut0 == old(self)@.immut_cache);
        }
        let mut i: usize = 0;
        let n = self.immut_cache.len();
        while i < n
            invariant
                i <= immut0.len(),
                n == immut0.len(),
                old(self).wf(),
                tsf_caches_aligned(old(self)@),
                immut0 == old(self)@.immut_cache,
                self@ == (TseriesFamilyV {
                    mut_cache: spec_delete_columns_mc(old(self)@.mut_cache, field_ids@),
                    immut_cache: caches_view(self.immut_cache@),
                    ..old(self)@
                }),
                self.mut_cache.wf(),
                forall|j: int|
                    0 <= j < immut0.len() ==> mc_aligned(#[trigger] immut0[j]),
                caches_view(self.immut_cache@).len() == immut0.len(),
                forall|j: int|
                    i <= j < immut0.len() ==> (#[trigger] caches_view(self.immut_cache@)[j])
                        == immut0[j] && mcv_wf(caches_view(self.immut_cache@)[j]),
                forall|j: int|
                    0 <= j < i ==> (#[trigger] caches_view(self.immut_cache@)[j])
                        == spec_delete_columns_mc(immut0[j], field_ids@) && mcv_wf(caches_view(self.immut_cache@)[j]),
            decreases n - i,
        {
            proof {
                assert(caches_view(self.immut_cache@)[i as int] == self.immut_cache@[i as int]@);
            }
            let ghost before = caches_view(self.immut_cache@);
            let mut m = self.immut_cache.remove(i);
            proof {
                assert(mc_aligned(immut0[i as int]));
                assert(mcv_wf(old(self)@.immut_cache[i as int]));
                assert(m.wf());
            }
            m.delete_columns(field_ids);
            let ghost mv = m@;
            self.immut_cache.insert(i, m);
            proof {
                assert(caches_view(self.immut_cache@) =~= before.update(i as int, mv));
            }
            i = i + 1;
        }
        proof {
            assert(caches_view(self.immut_cache@) =~= immut0.map_values(
                |m: MemCacheV| spec_delete_columns_mc(m, field_ids@),
            ));
        }
    }

    /// Forwards a column addition to the mutable buffer and to every
    /// immutable buffer.
    pub fn add_column(&mut self, sids: &Vec<u32>, new_column: &TableColumn)
        requires
            old(self).wf(),
        ensures
            final(self).wf(),
            final(self)@ == (TseriesFamilyV {
                mut_cache: spec_add_column_mc(old(self)@.mut_cache, sids@, new_column@),
                immut_cache: old(self)@.immut_cache.map_values(
                    |m: MemCacheV| spec_add_column_mc(m, sids@, new_column@),
                ),
                ..old(self)@
            }),
    {
        self.mut_cache.add_column(sids, new_column);
        let ghost immut0 = caches_view(self.immut_cache@);
        let mut i: usize = 0;
        let n = self.immut_cache.len();
        while i < n
            invariant
                i <= immut0.len(),
                n == immut0.len(),
                self@ == (TseriesFamilyV {
                    mut_cache: spec_add_column_mc(old(self)@.mut_cache, sids@, new_column@),
                    immut_cache: caches_view(self.immut_cache@),
                    ..old(self)@
                }),
                self.mut_cache.wf(),
                caches_view(self.immut_cache@).len() == immut0.len(),
                forall|j: int|
                    i <= j < immut0.len() ==> (#[trigger] caches_view(self.immut_cache@)[j])
                        == immut0[j] && mcv_wf(caches_view(self.immut_cache@)[j]),
                forall|j: int|
                    0 <= j < i ==> (#[trigger] caches_view(self.immut_cache@)[j])
                        == spec_add_column_mc(immut0[j], sids@, new_column@)
                        && mcv_wf(caches_view(self.immut_cache@)[j]),
            decreases n - i,
        {
            proof {
                assert(caches_view(self.immut_cache@)[i as int] == self.immut_cache@[i as int]@);
            }
            let ghost before = caches_view(self.immut_cache@);
            let mut m = self.immut_cache.remove(i);
            m.add_column(sids, new_column);
            let ghost mv = m@;
            self.immut_cache.insert(i, m);
            proof {
                assert(caches_view(self.immut_cache@) =~= before.update(i as int, mv));
            }
            i = i + 1;
        }
        proof {
            assert(caches_view(self.immut_cache@) =~= immut0.map_values(
                |m: MemCacheV| spec_add_column_mc(m, sids@, new_column@),
            ));
        }
    }

    /// Forwards a column replacement to the mutable buffer and to every
    /// immutable buffer.
    pub fn change_column(&mut self, sids: &Vec<u32>, column_name: &String, new_column: &TableColumn)
        requires
            old(self).wf(),
        ensures
            final(self).wf(),
            final(self)@ == (TseriesFamilyV {
                mut_cache: spec_change_column_mc(
                    old(self)@.mut_cache,
                    sids@,
                    column_name@,
                    new_column@,
                ),
                immut_cache: old(self)@.immut_cache.map_values(
                    |m: MemCacheV| spec_change_column_mc(m, sids@, column_name@, new_column@),
                ),
                ..old(self)@
            }),
    {
        self.mut_cache.change_column(sids, column_name, new_column);
        let ghost immut0 = caches_view(self.immut_cache@);
        let mut i: usize = 0;
        let n = self.immut_cache.len();
        while i < n
            invariant
                i <= immut0.len(),
                n == immut0.len(),
                self@ == (TseriesFamilyV {
                    mut_cache: spec_change_column_mc(
                        old(self)@.mut_cache,
                        sids@,
                        column_name@,
                        new_column@,
                    ),
                    immut_cache: caches_view(self.immut_cache@),
                    ..old(self)@
                }),
                self.mut_cache.wf(),
                caches_view(self.immut_cache@).len() == immut0.len(),
                forall|j: int|
                    i <= j < immut0.len() ==> (#[trigger] caches_view(self.immut_cache@)[j])
                        == immut0[j] && mcv_wf(caches_view(self.immut_cache@)[j]),
                forall|j: int|
                    0 <= j < i ==> (#[trigger] caches_view(self.immut_cache@)[j])
                        == spec_change_column_mc(immut0[j], sids@, column_name@, new_column@)
                        && mcv_wf(caches_view(self.immut_cache@)[j]),
            decreases n - i,
        {
            proof {
                assert(caches_view(self.immut_cache@)[i as int] == self.immut_cache@[i as int]@);
            }
            let ghost before = caches_view(self.immut_cache@);
            let mut m = self.immut_cache.remove(i);
            m.change_column(sids, column_name, new_column);
            let ghost mv = m@;
            self.immut_cache.insert(i, m);
            proof {
                assert(caches_view(self.immut_cache@) =~= before.update(i as int, mv));
            }
            i = i + 1;
        }
        proof {
            assert(caches_view(self.immut_cache@) =~= immut0.map_values(
                |m: MemCacheV| spec_change_column_mc(m, sids@, column_name@, new_column@),
            ));
        }
    }

    /// Asks the leveled picker for a compaction over the current version.
    pub fn pick_compaction(&self) -> (r: Option<CompactReq>)
        requires
            self.wf(),
    {
        self.compact_picker.pick_compaction(&self.version)
    }

    /// Snapshots the current version as an add-vnode edit listing every
    /// present file with the given sequence number, for a summary rewrite.
    pub fn get_version_edit(&self, last_seq: u64, tsf_name: String) -> (r: VersionEdit)
        requires
            self.wf(),
        ensures
            r@.tsf_id == self@.tf_id,
            r@.add_tsf,
            !r@.del_tsf,
            r@.tsf_name == tsf_name@,
            r@.add_files == spec_all_file_metas(self@.version, last_seq),
            r@.del_files == Seq::<crate::summary::DeleteFileMeta>::empty(),
            r@.add_files.len() > 0 ==> r@.has_seq_no && r@.seq_no == last_seq && r@.max_level_ts
                == self@.version.max_level_ts,
            r@.add_files.len() == 0 ==> !r@.has_seq_no,
    {
        let ghost name0 = tsf_name@;
        let mut version_edit = VersionEdit::new_add_vnode(self.tf_id, tsf_name);
        let max_level_ts = self.version.max_level_ts;
        let ghost v = self@.version;
        let mut l: usize = 0;
        while l < self.version.levels_info.len()
            invariant
                l <= v.levels.len(),
                v == self@.version,
                self.wf(),
                version_edit@.tsf_id == self@.tf_id,
                version_edit@.add_tsf,
                !version_edit@.del_tsf,
                version_edit@.tsf_name == name0,
                version_edit@.add_files =~= spec_file_metas_upto(v, last_seq, l as int),
                version_edit@.del_files == Seq::<crate::summary::DeleteFileMeta>::empty(),
                version_edit@.add_files.len() > 0 ==> version_edit@.has_seq_no
                    && version_edit@.seq_no == last_seq && version_edit@.max_level_ts
                    == v.max_level_ts,
                version_edit@.add_files.len() == 0 ==> !version_edit@.has_seq_no,
                max_level_ts == v.max_level_ts,
            decreases v.levels.len() - l,
        {
            proof {
                assert(levels_view(self.version.levels_info@)[l as int]
                    == self.version.levels_info@[l as int]@);
            }
            let level_ref = &self.version.levels_info[l];
            let ghost files = v.levels[l as int].files;
            let mut k: usize = 0;
            while k < level_ref.files.len()
                invariant
                    k <= files.len(),
                    v == self@.version,
                    l < v.levels.len(),
                    level_ref@ == v.levels[l as int],
                    files == v.levels[l as int].files,
                    version_edit@.tsf_id == self@.tf_id,
                    version_edit@.add_tsf,
                    !version_edit@.del_tsf,
                    version_edit@.tsf_name == name0,
                    version_edit@.add_files =~= spec_file_metas_upto(v, last_seq, l as int)
                        + spec_level_metas(files.take(k as int), v.levels[l as int].tsf_id, last_seq),
                    version_edit@.del_files == Seq::<crate::summary::DeleteFileMeta>::empty(),
                    version_edit@.add_files.len() > 0 ==> version_edit@.has_seq_no
                        && version_edit@.seq_no == last_seq && version_edit@.max_level_ts
                        == v.max_level_ts,
                    version_edit@.add_files.len() == 0 ==> !version_edit@.has_seq_no,
                    max_level_ts == v.max_level_ts,
                decreases files.len() - k,
            {
                proof {
                    assert(crate::level_info::files_view(level_ref.files@)[k as int]
                        == level_ref.files@[k as int]@);
                    assert(files.take(k as int + 1).drop_last() =~= files.take(k as int));
                    assert(files.take(k as int + 1).last() == files[k as int]);
                }
                let file = &level_ref.files[k];
                let mut meta = file.to_compact_meta();
                meta.tsf_id = level_ref.tsf_id;
                meta.high_seq = last_seq;
                version_edit.add_file(meta, max_level_ts);
                k = k + 1;
            }
            proof {
                assert(files.take(files.len() as int) =~= files);
                assert(spec_file_metas_upto(v, last_seq, l as int) + spec_level_metas(
                    files,
                    v.levels[l as int].tsf_id,
                    last_seq,
                ) =~= spec_file_metas_upto(v, last_seq, l as int + 1));
            }
            l = l + 1;
        }
        proof {
            assert(spec_file_metas_upto(v, last_seq, v.levels.len() as int)
                =~= spec_all_file_metas(v, last_seq));
        }
        version_edit
    }

    pub fn tf_id(&self) -> (r: u32)
        ensures
            r == self@.tf_id,
    {
        self.tf_id
    }

    pub fn database(&self) -> (r: String)
        ensures
            r@ == self@.database,
    {
        self.database.clone()
    }

    /// The live mutable buffer.
    pub fn cache(&self) -> (r: &MemCache)
        ensures
            r@ == self@.mut_cache,
    {
        &self.mut_cache
    }

    /// The live immutable buffers, oldest first.
    pub fn im_cache(&self) -> (r: &Vec<MemCache>)
        ensures
            caches_view(r@) == self@.immut_cache,
    {
        &self.immut_cache
    }

    /// The latest published snapshot, as a value of its own: rotations and
    /// writes after this call leave the returned snapshot untouched.
    pub fn super_version(&self) -> (r: SuperVersion)
        ensures
            r@ == self@.super_version,
    {
        self.super_version.clone()
    }

    pub fn version(&self) -> (r: Version)
        ensures
            r@ == self@.version,
    {
        self.version.clone()
    }

    pub fn storage_opt(&self) -> (r: StorageOptions)
        ensures
            r@ == self@.storage,
    {
        self.storage_opt.clone()
    }

    pub fn seq_no(&self) -> (r: u64)
        ensures
            r == self@.seq_no,
    {
        self.seq_no
    }
}

/// Every buffer of the vnode keeps rows and columns in step.
pub open spec fn tsf_caches_aligned(t: TseriesFamilyV) -> bool {
    mc_aligned(t.mut_cache) && forall|i: int|
        0 <= i < t.immut_cache.len() ==> mc_aligned(#[trigger] t.immut_cache[i])
}

/// Every series of the buffer keeps rows and columns in step.
pub open spec fn mc_aligned(m: MemCacheV) -> bool {
    forall|i: int| 0 <= i < m.series.len() ==> all_groups_wf((#[trigger] m.series[i]).groups)
}

/// A filter that drops nothing leaves the sequence as it was.
proof fn lemma_filter_same_len(s: Seq<MemCacheV>, p: spec_fn(MemCacheV) -> bool)
    requires
        s.filter(p).len() == s.len(),
    ensures
        s.filter(p) == s,
    decreases s.len(),
{
    reveal(Seq::filter);
    if s.len() > 0 {
        s.drop_last().lemma_filter_len(p);
        if p(s.last()) {
            lemma_filter_same_len(s.drop_last(), p);
            assert(s.filter(p) =~= s);
        } else {
            assert(s.filter(p).len() <= s.len() - 1);
        }
    } else {
        assert(s.filter(p) =~= s);
    }
}

/// The add-file metas of one level's files, in order: each file announced
/// with its level's vnode id and the caller's sequence number.
pub open spec fn spec_level_metas(files: Seq<crate::column_file::ColumnFileV>, tsf_id: u32, last_seq: u64)
    -> Seq<CompactMeta>
    decreases files.len(),
{
    if files.len() == 0 {
        Seq::<CompactMeta>::empty()
    } else {
        spec_level_metas(files.drop_last(), tsf_id, last_seq).push(
            spec_file_meta(files.last(), tsf_id, last_seq),
        )
    }
}

/// The announcement of one file.
pub open spec fn spec_file_meta(f: crate::column_file::ColumnFileV, tsf_id: u32, last_seq: u64)
    -> CompactMeta {
    CompactMeta {
        file_id: f.file_id,
        file_size: f.size,
        tsf_id,
        level: f.level,
        min_ts: f.time_range.min_ts,
        max_ts: f.time_range.max_ts,
        high_seq: last_seq,
        low_seq: 0,
        is_delta: f.is_delta,
    }
}

/// The metas of the first `l` levels, level by level.
pub open spec fn spec_file_metas_upto(v: VersionV, last_seq: u64, l: int) -> Seq<CompactMeta>
    decreases l,
{
    if l <= 0 {
        Seq::<CompactMeta>::empty()
    } else {
        spec_file_metas_upto(v, last_seq, l - 1) + spec_level_metas(
            v.levels[l - 1].files,
            v.levels[l - 1].tsf_id,
            last_seq,
        )
    }
}

/// The metas of every file of the version.
pub open spec fn spec_all_file_metas(v: VersionV, last_seq: u64) -> Seq<CompactMeta> {
    spec_file_metas_upto(v, last_seq, v.levels.len() as int)
}

/// Law: publication is monotone. Every publication strictly increases the
/// snapshot number, and the published snapshot carries it.
pub proof fn lemma_publication_monotone(t: TseriesFamilyV, v: VersionV)
    requires
        t.super_version_id < u64::MAX,
    ensures
        spec_publish(t, v).super_version_id > t.super_version_id,
        spec_publish(t, v).super_version.version_number == spec_publish(t, v).super_version_id,
{
}

/// Law: a rotation publishes exactly once, and the snapshot it publishes
/// holds the buffer that was mutable, now at the end of the immutable list.
pub proof fn lemma_switch_publishes(t: TseriesFamilyV)
    requires
        t.super_version_id < u64::MAX,
    ensures
        spec_switch_to_immutable(t).super_version_id == t.super_version_id + 1,
        spec_switch_to_immutable(t).super_version.caches.immut_cache == t.immut_cache.push(
            t.mut_cache,
        ),
        spec_switch_to_immutable(t).super_version.caches.mut_cache == spec_fresh_cache(t),
{
}

} // verus!
