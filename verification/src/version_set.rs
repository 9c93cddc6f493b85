//! The process-wide registry of databases and their vnodes, the schema
//! lookups behind it, and the global minimum write sequence used by log
//! reclamation.

use vstd::prelude::*;
use crate::channel::clone_flush_sender;
use crate::compaction::FlushReq;
use crate::memcache::MemCache;
use crate::meta::{spec_fallback_schema, DatabaseSchema, MetaManager};
use crate::options::Options;
use crate::strutil::{make_owner, spec_owner};
use crate::summary::VersionEdit;
use crate::tseries_family::TseriesFamily;
use crate::version::{Version, VersionV};

verus! {

/// The minimum write sequence across all live vnodes, and the per-vnode
/// sequences it was computed from; handed to the log reclaimer.
#[derive(Debug)]
pub struct GlobalSequenceContext {
    pub min_seq: u64,
    pub tsf_seq_map: Vec<(u32, u64)>,
}

impl GlobalSequenceContext {
    pub fn new(min_seq: u64, tsf_seq_map: Vec<(u32, u64)>) -> (r: Self)
        ensures
            r.min_seq == min_seq,
            r.tsf_seq_map@ == tsf_seq_map@,
    {
        Self { min_seq, tsf_seq_map }
    }

    pub fn min_seq(&self) -> (r: u64)
        ensures
            r == self.min_seq,
    {
        self.min_seq
    }
}

/// One database of the registry: its owner name, its schema (or the default
/// fallback when the catalog had none), and its vnodes.
#[derive(Debug)]
pub struct Database {
    pub owner: String,
    pub schema: DatabaseSchema,
    pub opt: Options,
    pub ts_families: Vec<TseriesFamily>,
}

impl Database {
    /// Vnode ids are pairwise distinct, and each vnode is well-formed.
    pub open spec fn wf(self) -> bool {
        &&& forall|i: int, j: int|
            0 <= i < j < self.ts_families@.len() ==> (#[trigger] self.ts_families@[i]).tf_id != (
            #[trigger] self.ts_families@[j]).tf_id
        &&& forall|i: int| 0 <= i < self.ts_families@.len() ==> (#[trigger] self.ts_families@[i]).wf()
    }

    pub fn new(owner: String, schema: DatabaseSchema, opt: Options) -> (r: Self)
        ensures
            r.wf(),
            r.owner@ == owner@,
            r.schema@ == schema@,
            r.ts_families@.len() == 0,
    {
        Self { owner, schema, opt, ts_families: Vec::new() }
    }

    /// Whether a vnode with this id is present.
    pub open spec fn spec_has_tsf(self, tf_id: u32) -> bool {
        exists|i: int|
            0 <= i < self.ts_families@.len() && (#[trigger] self.ts_families@[i]).tf_id == tf_id
    }

    /// Opens a vnode around a recovered version, with a fresh buffer at the
    /// version's sequence number.
    pub fn open_tsfamily(
        &mut self,
        ver: Version,
        flush_task_sender: &tokio::sync::mpsc::UnboundedSender<FlushReq>,
    )
        requires
            old(self).wf(),
            ver.wf(),
            !old(self).spec_has_tsf(ver@.ts_family_id),
        ensures
            final(self).wf(),
            final(self).owner@ == old(self).owner@,
            final(self).schema@ == old(self).schema@,
            final(self).ts_families@.len() == old(self).ts_families@.len() + 1,
            forall|i: int|
                0 <= i < old(self).ts_families@.len() ==> (#[trigger] final(self).ts_families@[i])@
                    == old(self).ts_families@[i]@,
            ({
                let t = final(self).ts_families@.last()@;
                t.tf_id == ver@.ts_family_id && t.version == ver@ && t.seq_no == ver@.last_seq
            }),
    {
        let tf_id = ver.tf_id();
        let cache = MemCache::new(tf_id, self.opt.cache.max_buffer_size, ver.last_seq);
        let db_name = ver.database().clone();
        let tsf = TseriesFamily::new(
            tf_id,
            db_name,
            cache,
            ver,
            self.opt.cache,
            self.opt.storage.clone(),
            clone_flush_sender(flush_task_sender),
        );
        let ghost before = self.ts_families@;
        self.ts_families.push(tsf);
        proof {
            assert forall|i: int, j: int|
                0 <= i < j < self.ts_families@.len() implies (
            #[trigger] self.ts_families@[i]).tf_id != (#[trigger] self.ts_families@[j]).tf_id by {
                if j < before.len() {
                } else {
                    assert(self.ts_families@[j].tf_id == tf_id);
                    assert(self.ts_families@[i] == before[i]);
                    if self.ts_families@[i].tf_id == tf_id {
                        assert(old(self).spec_has_tsf(tf_id));
                    }
                }
            }
        }
    }

    /// The vnode with this id, if present.
    pub fn get_tsfamily(&self, tf_id: u32) -> (r: Option<&TseriesFamily>)
        ensures
            match r {
                Some(t) => t.tf_id == tf_id && self.spec_has_tsf(tf_id),
                None => !self.spec_has_tsf(tf_id),
            },
    {
        let mut i: usize = 0;
        while i < self.ts_families.len()
            invariant
                i <= self.ts_families@.len(),
                forall|j: int| 0 <= j < i ==> (#[trigger] self.ts_families@[j]).tf_id != tf_id,
            decreases self.ts_families@.len() - i,
        {
            if self.ts_families[i].tf_id == tf_id {
                return Some(&self.ts_families[i]);
            }
            i = i + 1;
        }
        proof {
            if self.spec_has_tsf(tf_id) {
                let j = choose|j: int|
                    0 <= j < self.ts_families@.len() && (#[trigger] self.ts_families@[j]).tf_id
                        == tf_id;
                assert(false);
            }
        }
        None
    }

    /// Exclusive access to the vnode with this id, if present.
    pub fn get_tsfamily_mut(&mut self, tf_id: u32) -> (r: Option<&mut TseriesFamily>)
        ensures
            match r {
                Some(t) => *t == old(self).ts_families@[spec_tsf_index(
                    old(self).ts_families@,
                    tf_id,
                )] && final(self).ts_families@ == old(self).ts_families@.update(
                    spec_tsf_index(old(self).ts_families@, tf_id),
                    *final(t),
                ) && t.tf_id == tf_id,
                None => *final(self) == *old(self) && !old(self).spec_has_tsf(tf_id),
            },
            final(self).owner@ == old(self).owner@,
            final(self).schema@ == old(self).schema@,
    {
        let ghost tsfs = self.ts_families@;
        let mut i: usize = 0;
        let n = self.ts_families.len();
        while i < n
            invariant
                i <= tsfs.len(),
                n == tsfs.len(),
                self == old(self),
                tsfs == self.ts_families@,
                forall|j: int| 0 <= j < i ==> (#[trigger] tsfs[j]).tf_id != tf_id,
            decreases n - i,
        {
            if self.ts_families[i].tf_id == tf_id {
                proof {
                    lemma_spec_tsf_index(tsfs, tf_id);
                    assert(tsfs[i as int].tf_id == tf_id);
                    let fi = spec_tsf_index(tsfs, tf_id);
                    if fi < i {
                        assert(tsfs[fi].tf_id == tf_id);
                        assert(false);
                    }
                    if fi > i as int {
                        assert(tsfs[i as int].tf_id != tf_id);
                        assert(false);
                    }
                }
                return Some(&mut self.ts_families[i]);
            }
            i = i + 1;
        }
        proof {
            if old(self).spec_has_tsf(tf_id) {
                let j = choose|j: int|
                    0 <= j < tsfs.len() && (#[trigger] tsfs[j]).tf_id == tf_id;
                assert(false);
            }
        }
        None
    }

    /// Some vnode of the database, if one exists.
    pub fn get_tsfamily_random(&self) -> (r: Option<&TseriesFamily>)
        ensures
            match r {
                Some(t) => self.ts_families@.len() > 0 && *t == self.ts_families@[0],
                None => self.ts_families@.len() == 0,
            },
    {
        if self.ts_families.len() > 0 {
            Some(&self.ts_families[0])
        } else {
            None
        }
    }

    pub fn tsf_num(&self) -> (r: usize)
        ensures
            r == self.ts_families@.len(),
    {
        self.ts_families.len()
    }

    pub fn ts_families(&self) -> (r: &Vec<TseriesFamily>)
        ensures
            r@ == self.ts_families@,
    {
        &self.ts_families
    }

    /// Snapshots every vnode of the database as an add-vnode edit listing
    /// all of its files, in vnode order.
    pub fn get_version_edits(&self, last_seq: u64) -> (r: Vec<VersionEdit>)
        requires
            self.wf(),
        ensures
            r@.len() == self.ts_families@.len(),
            forall|i: int|
                0 <= i < r@.len() ==> db_edit_matches(
                    (#[trigger] r@[i])@,
                    self.ts_families@[i]@,
                    self.owner@,
                    last_seq,
                ),
    {
        let mut out: Vec<VersionEdit> = Vec::new();
        let mut i: usize = 0;
        while i < self.ts_families.len()
            invariant
                i <= self.ts_families@.len(),
                self.wf(),
                out@.len() == i,
                forall|j: int|
                    0 <= j < i ==> db_edit_matches(
                        (#[trigger] out@[j])@,
                        self.ts_families@[j]@,
                        self.owner@,
                        last_seq,
                    ),
            decreases self.ts_families@.len() - i,
        {
            let tsf = &self.ts_families[i];
            let edit = tsf.get_version_edit(last_seq, self.owner.clone());
            out.push(edit);
            i = i + 1;
        }
        out
    }
}

/// Runtime check of `Database::spec_has_tsf`.
fn db_has_tsf(db: &Database, tf_id: u32) -> (r: bool)
    ensures
        r == db.spec_has_tsf(tf_id),
{
    match db.get_tsfamily(tf_id) {
        Some(_t) => true,
        None => false,
    }
}

/// Each vnode count is nonnegative, so prefixes of the count are monotone.
proof fn lemma_total_tsfs_prefix_monotone(dbs: Seq<Database>, n: int)
    requires
        0 <= n <= dbs.len(),
    ensures
        spec_total_tsfs(dbs.take(n)) >= 0,
    decreases n,
{
    if n > 0 {
        lemma_total_tsfs_prefix_monotone(dbs, n - 1);
        assert(dbs.take(n).drop_last() =~= dbs.take(n - 1));
        assert(dbs.take(n).last() == dbs[n - 1]);
    } else {
        assert(dbs.take(0) =~= Seq::<Database>::empty());
    }
}

/// A vnode's offset inside an earlier database's block stays below the
/// count of the databases processed so far.
proof fn lemma_total_tsfs_offset_bound(dbs: Seq<Database>, d: int, t: int, i: int)
    requires
        0 <= d < i <= dbs.len(),
        0 <= t < dbs[d].ts_families@.len(),
    ensures
        spec_total_tsfs(dbs.take(d)) + t < spec_total_tsfs(dbs.take(i)),
    decreases i - d,
{
    if i == d + 1 {
        assert(dbs.take(i).drop_last() =~= dbs.take(d));
        assert(dbs.take(i).last() == dbs[d]);
    } else {
        lemma_total_tsfs_offset_bound(dbs, d, t, i - 1);
        assert(dbs.take(i).drop_last() =~= dbs.take(i - 1));
        assert(dbs.take(i).last() == dbs[i - 1]);
    }
}

/// A prefix of the database list holds at most the total vnode count.
proof fn lemma_total_tsfs_prefix(dbs: Seq<Database>, n: int)
    requires
        0 <= n <= dbs.len(),
    ensures
        spec_total_tsfs(dbs.take(n)) <= spec_total_tsfs(dbs),
    decreases dbs.len() - n,
{
    if n == dbs.len() {
        assert(dbs.take(n) =~= dbs);
    } else {
        lemma_total_tsfs_prefix(dbs, n + 1);
        assert(dbs.take(n + 1).drop_last() =~= dbs.take(n));
        assert(dbs.take(n + 1).last() == dbs[n]);
    }
}

/// Whether the registry holds, in a database with this owner name, a
/// vnode with this id.
pub open spec fn spec_has_vnode(dbs: Seq<Database>, owner: Seq<char>, tf_id: u32) -> bool {
    exists|d: int, t: int| spec_vnode_witness(dbs, owner, tf_id, d, t)
}

/// One witness of `spec_has_vnode`.
pub open spec fn spec_vnode_witness(
    dbs: Seq<Database>,
    owner: Seq<char>,
    tf_id: u32,
    d: int,
    t: int,
) -> bool {
    &&& 0 <= d < dbs.len()
    &&& 0 <= t < dbs[d].ts_families@.len()
    &&& dbs[d].owner@ == owner
    &&& dbs[d].ts_families@[t].tf_id == tf_id
}

/// Whether the registry holds, in a database with this owner name, a vnode
/// carrying exactly this version.
pub open spec fn spec_installed(dbs: Seq<Database>, owner: Seq<char>, v: VersionV) -> bool {
    exists|d: int, t: int| spec_install_witness(dbs, owner, v, d, t)
}

/// One witness of `spec_installed`.
pub open spec fn spec_install_witness(
    dbs: Seq<Database>,
    owner: Seq<char>,
    v: VersionV,
    d: int,
    t: int,
) -> bool {
    &&& 0 <= d < dbs.len()
    &&& 0 <= t < dbs[d].ts_families@.len()
    &&& dbs[d].owner@ == owner
    &&& dbs[d].ts_families@[t]@.tf_id == v.ts_family_id
    &&& dbs[d].ts_families@[t]@.version == v
    &&& dbs[d].ts_families@[t]@.seq_no == v.last_seq
}

/// The vnode at `(d, t)` traces to one of the first `n` recovered versions,
/// by owner name and vnode id.
pub open spec fn spec_traced_at(
    dbs: Seq<Database>,
    vers: Seq<(u32, Version)>,
    n: int,
    d: int,
    t: int,
) -> bool {
    exists|i0: int|
        0 <= i0 < n && dbs[d].owner@ == (#[trigger] vers[i0]).1@.database
            && dbs[d].ts_families@[t].tf_id == vers[i0].1@.ts_family_id
}

/// Every vnode of the registry traces to one of the first `n` recovered
/// versions.
pub open spec fn spec_traceable(dbs: Seq<Database>, vers: Seq<(u32, Version)>, n: int) -> bool {
    forall|d: int, t: int|
        0 <= d < dbs.len() && 0 <= t < dbs[d].ts_families@.len() ==> #[trigger] spec_traced_at(
            dbs,
            vers,
            n,
            d,
            t,
        )
}

/// Whether input `i` is the first recovery of its (owner, vnode id) pair.
pub open spec fn spec_first_recovery(vers: Seq<(u32, Version)>, i: int) -> bool {
    forall|j: int|
        0 <= j < i ==> !((#[trigger] vers[j]).1@.database == vers[i].1@.database
            && vers[j].1@.ts_family_id == vers[i].1@.ts_family_id)
}

/// An add-vnode summary edit for one vnode: it registers the vnode under
/// the database's owner name and announces every present file with the
/// caller's sequence number.
pub open spec fn db_edit_matches(
    e: crate::summary::VersionEditV,
    t: crate::tseries_family::TseriesFamilyV,
    owner: Seq<char>,
    last_seq: u64,
) -> bool {
    &&& e.tsf_id == t.tf_id
    &&& e.add_tsf
    &&& !e.del_tsf
    &&& e.tsf_name == owner
    &&& e.add_files == crate::tseries_family::spec_all_file_metas(t.version, last_seq)
    &&& e.del_files == Seq::<crate::summary::DeleteFileMeta>::empty()
    &&& (e.add_files.len() > 0 ==> e.has_seq_no && e.seq_no == last_seq && e.max_level_ts
        == t.version.max_level_ts)
    &&& (e.add_files.len() == 0 ==> !e.has_seq_no)
}

/// The first index of the vnode with `tf_id`, or the length when absent.
pub open spec fn spec_tsf_index(tsfs: Seq<TseriesFamily>, tf_id: u32) -> int
    decreases tsfs.len(),
{
    if tsfs.len() == 0 {
        0
    } else if tsfs[0].tf_id == tf_id {
        0
    } else {
        1 + spec_tsf_index(tsfs.drop_first(), tf_id)
    }
}

proof fn lemma_spec_tsf_index(tsfs: Seq<TseriesFamily>, tf_id: u32)
    ensures
        0 <= spec_tsf_index(tsfs, tf_id) <= tsfs.len(),
        spec_tsf_index(tsfs, tf_id) < tsfs.len() ==> tsfs[spec_tsf_index(tsfs, tf_id)].tf_id
            == tf_id,
        forall|j: int| 0 <= j < spec_tsf_index(tsfs, tf_id) ==> (#[trigger] tsfs[j]).tf_id != tf_id,
    decreases tsfs.len(),
{
    if tsfs.len() > 0 && tsfs[0].tf_id != tf_id {
        lemma_spec_tsf_index(tsfs.drop_first(), tf_id);
        assert(forall|j: int|
            0 <= j < tsfs.drop_first().len() ==> tsfs.drop_first()[j] == tsfs[j + 1]);
        assert forall|j: int|
            0 <= j < spec_tsf_index(tsfs, tf_id) implies (#[trigger] tsfs[j]).tf_id != tf_id by {
            if j > 0 {
                assert(tsfs.drop_first()[j - 1].tf_id != tf_id);
            }
        }
    }
}

/// The registry of databases of one process.
#[derive(Debug)]
pub struct VersionSet {
    pub opt: Options,
    pub dbs: Vec<Database>,
}

impl VersionSet {
    /// Owners are pairwise distinct and every database is well-formed.
    pub open spec fn wf(self) -> bool {
        &&& forall|i: int, j: int|
            0 <= i < j < self.dbs@.len() ==> (#[trigger] self.dbs@[i]).owner@ != (
            #[trigger] self.dbs@[j]).owner@
        &&& forall|i: int| 0 <= i < self.dbs@.len() ==> (#[trigger] self.dbs@[i]).wf()
    }

    /// An empty registry.
    pub fn empty(opt: Options) -> (r: Self)
        ensures
            r.wf(),
            r.dbs@.len() == 0,
    {
        Self { opt, dbs: Vec::new() }
    }

    pub fn options(&self) -> (r: Options)
        ensures
            r.storage@ == self.opt.storage@,
            r.cache == self.opt.cache,
    {
        self.opt.clone()
    }

    /// Whether a database with this owner name is registered.
    pub open spec fn spec_has_owner(self, owner: Seq<char>) -> bool {
        exists|i: int| 0 <= i < self.dbs@.len() && (#[trigger] self.dbs@[i]).owner@ == owner
    }

    /// Builds the registry from recovered versions: each version joins the
    /// database its owner names, created on first sight with the schema the
    /// catalog returns, or — when the catalog has none — with the fallback
    /// schema split from the owner name, so the vnode stays browsable. For
    /// every recovered version its vnode id is present in its database, and
    /// the first version recovered for a (database, vnode id) pair is the
    /// one installed.
    #[verifier::rlimit(100)]
    pub fn new<M: MetaManager>(
        meta: &M,
        opt: Options,
        ver_set: Vec<(u32, Version)>,
        flush_task_sender: &tokio::sync::mpsc::UnboundedSender<FlushReq>,
    ) -> (r: Self)
        requires
            forall|i: int| 0 <= i < ver_set@.len() ==> (#[trigger] ver_set@[i]).1.wf(),
        ensures
            r.wf(),
            forall|d: int|
                0 <= d < r.dbs@.len() ==> (#[trigger] r.dbs@[d]).schema@ == (
                match meta.schema_of_owner(r.dbs@[d].owner@) {
                    Some(sv) => sv,
                    None => spec_fallback_schema(r.dbs@[d].owner@),
                }),
            forall|i: int|
                0 <= i < ver_set@.len() ==> spec_has_vnode(
                    r.dbs@,
                    (#[trigger] ver_set@[i]).1@.database,
                    ver_set@[i].1@.ts_family_id,
                ),
            forall|i: int|
                0 <= i < ver_set@.len() && spec_first_recovery(ver_set@, i)
                    ==> spec_installed(r.dbs@, (#[trigger] ver_set@[i]).1@.database, ver_set@[i].1@),
    {
        let mut vs = Self::empty(opt);
        let mut i: usize = 0;
        let n = ver_set.len();
        let mut rest = ver_set;
        while i < n
            invariant
                i <= n,
                rest@.len() == n,
                rest@ == ver_set@,
                vs.wf(),
                forall|i0: int| 0 <= i0 < rest@.len() ==> (#[trigger] rest@[i0]).1.wf(),
                forall|d: int|
                    0 <= d < vs.dbs@.len() ==> (#[trigger] vs.dbs@[d]).schema@ == (
                    match meta.schema_of_owner(vs.dbs@[d].owner@) {
                        Some(sv) => sv,
                        None => spec_fallback_schema(vs.dbs@[d].owner@),
                    }),
                forall|i0: int|
                    0 <= i0 < i ==> spec_has_vnode(
                        vs.dbs@,
                        (#[trigger] rest@[i0]).1@.database,
                        rest@[i0].1@.ts_family_id,
                    ),
                forall|i0: int|
                    0 <= i0 < i && spec_first_recovery(rest@, i0) ==> spec_installed(
                        vs.dbs@,
                        (#[trigger] rest@[i0]).1@.database,
                        rest@[i0].1@,
                    ),
                spec_traceable(vs.dbs@, rest@, i as int),
            decreases n - i,
        {
            let tf_id = rest[i].1.tf_id();
            let owner_name = rest[i].1.database().clone();
            let ver = rest[i].1.clone();
            let ghost ov = rest@[i as int].1@;
            proof {
                assert(rest@[i as int].1.wf());
                assert(ver@ == ov);
                assert(owner_name@ == ov.database);
                assert(tf_id == ov.ts_family_id);
            }
            let dbix = match vs.find_db_index(owner_name.as_str()) {
                Some(ix) => ix,
                None => {
                    let schema = match meta.db_schema_for_owner(owner_name.as_str()) {
                        Some(s) => s,
                        None => {
                            let (tenant, database) = crate::strutil::split_owner(
                                owner_name.as_str(),
                            );
                            let fallback = DatabaseSchema::new(tenant, database);
                            proof {
                                assert(fallback@ == spec_fallback_schema(owner_name@));
                            }
                            fallback
                        },
                    };
                    let db = Database::new(owner_name.clone(), schema, vs.opt.clone());
                    let ghost before = vs.dbs@;
                    vs.dbs.push(db);
                    proof {
                        assert forall|a: int, b: int|
                            0 <= a < b < vs.dbs@.len() implies (#[trigger] vs.dbs@[a]).owner@ != (
                        #[trigger] vs.dbs@[b]).owner@ by {
                            if b == before.len() {
                                assert(vs.dbs@[b].owner@ == owner_name@);
                                if vs.dbs@[a].owner@ == owner_name@ {
                                    assert(old_has_owner_contra(before, owner_name@, a));
                                }
                            }
                        }
                        assert forall|i0: int|
                            0 <= i0 < i implies spec_has_vnode(
                            vs.dbs@,
                            (#[trigger] rest@[i0]).1@.database,
                            rest@[i0].1@.ts_family_id,
                        ) by {
                            let (d, t) = choose|d: int, t: int|
                                spec_vnode_witness(
                                    before,
                                    rest@[i0].1@.database,
                                    rest@[i0].1@.ts_family_id,
                                    d,
                                    t,
                                );
                            assert(spec_vnode_witness(
                                vs.dbs@,
                                rest@[i0].1@.database,
                                rest@[i0].1@.ts_family_id,
                                d,
                                t,
                            ));
                        }
                        assert forall|i0: int|
                            0 <= i0 < i && spec_first_recovery(rest@, i0) implies spec_installed(
                            vs.dbs@,
                            (#[trigger] rest@[i0]).1@.database,
                            rest@[i0].1@,
                        ) by {
                            let (d, t) = choose|d: int, t: int|
                                spec_install_witness(before, rest@[i0].1@.database, rest@[i0].1@, d, t);
                            assert(spec_install_witness(
                                vs.dbs@,
                                rest@[i0].1@.database,
                                rest@[i0].1@,
                                d,
                                t,
                            ));
                        }
                        assert forall|d: int, t: int|
                            0 <= d < vs.dbs@.len() && 0 <= t
                                < vs.dbs@[d].ts_families@.len() implies #[trigger] spec_traced_at(
                            vs.dbs@,
                            rest@,
                            i as int,
                            d,
                            t,
                        ) by {
                            assert(d < before.len());
                            assert(vs.dbs@[d] == before[d]);
                            assert(spec_traced_at(before, rest@, i as int, d, t));
                            let i0 = choose|i0: int|
                                0 <= i0 < i && before[d].owner@ == (
                                #[trigger] rest@[i0]).1@.database && before[d].ts_families@[t].tf_id
                                    == rest@[i0].1@.ts_family_id;
                            assert(0 <= i0 < i && vs.dbs@[d].owner@ == rest@[i0].1@.database
                                && vs.dbs@[d].ts_families@[t].tf_id == rest@[i0].1@.ts_family_id);
                        }
                        assert(spec_traceable(vs.dbs@, rest@, i as int));
                    }
                    vs.dbs.len() - 1
                },
            };
            let ghost dbs_before = vs.dbs@;
            proof {
                assert(dbs_before[dbix as int].owner@ == owner_name@);
            }
            let mut db = vs.dbs.remove(dbix);
            let had = db_has_tsf(&db, tf_id);
            if !had {
                db.open_tsfamily(ver, flush_task_sender);
            }
            vs.dbs.insert(dbix, db);
            proof {
                                assert(vs.dbs@ =~= dbs_before.update(dbix as int, vs.dbs@[dbix as int]));
                assert forall|a: int, b: int|
                    0 <= a < b < vs.dbs@.len() implies (#[trigger] vs.dbs@[a]).owner@ != (
                #[trigger] vs.dbs@[b]).owner@ by {
                    assert(vs.dbs@[a].owner@ == dbs_before[a].owner@);
                    assert(vs.dbs@[b].owner@ == dbs_before[b].owner@);
                }
                // Schemas survive the vnode installation.
                assert forall|d: int|
                    0 <= d < vs.dbs@.len() implies (#[trigger] vs.dbs@[d]).schema@ == (
                match meta.schema_of_owner(vs.dbs@[d].owner@) {
                    Some(sv) => sv,
                    None => spec_fallback_schema(vs.dbs@[d].owner@),
                }) by {
                    if d != dbix {
                        assert(vs.dbs@[d] == dbs_before[d]);
                    }
                }
                // Earlier installations survive: vnode views are preserved.
                assert forall|i0: int|
                    0 <= i0 < i implies spec_has_vnode(
                    vs.dbs@,
                    (#[trigger] rest@[i0]).1@.database,
                    rest@[i0].1@.ts_family_id,
                ) by {
                    let (d, t) = choose|d: int, t: int|
                        spec_vnode_witness(
                            dbs_before,
                            rest@[i0].1@.database,
                            rest@[i0].1@.ts_family_id,
                            d,
                            t,
                        );
                    assert(spec_vnode_witness(
                        vs.dbs@,
                        rest@[i0].1@.database,
                        rest@[i0].1@.ts_family_id,
                        d,
                        t,
                    ));
                }
                assert forall|i0: int|
                    0 <= i0 < i && spec_first_recovery(rest@, i0) implies spec_installed(
                    vs.dbs@,
                    (#[trigger] rest@[i0]).1@.database,
                    rest@[i0].1@,
                ) by {
                    let (d, t) = choose|d: int, t: int|
                        spec_install_witness(dbs_before, rest@[i0].1@.database, rest@[i0].1@, d, t);
                    assert(vs.dbs@[d].ts_families@[t]@ == dbs_before[d].ts_families@[t]@);
                    assert(spec_install_witness(
                        vs.dbs@,
                        rest@[i0].1@.database,
                        rest@[i0].1@,
                        d,
                        t,
                    ));
                }
                // This version's vnode id is now present.
                if had {
                    let t0 = choose|t0: int|
                        0 <= t0 < dbs_before[dbix as int].ts_families@.len() && (
                        #[trigger] dbs_before[dbix as int].ts_families@[t0]).tf_id == tf_id;
                    assert(spec_vnode_witness(vs.dbs@, ov.database, ov.ts_family_id, dbix as int, t0));
                } else {
                    let t0 = vs.dbs@[dbix as int].ts_families@.len() - 1;
                    assert(spec_vnode_witness(vs.dbs@, ov.database, ov.ts_family_id, dbix as int, t0));
                }
                // The first recovery of this (owner, id) pair is installed.
                if spec_first_recovery(rest@, i as int) {
                    if had {
                        assert(spec_traceable(dbs_before, rest@, i as int));
                        let t0 = choose|t0: int|
                            0 <= t0 < dbs_before[dbix as int].ts_families@.len() && (
                            #[trigger] dbs_before[dbix as int].ts_families@[t0]).tf_id == tf_id;
                        assert(spec_traced_at(dbs_before, rest@, i as int, dbix as int, t0));
                        let i0 = choose|i0: int|
                            0 <= i0 < i && dbs_before[dbix as int].owner@ == (
                            #[trigger] rest@[i0]).1@.database && dbs_before[dbix as int].ts_families@[
                            t0].tf_id == rest@[i0].1@.ts_family_id;
                        assert(rest@[i0].1@.database == ov.database);
                        assert(rest@[i0].1@.ts_family_id == ov.ts_family_id);
                        assert(false);
                    } else {
                        let t0 = vs.dbs@[dbix as int].ts_families@.len() - 1;
                        assert(vs.dbs@[dbix as int].ts_families@[t0]@.version == ov);
                        assert(spec_install_witness(vs.dbs@, ov.database, ov, dbix as int, t0));
                    }
                }
                // Every vnode still traces to a processed version.
                assert forall|d: int, t: int|
                    0 <= d < vs.dbs@.len() && 0 <= t
                        < vs.dbs@[d].ts_families@.len() implies #[trigger] spec_traced_at(
                    vs.dbs@,
                    rest@,
                    i + 1,
                    d,
                    t,
                ) by {
                    if d == dbix as int && !had && t == vs.dbs@[d].ts_families@.len() - 1 {
                        assert(vs.dbs@[d].owner@ == rest@[i as int].1@.database
                            && vs.dbs@[d].ts_families@[t].tf_id == rest@[i as int].1@.ts_family_id);
                    } else {
                        assert(0 <= t < dbs_before[d].ts_families@.len());
                        assert(spec_traced_at(dbs_before, rest@, i as int, d, t));
                        let i0 = choose|i0: int|
                            0 <= i0 < i && dbs_before[d].owner@ == (
                            #[trigger] rest@[i0]).1@.database && dbs_before[d].ts_families@[t].tf_id
                                == rest@[i0].1@.ts_family_id;
                        assert(vs.dbs@[d].ts_families@[t]@.tf_id == dbs_before[d].ts_families@[
                            t]@.tf_id);
                        assert(0 <= i0 < i + 1 && vs.dbs@[d].owner@ == rest@[i0].1@.database
                            && vs.dbs@[d].ts_families@[t].tf_id == rest@[i0].1@.ts_family_id);
                    }
                }
                assert(spec_traceable(vs.dbs@, rest@, i + 1));
            }
            i = i + 1;
        }
        vs
    }

    /// The index of the database with this owner name.
    fn find_db_index(&self, owner: &str) -> (r: Option<usize>)
        ensures
            match r {
                Some(ix) => ix < self.dbs@.len() && self.dbs@[ix as int].owner@ == owner@,
                None => !self.spec_has_owner(owner@),
            },
    {
        let owner_string = owner.to_owned();
        let mut i: usize = 0;
        while i < self.dbs.len()
            invariant
                i <= self.dbs@.len(),
                owner_string@ == owner@,
                forall|j: int| 0 <= j < i ==> (#[trigger] self.dbs@[j]).owner@ != owner@,
            decreases self.dbs@.len() - i,
        {
            if self.dbs[i].owner == owner_string {
                return Some(i);
            }
            i = i + 1;
        }
        proof {
            if self.spec_has_owner(owner@) {
                let j = choose|j: int|
                    0 <= j < self.dbs@.len() && (#[trigger] self.dbs@[j]).owner@ == owner@;
                assert(false);
            }
        }
        None
    }

    /// Registers a database under its schema's owner name; an existing one
    /// is left as it is, a fresh one carries the given schema and no
    /// vnodes. Returns the database's index.
    pub fn create_db(&mut self, schema: DatabaseSchema) -> (r: usize)
        requires
            old(self).wf(),
        ensures
            final(self).wf(),
            r < final(self).dbs@.len(),
            final(self).dbs@[r as int].owner@ == spec_owner(schema@.tenant, schema@.database),
            final(self).spec_has_owner(spec_owner(schema@.tenant, schema@.database)),
            old(self).spec_has_owner(spec_owner(schema@.tenant, schema@.database))
                ==> *final(self) == *old(self),
            !old(self).spec_has_owner(spec_owner(schema@.tenant, schema@.database)) ==> {
                &&& final(self).dbs@.len() == old(self).dbs@.len() + 1
                &&& r == old(self).dbs@.len()
                &&& final(self).dbs@[r as int].schema@ == schema@
                &&& final(self).dbs@[r as int].ts_families@.len() == 0
                &&& forall|j: int|
                    0 <= j < old(self).dbs@.len() ==> (#[trigger] final(self).dbs@[j]) == old(
                        self,
                    ).dbs@[j]
            },
    {
        let owner_name = schema.owner();
        match self.find_db_index(owner_name.as_str()) {
            Some(ix) => {
                proof {
                    assert(self.spec_has_owner(owner_name@));
                }
                ix
            },
            None => {
                let db = Database::new(owner_name.clone(), schema, self.opt.clone());
                let ghost before = self.dbs@;
                self.dbs.push(db);
                proof {
                    assert forall|a: int, b: int|
                        0 <= a < b < self.dbs@.len() implies (#[trigger] self.dbs@[a]).owner@ != (
                    #[trigger] self.dbs@[b]).owner@ by {
                        if b == before.len() {
                            if self.dbs@[a].owner@ == owner_name@ {
                                assert(old_has_owner_contra(before, owner_name@, a));
                            }
                        }
                    }
                }
                self.dbs.len() - 1
            },
        }
    }

    /// Removes the database with this owner; true when one was removed.
    /// Every other database survives unchanged, in order.
    pub fn delete_db(&mut self, tenant: &str, database: &str) -> (r: bool)
        requires
            old(self).wf(),
        ensures
            final(self).wf(),
            r == old(self).spec_has_owner(spec_owner(tenant@, database@)),
            !final(self).spec_has_owner(spec_owner(tenant@, database@)),
            r ==> exists|ix: int|
                0 <= ix < old(self).dbs@.len() && (#[trigger] old(self).dbs@[ix]).owner@
                    == spec_owner(tenant@, database@) && final(self).dbs@ == old(self).dbs@.remove(
                    ix,
                ),
            !r ==> *final(self) == *old(self),
    {
        let owner_name = make_owner(tenant, database);
        match self.find_db_index(owner_name.as_str()) {
            Some(ix) => {
                let ghost before = self.dbs@;
                let _removed = self.dbs.remove(ix);
                proof {
                    assert(old(self).spec_has_owner(spec_owner(tenant@, database@)));
                    assert(before[ix as int].owner@ == spec_owner(tenant@, database@));
                    assert(self.dbs@ == before.remove(ix as int));
                    assert forall|a: int, b: int|
                        0 <= a < b < self.dbs@.len() implies (#[trigger] self.dbs@[a]).owner@ != (
                    #[trigger] self.dbs@[b]).owner@ by {
                        let a0 = if a < ix { a } else { a + 1 };
                        let b0 = if b < ix { b } else { b + 1 };
                        assert(self.dbs@[a] == before[a0]);
                        assert(self.dbs@[b] == before[b0]);
                    }
                    if self.spec_has_owner(owner_name@) {
                        let j = choose|j: int|
                            0 <= j < self.dbs@.len() && (#[trigger] self.dbs@[j]).owner@
                                == owner_name@;
                        let j0 = if j < ix { j } else { j + 1 };
                        assert(before[j0].owner@ == owner_name@);
                        assert(before[ix as int].owner@ == owner_name@);
                        assert(false);
                    }
                }
                true
            },
            None => {
                proof {
                    if self.spec_has_owner(owner_name@) {
                        assert(false);
                    }
                }
                false
            },
        }
    }

    pub fn db_exists(&self, tenant: &str, database: &str) -> (r: bool)
        ensures
            r == self.spec_has_owner(spec_owner(tenant@, database@)),
    {
        let owner_name = make_owner(tenant, database);
        match self.find_db_index(owner_name.as_str()) {
            Some(_ix) => {
                proof {
                    assert(self.spec_has_owner(owner_name@));
                }
                true
            },
            None => false,
        }
    }

    /// The schema of the database with this owner, if registered.
    pub fn get_db_schema(&self, tenant: &str, database: &str) -> (r: Option<DatabaseSchema>)
        ensures
            match r {
                Some(s) => exists|i: int|
                    0 <= i < self.dbs@.len() && (#[trigger] self.dbs@[i]).owner@ == spec_owner(
                        tenant@,
                        database@,
                    ) && s@ == self.dbs@[i].schema@,
                None => !self.spec_has_owner(spec_owner(tenant@, database@)),
            },
    {
        let owner_name = make_owner(tenant, database);
        match self.find_db_index(owner_name.as_str()) {
            Some(ix) => Some(self.dbs[ix].schema.clone()),
            None => None,
        }
    }

    pub fn get_all_db(&self) -> (r: &Vec<Database>)
        ensures
            r@ == self.dbs@,
    {
        &self.dbs
    }

    /// The database with this owner, if registered.
    pub fn get_db(&self, tenant_name: &str, db_name: &str) -> (r: Option<&Database>)
        ensures
            match r {
                Some(db) => db.owner@ == spec_owner(tenant_name@, db_name@),
                None => !self.spec_has_owner(spec_owner(tenant_name@, db_name@)),
            },
    {
        let owner_name = make_owner(tenant_name, db_name);
        match self.find_db_index(owner_name.as_str()) {
            Some(ix) => Some(&self.dbs[ix]),
            None => None,
        }
    }

    /// The total number of vnodes across all databases.
    pub fn tsf_num(&self) -> (r: usize)
        requires
            spec_total_tsfs(self.dbs@) <= usize::MAX,
        ensures
            r == spec_total_tsfs(self.dbs@),
    {
        let mut size: usize = 0;
        let mut i: usize = 0;
        while i < self.dbs.len()
            invariant
                i <= self.dbs@.len(),
                size == spec_total_tsfs(self.dbs@.take(i as int)),
                spec_total_tsfs(self.dbs@) <= usize::MAX,
            decreases self.dbs@.len() - i,
        {
            proof {
                assert(self.dbs@.take(i as int + 1).drop_last() =~= self.dbs@.take(i as int));
                assert(self.dbs@.take(i as int + 1).last() == self.dbs@[i as int]);
                lemma_total_tsfs_prefix(self.dbs@, i as int + 1);
            }
            size = size + self.dbs[i].ts_families.len();
            i = i + 1;
        }
        proof {
            assert(self.dbs@.take(self.dbs@.len() as int) =~= self.dbs@);
        }
        size
    }

    /// The vnode with this id, wherever it lives; nothing exactly when no
    /// registered database holds it.
    pub fn get_tsfamily_by_tf_id(&self, tf_id: u32) -> (r: Option<&TseriesFamily>)
        ensures
            match r {
                Some(t) => t.tf_id == tf_id && exists|d: int|
                    0 <= d < self.dbs@.len() && (#[trigger] self.dbs@[d]).spec_has_tsf(tf_id),
                None => forall|d: int|
                    0 <= d < self.dbs@.len() ==> !(#[trigger] self.dbs@[d]).spec_has_tsf(tf_id),
            },
    {
        let mut i: usize = 0;
        while i < self.dbs.len()
            invariant
                i <= self.dbs@.len(),
                forall|d: int| 0 <= d < i ==> !(#[trigger] self.dbs@[d]).spec_has_tsf(tf_id),
            decreases self.dbs@.len() - i,
        {
            match self.dbs[i].get_tsfamily(tf_id) {
                Some(t) => {
                    proof {
                        assert(self.dbs@[i as int].spec_has_tsf(tf_id));
                    }
                    return Some(t);
                },
                None => {},
            }
            i = i + 1;
        }
        None
    }

    /// The vnode with this id inside the named database; nothing exactly
    /// when no database of that owner holds it.
    pub fn get_tsfamily_by_name_id(&self, tenant: &str, database: &str, tf_id: u32) -> (r: Option<
        &TseriesFamily,
    >)
        requires
            self.wf(),
        ensures
            match r {
                Some(t) => t.tf_id == tf_id && exists|d: int|
                    0 <= d < self.dbs@.len() && (#[trigger] self.dbs@[d]).owner@ == spec_owner(
                        tenant@,
                        database@,
                    ) && self.dbs@[d].spec_has_tsf(tf_id),
                None => forall|d: int|
                    0 <= d < self.dbs@.len() && (#[trigger] self.dbs@[d]).owner@ == spec_owner(
                        tenant@,
                        database@,
                    ) ==> !self.dbs@[d].spec_has_tsf(tf_id),
            },
    {
        let owner_name = make_owner(tenant, database);
        match self.find_db_index(owner_name.as_str()) {
            Some(ix) => {
                let r = self.dbs[ix].get_tsfamily(tf_id);
                proof {
                    if r is None {
                        assert forall|d: int|
                            0 <= d < self.dbs@.len() && (#[trigger] self.dbs@[d]).owner@
                                == spec_owner(tenant@, database@) implies !self.dbs@[d].spec_has_tsf(
                            tf_id,
                        ) by {
                            if d != ix {
                                assert(self.dbs@[d].owner@ != self.dbs@[ix as int].owner@);
                            }
                        }
                    }
                }
                r
            },
            None => None,
        }
    }

    /// Some vnode of the named database; nothing exactly when no database
    /// of that owner holds any vnode.
    pub fn get_tsfamily_by_name(&self, tenant: &str, database: &str) -> (r: Option<
        &TseriesFamily,
    >)
        requires
            self.wf(),
        ensures
            match r {
                Some(_t) => exists|d: int|
                    0 <= d < self.dbs@.len() && (#[trigger] self.dbs@[d]).owner@ == spec_owner(
                        tenant@,
                        database@,
                    ) && self.dbs@[d].ts_families@.len() > 0,
                None => forall|d: int|
                    0 <= d < self.dbs@.len() && (#[trigger] self.dbs@[d]).owner@ == spec_owner(
                        tenant@,
                        database@,
                    ) ==> self.dbs@[d].ts_families@.len() == 0,
            },
    {
        let owner_name = make_owner(tenant, database);
        match self.find_db_index(owner_name.as_str()) {
            Some(ix) => {
                let r = self.dbs[ix].get_tsfamily_random();
                proof {
                    if r is None {
                        assert forall|d: int|
                            0 <= d < self.dbs@.len() && (#[trigger] self.dbs@[d]).owner@
                                == spec_owner(tenant@, database@) implies self.dbs@[d].ts_families@.len()
                            == 0 by {
                            if d != ix {
                                assert(self.dbs@[d].owner@ != self.dbs@[ix as int].owner@);
                            }
                        }
                    }
                }
                r
            },
            None => None,
        }
    }

    /// Snapshots every vnode of every database as add-vnode edits: one edit
    /// per vnode, database by database in registry order, each listing that
    /// vnode's files under its database's owner name.
    pub fn get_version_edits(&self, last_seq: u64) -> (r: Vec<VersionEdit>)
        requires
            self.wf(),
        ensures
            r@.len() == spec_total_tsfs(self.dbs@),
            forall|d: int, t: int|
                0 <= d < self.dbs@.len() && 0 <= t < self.dbs@[d].ts_families@.len()
                    ==> db_edit_matches(
                    r@[spec_total_tsfs(self.dbs@.take(d)) + t]@,
                    (#[trigger] self.dbs@[d].ts_families@[t])@,
                    self.dbs@[d].owner@,
                    last_seq,
                ),
    {
        let mut out: Vec<VersionEdit> = Vec::new();
        let mut i: usize = 0;
        while i < self.dbs.len()
            invariant
                i <= self.dbs@.len(),
                self.wf(),
                out@.len() == spec_total_tsfs(self.dbs@.take(i as int)),
                forall|d: int, t: int|
                    0 <= d < i && 0 <= t < self.dbs@[d].ts_families@.len() ==> db_edit_matches(
                        out@[spec_total_tsfs(self.dbs@.take(d)) + t]@,
                        (#[trigger] self.dbs@[d].ts_families@[t])@,
                        self.dbs@[d].owner@,
                        last_seq,
                    ),
            decreases self.dbs@.len() - i,
        {
            proof {
                assert(self.dbs@.take(i as int + 1).drop_last() =~= self.dbs@.take(i as int));
                assert(self.dbs@.take(i as int + 1).last() == self.dbs@[i as int]);
                lemma_total_tsfs_prefix_monotone(self.dbs@, i as int);
            }
            let ghost before = out@;
            let mut edits = self.dbs[i].get_version_edits(last_seq);
            let ghost evs = edits@;
            out.append(&mut edits);
            proof {
                assert(out@ =~= before + evs);
                assert forall|d: int, t: int|
                    0 <= d < i + 1 && 0 <= t < self.dbs@[d].ts_families@.len() implies db_edit_matches(
                    out@[spec_total_tsfs(self.dbs@.take(d)) + t]@,
                    (#[trigger] self.dbs@[d].ts_families@[t])@,
                    self.dbs@[d].owner@,
                    last_seq,
                ) by {
                    lemma_total_tsfs_prefix_monotone(self.dbs@, d);
                    if d < i {
                        assert(spec_total_tsfs(self.dbs@.take(d)) + t < before.len()) by {
                            lemma_total_tsfs_offset_bound(self.dbs@, d, t, i as int);
                        }
                        assert(out@[spec_total_tsfs(self.dbs@.take(d)) + t] == before[
                            spec_total_tsfs(self.dbs@.take(d)) + t]);
                    } else {
                        assert(out@[spec_total_tsfs(self.dbs@.take(d)) + t] == evs[t]);
                    }
                }
            }
            i = i + 1;
        }
        proof {
            assert(self.dbs@.take(self.dbs@.len() as int) =~= self.dbs@);
        }
        out
    }

    /// The global minimum write sequence over all live vnodes, and every
    /// vnode's own sequence, database by database in registry order. The
    /// floor is attained by some live vnode, or zero when none is live, and
    /// never exceeds any live vnode's sequence, so logs below it are safe
    /// to reclaim.
    pub fn get_global_sequence_context(&self) -> (r: GlobalSequenceContext)
        ensures
            r.tsf_seq_map@ == spec_seq_entries(self.dbs@),
            forall|d: int, t: int|
                0 <= d < self.dbs@.len() && 0 <= t < self.dbs@[d].ts_families@.len()
                    ==> r.min_seq <= (#[trigger] self.dbs@[d].ts_families@[t]).seq_no,
            (exists|d: int, t: int|
                0 <= d < self.dbs@.len() && 0 <= t < self.dbs@[d].ts_families@.len() && (
                #[trigger] self.dbs@[d].ts_families@[t]).seq_no == r.min_seq) || (r.min_seq == 0
                && forall|d: int|
                0 <= d < self.dbs@.len() ==> (#[trigger] self.dbs@[d]).ts_families@.len() == 0),
    {
        let mut min_seq: u64 = 0;
        let mut any = false;
        let mut tsf_seq_map: Vec<(u32, u64)> = Vec::new();
        let mut d: usize = 0;
        while d < self.dbs.len()
            invariant
                d <= self.dbs@.len(),
                tsf_seq_map@ =~= spec_seq_entries(self.dbs@.take(d as int)),
                forall|d0: int, t0: int|
                    0 <= d0 < d && 0 <= t0 < self.dbs@[d0].ts_families@.len() ==> min_seq <= (
                    #[trigger] self.dbs@[d0].ts_families@[t0]).seq_no,
                any ==> exists|d0: int, t0: int|
                    0 <= d0 < d && 0 <= t0 < self.dbs@[d0].ts_families@.len() && (
                    #[trigger] self.dbs@[d0].ts_families@[t0]).seq_no == min_seq,
                !any ==> min_seq == 0 && forall|d0: int|
                    0 <= d0 < d ==> (#[trigger] self.dbs@[d0]).ts_families@.len() == 0,
            decreases self.dbs@.len() - d,
        {
            proof {
                assert(self.dbs@.take(d as int + 1).drop_last() =~= self.dbs@.take(d as int));
                assert(self.dbs@.take(d as int + 1).last() == self.dbs@[d as int]);
            }
            let db = &self.dbs[d];
            let mut t: usize = 0;
            while t < db.ts_families.len()
                invariant
                    t <= db.ts_families@.len(),
                    0 <= d < self.dbs@.len(),
                    db.ts_families@ == self.dbs@[d as int].ts_families@,
                    tsf_seq_map@ =~= spec_seq_entries(self.dbs@.take(d as int))
                        + spec_db_seq_entries(db.ts_families@.take(t as int)),
                    forall|d0: int, t0: int|
                        0 <= d0 < d && 0 <= t0 < self.dbs@[d0].ts_families@.len() ==> min_seq <= (
                        #[trigger] self.dbs@[d0].ts_families@[t0]).seq_no,
                    forall|t0: int|
                        0 <= t0 < t ==> min_seq <= (
                        #[trigger] self.dbs@[d as int].ts_families@[t0]).seq_no,
                    any ==> (exists|d0: int, t0: int|
                        0 <= d0 < d && 0 <= t0 < self.dbs@[d0].ts_families@.len() && (
                        #[trigger] self.dbs@[d0].ts_families@[t0]).seq_no == min_seq) || (exists|
                        t0: int,
                    |
                        0 <= t0 < t && (#[trigger] self.dbs@[d as int].ts_families@[t0]).seq_no
                            == min_seq),
                    !any ==> min_seq == 0 && t == 0 && forall|d0: int|
                        0 <= d0 < d ==> (#[trigger] self.dbs@[d0]).ts_families@.len() == 0,
                decreases db.ts_families@.len() - t,
            {
                proof {
                    assert(db.ts_families@.take(t as int + 1).drop_last() =~= db.ts_families@.take(
                        t as int,
                    ));
                    assert(db.ts_families@.take(t as int + 1).last()
                        == db.ts_families@[t as int]);
                    assert(spec_db_seq_entries(db.ts_families@.take(t as int + 1))
                        =~= spec_db_seq_entries(db.ts_families@.take(t as int)).push(
                        (db.ts_families@[t as int].tf_id, db.ts_families@[t as int].seq_no),
                    ));
                }
                let tsf = &db.ts_families[t];
                let seq = tsf.seq_no();
                if !any {
                    min_seq = seq;
                    any = true;
                    proof {
                        assert(self.dbs@[d as int].ts_families@[t as int].seq_no == min_seq);
                    }
                } else if seq < min_seq {
                    min_seq = seq;
                    proof {
                        assert(self.dbs@[d as int].ts_families@[t as int].seq_no == min_seq);
                    }
                }
                tsf_seq_map.push((tsf.tf_id, seq));
                t = t + 1;
            }
            proof {
                assert(db.ts_families@.take(db.ts_families@.len() as int) =~= db.ts_families@);
                assert(spec_seq_entries(self.dbs@.take(d as int + 1)) =~= spec_seq_entries(
                    self.dbs@.take(d as int),
                ) + spec_db_seq_entries(self.dbs@[d as int].ts_families@));
            }
            d = d + 1;
        }
        proof {
            assert(self.dbs@.take(self.dbs@.len() as int) =~= self.dbs@);
        }
        GlobalSequenceContext { min_seq, tsf_seq_map }
    }
}

/// The (vnode id, sequence) pairs of one database's vnodes, in order.
pub open spec fn spec_db_seq_entries(tsfs: Seq<TseriesFamily>) -> Seq<(u32, u64)> {
    tsfs.map_values(|t: TseriesFamily| (t.tf_id, t.seq_no))
}

/// All (vnode id, sequence) pairs of the registry, database by database.
pub open spec fn spec_seq_entries(dbs: Seq<Database>) -> Seq<(u32, u64)>
    decreases dbs.len(),
{
    if dbs.len() == 0 {
        Seq::<(u32, u64)>::empty()
    } else {
        spec_seq_entries(dbs.drop_last()) + spec_db_seq_entries(dbs.last().ts_families@)
    }
}

/// Helper: a sequence of databases cannot hide a duplicate owner.
pub open spec fn old_has_owner_contra(dbs: Seq<Database>, owner: Seq<char>, a: int) -> bool {
    0 <= a < dbs.len() && dbs[a].owner@ == owner
}

/// The total vnode count of a database list.
pub open spec fn spec_total_tsfs(dbs: Seq<Database>) -> int
    decreases dbs.len(),
{
    if dbs.len() == 0 {
        0
    } else {
        spec_total_tsfs(dbs.drop_last()) + dbs.last().ts_families@.len()
    }
}

/// Law: the global sequence floor never exceeds the sequence of any live
/// vnode; logs below the floor reference no unflushed write.
pub proof fn lemma_global_floor(vs: VersionSet, ctx_min: u64, d: int, t: int)
    requires
        0 <= d < vs.dbs@.len(),
        0 <= t < vs.dbs@[d].ts_families@.len(),
        forall|d0: int, t0: int|
            0 <= d0 < vs.dbs@.len() && 0 <= t0 < vs.dbs@[d0].ts_families@.len() ==> ctx_min <= (
            #[trigger] vs.dbs@[d0].ts_families@[t0]).seq_no,
    ensures
        ctx_min <= vs.dbs@[d].ts_families@[t].seq_no,
{
}

} // verus!
