//! The narrow slice of the cluster catalog the engine consumes: database
//! schemas looked up by owner name. The remote catalog lives elsewhere; the
//! engine is verified against this capability for every implementation of
//! it, and an in-memory implementation is provided for recovery tests.

use vstd::prelude::*;
use crate::strutil::{make_owner, spec_find_char, spec_owner};

verus! {

/// The schema of one database as the engine sees it.
#[derive(Debug)]
pub struct DatabaseSchema {
    pub tenant: String,
    pub database: String,
}

/// The mathematical value of a `DatabaseSchema`.
pub ghost struct DatabaseSchemaV {
    pub tenant: Seq<char>,
    pub database: Seq<char>,
}

impl View for DatabaseSchema {
    type V = DatabaseSchemaV;

    open spec fn view(&self) -> DatabaseSchemaV {
        DatabaseSchemaV { tenant: self.tenant@, database: self.database@ }
    }
}

impl Clone for DatabaseSchema {
    /// A clone carries the same mathematical value as the original.
    fn clone(&self) -> (r: Self)
        ensures
            r@ == self@,
    {
        Self { tenant: self.tenant.clone(), database: self.database.clone() }
    }
}

impl DatabaseSchema {
    pub fn new(tenant: String, database: String) -> (r: Self)
        ensures
            r@ == (DatabaseSchemaV { tenant: tenant@, database: database@ }),
    {
        Self { tenant, database }
    }

    /// The owner name this schema registers under: `tenant.database`.
    pub fn owner(&self) -> (r: String)
        ensures
            r@ == spec_owner(self@.tenant, self@.database),
    {
        make_owner(self.tenant.as_str(), self.database.as_str())
    }
}

/// The schema a vnode falls back to when the catalog has none for its
/// owner name: the name split at its first dot into tenant and database,
/// so the vnode stays browsable.
pub open spec fn spec_fallback_schema(owner: Seq<char>) -> DatabaseSchemaV {
    match spec_find_char(owner, '.') {
        Some(i) => DatabaseSchemaV { tenant: owner.take(i), database: owner.skip(i + 1) },
        None => DatabaseSchemaV { tenant: owner, database: Seq::<char>::empty() },
    }
}

/// The catalog capability the engine consumes. Every implementation must
/// answer schema lookups consistently with its own `schema_of_owner` value,
/// so everything proved over this trait holds for any catalog.
pub trait MetaManager {
    /// The schema this catalog holds for an owner name, if any.
    spec fn schema_of_owner(&self, owner: Seq<char>) -> Option<DatabaseSchemaV>;

    /// Looks up the schema of `owner`.
    fn db_schema_for_owner(&self, owner: &str) -> (r: Option<DatabaseSchema>)
        ensures
            match r {
                Some(s) => self.schema_of_owner(owner@) == Some(s@),
                None => self.schema_of_owner(owner@) is None,
            },
    ;
}

/// An in-memory catalog: a list of schemas, looked up by owner name.
#[derive(Debug)]
pub struct MemoryMetaManager {
    pub schemas: Vec<DatabaseSchema>,
}

/// The first schema whose owner name matches.
pub open spec fn spec_schema_lookup(schemas: Seq<DatabaseSchemaV>, owner: Seq<char>) -> Option<
    DatabaseSchemaV,
>
    decreases schemas.len(),
{
    if schemas.len() == 0 {
        None
    } else if spec_owner(schemas[0].tenant, schemas[0].database) == owner {
        Some(schemas[0])
    } else {
        spec_schema_lookup(schemas.drop_first(), owner)
    }
}

/// The values of a schema list.
pub open spec fn schemas_view(schemas: Seq<DatabaseSchema>) -> Seq<DatabaseSchemaV> {
    schemas.map_values(|s: DatabaseSchema| s@)
}

impl MemoryMetaManager {
    pub fn new() -> (r: Self)
        ensures
            schemas_view(r.schemas@) == Seq::<DatabaseSchemaV>::empty(),
    {
        let r = Self { schemas: Vec::new() };
        proof {
            assert(schemas_view(r.schemas@) =~= Seq::<DatabaseSchemaV>::empty());
        }
        r
    }

    /// Registers a schema.
    pub fn add_schema(&mut self, schema: DatabaseSchema)
        ensures
            schemas_view(final(self).schemas@) == schemas_view(old(self).schemas@).push(schema@),
    {
        let ghost before = schemas_view(self.schemas@);
        let ghost sv = schema@;
        self.schemas.push(schema);
        proof {
            assert(schemas_view(self.schemas@) =~= before.push(sv));
        }
    }
}

impl MetaManager for MemoryMetaManager {
    open spec fn schema_of_owner(&self, owner: Seq<char>) -> Option<DatabaseSchemaV> {
        spec_schema_lookup(schemas_view(self.schemas@), owner)
    }

    fn db_schema_for_owner(&self, owner: &str) -> (r: Option<DatabaseSchema>) {
        let ghost svs = schemas_view(self.schemas@);
        proof {
            assert(svs.skip(0) =~= svs);
        }
        let owner_string = owner.to_owned();
        let mut i: usize = 0;
        while i < self.schemas.len()
            invariant
                i <= svs.len(),
                svs == schemas_view(self.schemas@),
                owner_string@ == owner@,
                spec_schema_lookup(svs, owner@) == spec_schema_lookup(
                    svs.skip(i as int),
                    owner@,
                ),
                forall|j: int|
                    0 <= j < i ==> spec_owner(
                        (#[trigger] svs[j]).tenant,
                        svs[j].database,
                    ) != owner@,
            decreases svs.len() - i,
        {
            proof {
                assert(schemas_view(self.schemas@)[i as int] == self.schemas@[i as int]@);
                assert(svs.skip(i as int).len() > 0);
                assert(svs.skip(i as int)[0] == svs[i as int]);
                assert(svs.skip(i as int).drop_first() =~= svs.skip(i as int + 1));
            }
            let candidate_owner = self.schemas[i].owner();
            if candidate_owner == owner_string {
                return Some(self.schemas[i].clone());
            }
            i = i + 1;
        }
        proof {
            assert(svs.skip(svs.len() as int) =~= Seq::<DatabaseSchemaV>::empty());
        }
        None
    }
}

/// One vnode placement inside a replication set.
#[derive(Debug, Clone, Copy, PartialEq, Eq, Structural)]
pub struct VnodeInfo {
    pub id: u32,
    pub node_id: u64,
}

/// One replication set of a bucket's shard group.
#[derive(Debug)]
pub struct ReplicationSet {
    pub id: u32,
    pub vnodes: Vec<VnodeInfo>,
}

/// The mathematical value of a `ReplicationSet`.
pub ghost struct ReplicationSetV {
    pub id: u32,
    pub vnodes: Seq<VnodeInfo>,
}

impl View for ReplicationSet {
    type V = ReplicationSetV;

    open spec fn view(&self) -> ReplicationSetV {
        ReplicationSetV { id: self.id, vnodes: self.vnodes@ }
    }
}

impl Clone for ReplicationSet {
    /// A clone carries the same values as the original.
    fn clone(&self) -> (r: Self)
        ensures
            r@ == self@,
            r.id == self.id,
            r.vnodes@ == self.vnodes@,
    {
        let mut vnodes: Vec<VnodeInfo> = Vec::new();
        let mut i: usize = 0;
        while i < self.vnodes.len()
            invariant
                i <= self.vnodes@.len(),
                vnodes@ == self.vnodes@.take(i as int),
            decreases self.vnodes@.len() - i,
        {
            vnodes.push(self.vnodes[i]);
            proof {
                assert(vnodes@ =~= self.vnodes@.take(i + 1));
            }
            i = i + 1;
        }
        proof {
            assert(vnodes@ =~= self.vnodes@);
        }
        Self { id: self.id, vnodes }
    }
}

/// One placement bucket: a half-open time window and its shard group.
#[derive(Debug)]
pub struct BucketInfo {
    pub id: u32,
    pub start_time: i64,
    pub end_time: i64,
    pub shard_group: Vec<ReplicationSet>,
}

/// The mathematical value of a `BucketInfo`.
pub ghost struct BucketInfoV {
    pub id: u32,
    pub start_time: i64,
    pub end_time: i64,
    pub shard_group: Seq<ReplicationSetV>,
}

impl View for BucketInfo {
    type V = BucketInfoV;

    open spec fn view(&self) -> BucketInfoV {
        BucketInfoV {
            id: self.id,
            start_time: self.start_time,
            end_time: self.end_time,
            shard_group: self.shard_group@.map_values(|s: ReplicationSet| s@),
        }
    }
}

/// The values of a bucket vector.
pub open spec fn buckets_view(buckets: Seq<BucketInfo>) -> Seq<BucketInfoV> {
    buckets.map_values(|b: BucketInfo| b@)
}

impl BucketInfo {
    /// Whether the bucket's window holds the timestamp.
    pub open spec fn spec_holds(self, ts: i64) -> bool {
        self.start_time <= ts && ts < self.end_time
    }

    /// The replication set a series hash lands in: shard by the hash
    /// modulo the group size; an empty group places nothing.
    pub fn vnode_for(&self, hash_id: u64) -> (r: Option<&ReplicationSet>)
        ensures
            match r {
                Some(set) => self.shard_group@.len() > 0 && *set == self.shard_group@[(
                hash_id % (self.shard_group@.len() as u64)) as int],
                None => self.shard_group@.len() == 0,
            },
    {
        let n = self.shard_group.len();
        if n == 0 {
            return None;
        }
        let ix = (hash_id % (n as u64)) as usize;
        Some(&self.shard_group[ix])
    }
}

/// The first bucket whose window holds the timestamp, if any.
pub fn bucket_by_timestamp(buckets: &Vec<BucketInfo>, ts: i64) -> (r: Option<&BucketInfo>)
    ensures
        match r {
            Some(b) => b.spec_holds(ts) && exists|i: int|
                0 <= i < buckets@.len() && (#[trigger] buckets@[i]).spec_holds(ts),
            None => forall|i: int| 0 <= i < buckets@.len() ==> !(#[trigger] buckets@[i]).spec_holds(ts),
        },
{
    let mut i: usize = 0;
    while i < buckets.len()
        invariant
            i <= buckets@.len(),
            forall|j: int| 0 <= j < i ==> !(#[trigger] buckets@[j]).spec_holds(ts),
        decreases buckets@.len() - i,
    {
        let b = &buckets[i];
        if b.start_time <= ts && ts < b.end_time {
            proof {
                assert(buckets@[i as int].spec_holds(ts));
            }
            return Some(&buckets[i]);
        }
        i = i + 1;
    }
    None
}

/// Exactly the buckets whose windows intersect `[start, end]`, in order.
pub fn mapping_bucket(buckets: &Vec<BucketInfo>, start: i64, end: i64) -> (r: Vec<BucketInfo>)
    ensures
        buckets_view(r@) == buckets_view(buckets@).filter(
            |b: BucketInfoV| b.start_time <= end && b.end_time > start,
        ),
{
    let ghost bvs = buckets_view(buckets@);
    let ghost pk = |b: BucketInfoV| b.start_time <= end && b.end_time > start;
    let mut out: Vec<BucketInfo> = Vec::new();
    let mut i: usize = 0;
    while i < buckets.len()
        invariant
            i <= bvs.len(),
            bvs == buckets_view(buckets@),
            pk == (|b: BucketInfoV| b.start_time <= end && b.end_time > start),
            buckets_view(out@) =~= bvs.take(i as int).filter(pk),
        decreases bvs.len() - i,
    {
        proof {
            assert(buckets_view(buckets@)[i as int] == buckets@[i as int]@);
            crate::version::lemma_filter_take_step(bvs, pk, i as int);
        }
        let b = &buckets[i];
        if b.start_time <= end && b.end_time > start {
            let mut shard_group: Vec<ReplicationSet> = Vec::new();
            let mut g: usize = 0;
            while g < b.shard_group.len()
                invariant
                    g <= b.shard_group@.len(),
                    shard_group@.map_values(|s: ReplicationSet| s@) =~= b.shard_group@.map_values(
                        |s: ReplicationSet| s@,
                    ).take(g as int),
                decreases b.shard_group@.len() - g,
            {
                proof {
                    assert(b.shard_group@.map_values(|s: ReplicationSet| s@)[g as int]
                        == b.shard_group@[g as int]@);
                }
                let ghost sb = shard_group@.map_values(|s: ReplicationSet| s@);
                let cl = b.shard_group[g].clone();
                let ghost cv = cl@;
                shard_group.push(cl);
                proof {
                    assert(shard_group@.map_values(|s: ReplicationSet| s@) =~= sb.push(cv));
                }
                g = g + 1;
            }
            proof {
                assert(shard_group@.map_values(|s: ReplicationSet| s@) =~= b.shard_group@
                    .map_values(|s: ReplicationSet| s@));
            }
            let ghost ob = buckets_view(out@);
            let copied = BucketInfo {
                id: b.id,
                start_time: b.start_time,
                end_time: b.end_time,
                shard_group,
            };
            let ghost cv = copied@;
            out.push(copied);
            proof {
                assert(cv == bvs[i as int]);
                assert(buckets_view(out@) =~= ob.push(cv));
            }
        }
        i = i + 1;
    }
    proof {
        assert(bvs.take(bvs.len() as int) =~= bvs);
    }
    out
}

/// What the catalog watcher does with one pushed delta, given the version
/// it holds and the delta's kind and window.
#[derive(Debug, Clone, Copy, PartialEq, Eq, Structural)]
pub enum DeltaDecision {
    ReplaceAll,
    MergeInto,
    Ignore,
}

/// The watcher's decision: a full load replaces the held data when newer;
/// an incremental delta merges when the held version lies inside the
/// delta's window; anything else is ignored.
pub fn plan_watch_delta(
    held_version: u64,
    full_load: bool,
    update_version: u64,
    window_low: u64,
    window_high: u64,
) -> (r: DeltaDecision)
    ensures
        full_load && update_version > held_version ==> r == DeltaDecision::ReplaceAll,
        full_load && update_version <= held_version ==> r == DeltaDecision::Ignore,
        !full_load && window_low <= held_version < window_high ==> r == DeltaDecision::MergeInto,
        !full_load && !(window_low <= held_version < window_high) ==> r == DeltaDecision::Ignore,
{
    if full_load {
        if update_version > held_version {
            DeltaDecision::ReplaceAll
        } else {
            DeltaDecision::Ignore
        }
    } else if window_low <= held_version && held_version < window_high {
        DeltaDecision::MergeInto
    } else {
        DeltaDecision::Ignore
    }
}

} // verus!
