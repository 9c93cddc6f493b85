//! Immutable on-disk segment descriptors: file id, level, time range, size,
//! a field-id bloom filter, and the monotone `deleted` / `compacting` marks.

use vstd::prelude::*;
use crate::bloom::BloomFilter;
use crate::summary::CompactMeta;
use crate::timerange::TimeRange;

verus! {

/// The mathematical value of a `ColumnFile`.
pub ghost struct ColumnFileV {
    pub file_id: u64,
    pub level: u32,
    pub is_delta: bool,
    pub time_range: TimeRange,
    pub size: u64,
    pub bloom: Seq<u64>,
    pub deleted: bool,
    pub compacting: bool,
    pub path: Seq<char>,
}

impl ColumnFileV {
    /// Well-formed: the bloom filter has its fixed shape.
    pub open spec fn wf(self) -> bool {
        self.bloom.len() == 8
    }

    /// Whether the bloom filter admits `field_id`.
    pub open spec fn contains_field_id(self, field_id: u64) -> bool {
        crate::bloom::bit_is_set(self.bloom, crate::bloom::probe0(field_id))
            && crate::bloom::bit_is_set(self.bloom, crate::bloom::probe1(field_id))
            && crate::bloom::bit_is_set(self.bloom, crate::bloom::probe2(field_id))
    }

    /// Whether the bloom filter admits at least one of `field_ids`.
    pub open spec fn contains_any_field_id(self, field_ids: Seq<u64>) -> bool {
        exists|i: int| 0 <= i < field_ids.len() && self.contains_field_id(field_ids[i])
    }
}

/// Descriptor of one immutable on-disk column file. A file is in at most one
/// level; `deleted` and `compacting` only ever go from false to true.
#[derive(Debug)]
pub struct ColumnFile {
    pub file_id: u64,
    pub level: u32,
    pub is_delta: bool,
    pub time_range: TimeRange,
    pub size: u64,
    pub field_id_bloom_filter: BloomFilter,
    pub deleted: bool,
    pub compacting: bool,
    pub path: String,
}

impl View for ColumnFile {
    type V = ColumnFileV;

    open spec fn view(&self) -> ColumnFileV {
        ColumnFileV {
            file_id: self.file_id,
            level: self.level,
            is_delta: self.is_delta,
            time_range: self.time_range,
            size: self.size,
            bloom: self.field_id_bloom_filter.bits@,
            deleted: self.deleted,
            compacting: self.compacting,
            path: self.path@,
        }
    }
}

impl ColumnFile {
    /// Well-formed: the bloom filter has its fixed shape.
    pub open spec fn wf(self) -> bool {
        self.field_id_bloom_filter.wf()
    }

    /// Whether the bloom filter admits `field_id`.
    pub open spec fn spec_contains_field_id(self, field_id: u64) -> bool {
        self@.contains_field_id(field_id)
    }

    /// Whether the bloom filter admits at least one of `field_ids`.
    pub open spec fn spec_contains_any_field_id(self, field_ids: Seq<u64>) -> bool {
        self@.contains_any_field_id(field_ids)
    }

    pub fn new(
        file_id: u64,
        level: u32,
        time_range: TimeRange,
        size: u64,
        is_delta: bool,
        path: String,
    ) -> (r: Self)
        ensures
            r.wf(),
            r@ == (ColumnFileV {
                file_id,
                level,
                is_delta,
                time_range,
                size,
                bloom: crate::bloom::empty_bloom(),
                deleted: false,
                compacting: false,
                path: path@,
            }),
            forall|f: u64| !r.spec_contains_field_id(f),
    {
        Self {
            file_id,
            level,
            is_delta,
            time_range,
            size,
            field_id_bloom_filter: BloomFilter::new(),
            deleted: false,
            compacting: false,
            path,
        }
    }

    /// Builds the descriptor of a file announced by a `CompactMeta`.
    pub fn with_compact_data(meta: &CompactMeta, path: String) -> (r: Self)
        ensures
            r.wf(),
            r@ == spec_file_of_meta(*meta, path@, crate::bloom::empty_bloom()),
            forall|f: u64| !r.spec_contains_field_id(f),
    {
        Self::new(
            meta.file_id,
            meta.level,
            TimeRange::new(meta.min_ts, meta.max_ts),
            meta.file_size,
            meta.is_delta,
            path,
        )
    }

    pub fn file_id(&self) -> (r: u64)
        ensures
            r == self@.file_id,
    {
        self.file_id
    }

    pub fn level(&self) -> (r: u32)
        ensures
            r == self@.level,
    {
        self.level
    }

    pub fn is_delta(&self) -> (r: bool)
        ensures
            r == self@.is_delta,
    {
        self.is_delta
    }

    pub fn time_range(&self) -> (r: &TimeRange)
        ensures
            *r == self@.time_range,
    {
        &self.time_range
    }

    pub fn size(&self) -> (r: u64)
        ensures
            r == self@.size,
    {
        self.size
    }

    pub fn file_path(&self) -> (r: String)
        ensures
            r@ == self@.path,
    {
        self.path.clone()
    }

    /// Whether this file's data can intersect the queried range.
    pub fn overlap(&self, time_range: &TimeRange) -> (r: bool)
        ensures
            r == self@.time_range.spec_overlaps(*time_range),
    {
        self.time_range.overlaps(time_range)
    }

    /// Records a field id in the file's bloom filter, as done when the file
    /// is written.
    pub fn insert_field_id(&mut self, field_id: u64)
        requires
            old(self).wf(),
        ensures
            final(self).wf(),
            final(self).spec_contains_field_id(field_id),
            forall|g: u64|
                old(self).spec_contains_field_id(g) ==> final(self).spec_contains_field_id(g),
            final(self)@ == (ColumnFileV { bloom: final(self)@.bloom, ..old(self)@ }),
    {
        self.field_id_bloom_filter.insert(field_id);
        proof {
            assert forall|g: u64|
                old(self).spec_contains_field_id(g) implies self.spec_contains_field_id(g) by {
                assert(old(self).field_id_bloom_filter.spec_contains(g));
                assert(self.field_id_bloom_filter.spec_contains(g));
            }
        }
    }

    pub fn contains_field_id(&self, field_id: u64) -> (r: bool)
        requires
            self.wf(),
        ensures
            r == self.spec_contains_field_id(field_id),
    {
        self.field_id_bloom_filter.contains(field_id)
    }

    pub fn contains_any_field_id(&self, field_ids: &Vec<u64>) -> (r: bool)
        requires
            self.wf(),
        ensures
            r == self.spec_contains_any_field_id(field_ids@),
    {
        let mut i: usize = 0;
        while i < field_ids.len()
            invariant
                i <= field_ids@.len(),
                self.wf(),
                forall|j: int| 0 <= j < i ==> !self.spec_contains_field_id(field_ids@[j]),
            decreases field_ids@.len() - i,
        {
            if self.field_id_bloom_filter.contains(field_ids[i]) {
                return true;
            }
            i = i + 1;
        }
        false
    }

    pub fn is_deleted(&self) -> (r: bool)
        ensures
            r == self@.deleted,
    {
        self.deleted
    }

    /// Marks the file as gone from every version; monotone.
    pub fn mark_deleted(&mut self)
        ensures
            final(self)@ == (ColumnFileV { deleted: true, ..old(self)@ }),
    {
        self.deleted = true;
    }

    pub fn is_compacting(&self) -> (r: bool)
        ensures
            r == self@.compacting,
    {
        self.compacting
    }

    /// Marks the file as an input of a running compaction; monotone.
    pub fn mark_compacting(&mut self)
        ensures
            final(self)@ == (ColumnFileV { compacting: true, ..old(self)@ }),
    {
        self.compacting = true;
    }

    /// Turns the descriptor back into the announcement of its file.
    pub fn to_compact_meta(&self) -> (r: CompactMeta)
        ensures
            r == (CompactMeta {
                file_id: self@.file_id,
                file_size: self@.size,
                tsf_id: 0,
                level: self@.level,
                min_ts: self@.time_range.min_ts,
                max_ts: self@.time_range.max_ts,
                high_seq: 0,
                low_seq: 0,
                is_delta: self@.is_delta,
            }),
    {
        CompactMeta {
            file_id: self.file_id,
            file_size: self.size,
            tsf_id: 0,
            level: self.level,
            min_ts: self.time_range.min_ts,
            max_ts: self.time_range.max_ts,
            high_seq: 0,
            low_seq: 0,
            is_delta: self.is_delta,
        }
    }
}

impl Clone for ColumnFile {
    /// A clone carries the same mathematical value as the original.
    fn clone(&self) -> (r: Self)
        ensures
            r@ == self@,
            r.wf() == self.wf(),
    {
        let mut bits: Vec<u64> = Vec::new();
        let mut k: usize = 0;
        while k < self.field_id_bloom_filter.bits.len()
            invariant
                k <= self.field_id_bloom_filter.bits@.len(),
                bits@ == self.field_id_bloom_filter.bits@.take(k as int),
            decreases self.field_id_bloom_filter.bits@.len() - k,
        {
            bits.push(self.field_id_bloom_filter.bits[k]);
            proof {
                assert(bits@ =~= self.field_id_bloom_filter.bits@.take(k + 1));
            }
            k = k + 1;
        }
        proof {
            assert(bits@ =~= self.field_id_bloom_filter.bits@);
        }
        Self {
            file_id: self.file_id,
            level: self.level,
            is_delta: self.is_delta,
            time_range: self.time_range,
            size: self.size,
            field_id_bloom_filter: BloomFilter { bits },
            deleted: self.deleted,
            compacting: self.compacting,
            path: self.path.clone(),
        }
    }
}

/// The value of the `ColumnFile` a `CompactMeta` describes, installed at
/// `path` with bloom words `bloom`.
pub open spec fn spec_file_of_meta(meta: CompactMeta, path: Seq<char>, bloom: Seq<u64>)
    -> ColumnFileV {
    ColumnFileV {
        file_id: meta.file_id,
        level: meta.level,
        is_delta: meta.is_delta,
        time_range: TimeRange { min_ts: meta.min_ts, max_ts: meta.max_ts },
        size: meta.file_size,
        bloom,
        deleted: false,
        compacting: false,
        path,
    }
}

} // verus!
