//! A 512-bit bloom filter over field ids. Probing may report a field id that
//! was never inserted (a false positive), but an inserted id always probes
//! true, and inserting can never make another id stop probing true.

use vstd::prelude::*;

verus! {

/// Number of 64-bit words in the filter (512 bits).
pub const BLOOM_WORDS: usize = 8;

/// Whether bit `i` (with `i < 512`) is set in `bits`.
pub open spec fn bit_is_set(bits: Seq<u64>, i: nat) -> bool {
    bits.len() == 8 && i < 512 && (bits[(i / 64) as int] >> ((i % 64) as u64)) & 1 == 1
}

/// The three probe positions of a field id, each below 512.
pub open spec fn probe0(f: u64) -> nat {
    (f % 512) as nat
}

pub open spec fn probe1(f: u64) -> nat {
    (((f >> 9) ^ (f >> 31)) % 512) as nat
}

pub open spec fn probe2(f: u64) -> nat {
    (((f >> 18) ^ (f >> 45)) % 512) as nat
}

/// The bit words of a filter with nothing inserted.
pub open spec fn empty_bloom() -> Seq<u64> {
    Seq::<u64>::new(8, |i: int| 0u64)
}

#[derive(Debug)]
pub struct BloomFilter {
    pub bits: Vec<u64>,
}

impl BloomFilter {
    /// Well-formed: exactly eight words.
    pub open spec fn wf(self) -> bool {
        self.bits@.len() == 8
    }

    /// The raw bit words, for stating which bits are set.
    pub open spec fn view_bits(self) -> Seq<u64> {
        self.bits@
    }

    /// Whether all three probe bits of `f` are set.
    pub open spec fn spec_contains(self, f: u64) -> bool {
        bit_is_set(self.bits@, probe0(f)) && bit_is_set(self.bits@, probe1(f))
            && bit_is_set(self.bits@, probe2(f))
    }

    /// An empty filter: every probe reports absent.
    pub fn new() -> (r: Self)
        ensures
            r.wf(),
            r.view_bits() == empty_bloom(),
            forall|f: u64| !r.spec_contains(f),
            forall|i: nat| !bit_is_set(r.view_bits(), i),
    {
        let mut bits: Vec<u64> = Vec::new();
        let mut k: usize = 0;
        while k < 8
            invariant
                bits@.len() == k,
                k <= 8,
                forall|j: int| 0 <= j < k ==> bits@[j] == 0u64,
            decreases 8 - k,
        {
            bits.push(0);
            k = k + 1;
        }
        proof {
            assert(bits@ =~= empty_bloom());
        }
        proof {
            assert forall|i: nat| !bit_is_set(bits@, i) by {
                if bits@.len() == 8 && i < 512 {
                    let w = bits@[(i / 64) as int];
                    assert(w == 0u64);
                    let s = (i % 64) as u64;
                    assert((0u64 >> s) & 1 == 0) by (bit_vector);
                }
            }
        }
        Self { bits }
    }

    fn set_bit(&mut self, i: usize)
        requires
            old(self).wf(),
            i < 512,
        ensures
            final(self).wf(),
            bit_is_set(final(self).view_bits(), i as nat),
            forall|j: nat|
                bit_is_set(old(self).view_bits(), j) ==> bit_is_set(final(self).view_bits(), j),
    {
        let w: usize = i / 64;
        let s: u64 = (i % 64) as u64;
        let oldw = self.bits[w];
        let neww = oldw | (1u64 << s);
        self.bits.set(w, neww);
        proof {
            let ow = oldw;
            let sh = s;
            assert(sh < 64);
            assert(((ow | (1u64 << sh)) >> sh) & 1 == 1) by (bit_vector)
                requires
                    sh < 64,
            ;
            assert forall|t: u64| t < 64 && (ow >> t) & 1 == 1 implies ((ow | (1u64 << sh)) >> t)
                & 1 == 1 by {
                assert(forall|t: u64|
                    t < 64 && (ow >> t) & 1 == 1 ==> ((ow | (1u64 << sh)) >> t) & 1 == 1)
                    by (bit_vector);
            }
            assert forall|j: nat|
                bit_is_set(old(self).view_bits(), j) implies bit_is_set(
                self.view_bits(),
                j,
            ) by {
                let jw = (j / 64) as int;
                if jw != w as int {
                    assert(self.bits@[jw] == old(self).bits@[jw]);
                } else {
                    assert((j % 64) < 64);
                }
            }
        }
    }

    /// Records a field id in the filter.
    pub fn insert(&mut self, f: u64)
        requires
            old(self).wf(),
        ensures
            final(self).wf(),
            final(self).spec_contains(f),
            forall|g: u64| old(self).spec_contains(g) ==> final(self).spec_contains(g),
            forall|j: nat|
                bit_is_set(old(self).view_bits(), j) ==> bit_is_set(final(self).view_bits(), j),
    {
        let p0: usize = (f % 512) as usize;
        let p1: usize = (((f >> 9) ^ (f >> 31)) % 512) as usize;
        let p2: usize = (((f >> 18) ^ (f >> 45)) % 512) as usize;
        proof {
            assert(f % 512 < 512) by (bit_vector);
            assert(((f >> 9) ^ (f >> 31)) % 512 < 512) by (bit_vector);
            assert(((f >> 18) ^ (f >> 45)) % 512 < 512) by (bit_vector);
        }
        self.set_bit(p0);
        self.set_bit(p1);
        self.set_bit(p2);
    }

    /// Probes the filter for a field id.
    pub fn contains(&self, f: u64) -> (r: bool)
        requires
            self.wf(),
        ensures
            r == self.spec_contains(f),
    {
        let p0: usize = (f % 512) as usize;
        let p1: usize = (((f >> 9) ^ (f >> 31)) % 512) as usize;
        let p2: usize = (((f >> 18) ^ (f >> 45)) % 512) as usize;
        proof {
            assert(f % 512 < 512) by (bit_vector);
            assert(((f >> 9) ^ (f >> 31)) % 512 < 512) by (bit_vector);
            assert(((f >> 18) ^ (f >> 45)) % 512 < 512) by (bit_vector);
        }
        self.get_bit(p0) && self.get_bit(p1) && self.get_bit(p2)
    }

    fn get_bit(&self, i: usize) -> (r: bool)
        requires
            self.wf(),
            i < 512,
        ensures
            r == bit_is_set(self.view_bits(), i as nat),
    {
        let w: usize = i / 64;
        let s: u64 = (i % 64) as u64;
        (self.bits[w] >> s) & 1 == 1
    }
}

/// Law: inserting more field ids never makes a previously admitted id
/// probe false; the filter only grows.
pub proof fn lemma_bloom_monotone(a: BloomFilter, b: BloomFilter, f: u64)
    requires
        forall|j: nat| bit_is_set(a.view_bits(), j) ==> bit_is_set(b.view_bits(), j),
        a.spec_contains(f),
    ensures
        b.spec_contains(f),
{
    assert(bit_is_set(a.view_bits(), probe0(f)));
    assert(bit_is_set(a.view_bits(), probe1(f)));
    assert(bit_is_set(a.view_bits(), probe2(f)));
    assert(bit_is_set(b.view_bits(), probe0(f)));
    assert(bit_is_set(b.view_bits(), probe1(f)));
    assert(bit_is_set(b.view_bits(), probe2(f)));
}

} // verus!
