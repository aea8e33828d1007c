//! The ELF input model: sections, segments, entry point, classification of
//! sections, and the stable ordering of sections by file offset.

use vstd::prelude::*;
use crate::byteseq::{contains_seq, contains_sub};

verus! {

/// Loadable program segment (`PT_LOAD`).
pub const PT_LOAD: u32 = 1;

/// Writeable segment flag (`PF_W`).
pub const PF_W: u32 = 2;

/// Readable segment flag (`PF_R`).
pub const PF_R: u32 = 4;

/// Writeable section flag (`SHF_WRITE`).
pub const SHF_WRITE: u64 = 1;

/// Section occupies memory during execution (`SHF_ALLOC`).
pub const SHF_ALLOC: u64 = 2;

/// Executable section flag (`SHF_EXECINSTR`).
pub const SHF_EXECINSTR: u64 = 4;

/// Section holds program-defined bytes (`SHT_PROGBITS`).
pub const SHT_PROGBITS: u32 = 1;

/// One ELF section: its name, the header fields the conversion reads, and
/// its raw bytes.
pub struct ElfSection {
    /// Section name bytes.
    pub name: Vec<u8>,
    /// Offset of the section in the ELF file; determines layout order.
    pub offset: u64,
    /// Virtual address of the section.
    pub addr: u64,
    /// Section size as recorded in the section header.
    pub size: u64,
    /// Section type (`SHT_*`).
    pub shtype: u32,
    /// Section flags (`SHF_*`).
    pub flags: u64,
    /// Raw section bytes.
    pub data: Vec<u8>,
}

/// One ELF program segment: the fields the RAM calculation reads.
pub struct ElfSegment {
    /// Segment type (`PT_*`).
    pub progtype: u32,
    /// Segment flags (`PF_*`).
    pub flags: u32,
    /// Size of the segment in memory.
    pub memsz: u64,
}

/// An ELF input: entry point, sections, program segments.
pub struct ElfInput {
    /// Virtual address at which execution starts.
    pub entry: u64,
    /// All sections, in their original order.
    pub sections: Vec<ElfSection>,
    /// All program segments, in their original order.
    pub segments: Vec<ElfSegment>,
}

/// The marker substring that names a writeable flash region: ".wfr".
pub open spec fn wfr_marker() -> Seq<u8> {
    seq![0x2eu8, 0x77u8, 0x66u8, 0x72u8]
}

/// The substring that marks a debug section: "debug".
pub open spec fn debug_marker() -> Seq<u8> {
    seq![0x64u8, 0x65u8, 0x62u8, 0x75u8, 0x67u8]
}

/// The prefix of a relocation section name: ".rel".
pub open spec fn rel_prefix() -> Seq<u8> {
    seq![0x2eu8, 0x72u8, 0x65u8, 0x6cu8]
}

pub fn wfr_marker_vec() -> (r: Vec<u8>)
    ensures
        r@ == wfr_marker(),
{
    let mut v: Vec<u8> = Vec::new();
    v.push(0x2eu8);
    v.push(0x77u8);
    v.push(0x66u8);
    v.push(0x72u8);
    proof {
        assert(v@ =~= wfr_marker());
    }
    v
}

pub fn debug_marker_vec() -> (r: Vec<u8>)
    ensures
        r@ == debug_marker(),
{
    let mut v: Vec<u8> = Vec::new();
    v.push(0x64u8);
    v.push(0x65u8);
    v.push(0x62u8);
    v.push(0x75u8);
    v.push(0x67u8);
    proof {
        assert(v@ =~= debug_marker());
    }
    v
}

pub fn rel_prefix_vec() -> (r: Vec<u8>)
    ensures
        r@ == rel_prefix(),
{
    let mut v: Vec<u8> = Vec::new();
    v.push(0x2eu8);
    v.push(0x72u8);
    v.push(0x65u8);
    v.push(0x6cu8);
    proof {
        assert(v@ =~= rel_prefix());
    }
    v
}

/// A writeable flash region: named with the ".wfr" marker and non-empty.
/// Its placement is advertised in the header.
pub open spec fn sec_is_wfr(s: ElfSection) -> bool {
    contains_seq(s.name@, wfr_marker()) && s.size > 0
}

/// A relocation source: flags are exactly writeable+allocated.  A companion
/// section named ".rel" + name contributes relocation bytes.
pub open spec fn sec_is_rel_source(s: ElfSection) -> bool {
    s.flags == SHF_WRITE + SHF_ALLOC
}

/// The section contains the entry address and is not a debug section.
pub open spec fn sec_is_entry_bearing(s: ElfSection, entry: u64) -> bool {
    &&& s.addr <= entry
    &&& entry < s.addr + s.size
    &&& !contains_seq(s.name@, debug_marker())
}

/// The section is copied into the flash image: writeable, executable or
/// allocated, holds program-defined bytes, and is non-empty.
pub open spec fn sec_is_emitted(s: ElfSection) -> bool {
    &&& s.flags & (SHF_WRITE | SHF_EXECINSTR | SHF_ALLOC) != 0
    &&& s.shtype == SHT_PROGBITS
    &&& s.size > 0
}

pub fn is_wfr(s: &ElfSection) -> (r: bool)
    ensures
        r == sec_is_wfr(*s),
{
    let m = wfr_marker_vec();
    contains_sub(&s.name, &m) && s.size > 0
}

pub fn is_rel_source(s: &ElfSection) -> (r: bool)
    ensures
        r == sec_is_rel_source(*s),
{
    s.flags == SHF_WRITE + SHF_ALLOC
}

pub fn is_entry_bearing(s: &ElfSection, entry: u64) -> (r: bool)
    ensures
        r == sec_is_entry_bearing(*s, entry),
{
    if entry >= s.addr && entry - s.addr < s.size {
        let m = debug_marker_vec();
        !contains_sub(&s.name, &m)
    } else {
        false
    }
}

pub fn is_emitted(s: &ElfSection) -> (r: bool)
    ensures
        r == sec_is_emitted(*s),
{
    (s.flags & (SHF_WRITE | SHF_EXECINSTR | SHF_ALLOC)) != 0 && s.shtype == SHT_PROGBITS && s.size
        > 0
}

/// Section `i` comes strictly before section `j` in layout order: smaller
/// file offset, ties broken by original position.
pub open spec fn key_lt(secs: Seq<ElfSection>, i: int, j: int) -> bool {
    secs[i].offset < secs[j].offset || (secs[i].offset == secs[j].offset && i < j)
}

/// `order` lists every section index exactly once, sorted ascending by file
/// offset with ties in original order: the deterministic layout order.
pub open spec fn is_sorted_order(secs: Seq<ElfSection>, order: Seq<usize>) -> bool {
    &&& order.len() == secs.len()
    &&& forall|k: int| 0 <= k < order.len() ==> (#[trigger] order[k]) < secs.len()
    &&& forall|k1: int, k2: int|
        0 <= k1 < k2 < order.len() ==> key_lt(
            secs,
            #[trigger] order[k1] as int,
            #[trigger] order[k2] as int,
        )
    &&& forall|v: usize| v < secs.len() ==> order.contains(v)
}

/// The layout order of the sections.  Well defined because
/// `lemma_sorted_order_unique` shows at most one ordering qualifies.
pub open spec fn spec_order(secs: Seq<ElfSection>) -> Seq<usize> {
    choose|order: Seq<usize>| is_sorted_order(secs, order)
}

proof fn lemma_sorted_order_agree_upto(
    secs: Seq<ElfSection>,
    o1: Seq<usize>,
    o2: Seq<usize>,
    k: int,
)
    requires
        is_sorted_order(secs, o1),
        is_sorted_order(secs, o2),
        0 <= k <= o1.len(),
    ensures
        forall|j: int| 0 <= j < k ==> o1[j] == o2[j],
    decreases k,
{
    if k > 0 {
        lemma_sorted_order_agree_upto(secs, o1, o2, k - 1);
        let a = o1[k - 1];
        let b = o2[k - 1];
        if a != b {
            assert(o2.contains(a));
            let p = choose|p: int| 0 <= p < o2.len() && o2[p] == a;
            if p < k - 1 {
                // Then a already stands earlier in both orderings, yet an
                // ordering never repeats an index.
                assert(o1[p] == o2[p]);
                assert(key_lt(secs, o1[p] as int, o1[k - 1] as int));
            } else {
                assert(key_lt(secs, b as int, a as int));
                assert(o1.contains(b));
                let q = choose|q: int| 0 <= q < o1.len() && o1[q] == b;
                if q < k - 1 {
                    assert(o2[q] == o1[q]);
                    assert(key_lt(secs, o2[q] as int, o2[k - 1] as int));
                } else {
                    assert(key_lt(secs, a as int, b as int));
                }
            }
        }
    }
}

/// At most one ordering of the sections is the stable sort by file offset.
pub proof fn lemma_sorted_order_unique(secs: Seq<ElfSection>, o1: Seq<usize>, o2: Seq<usize>)
    requires
        is_sorted_order(secs, o1),
        is_sorted_order(secs, o2),
    ensures
        o1 == o2,
{
    lemma_sorted_order_agree_upto(secs, o1, o2, o1.len() as int);
    assert(o1 =~= o2);
}

/// Compute the layout order of the sections: a stable insertion sort on the
/// section file offsets.
pub fn sort_sections(secs: &Vec<ElfSection>) -> (order: Vec<usize>)
    ensures
        is_sorted_order(secs@, order@),
        order@ == spec_order(secs@),
{
    let n = secs.len();
    let mut order: Vec<usize> = Vec::new();
    let mut i: usize = 0;
    while i < n
        invariant
            i <= secs@.len(),
            n == secs@.len(),
            order@.len() == i,
            forall|k: int| 0 <= k < order@.len() ==> (#[trigger] order@[k]) < i,
            forall|k1: int, k2: int|
                0 <= k1 < k2 < order@.len() ==> key_lt(
                    secs@,
                    #[trigger] order@[k1] as int,
                    #[trigger] order@[k2] as int,
                ),
            forall|v: usize| v < i ==> order@.contains(v),
        decreases secs@.len() - i,
    {
        let off = secs[i].offset;
        let mut p: usize = 0;
        while p < order.len() && secs[order[p]].offset <= off
            invariant
                i < secs@.len(),
                order@.len() == i,
                forall|k: int| 0 <= k < order@.len() ==> (#[trigger] order@[k]) < i,
                off == secs@[i as int].offset,
                p <= order@.len(),
                forall|k: int| 0 <= k < p ==> secs@[#[trigger] order@[k] as int].offset <= off,
            decreases order@.len() - p,
        {
            p = p + 1;
        }
        let ghost old_order = order@;
        order.insert(p, i);
        proof {
            assert(order@ == old_order.insert(p as int, i));
            old_order.insert_ensures(p as int, i);
            assert forall|k1: int, k2: int| 0 <= k1 < k2 < order@.len() implies key_lt(
                secs@,
                #[trigger] order@[k1] as int,
                #[trigger] order@[k2] as int,
            ) by {
                if k2 < p {
                    assert(order@[k1] == old_order[k1] && order@[k2] == old_order[k2]);
                } else if k1 > p {
                    assert(order@[k1] == old_order[k1 - 1] && order@[k2] == old_order[k2 - 1]);
                } else if k1 < p && k2 == p {
                    assert(order@[k1] == old_order[k1]);
                    assert(secs@[order@[k1] as int].offset <= off);
                    assert(order@[k1] < i);
                } else if k1 == p && k2 > p {
                    assert(order@[k2] == old_order[k2 - 1]);
                    if k2 - 1 >= p {
                        if p < old_order.len() {
                            assert(secs@[old_order[p as int] as int].offset > off);
                            if k2 - 1 > p {
                                assert(key_lt(secs@, old_order[p as int] as int, old_order[k2
                                    - 1] as int));
                            }
                        }
                    }
                } else if k1 < p && k2 > p {
                    assert(order@[k1] == old_order[k1] && order@[k2] == old_order[k2 - 1]);
                    if k2 - 1 > k1 {
                        assert(key_lt(secs@, old_order[k1] as int, old_order[k2 - 1] as int));
                    }
                }
            }
            assert forall|v: usize| v < i + 1 implies order@.contains(v) by {
                if v < i {
                    assert(old_order.contains(v));
                    let j = old_order.index_of(v);
                    assert(0 <= j < old_order.len() && old_order[j] == v);
                    if j < p {
                        assert(order@[j] == v);
                    } else {
                        assert(order@[j + 1] == v);
                    }
                } else {
                    assert(order@[p as int] == v);
                }
            }
        }
        i = i + 1;
    }
    proof {
        assert(is_sorted_order(secs@, order@));
        let c = spec_order(secs@);
        assert(is_sorted_order(secs@, c)) by {
            assert(is_sorted_order(secs@, order@));
        }
        lemma_sorted_order_unique(secs@, order@, c);
    }
    order
}

} // verus!
