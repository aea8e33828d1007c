//! The minimum RAM requirement of an application: the memory size of its
//! read-write loadable segment plus the caller-supplied stack and heap
//! reservations, each rounded up.

use vstd::prelude::*;
use crate::align::{align4_u32, align8_u32, spec_align4, spec_align8};
use crate::sections::{ElfSegment, PF_R, PF_W, PT_LOAD};

verus! {

/// A segment that is copied into RAM at load time: loadable, with flags
/// exactly readable+writeable.
pub open spec fn seg_is_ram(s: ElfSegment) -> bool {
    s.progtype == PT_LOAD && s.flags == PF_W + PF_R
}

/// The memory size of the first read-write loadable segment, or 0 when no
/// such segment exists.
pub open spec fn spec_base_ram(segs: Seq<ElfSegment>) -> int
    decreases segs.len(),
{
    if segs.len() == 0 {
        0
    } else if seg_is_ram(segs[0]) {
        segs[0].memsz as int
    } else {
        spec_base_ram(segs.skip(1))
    }
}

/// The minimum RAM requirement: base segment size plus stack rounded up to
/// a multiple of 8 plus each heap rounded up to a multiple of 4.
pub open spec fn spec_minimum_ram(
    segs: Seq<ElfSegment>,
    stack_len: u32,
    app_heap_len: u32,
    kernel_heap_len: u32,
) -> int {
    spec_base_ram(segs) + spec_align8(stack_len as int) + spec_align4(app_heap_len as int)
        + spec_align4(kernel_heap_len as int)
}

/// Compute the minimum RAM requirement of an application.
pub fn minimum_ram_size(
    segments: &Vec<ElfSegment>,
    stack_len: u32,
    app_heap_len: u32,
    kernel_heap_len: u32,
) -> (r: u32)
    requires
        spec_minimum_ram(segments@, stack_len, app_heap_len, kernel_heap_len) <= u32::MAX,
    ensures
        r == spec_minimum_ram(segments@, stack_len, app_heap_len, kernel_heap_len),
{
    let n = segments.len();
    let mut base: u32 = 0;
    let mut i: usize = 0;
    let mut found = false;
    proof {
        assert(segments@.skip(0) =~= segments@);
    }
    while i < n && !found
        invariant
            n == segments@.len(),
            i <= n,
            spec_base_ram(segments@) <= u32::MAX,
            !found ==> spec_base_ram(segments@) == spec_base_ram(segments@.skip(i as int)),
            found ==> base == spec_base_ram(segments@),
            !found ==> base == 0,
        decreases n - i,
    {
        let seg = &segments[i];
        if seg.progtype == PT_LOAD && seg.flags == PF_W + PF_R {
            proof {
                assert(seg_is_ram(segments@.skip(i as int)[0]));
            }
            base = seg.memsz as u32;
            found = true;
        } else {
            proof {
                assert(segments@.skip(i as int).skip(1) =~= segments@.skip(i + 1));
            }
        }
        i = i + 1;
    }
    proof {
        if !found {
            assert(segments@.skip(n as int).len() == 0);
        }
    }
    base + align8_u32(stack_len) + align4_u32(app_heap_len) + align4_u32(kernel_heap_len)
}

} // verus!
