//! The content-layout pass: walking the sections in layout order, appending
//! the emitted ones to the content buffer, recording writeable flash
//! regions, locating the entry point, and packing relocation data.

use vstd::prelude::*;
use crate::byteseq::{bytes_eq, concat_bytes, push_bytes, push_zeros, zero_bytes};
use crate::sections::{
    rel_prefix, rel_prefix_vec, sec_is_emitted, sec_is_entry_bearing, sec_is_rel_source,
    sec_is_wfr, is_emitted, is_entry_bearing, is_rel_source, is_wfr, ElfSection,
};

verus! {

/// The state of the layout pass after some prefix of the sections: the
/// current image offset, the content bytes gathered so far, the entry
/// offset if one was found, and the flash regions recorded so far.
pub struct LayoutModel {
    /// Offset in the image where the next emitted section would start.
    pub index: int,
    /// Content bytes gathered so far (everything after the header).
    pub content: Seq<u8>,
    /// Entry offset relative to the end of the header, 0 until found.
    pub init_fn_offset: int,
    /// Whether an entry-bearing section was seen.
    pub entry_found: bool,
    /// (offset, size) of each writeable flash region seen, in order.  The
    /// offset is the region's start in the content buffer, counted from
    /// the end of the header, like the entry offset.
    pub wfrs: Seq<(u32, u32)>,
}

/// The layout state before any section: the image offset starts at the end
/// of the protected region, and the content buffer holds the zero bytes of
/// the protected region beyond the header.
pub open spec fn spec_layout_init(protected_region_size: int, header_length: int) -> LayoutModel {
    LayoutModel {
        index: protected_region_size,
        content: zero_bytes(protected_region_size - header_length),
        init_fn_offset: 0,
        entry_found: false,
        wfrs: Seq::empty(),
    }
}

/// One step of the layout pass over section `s`.  An entry-bearing section
/// fixes the entry offset (the first one wins); an emitted section appends
/// its bytes and advances the offset by its header size; an emitted
/// writeable flash region records its placement in the content buffer,
/// counted from the end of the header.
pub open spec fn layout_step(
    st: LayoutModel,
    s: ElfSection,
    entry: u64,
    header_length: int,
) -> LayoutModel {
    let st1 = if sec_is_entry_bearing(s, entry) && !st.entry_found {
        LayoutModel {
            index: st.index,
            content: st.content,
            init_fn_offset: entry - s.addr + st.index - header_length,
            entry_found: true,
            wfrs: st.wfrs,
        }
    } else {
        st
    };
    if sec_is_emitted(s) {
        LayoutModel {
            index: st1.index + s.size,
            content: st1.content + s.data@,
            init_fn_offset: st1.init_fn_offset,
            entry_found: st1.entry_found,
            wfrs: if sec_is_wfr(s) {
                st1.wfrs.push((((st1.index - header_length) as u32), (s.size as u32)))
            } else {
                st1.wfrs
            },
        }
    } else {
        st1
    }
}

/// The layout state after the first `k` sections in layout order.
pub open spec fn layout_upto(
    secs: Seq<ElfSection>,
    order: Seq<usize>,
    k: int,
    entry: u64,
    header_length: int,
    protected_region_size: int,
) -> LayoutModel
    decreases k,
{
    if k <= 0 {
        spec_layout_init(protected_region_size, header_length)
    } else {
        layout_step(
            layout_upto(secs, order, k - 1, entry, header_length, protected_region_size),
            secs[order[k - 1] as int],
            entry,
            header_length,
        )
    }
}

/// A second entry-bearing section turns up at position `k` of the layout
/// order: the fatal duplicate-entry-point condition.
pub open spec fn dup_at(
    secs: Seq<ElfSection>,
    order: Seq<usize>,
    k: int,
    entry: u64,
    header_length: int,
    protected_region_size: int,
) -> bool {
    &&& layout_upto(secs, order, k, entry, header_length, protected_region_size).entry_found
    &&& sec_is_entry_bearing(secs[order[k] as int], entry)
}

/// Some section is a duplicate entry point.
pub open spec fn spec_has_dup(
    secs: Seq<ElfSection>,
    order: Seq<usize>,
    entry: u64,
    header_length: int,
    protected_region_size: int,
) -> bool {
    exists|k: int|
        0 <= k < order.len() && #[trigger] dup_at(
            secs,
            order,
            k,
            entry,
            header_length,
            protected_region_size,
        )
}

/// The position in layout order at which the duplicate entry point is
/// detected: the first one.
pub open spec fn spec_first_dup(
    secs: Seq<ElfSection>,
    order: Seq<usize>,
    entry: u64,
    header_length: int,
    protected_region_size: int,
) -> int {
    choose|k: int|
        0 <= k < order.len() && #[trigger] dup_at(
            secs,
            order,
            k,
            entry,
            header_length,
            protected_region_size,
        ) && forall|j: int|
            0 <= j < k ==> !dup_at(secs, order, j, entry, header_length, protected_region_size)
}

/// The image offset never moves backwards over the layout pass.
pub proof fn lemma_layout_index_monotonic(
    secs: Seq<ElfSection>,
    order: Seq<usize>,
    k1: int,
    k2: int,
    entry: u64,
    header_length: int,
    protected_region_size: int,
)
    requires
        0 <= k1 <= k2,
    ensures
        layout_upto(secs, order, k1, entry, header_length, protected_region_size).index
            <= layout_upto(secs, order, k2, entry, header_length, protected_region_size).index,
    decreases k2 - k1,
{
    if k1 < k2 {
        lemma_layout_index_monotonic(
            secs,
            order,
            k1,
            k2 - 1,
            entry,
            header_length,
            protected_region_size,
        );
    }
}

/// The content buffer always reaches from the end of the header to the
/// current image offset, provided emitted sections hold exactly as many
/// bytes as their header size announces.
pub proof fn lemma_layout_content_len(
    secs: Seq<ElfSection>,
    order: Seq<usize>,
    k: int,
    entry: u64,
    header_length: int,
    protected_region_size: int,
)
    requires
        0 <= k <= order.len(),
        header_length <= protected_region_size,
        forall|j: int| 0 <= j < order.len() ==> (#[trigger] order[j]) < secs.len(),
        forall|i: int|
            0 <= i < secs.len() && sec_is_emitted(#[trigger] secs[i]) ==> secs[i].data@.len()
                == secs[i].size,
    ensures
        layout_upto(secs, order, k, entry, header_length, protected_region_size).content.len()
            == layout_upto(secs, order, k, entry, header_length, protected_region_size).index
            - header_length,
    decreases k,
{
    if k > 0 {
        lemma_layout_content_len(secs, order, k - 1, entry, header_length, protected_region_size);
    }
}

/// Once the entry offset is fixed it never changes: every later state
/// reports the same offset and still reports the entry as found.
pub proof fn lemma_layout_init_sticky(
    secs: Seq<ElfSection>,
    order: Seq<usize>,
    k1: int,
    k2: int,
    entry: u64,
    header_length: int,
    protected_region_size: int,
)
    requires
        0 <= k1 <= k2,
        layout_upto(secs, order, k1, entry, header_length, protected_region_size).entry_found,
    ensures
        layout_upto(secs, order, k2, entry, header_length, protected_region_size).entry_found,
        layout_upto(secs, order, k2, entry, header_length, protected_region_size).init_fn_offset
            == layout_upto(secs, order, k1, entry, header_length, protected_region_size)
            .init_fn_offset,
    decreases k2 - k1,
{
    if k1 < k2 {
        lemma_layout_init_sticky(
            secs,
            order,
            k1,
            k2 - 1,
            entry,
            header_length,
            protected_region_size,
        );
    }
}

/// The entry point has been found after `k` sections exactly when some
/// earlier section in layout order is entry-bearing.
pub proof fn lemma_layout_entry_found(
    secs: Seq<ElfSection>,
    order: Seq<usize>,
    k: int,
    entry: u64,
    header_length: int,
    protected_region_size: int,
)
    requires
        0 <= k,
    ensures
        layout_upto(secs, order, k, entry, header_length, protected_region_size).entry_found
            <==> exists|j: int|
            0 <= j < k && sec_is_entry_bearing(#[trigger] secs[order[j] as int], entry),
    decreases k,
{
    if k > 0 {
        lemma_layout_entry_found(secs, order, k - 1, entry, header_length, protected_region_size);
        if layout_upto(secs, order, k, entry, header_length, protected_region_size).entry_found {
            if !layout_upto(
                secs,
                order,
                k - 1,
                entry,
                header_length,
                protected_region_size,
            ).entry_found {
                assert(sec_is_entry_bearing(secs[order[k - 1] as int], entry));
            }
        }
    }
}

/// When exactly one section in layout order contains the entry address,
/// there is no duplicate entry point, and the recorded entry offset is
/// (entry address − section address) plus the image offset at which that
/// section was reached, counted from the end of the header.
pub proof fn lemma_single_entry_offset(
    secs: Seq<ElfSection>,
    order: Seq<usize>,
    k: int,
    entry: u64,
    header_length: int,
    protected_region_size: int,
)
    requires
        0 <= k < order.len(),
        sec_is_entry_bearing(secs[order[k] as int], entry),
        forall|j: int|
            0 <= j < order.len() && j != k ==> !sec_is_entry_bearing(
                #[trigger] secs[order[j] as int],
                entry,
            ),
    ensures
        !spec_has_dup(secs, order, entry, header_length, protected_region_size),
        layout_upto(
            secs,
            order,
            order.len() as int,
            entry,
            header_length,
            protected_region_size,
        ).entry_found,
        layout_upto(
            secs,
            order,
            order.len() as int,
            entry,
            header_length,
            protected_region_size,
        ).init_fn_offset == entry - secs[order[k] as int].addr + (layout_upto(
            secs,
            order,
            k,
            entry,
            header_length,
            protected_region_size,
        ).index - header_length),
{
    lemma_layout_entry_found(secs, order, k, entry, header_length, protected_region_size);
    assert(!layout_upto(secs, order, k, entry, header_length, protected_region_size).entry_found);
    assert(layout_upto(secs, order, k + 1, entry, header_length, protected_region_size)
        == layout_step(
        layout_upto(secs, order, k, entry, header_length, protected_region_size),
        secs[order[k] as int],
        entry,
        header_length,
    ));
    lemma_layout_init_sticky(
        secs,
        order,
        k + 1,
        order.len() as int,
        entry,
        header_length,
        protected_region_size,
    );
    assert forall|j: int| 0 <= j < order.len() implies !#[trigger] dup_at(
        secs,
        order,
        j,
        entry,
        header_length,
        protected_region_size,
    ) by {
        if j == k {
            assert(!layout_upto(
                secs,
                order,
                j,
                entry,
                header_length,
                protected_region_size,
            ).entry_found);
        }
    }
}

proof fn lemma_rel_upto_single(secs: Seq<ElfSection>, order: Seq<usize>, k: int, m: int)
    requires
        0 <= k < order.len(),
        0 <= m <= order.len(),
        sec_is_rel_source(secs[order[k] as int]),
        forall|j: int|
            0 <= j < order.len() && j != k ==> !sec_is_rel_source(#[trigger] secs[order[j] as int]),
    ensures
        spec_rel_upto(secs, order, m) == (if m <= k {
            Seq::<u8>::empty()
        } else {
            spec_find_rel_data(secs, rel_prefix() + secs[order[k] as int].name@)
        }),
    decreases m,
{
    if m > 0 {
        lemma_rel_upto_single(secs, order, k, m - 1);
        if m - 1 == k {
            assert(spec_rel_upto(secs, order, m) =~= spec_find_rel_data(
                secs,
                rel_prefix() + secs[order[k] as int].name@,
            ));
        } else {
            assert(spec_rel_upto(secs, order, m) =~= spec_rel_upto(secs, order, m - 1));
        }
    }
}

/// When exactly one section is a relocation source, the relocation block
/// is exactly the bytes of that section's ".rel" companion — empty when it
/// has none.
pub proof fn lemma_single_relocation_source(secs: Seq<ElfSection>, order: Seq<usize>, k: int)
    requires
        0 <= k < order.len(),
        sec_is_rel_source(secs[order[k] as int]),
        forall|j: int|
            0 <= j < order.len() && j != k ==> !sec_is_rel_source(#[trigger] secs[order[j] as int]),
    ensures
        spec_rel_binary(secs, order) == spec_find_rel_data(
            secs,
            rel_prefix() + secs[order[k] as int].name@,
        ),
{
    lemma_rel_upto_single(secs, order, k, order.len() as int);
}

/// The result of the layout pass, carried between the passes of the
/// conversion: the final image offset, the content buffer, the entry
/// offset, and the recorded flash regions.
pub struct LayoutCursor {
    /// Offset in the image where the relocation block will start.
    pub index: usize,
    /// The content buffer: protected-region zeros, then section bytes.
    pub content: Vec<u8>,
    /// Entry offset relative to the end of the header, 0 if none found.
    pub init_fn_offset: u32,
    /// Whether an entry-bearing section was found.
    pub entry_found: bool,
    /// (offset, size) of each writeable flash region, in layout order;
    /// offsets count from the end of the header, as the entry offset does.
    pub writeable_flash_regions: Vec<(u32, u32)>,
}

/// Walk the sections in layout order and build the content buffer.  Fails
/// with the original index of the offending section when a second
/// entry-bearing section turns up.
pub fn layout_sections(
    secs: &Vec<ElfSection>,
    order: &Vec<usize>,
    entry: u64,
    header_length: usize,
    protected_region_size: usize,
) -> (r: Result<LayoutCursor, usize>)
    requires
        order@.len() == secs@.len(),
        forall|j: int| 0 <= j < order@.len() ==> (#[trigger] order@[j]) < secs@.len(),
        header_length <= protected_region_size,
        layout_upto(
            secs@,
            order@,
            order@.len() as int,
            entry,
            header_length as int,
            protected_region_size as int,
        ).index <= 0x7FFF_FFFC,
        layout_upto(
            secs@,
            order@,
            order@.len() as int,
            entry,
            header_length as int,
            protected_region_size as int,
        ).init_fn_offset <= u32::MAX,
    ensures
        match r {
            Ok(cursor) => {
                let fin = layout_upto(
                    secs@,
                    order@,
                    order@.len() as int,
                    entry,
                    header_length as int,
                    protected_region_size as int,
                );
                &&& !spec_has_dup(
                    secs@,
                    order@,
                    entry,
                    header_length as int,
                    protected_region_size as int,
                )
                &&& cursor.index == fin.index
                &&& cursor.content@ == fin.content
                &&& cursor.init_fn_offset == fin.init_fn_offset
                &&& cursor.entry_found == fin.entry_found
                &&& cursor.writeable_flash_regions@ == fin.wfrs
            },
            Err(idx) => {
                &&& spec_has_dup(
                    secs@,
                    order@,
                    entry,
                    header_length as int,
                    protected_region_size as int,
                )
                &&& idx == order@[spec_first_dup(
                    secs@,
                    order@,
                    entry,
                    header_length as int,
                    protected_region_size as int,
                )]
            },
        },
{
    let ghost hl = header_length as int;
    let ghost prs = protected_region_size as int;
    let ghost fin = layout_upto(secs@, order@, order@.len() as int, entry, hl, prs);
    let n = order.len();
    let mut content: Vec<u8> = Vec::new();
    push_zeros(&mut content, protected_region_size - header_length);
    let mut cursor = LayoutCursor {
        index: protected_region_size,
        content,
        init_fn_offset: 0,
        entry_found: false,
        writeable_flash_regions: Vec::new(),
    };
    proof {
        assert(cursor.content@ =~= zero_bytes(prs - hl));
        assert(cursor.writeable_flash_regions@ =~= Seq::<(u32, u32)>::empty());
    }
    let mut k: usize = 0;
    while k < n
        invariant
            n == order@.len(),
            order@.len() == secs@.len(),
            forall|j: int| 0 <= j < order@.len() ==> (#[trigger] order@[j]) < secs@.len(),
            header_length <= protected_region_size,
            hl == header_length as int,
            prs == protected_region_size as int,
            fin == layout_upto(secs@, order@, order@.len() as int, entry, hl, prs),
            fin.index <= 0x7FFF_FFFC,
            fin.init_fn_offset <= u32::MAX,
            k <= n,
            header_length <= cursor.index,
            cursor.index == layout_upto(secs@, order@, k as int, entry, hl, prs).index,
            cursor.content@ == layout_upto(secs@, order@, k as int, entry, hl, prs).content,
            cursor.init_fn_offset == layout_upto(secs@, order@, k as int, entry, hl, prs)
                .init_fn_offset,
            cursor.entry_found == layout_upto(secs@, order@, k as int, entry, hl, prs).entry_found,
            cursor.writeable_flash_regions@ == layout_upto(
                secs@,
                order@,
                k as int,
                entry,
                hl,
                prs,
            ).wfrs,
            forall|j: int| 0 <= j < k ==> !#[trigger] dup_at(secs@, order@, j, entry, hl, prs),
        decreases n - k,
    {
        let ghost st = layout_upto(secs@, order@, k as int, entry, hl, prs);
        let idx = order[k];
        let s = &secs[idx];
        proof {
            lemma_layout_index_monotonic(secs@, order@, k as int, k + 1, entry, hl, prs);
            lemma_layout_index_monotonic(
                secs@,
                order@,
                k + 1,
                order@.len() as int,
                entry,
                hl,
                prs,
            );
        }
        if is_entry_bearing(s, entry) {
            if cursor.entry_found {
                proof {
                    assert(dup_at(secs@, order@, k as int, entry, hl, prs));
                    let c = spec_first_dup(secs@, order@, entry, hl, prs);
                    assert(0 <= c < order@.len() && dup_at(secs@, order@, c, entry, hl, prs)
                        && forall|j: int|
                        0 <= j < c ==> !dup_at(secs@, order@, j, entry, hl, prs)) by {
                        assert(0 <= k < order@.len() && dup_at(secs@, order@, k as int, entry, hl, prs)
                            && forall|j: int|
                            0 <= j < k ==> !dup_at(secs@, order@, j, entry, hl, prs));
                    }
                    if c < k {
                        assert(!dup_at(secs@, order@, c, entry, hl, prs));
                    }
                    if c > k {
                        assert(!dup_at(secs@, order@, k as int, entry, hl, prs));
                    }
                }
                return Err(idx);
            }
            proof {
                // The offset fixed here is the one the finished layout
                // reports, so the caller's bound applies to it.
                lemma_layout_init_sticky(
                    secs@,
                    order@,
                    k + 1,
                    order@.len() as int,
                    entry,
                    hl,
                    prs,
                );
            }
            let rel_addr = entry - s.addr;
            let pos = (cursor.index - header_length) as u64;
            cursor.init_fn_offset = (rel_addr + pos) as u32;
            cursor.entry_found = true;
        }
        if is_emitted(s) {
            push_bytes(&mut cursor.content, &s.data);
            if is_wfr(s) {
                cursor.writeable_flash_regions.push((
                    (cursor.index - header_length) as u32,
                    s.size as u32,
                ));
            }
            cursor.index = cursor.index + s.size as usize;
        }
        proof {
            assert(layout_upto(secs@, order@, k + 1, entry, hl, prs) == layout_step(
                st,
                secs@[order@[k as int] as int],
                entry,
                hl,
            ));
        }
        k = k + 1;
    }
    proof {
        assert forall|j: int| 0 <= j < order@.len() implies !#[trigger] dup_at(
            secs@,
            order@,
            j,
            entry,
            hl,
            prs,
        ) by {}
    }
    Ok(cursor)
}

/// The placements of the emitted sections among the first `k` in layout
/// order: each one's original index, and the image offset at which its
/// bytes start.
pub open spec fn spec_placements_upto(
    secs: Seq<ElfSection>,
    order: Seq<usize>,
    k: int,
    entry: u64,
    header_length: int,
    protected_region_size: int,
) -> Seq<(usize, int)>
    decreases k,
{
    if k <= 0 {
        Seq::empty()
    } else {
        let prev = spec_placements_upto(
            secs,
            order,
            k - 1,
            entry,
            header_length,
            protected_region_size,
        );
        if sec_is_emitted(secs[order[k - 1] as int]) {
            prev.push(
                (
                    order[k - 1],
                    layout_upto(
                        secs,
                        order,
                        k - 1,
                        entry,
                        header_length,
                        protected_region_size,
                    ).index,
                ),
            )
        } else {
            prev
        }
    }
}

/// Where each emitted section lands in the image: its original index and
/// its start offset, in layout order.  A caller can report the placements,
/// and warn about any start offset that is not a multiple of 4, without
/// redoing the layout.
pub fn section_placements(
    secs: &Vec<ElfSection>,
    order: &Vec<usize>,
    entry: u64,
    header_length: usize,
    protected_region_size: usize,
) -> (r: Vec<(usize, usize)>)
    requires
        order@.len() == secs@.len(),
        forall|j: int| 0 <= j < order@.len() ==> (#[trigger] order@[j]) < secs@.len(),
        header_length <= protected_region_size,
        layout_upto(
            secs@,
            order@,
            order@.len() as int,
            entry,
            header_length as int,
            protected_region_size as int,
        ).index <= 0x7FFF_FFFC,
    ensures
        r@.len() == spec_placements_upto(
            secs@,
            order@,
            order@.len() as int,
            entry,
            header_length as int,
            protected_region_size as int,
        ).len(),
        forall|i: int|
            0 <= i < r@.len() ==> (#[trigger] r@[i]).0 == spec_placements_upto(
                secs@,
                order@,
                order@.len() as int,
                entry,
                header_length as int,
                protected_region_size as int,
            )[i].0 && r@[i].1 == spec_placements_upto(
                secs@,
                order@,
                order@.len() as int,
                entry,
                header_length as int,
                protected_region_size as int,
            )[i].1,
{
    let ghost hl = header_length as int;
    let ghost prs = protected_region_size as int;
    let ghost fin = layout_upto(secs@, order@, order@.len() as int, entry, hl, prs);
    let n = order.len();
    let mut r: Vec<(usize, usize)> = Vec::new();
    let mut index: usize = protected_region_size;
    let mut k: usize = 0;
    while k < n
        invariant
            n == order@.len(),
            order@.len() == secs@.len(),
            forall|j: int| 0 <= j < order@.len() ==> (#[trigger] order@[j]) < secs@.len(),
            hl == header_length as int,
            prs == protected_region_size as int,
            fin == layout_upto(secs@, order@, order@.len() as int, entry, hl, prs),
            fin.index <= 0x7FFF_FFFC,
            k <= n,
            index == layout_upto(secs@, order@, k as int, entry, hl, prs).index,
            r@.len() == spec_placements_upto(secs@, order@, k as int, entry, hl, prs).len(),
            forall|i: int|
                0 <= i < r@.len() ==> (#[trigger] r@[i]).0 == spec_placements_upto(
                    secs@,
                    order@,
                    k as int,
                    entry,
                    hl,
                    prs,
                )[i].0 && r@[i].1 == spec_placements_upto(
                    secs@,
                    order@,
                    k as int,
                    entry,
                    hl,
                    prs,
                )[i].1,
        decreases n - k,
    {
        let ghost st = layout_upto(secs@, order@, k as int, entry, hl, prs);
        let idx = order[k];
        let s = &secs[idx];
        proof {
            lemma_layout_index_monotonic(secs@, order@, k as int, k + 1, entry, hl, prs);
            lemma_layout_index_monotonic(
                secs@,
                order@,
                k + 1,
                order@.len() as int,
                entry,
                hl,
                prs,
            );
        }
        if is_emitted(s) {
            r.push((idx, index));
            index = index + s.size as usize;
        }
        proof {
            assert(layout_upto(secs@, order@, k + 1, entry, hl, prs) == layout_step(
                st,
                secs@[order@[k as int] as int],
                entry,
                hl,
            ));
        }
        k = k + 1;
    }
    r
}

/// The raw bytes of the first section named `target`, in original section
/// order; empty when no section has that name.
pub open spec fn spec_find_rel_data(secs: Seq<ElfSection>, target: Seq<u8>) -> Seq<u8>
    decreases secs.len(),
{
    if secs.len() == 0 {
        Seq::empty()
    } else if secs[0].name@ == target {
        secs[0].data@
    } else {
        spec_find_rel_data(secs.skip(1), target)
    }
}

/// The relocation bytes contributed by the first `k` sections in layout
/// order: for each relocation source, the bytes of the section named
/// ".rel" + name, concatenated in layout order.
pub open spec fn spec_rel_upto(secs: Seq<ElfSection>, order: Seq<usize>, k: int) -> Seq<u8>
    decreases k,
{
    if k <= 0 {
        Seq::empty()
    } else {
        spec_rel_upto(secs, order, k - 1) + (if sec_is_rel_source(secs[order[k - 1] as int]) {
            spec_find_rel_data(secs, rel_prefix() + secs[order[k - 1] as int].name@)
        } else {
            Seq::empty()
        })
    }
}

/// The complete relocation block.
pub open spec fn spec_rel_binary(secs: Seq<ElfSection>, order: Seq<usize>) -> Seq<u8> {
    spec_rel_upto(secs, order, order.len() as int)
}

/// Append the bytes of the first section named `target` to `rel`.
fn append_rel_data(secs: &Vec<ElfSection>, target: &Vec<u8>, rel: &mut Vec<u8>)
    ensures
        final(rel)@ == old(rel)@ + spec_find_rel_data(secs@, target@),
{
    let ghost rel0 = rel@;
    let n = secs.len();
    let mut j: usize = 0;
    proof {
        assert(secs@.skip(0) =~= secs@);
    }
    while j < n
        invariant
            n == secs@.len(),
            j <= n,
            rel0 == old(rel)@,
            rel@ == rel0,
            spec_find_rel_data(secs@, target@) == spec_find_rel_data(
                secs@.skip(j as int),
                target@,
            ),
        decreases n - j,
    {
        if bytes_eq(&secs[j].name, target) {
            proof {
                assert(secs@.skip(j as int)[0] == secs@[j as int]);
                assert(spec_find_rel_data(secs@.skip(j as int), target@) == secs@[j as int].data@);
            }
            push_bytes(rel, &secs[j].data);
            return ;
        }
        proof {
            assert(secs@.skip(j as int).skip(1) =~= secs@.skip(j + 1));
        }
        j = j + 1;
    }
    proof {
        assert(secs@.skip(n as int).len() == 0);
        assert(rel@ =~= rel0 + spec_find_rel_data(secs@, target@));
    }
}

/// Build the relocation block: walk the sections in layout order and, for
/// every relocation source, append the bytes of its ".rel" companion.
pub fn relocation_bytes(secs: &Vec<ElfSection>, order: &Vec<usize>) -> (r: Vec<u8>)
    requires
        forall|j: int| 0 <= j < order@.len() ==> (#[trigger] order@[j]) < secs@.len(),
    ensures
        r@ == spec_rel_binary(secs@, order@),
{
    let prefix = rel_prefix_vec();
    let mut r: Vec<u8> = Vec::new();
    let n = order.len();
    let mut k: usize = 0;
    while k < n
        invariant
            n == order@.len(),
            forall|j: int| 0 <= j < order@.len() ==> (#[trigger] order@[j]) < secs@.len(),
            prefix@ == rel_prefix(),
            k <= n,
            r@ == spec_rel_upto(secs@, order@, k as int),
        decreases n - k,
    {
        let idx = order[k];
        let s = &secs[idx];
        if is_rel_source(s) {
            let target = concat_bytes(&prefix, &s.name);
            append_rel_data(secs, &target, &mut r);
        } else {
            proof {
                assert(r@ =~= r@ + Seq::<u8>::empty());
            }
        }
        k = k + 1;
    }
    r
}

} // verus!
