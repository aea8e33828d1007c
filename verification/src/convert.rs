//! The conversion of one ELF input into a TBF image: size the header,
//! reserve the protected region, lay out the content, pack relocations,
//! pad to a power of two, and serialize.

use vstd::prelude::*;
use vstd::bytes::{
    spec_u32_to_le_bytes, u32_to_le_bytes, lemma_auto_spec_u16_to_from_le_bytes,
    lemma_auto_spec_u32_to_from_le_bytes,
};
use crate::align::{
    is_power_of_two, lemma_padded_total_exists, padded_total_size, spec_align4, spec_padded_total,
};
use crate::byteseq::{push_bytes, push_zeros, zero_bytes};
use crate::header::{
    lemma_header_body_len, spec_header_bytes, spec_header_length, FinalHeader, SizingHeader,
};
use crate::layout::{
    layout_sections, layout_upto, lemma_layout_content_len, lemma_layout_entry_found,
    lemma_layout_index_monotonic, lemma_single_relocation_source, relocation_bytes, spec_find_rel_data,
    spec_first_dup, spec_has_dup, spec_rel_binary,
};
use crate::ram::{minimum_ram_size, spec_minimum_ram};
use crate::sections::{
    is_sorted_order, is_wfr, rel_prefix, sec_is_emitted, sec_is_entry_bearing, sec_is_rel_source,
    sec_is_wfr, sort_sections, spec_order, ElfInput, ElfSection, SHT_PROGBITS,
};

verus! {

/// Why a conversion was aborted.
#[derive(Clone, Copy, Debug, PartialEq, Eq, Structural)]
pub enum TbfError {
    /// The caller-requested protected region is smaller than the header.
    ProtectedRegionTooSmall {
        /// The protected-region size the caller asked for.
        requested: u32,
        /// The serialized header length that did not fit.
        header_length: u32,
    },
    /// A second non-debug section contains the entry address.
    DuplicateEntryPoint {
        /// Original index of the offending section.
        section_index: usize,
    },
}

/// How many sections of the first `k` in layout order are writeable flash
/// regions.
pub open spec fn count_wfr_upto(secs: Seq<ElfSection>, order: Seq<usize>, k: int) -> int
    decreases k,
{
    if k <= 0 {
        0
    } else {
        count_wfr_upto(secs, order, k - 1) + if sec_is_wfr(secs[order[k - 1] as int]) {
            1int
        } else {
            0int
        }
    }
}

/// When every writeable flash region is emitted content, the layout pass
/// records exactly one placement per region counted by the sizing pass.
pub proof fn lemma_layout_wfr_count(
    secs: Seq<ElfSection>,
    order: Seq<usize>,
    k: int,
    entry: u64,
    header_length: int,
    protected_region_size: int,
)
    requires
        0 <= k <= order.len(),
        forall|j: int| 0 <= j < order.len() ==> (#[trigger] order[j]) < secs.len(),
        forall|i: int|
            0 <= i < secs.len() && sec_is_wfr(#[trigger] secs[i]) ==> sec_is_emitted(secs[i]),
    ensures
        layout_upto(secs, order, k, entry, header_length, protected_region_size).wfrs.len()
            == count_wfr_upto(secs, order, k),
    decreases k,
{
    if k > 0 {
        lemma_layout_wfr_count(secs, order, k - 1, entry, header_length, protected_region_size);
    }
}

/// A well-formed ELF input: every program-defined-bytes section carries
/// exactly as many bytes as its header announces, and every writeable flash
/// region is emitted content.
pub open spec fn input_wf(input: ElfInput) -> bool {
    &&& forall|i: int|
        0 <= i < input.sections@.len() && (#[trigger] input.sections@[i]).shtype == SHT_PROGBITS
            ==> input.sections@[i].data@.len() == input.sections@[i].size
    &&& forall|i: int|
        0 <= i < input.sections@.len() && sec_is_wfr(#[trigger] input.sections@[i])
            ==> sec_is_emitted(input.sections@[i])
}

/// The protected region size the conversion works with: the caller's value
/// when one was given, the bare header length otherwise.
pub open spec fn spec_protected_region_size(
    input: ElfInput,
    package_name: Seq<u8>,
    protected_region_size_arg: Option<u32>,
) -> int {
    let secs = input.sections@;
    let order = spec_order(secs);
    let hl = spec_header_length(
        package_name.len() as int,
        count_wfr_upto(secs, order, order.len() as int),
    );
    match protected_region_size_arg {
        Option::Some(p) => p as int,
        Option::None => hl,
    }
}

/// The machine limits under which the conversion is defined: the RAM
/// requirement and the header length stay representable, and — unless the
/// conversion stops earlier because the header does not fit — the unpadded
/// image stays below 2^31 bytes and the entry offset stays representable.
pub open spec fn spec_fits(
    input: ElfInput,
    package_name: Seq<u8>,
    stack_len: u32,
    app_heap_len: u32,
    kernel_heap_len: u32,
    protected_region_size_arg: Option<u32>,
) -> bool {
    let secs = input.sections@;
    let order = spec_order(secs);
    let hl = spec_header_length(
        package_name.len() as int,
        count_wfr_upto(secs, order, order.len() as int),
    );
    let prs = spec_protected_region_size(input, package_name, protected_region_size_arg);
    &&& spec_minimum_ram(input.segments@, stack_len, app_heap_len, kernel_heap_len) <= u32::MAX
    &&& hl <= u16::MAX
    &&& (prs >= hl ==> {
        let fin = layout_upto(secs, order, order.len() as int, input.entry, hl, prs);
        &&& fin.index + 4 + spec_rel_binary(secs, order).len() <= 0x8000_0000
        &&& fin.init_fn_offset <= u32::MAX
    })
}

/// What the conversion produces for a given input: either the bytes of the
/// TBF image or the error that aborts it.  The image is the serialized
/// header, the content buffer, the 4-byte little-endian relocation length,
/// the relocation bytes, and zero padding up to the total size.
pub open spec fn spec_convert(
    input: ElfInput,
    package_name: Seq<u8>,
    stack_len: u32,
    app_heap_len: u32,
    kernel_heap_len: u32,
    protected_region_size_arg: Option<u32>,
) -> Result<Seq<u8>, TbfError> {
    let secs = input.sections@;
    let order = spec_order(secs);
    let hl = spec_header_length(
        package_name.len() as int,
        count_wfr_upto(secs, order, order.len() as int),
    );
    let prs = spec_protected_region_size(input, package_name, protected_region_size_arg);
    if prs < hl {
        Err(
            TbfError::ProtectedRegionTooSmall {
                requested: prs as u32,
                header_length: hl as u32,
            },
        )
    } else if spec_has_dup(secs, order, input.entry, hl, prs) {
        Err(
            TbfError::DuplicateEntryPoint {
                section_index: order[spec_first_dup(secs, order, input.entry, hl, prs)],
            },
        )
    } else {
        let fin = layout_upto(secs, order, order.len() as int, input.entry, hl, prs);
        let rel = spec_rel_binary(secs, order);
        let pre_pad = fin.index + 4 + rel.len();
        let total = spec_padded_total(pre_pad);
        let ram = spec_minimum_ram(input.segments@, stack_len, app_heap_len, kernel_heap_len);
        Ok(
            spec_header_bytes(
                ram as u32,
                package_name,
                (prs - hl) as u32,
                fin.init_fn_offset as u32,
                fin.wfrs,
                total as u32,
            ) + fin.content + spec_u32_to_le_bytes(rel.len() as u32) + rel + zero_bytes(
                total - pre_pad,
            ),
        )
    }
}

/// Convert one ELF input into a TBF image.
///
/// The sections are laid out in ascending file-offset order (ties in
/// original order) after a protected region that holds the header; the
/// entry offset, RAM requirement and flash-region placements are recorded
/// in the header; relocation bytes follow the content behind their length;
/// the image is padded to `spec_padded_total` of its unpadded length.
pub fn elf_to_tbf(
    input: &ElfInput,
    package_name: Vec<u8>,
    stack_len: u32,
    app_heap_len: u32,
    kernel_heap_len: u32,
    protected_region_size_arg: Option<u32>,
) -> (r: Result<Vec<u8>, TbfError>)
    requires
        input_wf(*input),
        spec_fits(
            *input,
            package_name@,
            stack_len,
            app_heap_len,
            kernel_heap_len,
            protected_region_size_arg,
        ),
    ensures
        match r {
            Ok(bytes) => spec_convert(
                *input,
                package_name@,
                stack_len,
                app_heap_len,
                kernel_heap_len,
                protected_region_size_arg,
            ) == Result::<Seq<u8>, TbfError>::Ok(bytes@),
            Err(e) => spec_convert(
                *input,
                package_name@,
                stack_len,
                app_heap_len,
                kernel_heap_len,
                protected_region_size_arg,
            ) == Result::<Seq<u8>, TbfError>::Err(e),
        },
{
    let ghost secs = input.sections@;
    let order = sort_sections(&input.sections);
    let ghost gorder = order@;

    // Sizing pass: count the writeable flash regions.
    let n = order.len();
    let mut wfr_count: usize = 0;
    let mut k: usize = 0;
    while k < n
        invariant
            n == gorder.len(),
            gorder == order@,
            secs == input.sections@,
            gorder.len() == secs.len(),
            forall|j: int| 0 <= j < gorder.len() ==> (#[trigger] gorder[j]) < secs.len(),
            k <= n,
            wfr_count <= k,
            wfr_count == count_wfr_upto(secs, gorder, k as int),
        decreases n - k,
    {
        let idx = order[k];
        if is_wfr(&input.sections[idx]) {
            wfr_count = wfr_count + 1;
        }
        k = k + 1;
    }
    let ghost hl_spec = spec_header_length(
        package_name@.len() as int,
        count_wfr_upto(secs, gorder, gorder.len() as int),
    );
    proof {
        assert(spec_align4(4 + package_name@.len() as int) >= 4 + package_name@.len());
        assert(wfr_count <= 8191);
    }

    let ram = minimum_ram_size(&input.segments, stack_len, app_heap_len, kernel_heap_len);
    let sizing = SizingHeader {
        minimum_ram_size: ram,
        writeable_flash_region_count: wfr_count as u32,
        package_name,
    };
    let header_length = sizing.header_length();
    let protected_region_size: usize = match protected_region_size_arg {
        Some(p) => {
            if (p as usize) < header_length {
                return Err(
                    TbfError::ProtectedRegionTooSmall {
                        requested: p,
                        header_length: header_length as u32,
                    },
                );
            }
            p as usize
        },
        None => header_length,
    };
    let ghost prs = spec_protected_region_size(*input, package_name@, protected_region_size_arg);
    proof {
        assert(prs == protected_region_size as int);
    }

    // Layout pass.
    let cursor = match layout_sections(
        &input.sections,
        &order,
        input.entry,
        header_length,
        protected_region_size,
    ) {
        Ok(c) => c,
        Err(idx) => {
            return Err(TbfError::DuplicateEntryPoint { section_index: idx });
        },
    };

    // Relocation pass.
    let rel = relocation_bytes(&input.sections, &order);

    // Padding.
    let pre_pad = cursor.index + 4 + rel.len();
    let total = padded_total_size(pre_pad as u32);
    let pad = (total as usize) - pre_pad;

    // Finalize and serialize the header, then assemble the image.
    proof {
        lemma_layout_wfr_count(
            secs,
            gorder,
            gorder.len() as int,
            input.entry,
            hl_spec,
            prs,
        );
    }
    let header = FinalHeader::finalize(
        sizing,
        (protected_region_size - header_length) as u32,
        cursor.init_fn_offset,
        cursor.writeable_flash_regions,
        total,
    );
    let mut out = header.generate();
    push_bytes(&mut out, &cursor.content);
    let rel_len_bytes = u32_to_le_bytes(rel.len() as u32);
    push_bytes(&mut out, &rel_len_bytes);
    push_bytes(&mut out, &rel);
    push_zeros(&mut out, pad);
    Ok(out)
}

/// The serialized header length of the conversion of `input` with
/// `package_name`.
pub open spec fn spec_header_len_of(input: ElfInput, package_name: Seq<u8>) -> int {
    let secs = input.sections@;
    let order = spec_order(secs);
    spec_header_length(package_name.len() as int, count_wfr_upto(secs, order, order.len() as int))
}

/// The image offset right after the content, where the relocation length
/// field stands.
pub open spec fn spec_content_end(
    input: ElfInput,
    package_name: Seq<u8>,
    protected_region_size_arg: Option<u32>,
) -> int {
    let secs = input.sections@;
    let order = spec_order(secs);
    layout_upto(
        secs,
        order,
        order.len() as int,
        input.entry,
        spec_header_len_of(input, package_name),
        spec_protected_region_size(input, package_name, protected_region_size_arg),
    ).index
}

/// The length of the image before padding: protected region, content,
/// relocation length field, relocation bytes.
pub open spec fn spec_unpadded_len(
    input: ElfInput,
    package_name: Seq<u8>,
    protected_region_size_arg: Option<u32>,
) -> int {
    spec_content_end(input, package_name, protected_region_size_arg) + 4 + spec_rel_binary(
        input.sections@,
        spec_order(input.sections@),
    ).len()
}

/// The total size of the image, padding included.
pub open spec fn spec_total_of(
    input: ElfInput,
    package_name: Seq<u8>,
    protected_region_size_arg: Option<u32>,
) -> int {
    spec_padded_total(spec_unpadded_len(input, package_name, protected_region_size_arg))
}

/// The total size the header records equals the byte count of the produced
/// image, and it stands in the header's total-size field.
pub proof fn lemma_recorded_total_size(
    input: ElfInput,
    package_name: Seq<u8>,
    stack_len: u32,
    app_heap_len: u32,
    kernel_heap_len: u32,
    protected_region_size_arg: Option<u32>,
    bytes: Seq<u8>,
)
    requires
        input_wf(input),
        spec_fits(
            input,
            package_name,
            stack_len,
            app_heap_len,
            kernel_heap_len,
            protected_region_size_arg,
        ),
        is_sorted_order(input.sections@, spec_order(input.sections@)),
        spec_convert(
            input,
            package_name,
            stack_len,
            app_heap_len,
            kernel_heap_len,
            protected_region_size_arg,
        ) == Result::<Seq<u8>, TbfError>::Ok(bytes),
    ensures
        bytes.len() == spec_total_of(input, package_name, protected_region_size_arg),
        bytes.subrange(4, 8) == spec_u32_to_le_bytes(
            spec_total_of(input, package_name, protected_region_size_arg) as u32,
        ),
{
    let secs = input.sections@;
    let order = spec_order(secs);
    let hl = spec_header_len_of(input, package_name);
    let prs = spec_protected_region_size(input, package_name, protected_region_size_arg);
    let fin = layout_upto(secs, order, order.len() as int, input.entry, hl, prs);
    let rel = spec_rel_binary(secs, order);
    let pre_pad = fin.index + 4 + rel.len();
    let total = spec_padded_total(pre_pad);
    let ram = spec_minimum_ram(input.segments@, stack_len, app_heap_len, kernel_heap_len);
    lemma_layout_index_monotonic(secs, order, 0, order.len() as int, input.entry, hl, prs);
    lemma_padded_total_exists(pre_pad);
    lemma_layout_wfr_count(secs, order, order.len() as int, input.entry, hl, prs);
    lemma_layout_content_len(secs, order, order.len() as int, input.entry, hl, prs);
    let cks = crate::header::spec_checksum(
        crate::header::spec_header_body(
            ram as u32,
            package_name,
            (prs - hl) as u32,
            fin.init_fn_offset as u32,
            fin.wfrs,
            total as u32,
            0,
        ),
    );
    lemma_header_body_len(
        ram as u32,
        package_name,
        (prs - hl) as u32,
        fin.init_fn_offset as u32,
        fin.wfrs,
        total as u32,
        cks,
    );
    lemma_auto_spec_u16_to_from_le_bytes();
    lemma_auto_spec_u32_to_from_le_bytes();
    let header = spec_header_bytes(
        ram as u32,
        package_name,
        (prs - hl) as u32,
        fin.init_fn_offset as u32,
        fin.wfrs,
        total as u32,
    );
    assert(header.len() == hl);
    assert(bytes.len() == total);
    assert(bytes.subrange(4, 8) =~= header.subrange(4, 8));
    assert(header.subrange(4, 8) =~= spec_u32_to_le_bytes(total as u32));
}

/// The total image size is an exact power of two; and it is at least 512
/// whenever the unpadded length is not itself a power of two below 512.
pub proof fn lemma_total_size_power_of_two(
    input: ElfInput,
    package_name: Seq<u8>,
    stack_len: u32,
    app_heap_len: u32,
    kernel_heap_len: u32,
    protected_region_size_arg: Option<u32>,
    bytes: Seq<u8>,
)
    requires
        input_wf(input),
        spec_fits(
            input,
            package_name,
            stack_len,
            app_heap_len,
            kernel_heap_len,
            protected_region_size_arg,
        ),
        is_sorted_order(input.sections@, spec_order(input.sections@)),
        spec_convert(
            input,
            package_name,
            stack_len,
            app_heap_len,
            kernel_heap_len,
            protected_region_size_arg,
        ) == Result::<Seq<u8>, TbfError>::Ok(bytes),
    ensures
        is_power_of_two(bytes.len() as int),
        spec_unpadded_len(input, package_name, protected_region_size_arg) >= 512 ==> bytes.len()
            >= 512,
        !is_power_of_two(spec_unpadded_len(input, package_name, protected_region_size_arg))
            ==> bytes.len() >= 512,
{
    let secs = input.sections@;
    let order = spec_order(secs);
    let hl = spec_header_len_of(input, package_name);
    let prs = spec_protected_region_size(input, package_name, protected_region_size_arg);
    lemma_recorded_total_size(
        input,
        package_name,
        stack_len,
        app_heap_len,
        kernel_heap_len,
        protected_region_size_arg,
        bytes,
    );
    lemma_layout_index_monotonic(secs, order, 0, order.len() as int, input.entry, hl, prs);
    lemma_padded_total_exists(spec_unpadded_len(input, package_name, protected_region_size_arg));
}

/// Two sections that both contain the entry address abort the conversion
/// with the duplicate-entry-point error.
pub proof fn lemma_duplicate_entry_point(
    input: ElfInput,
    package_name: Seq<u8>,
    stack_len: u32,
    app_heap_len: u32,
    kernel_heap_len: u32,
    protected_region_size_arg: Option<u32>,
    k1: int,
    k2: int,
)
    requires
        is_sorted_order(input.sections@, spec_order(input.sections@)),
        spec_protected_region_size(input, package_name, protected_region_size_arg)
            >= spec_header_len_of(input, package_name),
        0 <= k1 < k2 < spec_order(input.sections@).len(),
        sec_is_entry_bearing(
            input.sections@[spec_order(input.sections@)[k1] as int],
            input.entry,
        ),
        sec_is_entry_bearing(
            input.sections@[spec_order(input.sections@)[k2] as int],
            input.entry,
        ),
    ensures
        spec_convert(
            input,
            package_name,
            stack_len,
            app_heap_len,
            kernel_heap_len,
            protected_region_size_arg,
        ) matches Err(TbfError::DuplicateEntryPoint { .. }),
{
    let secs = input.sections@;
    let order = spec_order(secs);
    let hl = spec_header_len_of(input, package_name);
    let prs = spec_protected_region_size(input, package_name, protected_region_size_arg);
    lemma_layout_entry_found(secs, order, k2, input.entry, hl, prs);
    assert(crate::layout::dup_at(secs, order, k2, input.entry, hl, prs));
}

/// A requested protected region smaller than the header aborts the
/// conversion with the too-small error, before any layout.
pub proof fn lemma_protected_region_too_small(
    input: ElfInput,
    package_name: Seq<u8>,
    stack_len: u32,
    app_heap_len: u32,
    kernel_heap_len: u32,
    requested: u32,
)
    requires
        (requested as int) < spec_header_len_of(input, package_name),
    ensures
        spec_convert(
            input,
            package_name,
            stack_len,
            app_heap_len,
            kernel_heap_len,
            Some(requested),
        ) == Result::<Seq<u8>, TbfError>::Err(
            TbfError::ProtectedRegionTooSmall {
                requested,
                header_length: spec_header_len_of(input, package_name) as u32,
            },
        ),
{
}

/// With exactly one relocation source, whose ".rel" companion holds the
/// bytes `spec_find_rel_data` names, the image carries that byte count as
/// a little-endian word right after the content, followed by exactly those
/// bytes.
pub proof fn lemma_relocation_block(
    input: ElfInput,
    package_name: Seq<u8>,
    stack_len: u32,
    app_heap_len: u32,
    kernel_heap_len: u32,
    protected_region_size_arg: Option<u32>,
    bytes: Seq<u8>,
    k: int,
)
    requires
        input_wf(input),
        spec_fits(
            input,
            package_name,
            stack_len,
            app_heap_len,
            kernel_heap_len,
            protected_region_size_arg,
        ),
        is_sorted_order(input.sections@, spec_order(input.sections@)),
        spec_convert(
            input,
            package_name,
            stack_len,
            app_heap_len,
            kernel_heap_len,
            protected_region_size_arg,
        ) == Result::<Seq<u8>, TbfError>::Ok(bytes),
        0 <= k < spec_order(input.sections@).len(),
        sec_is_rel_source(input.sections@[spec_order(input.sections@)[k] as int]),
        forall|j: int|
            0 <= j < spec_order(input.sections@).len() && j != k ==> !sec_is_rel_source(
                #[trigger] input.sections@[spec_order(input.sections@)[j] as int],
            ),
    ensures
        ({
            let d = spec_find_rel_data(
                input.sections@,
                rel_prefix() + input.sections@[spec_order(input.sections@)[k] as int].name@,
            );
            let pos = spec_content_end(input, package_name, protected_region_size_arg);
            &&& bytes.subrange(pos, pos + 4) == spec_u32_to_le_bytes(d.len() as u32)
            &&& bytes.subrange(pos + 4, pos + 4 + d.len()) == d
        }),
{
    let secs = input.sections@;
    let order = spec_order(secs);
    let hl = spec_header_len_of(input, package_name);
    let prs = spec_protected_region_size(input, package_name, protected_region_size_arg);
    let fin = layout_upto(secs, order, order.len() as int, input.entry, hl, prs);
    let rel = spec_rel_binary(secs, order);
    let pre_pad = fin.index + 4 + rel.len();
    let total = spec_padded_total(pre_pad);
    let ram = spec_minimum_ram(input.segments@, stack_len, app_heap_len, kernel_heap_len);
    let d = spec_find_rel_data(secs, rel_prefix() + secs[order[k] as int].name@);
    let pos = fin.index;
    lemma_single_relocation_source(secs, order, k);
    lemma_layout_index_monotonic(secs, order, 0, order.len() as int, input.entry, hl, prs);
    lemma_padded_total_exists(pre_pad);
    lemma_layout_wfr_count(secs, order, order.len() as int, input.entry, hl, prs);
    lemma_layout_content_len(secs, order, order.len() as int, input.entry, hl, prs);
    let cks = crate::header::spec_checksum(
        crate::header::spec_header_body(
            ram as u32,
            package_name,
            (prs - hl) as u32,
            fin.init_fn_offset as u32,
            fin.wfrs,
            total as u32,
            0,
        ),
    );
    lemma_header_body_len(
        ram as u32,
        package_name,
        (prs - hl) as u32,
        fin.init_fn_offset as u32,
        fin.wfrs,
        total as u32,
        cks,
    );
    lemma_auto_spec_u32_to_from_le_bytes();
    assert(bytes.subrange(pos, pos + 4) =~= spec_u32_to_le_bytes(rel.len() as u32));
    assert(bytes.subrange(pos + 4, pos + 4 + d.len()) =~= d);
}

/// The conversion is a function of the input and parameters alone:
/// converting the same input twice yields byte-identical images.
pub proof fn lemma_convert_deterministic(
    input: ElfInput,
    package_name: Seq<u8>,
    stack_len: u32,
    app_heap_len: u32,
    kernel_heap_len: u32,
    protected_region_size_arg: Option<u32>,
    b1: Seq<u8>,
    b2: Seq<u8>,
)
    requires
        spec_convert(
            input,
            package_name,
            stack_len,
            app_heap_len,
            kernel_heap_len,
            protected_region_size_arg,
        ) == Result::<Seq<u8>, TbfError>::Ok(b1),
        spec_convert(
            input,
            package_name,
            stack_len,
            app_heap_len,
            kernel_heap_len,
            protected_region_size_arg,
        ) == Result::<Seq<u8>, TbfError>::Ok(b2),
    ensures
        b1 == b2,
{
}

} // verus!
