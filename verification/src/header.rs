//! The TBF header: a fixed base, a main element with the program's entry
//! offset, protected-region padding and RAM requirement, an optional list of
//! writeable flash regions, and an optional package name, all as
//! little-endian fields with an XOR checksum over the serialized bytes.
//!
//! The header is built in two phases: a `SizingHeader` knows only what is
//! needed to compute the serialized length; a `FinalHeader` is constructed
//! from it together with all layout results at once, so a header can never
//! be serialized half-populated.

use vstd::prelude::*;
use vstd::bytes::{
    spec_u16_to_le_bytes, spec_u32_from_le_bytes, spec_u32_to_le_bytes,
    lemma_auto_spec_u16_to_from_le_bytes, lemma_auto_spec_u32_to_from_le_bytes, u16_to_le_bytes,
    u32_from_le_bytes, u32_to_le_bytes,
};
use vstd::slice::slice_subrange;
use crate::align::{align4_usize, spec_align4};
use crate::byteseq::{push_bytes, push_zeros, zero_bytes};

verus! {

/// TBF format version written into the header base.
pub const TBF_VERSION: u16 = 2;

/// Header flags: the application is enabled.
pub const HEADER_FLAGS: u32 = 1;

/// Element type of the main element.
pub const TLV_MAIN: u16 = 1;

/// Element type of the writeable flash region list.
pub const TLV_WRITEABLE_FLASH_REGIONS: u16 = 2;

/// Element type of the package name.
pub const TLV_PACKAGE_NAME: u16 = 3;

/// The serialized length of a header with a package name of `pkg_len` bytes
/// and `wfr_count` writeable flash regions: 16 bytes of base and 16 bytes of
/// main element, one 4-byte element header plus 8 bytes per flash region
/// when there are any, and one 4-byte element header plus the name rounded
/// up to a multiple of 4 when the name is non-empty.
pub open spec fn spec_header_length(pkg_len: int, wfr_count: int) -> int {
    32 + (if wfr_count > 0 {
        4 + 8 * wfr_count
    } else {
        0
    }) + (if pkg_len > 0 {
        spec_align4(4 + pkg_len)
    } else {
        0
    })
}

/// The (offset, size) pairs of the writeable flash regions, serialized as
/// consecutive little-endian words.
pub open spec fn spec_wfr_bytes(wfrs: Seq<(u32, u32)>) -> Seq<u8>
    decreases wfrs.len(),
{
    if wfrs.len() == 0 {
        Seq::empty()
    } else {
        spec_wfr_bytes(wfrs.drop_last()) + spec_u32_to_le_bytes(wfrs.last().0)
            + spec_u32_to_le_bytes(wfrs.last().1)
    }
}

/// The writeable flash region element, empty when there are no regions.
pub open spec fn spec_wfr_block(wfrs: Seq<(u32, u32)>) -> Seq<u8> {
    if wfrs.len() == 0 {
        Seq::empty()
    } else {
        spec_u16_to_le_bytes(TLV_WRITEABLE_FLASH_REGIONS) + spec_u16_to_le_bytes(
            (8 * wfrs.len()) as u16,
        ) + spec_wfr_bytes(wfrs)
    }
}

/// The package name element, empty when the name is empty.  The name is
/// followed by zero padding up to a multiple of 4.
pub open spec fn spec_pkg_block(pkg: Seq<u8>) -> Seq<u8> {
    if pkg.len() == 0 {
        Seq::empty()
    } else {
        spec_u16_to_le_bytes(TLV_PACKAGE_NAME) + spec_u16_to_le_bytes(pkg.len() as u16) + pkg
            + zero_bytes(spec_align4(4 + pkg.len() as int) - (4 + pkg.len() as int))
    }
}

/// The full serialized header with the given checksum field.
pub open spec fn spec_header_body(
    ram: u32,
    pkg: Seq<u8>,
    extra: u32,
    init: u32,
    wfrs: Seq<(u32, u32)>,
    total: u32,
    checksum: u32,
) -> Seq<u8> {
    spec_u16_to_le_bytes(TBF_VERSION) + spec_u16_to_le_bytes(
        spec_header_length(pkg.len() as int, wfrs.len() as int) as u16,
    ) + spec_u32_to_le_bytes(total) + spec_u32_to_le_bytes(HEADER_FLAGS) + spec_u32_to_le_bytes(
        checksum,
    ) + spec_u16_to_le_bytes(TLV_MAIN) + spec_u16_to_le_bytes(12u16) + spec_u32_to_le_bytes(init)
        + spec_u32_to_le_bytes(extra) + spec_u32_to_le_bytes(ram) + spec_wfr_block(wfrs)
        + spec_pkg_block(pkg)
}

/// The XOR of the consecutive little-endian 32-bit words of `b`; a trailing
/// chunk shorter than 4 bytes is ignored.
pub open spec fn spec_checksum(b: Seq<u8>) -> u32
    decreases b.len(),
{
    if b.len() < 4 {
        0u32
    } else {
        spec_u32_from_le_bytes(b.subrange(0, 4)) ^ spec_checksum(b.skip(4))
    }
}

/// The serialized header: the body with its checksum field set to the XOR
/// of the words of the body serialized with a zero checksum field.
pub open spec fn spec_header_bytes(
    ram: u32,
    pkg: Seq<u8>,
    extra: u32,
    init: u32,
    wfrs: Seq<(u32, u32)>,
    total: u32,
) -> Seq<u8> {
    spec_header_body(
        ram,
        pkg,
        extra,
        init,
        wfrs,
        total,
        spec_checksum(spec_header_body(ram, pkg, extra, init, wfrs, total, 0)),
    )
}

pub proof fn lemma_wfr_bytes_len(wfrs: Seq<(u32, u32)>)
    ensures
        spec_wfr_bytes(wfrs).len() == 8 * wfrs.len(),
    decreases wfrs.len(),
{
    lemma_auto_spec_u32_to_from_le_bytes();
    if wfrs.len() > 0 {
        lemma_wfr_bytes_len(wfrs.drop_last());
    }
}

/// The serialized header occupies exactly the length that the sizing phase
/// announced.
pub proof fn lemma_header_body_len(
    ram: u32,
    pkg: Seq<u8>,
    extra: u32,
    init: u32,
    wfrs: Seq<(u32, u32)>,
    total: u32,
    checksum: u32,
)
    ensures
        spec_header_body(ram, pkg, extra, init, wfrs, total, checksum).len()
            == spec_header_length(pkg.len() as int, wfrs.len() as int),
{
    lemma_auto_spec_u16_to_from_le_bytes();
    lemma_auto_spec_u32_to_from_le_bytes();
    lemma_wfr_bytes_len(wfrs);
}

/// The XOR of the little-endian words of `b`.
pub fn checksum_of(b: &Vec<u8>) -> (r: u32)
    ensures
        r == spec_checksum(b@),
{
    let n = b.len();
    let mut i: usize = n - (n % 4);
    let mut acc: u32 = 0;
    proof {
        assert(b@.skip(i as int).len() < 4);
    }
    while i >= 4
        invariant
            n == b@.len(),
            i <= n,
            i % 4 == 0,
            acc == spec_checksum(b@.skip(i as int)),
        decreases i,
    {
        let chunk = slice_subrange(b.as_slice(), i - 4, i);
        let w = u32_from_le_bytes(chunk);
        proof {
            assert(b@.skip(i - 4).subrange(0, 4) =~= b@.subrange(i - 4, i as int));
            assert(b@.skip(i - 4).skip(4) =~= b@.skip(i as int));
        }
        acc = w ^ acc;
        i = i - 4;
    }
    proof {
        assert(b@.skip(0) =~= b@);
    }
    acc
}

/// Phase one of header construction: enough to know the serialized length,
/// before any layout offset is known.
pub struct SizingHeader {
    /// Minimum RAM requirement of the application.
    pub minimum_ram_size: u32,
    /// How many writeable flash regions the header will advertise.
    pub writeable_flash_region_count: u32,
    /// Package name bytes; may be empty.
    pub package_name: Vec<u8>,
}

impl SizingHeader {
    /// The serialized length of the header this sizing describes.
    pub open spec fn spec_len(self) -> int {
        spec_header_length(
            self.package_name@.len() as int,
            self.writeable_flash_region_count as int,
        )
    }

    /// Compute the serialized header length.
    pub fn header_length(&self) -> (r: usize)
        requires
            self.spec_len() <= u16::MAX,
        ensures
            r == self.spec_len(),
    {
        header_length_of(&self.package_name, self.writeable_flash_region_count)
    }
}

/// The serialized header length for a package name and a region count.
pub fn header_length_of(package_name: &Vec<u8>, wfr_count: u32) -> (r: usize)
    requires
        spec_header_length(package_name@.len() as int, wfr_count as int) <= u16::MAX,
    ensures
        r == spec_header_length(package_name@.len() as int, wfr_count as int),
{
    let mut len: usize = 32;
    if wfr_count > 0 {
        proof {
            assert(spec_align4(4 + package_name@.len() as int) >= 0);
        }
        len = len + 4 + 8 * (wfr_count as usize);
    }
    if package_name.len() > 0 {
        proof {
            assert(spec_align4(4 + package_name@.len() as int) >= 4 + package_name@.len());
        }
        len = len + align4_usize(4 + package_name.len());
    }
    len
}

/// Phase two of header construction: every field of the finished header,
/// assembled in one step from the sizing header and the layout results.
pub struct FinalHeader {
    /// Minimum RAM requirement of the application.
    pub minimum_ram_size: u32,
    /// Package name bytes; may be empty.
    pub package_name: Vec<u8>,
    /// Bytes of the protected region beyond the header itself.
    pub protected_size_extra: u32,
    /// Offset of the entry function, relative to the end of the protected
    /// region.
    pub init_fn_offset: u32,
    /// (offset, size) of each writeable flash region, in layout order;
    /// offsets are relative to the end of the header.
    pub writeable_flash_regions: Vec<(u32, u32)>,
    /// Total size of the flash image, header and padding included.
    pub total_size: u32,
}

impl FinalHeader {
    /// The serialized length stays representable in the 16-bit header-size
    /// field.
    pub open spec fn wf(self) -> bool {
        spec_header_length(
            self.package_name@.len() as int,
            self.writeable_flash_regions@.len() as int,
        ) <= u16::MAX
    }

    /// Assemble the finished header from the sizing phase and the layout
    /// results.  The number of regions must match what the sizing phase
    /// announced, so the serialized length cannot drift.
    pub fn finalize(
        sizing: SizingHeader,
        protected_size_extra: u32,
        init_fn_offset: u32,
        writeable_flash_regions: Vec<(u32, u32)>,
        total_size: u32,
    ) -> (r: FinalHeader)
        requires
            writeable_flash_regions@.len() == sizing.writeable_flash_region_count,
        ensures
            r.minimum_ram_size == sizing.minimum_ram_size,
            r.package_name == sizing.package_name,
            r.protected_size_extra == protected_size_extra,
            r.init_fn_offset == init_fn_offset,
            r.writeable_flash_regions == writeable_flash_regions,
            r.total_size == total_size,
    {
        FinalHeader {
            minimum_ram_size: sizing.minimum_ram_size,
            package_name: sizing.package_name,
            protected_size_extra,
            init_fn_offset,
            writeable_flash_regions,
            total_size,
        }
    }

    /// Serialize the header: body with zero checksum, then the checksum
    /// patched in.
    pub fn generate(&self) -> (r: Vec<u8>)
        requires
            self.wf(),
        ensures
            r@ == spec_header_bytes(
                self.minimum_ram_size,
                self.package_name@,
                self.protected_size_extra,
                self.init_fn_offset,
                self.writeable_flash_regions@,
                self.total_size,
            ),
            r@.len() == spec_header_length(
                self.package_name@.len() as int,
                self.writeable_flash_regions@.len() as int,
            ),
    {
        let body0 = self.body_bytes(0);
        let c = checksum_of(&body0);
        let r = self.body_bytes(c);
        proof {
            lemma_header_body_len(
                self.minimum_ram_size,
                self.package_name@,
                self.protected_size_extra,
                self.init_fn_offset,
                self.writeable_flash_regions@,
                self.total_size,
                c,
            );
        }
        r
    }

    /// Serialize the header body with the given checksum field.
    fn body_bytes(&self, checksum: u32) -> (r: Vec<u8>)
        requires
            self.wf(),
        ensures
            r@ == spec_header_body(
                self.minimum_ram_size,
                self.package_name@,
                self.protected_size_extra,
                self.init_fn_offset,
                self.writeable_flash_regions@,
                self.total_size,
                checksum,
            ),
    {
        let hl = header_length_of(
            &self.package_name,
            self.writeable_flash_regions.len() as u32,
        );
        let mut out: Vec<u8> = Vec::new();
        let piece = u16_to_le_bytes(TBF_VERSION);
        push_bytes(&mut out, &piece);
        let piece = u16_to_le_bytes(hl as u16);
        push_bytes(&mut out, &piece);
        let piece = u32_to_le_bytes(self.total_size);
        push_bytes(&mut out, &piece);
        let piece = u32_to_le_bytes(HEADER_FLAGS);
        push_bytes(&mut out, &piece);
        let piece = u32_to_le_bytes(checksum);
        push_bytes(&mut out, &piece);
        let piece = u16_to_le_bytes(TLV_MAIN);
        push_bytes(&mut out, &piece);
        let piece = u16_to_le_bytes(12u16);
        push_bytes(&mut out, &piece);
        let piece = u32_to_le_bytes(self.init_fn_offset);
        push_bytes(&mut out, &piece);
        let piece = u32_to_le_bytes(self.protected_size_extra);
        push_bytes(&mut out, &piece);
        let piece = u32_to_le_bytes(self.minimum_ram_size);
        push_bytes(&mut out, &piece);
        let wfr_block = wfr_block_bytes(&self.writeable_flash_regions);
        push_bytes(&mut out, &wfr_block);
        let pkg_block = pkg_block_bytes(&self.package_name);
        push_bytes(&mut out, &pkg_block);
        out
    }
}

/// Serialize the writeable flash region element.
fn wfr_block_bytes(wfrs: &Vec<(u32, u32)>) -> (r: Vec<u8>)
    requires
        8 * wfrs@.len() <= u16::MAX,
    ensures
        r@ == spec_wfr_block(wfrs@),
{
    let mut r: Vec<u8> = Vec::new();
    if wfrs.len() == 0 {
        return r;
    }
    let piece = u16_to_le_bytes(TLV_WRITEABLE_FLASH_REGIONS);
    push_bytes(&mut r, &piece);
    let piece = u16_to_le_bytes((8 * wfrs.len()) as u16);
    push_bytes(&mut r, &piece);
    let ghost prefix = r@;
    let mut k: usize = 0;
    while k < wfrs.len()
        invariant
            k <= wfrs@.len(),
            r@ == prefix + spec_wfr_bytes(wfrs@.take(k as int)),
        decreases wfrs@.len() - k,
    {
        let (off, size) = wfrs[k];
        let piece = u32_to_le_bytes(off);
        push_bytes(&mut r, &piece);
        let piece = u32_to_le_bytes(size);
        push_bytes(&mut r, &piece);
        proof {
            assert(wfrs@.take(k + 1).drop_last() =~= wfrs@.take(k as int));
            assert(wfrs@.take(k + 1).last() == wfrs@[k as int]);
        }
        k = k + 1;
    }
    proof {
        assert(wfrs@.take(wfrs@.len() as int) =~= wfrs@);
    }
    r
}

/// Serialize the package name element.
fn pkg_block_bytes(pkg: &Vec<u8>) -> (r: Vec<u8>)
    requires
        4 + pkg@.len() <= u16::MAX,
    ensures
        r@ == spec_pkg_block(pkg@),
{
    let mut r: Vec<u8> = Vec::new();
    if pkg.len() == 0 {
        return r;
    }
    let piece = u16_to_le_bytes(TLV_PACKAGE_NAME);
    push_bytes(&mut r, &piece);
    let piece = u16_to_le_bytes(pkg.len() as u16);
    push_bytes(&mut r, &piece);
    push_bytes(&mut r, pkg);
    let padded = align4_usize(4 + pkg.len());
    push_zeros(&mut r, padded - (4 + pkg.len()));
    r
}

} // verus!
