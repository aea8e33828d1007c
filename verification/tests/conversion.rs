use elf2tab::convert::{elf_to_tbf, TbfError};
use elf2tab::sections::{ElfInput, ElfSection, ElfSegment};

fn sec(name: &str, offset: u64, addr: u64, size: u64, shtype: u32, flags: u64, data: Vec<u8>) -> ElfSection {
    ElfSection {
        name: name.as_bytes().to_vec(),
        offset,
        addr,
        size,
        shtype,
        flags,
        data,
    }
}

fn le32(b: &[u8]) -> u32 {
    u32::from_le_bytes([b[0], b[1], b[2], b[3]])
}

fn le16(b: &[u8]) -> u16 {
    u16::from_le_bytes([b[0], b[1]])
}

// Section flags.
const W: u64 = 1;
const A: u64 = 2;
const X: u64 = 4;
// Section type: program-defined bytes.
const PROGBITS: u32 = 1;

#[test]
fn basic_image_layout() {
    let input = ElfInput {
        entry: 0x2000,
        sections: vec![sec(
            ".text",
            0x1000,
            0x2000,
            8,
            PROGBITS,
            A | X,
            vec![1, 2, 3, 4, 5, 6, 7, 8],
        )],
        segments: vec![ElfSegment { progtype: 1, flags: 6, memsz: 256 }],
    };
    let out = elf_to_tbf(&input, Vec::new(), 1024, 512, 128, None).unwrap();
    // Unpadded length 32 + 8 + 4 = 44, padded up to 512.
    assert_eq!(out.len(), 512);
    // Base: version, header size, total size, flags.
    assert_eq!(le16(&out[0..2]), 2);
    assert_eq!(le16(&out[2..4]), 32);
    assert_eq!(le32(&out[4..8]), 512);
    assert_eq!(le32(&out[8..12]), 1);
    // Main element: type 1, length 12, then init offset, protected size
    // extra, minimum RAM size.
    assert_eq!(le16(&out[16..18]), 1);
    assert_eq!(le16(&out[18..20]), 12);
    assert_eq!(le32(&out[20..24]), 0);
    assert_eq!(le32(&out[24..28]), 0);
    assert_eq!(le32(&out[28..32]), 256 + 1024 + 512 + 128);
    // The checksum field holds the XOR of the header words with the
    // checksum field itself zeroed.
    let mut cks: u32 = 0;
    for w in 0..8 {
        if w != 3 {
            cks ^= le32(&out[4 * w..4 * w + 4]);
        }
    }
    assert_eq!(le32(&out[12..16]), cks);
    // Content, relocation length, padding.
    assert_eq!(&out[32..40], &[1, 2, 3, 4, 5, 6, 7, 8]);
    assert_eq!(le32(&out[40..44]), 0);
    assert!(out[44..].iter().all(|b| *b == 0));
}

#[test]
fn sections_laid_out_by_file_offset() {
    // The section later in the file comes later in the image even though
    // it stands earlier in the section list.
    let input = ElfInput {
        entry: 0,
        sections: vec![
            sec(".b", 0x200, 0x9000, 2, PROGBITS, A, vec![3, 4]),
            sec(".a", 0x100, 0x8000, 2, PROGBITS, A, vec![1, 2]),
        ],
        segments: Vec::new(),
    };
    let out = elf_to_tbf(&input, Vec::new(), 0, 0, 0, None).unwrap();
    assert_eq!(&out[32..36], &[1, 2, 3, 4]);
}

#[test]
fn equal_offsets_keep_original_order() {
    let input = ElfInput {
        entry: 0,
        sections: vec![
            sec(".a", 0x100, 0x8000, 2, PROGBITS, A, vec![1, 2]),
            sec(".b", 0x100, 0x9000, 2, PROGBITS, A, vec![3, 4]),
        ],
        segments: Vec::new(),
    };
    let out = elf_to_tbf(&input, Vec::new(), 0, 0, 0, None).unwrap();
    assert_eq!(&out[32..36], &[1, 2, 3, 4]);
}

#[test]
fn non_emitted_sections_add_no_bytes() {
    // Zero-initialized (.bss-like, type 8) and metadata sections are not
    // copied into the image.
    let input = ElfInput {
        entry: 0,
        sections: vec![
            sec(".bss", 0x300, 0x9000, 64, 8, W | A, Vec::new()),
            sec(".text", 0x100, 0x8000, 2, PROGBITS, A | X, vec![1, 2]),
            sec(".comment", 0x200, 0, 5, PROGBITS, 0, vec![9, 9, 9, 9, 9]),
        ],
        segments: Vec::new(),
    };
    let out = elf_to_tbf(&input, Vec::new(), 0, 0, 0, None).unwrap();
    assert_eq!(&out[32..34], &[1, 2]);
    // Unpadded: 32 + 2 + 4 = 38 -> padded to 512.
    assert_eq!(out.len(), 512);
    assert_eq!(le32(&out[34..38]), 0);
}

#[test]
fn entry_offset_accounts_for_placement() {
    // Entry 0x2010 inside a section at 0x2000 placed at content offset 40
    // (protected region 72, header 32): init offset 16 + 40 = 56.
    let data: Vec<u8> = (0..32).collect();
    let input = ElfInput {
        entry: 0x2010,
        sections: vec![sec(".text", 0x100, 0x2000, 32, PROGBITS, A | X, data)],
        segments: Vec::new(),
    };
    let out = elf_to_tbf(&input, Vec::new(), 0, 0, 0, Some(72)).unwrap();
    assert_eq!(le16(&out[2..4]), 32);
    assert_eq!(le32(&out[20..24]), 56);
    // Protected size beyond the header is recorded in the main element.
    assert_eq!(le32(&out[24..28]), 40);
    // Content starts after the protected region.
    assert_eq!(out[32..72].iter().all(|b| *b == 0), true);
    assert_eq!(out[72], 0);
    assert_eq!(out[73], 1);
}

#[test]
fn debug_sections_do_not_bear_the_entry_point() {
    let input = ElfInput {
        entry: 0x2000,
        sections: vec![
            sec(".debug_info", 0x300, 0x2000, 16, PROGBITS, 0, vec![0; 16]),
            sec(".text", 0x100, 0x2000, 4, PROGBITS, A | X, vec![1, 2, 3, 4]),
        ],
        segments: Vec::new(),
    };
    // Only .text bears the entry: no duplicate, offset 0.
    let out = elf_to_tbf(&input, Vec::new(), 0, 0, 0, None).unwrap();
    assert_eq!(le32(&out[20..24]), 0);
}

#[test]
fn duplicate_entry_point_fails() {
    let input = ElfInput {
        entry: 0x2002,
        sections: vec![
            sec(".text", 0x100, 0x2000, 8, PROGBITS, A | X, vec![0; 8]),
            sec(".other", 0x200, 0x2000, 8, PROGBITS, A, vec![0; 8]),
        ],
        segments: Vec::new(),
    };
    let r = elf_to_tbf(&input, Vec::new(), 0, 0, 0, None);
    // The second section in layout order is reported.
    assert_eq!(r, Err(TbfError::DuplicateEntryPoint { section_index: 1 }));
}

#[test]
fn protected_region_too_small_fails() {
    // Header: 32 bytes base+main, package name "app" needs 4 + 3 rounded
    // up to 8, so 40 in all.
    let input = ElfInput {
        entry: 0,
        sections: vec![sec(".text", 0x100, 0x8000, 2, PROGBITS, A | X, vec![1, 2])],
        segments: Vec::new(),
    };
    let r = elf_to_tbf(&input, b"app".to_vec(), 0, 0, 0, Some(39));
    assert_eq!(
        r,
        Err(TbfError::ProtectedRegionTooSmall { requested: 39, header_length: 40 })
    );
    let ok = elf_to_tbf(&input, b"app".to_vec(), 0, 0, 0, Some(40));
    assert!(ok.is_ok());
}

#[test]
fn package_name_stored_and_padded() {
    let input = ElfInput {
        entry: 0,
        sections: vec![sec(".text", 0x100, 0x8000, 2, PROGBITS, A | X, vec![1, 2])],
        segments: Vec::new(),
    };
    let out = elf_to_tbf(&input, b"app".to_vec(), 0, 0, 0, None).unwrap();
    // Header: base+main 32, then the package name element at 32.
    assert_eq!(le16(&out[2..4]), 40);
    assert_eq!(le16(&out[32..34]), 3); // element type: package name
    assert_eq!(le16(&out[34..36]), 3); // name length, unpadded
    assert_eq!(&out[36..39], b"app");
    assert_eq!(out[39], 0); // padding to a multiple of 4
    // Content follows the whole header.
    assert_eq!(&out[40..42], &[1, 2]);
}

#[test]
fn relocation_block_single_source() {
    // ".data" is writeable+allocated, so its companion ".rel.data" bytes
    // are appended behind the content, after their 32-bit length.
    let rel_bytes: Vec<u8> = (1..=12).collect();
    let input = ElfInput {
        entry: 0,
        sections: vec![
            sec(".data", 0x100, 0x8000, 4, PROGBITS, W | A, vec![5, 6, 7, 8]),
            sec(".rel.data", 0x300, 0, 12, 9, 0, rel_bytes.clone()),
        ],
        segments: Vec::new(),
    };
    let out = elf_to_tbf(&input, Vec::new(), 0, 0, 0, None).unwrap();
    assert_eq!(&out[32..36], &[5, 6, 7, 8]);
    assert_eq!(le32(&out[36..40]), 12);
    assert_eq!(&out[40..52], rel_bytes.as_slice());
    // 32 + 4 + 4 + 12 = 52 unpadded, padded to 512.
    assert_eq!(out.len(), 512);
    assert!(out[52..].iter().all(|b| *b == 0));
}

#[test]
fn relocation_sources_without_companion_add_nothing() {
    let input = ElfInput {
        entry: 0,
        sections: vec![sec(".data", 0x100, 0x8000, 4, PROGBITS, W | A, vec![5, 6, 7, 8])],
        segments: Vec::new(),
    };
    let out = elf_to_tbf(&input, Vec::new(), 0, 0, 0, None).unwrap();
    assert_eq!(le32(&out[36..40]), 0);
}

#[test]
fn writeable_flash_region_recorded() {
    // ".wfr" in the name marks a writeable flash region; its placement is
    // advertised in the header, which grows by 4 + 8 bytes.
    let input = ElfInput {
        entry: 0,
        sections: vec![
            sec(".text", 0x100, 0x8000, 4, PROGBITS, A | X, vec![1, 2, 3, 4]),
            sec(".wfr.store", 0x200, 0x9000, 8, PROGBITS, W | A, vec![9; 8]),
        ],
        segments: Vec::new(),
    };
    let out = elf_to_tbf(&input, Vec::new(), 0, 0, 0, None).unwrap();
    // Header length 32 + 12 = 44.
    assert_eq!(le16(&out[2..4]), 44);
    // Flash region element after the main element.
    assert_eq!(le16(&out[32..34]), 2); // element type
    assert_eq!(le16(&out[34..36]), 8); // one region, 8 bytes
    // The region starts after .text, at content-buffer offset 4 (image
    // offset 48 minus the 44-byte header), and is 8 bytes.
    assert_eq!(le32(&out[36..40]), 4);
    assert_eq!(le32(&out[40..44]), 8);
    assert_eq!(&out[44..48], &[1, 2, 3, 4]);
    assert_eq!(&out[48..56], &[9; 8]);
}

#[test]
fn power_of_two_unpadded_length_gets_no_padding() {
    // Unpadded length 32 + 28 + 4 = 64 is already a power of two: the
    // image stays 64 bytes, below the usual 512 floor.
    let input = ElfInput {
        entry: 0,
        sections: vec![sec(".text", 0x100, 0x8000, 28, PROGBITS, A | X, vec![7; 28])],
        segments: Vec::new(),
    };
    let out = elf_to_tbf(&input, Vec::new(), 0, 0, 0, None).unwrap();
    assert_eq!(out.len(), 64);
    assert_eq!(le32(&out[4..8]), 64);
}

#[test]
fn total_size_field_matches_output_length() {
    let input = ElfInput {
        entry: 0,
        sections: vec![
            sec(".text", 0x100, 0x8000, 600, PROGBITS, A | X, vec![3; 600]),
        ],
        segments: Vec::new(),
    };
    let out = elf_to_tbf(&input, b"demo".to_vec(), 64, 0, 0, None).unwrap();
    assert_eq!(le32(&out[4..8]) as usize, out.len());
    // 40 + 600 + 4 = 644 -> 1024.
    assert_eq!(out.len(), 1024);
}

#[test]
fn deterministic_conversion_is_byte_identical() {
    let input = ElfInput {
        entry: 0x8002,
        sections: vec![
            sec(".data", 0x200, 0x9000, 4, PROGBITS, W | A, vec![5, 6, 7, 8]),
            sec(".rel.data", 0x300, 0, 8, 9, 0, vec![1; 8]),
            sec(".text", 0x100, 0x8000, 16, PROGBITS, A | X, (0..16).collect()),
        ],
        segments: vec![ElfSegment { progtype: 1, flags: 6, memsz: 128 }],
    };
    let a = elf_to_tbf(&input, b"blink".to_vec(), 512, 256, 256, None).unwrap();
    let b = elf_to_tbf(&input, b"blink".to_vec(), 512, 256, 256, None).unwrap();
    assert_eq!(a, b);
}

#[test]
fn empty_input_yields_bare_header_image() {
    let input = ElfInput { entry: 0, sections: Vec::new(), segments: Vec::new() };
    let out = elf_to_tbf(&input, Vec::new(), 0, 0, 0, None).unwrap();
    // 32 + 0 + 4 = 36 unpadded, padded to 512.
    assert_eq!(out.len(), 512);
    assert_eq!(le32(&out[20..24]), 0);
}
