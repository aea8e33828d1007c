use elf2tab::align::{align4_u32, align8_u32, padded_total_size};
use elf2tab::metadata::{archive_plan, build_metadata, TabImage};
use elf2tab::ram::minimum_ram_size;
use elf2tab::sections::ElfSegment;

#[test]
fn align4_rounds_up() {
    assert_eq!(align4_u32(0), 0);
    assert_eq!(align4_u32(1), 4);
    assert_eq!(align4_u32(4), 4);
    assert_eq!(align4_u32(5), 8);
    assert_eq!(align4_u32(1023), 1024);
}

#[test]
fn align8_rounds_up() {
    assert_eq!(align8_u32(0), 0);
    assert_eq!(align8_u32(1), 8);
    assert_eq!(align8_u32(8), 8);
    assert_eq!(align8_u32(9), 16);
    assert_eq!(align8_u32(2048), 2048);
}

#[test]
fn padding_reaches_power_of_two_at_least_512() {
    assert_eq!(padded_total_size(44), 512);
    assert_eq!(padded_total_size(300), 512);
    assert_eq!(padded_total_size(513), 1024);
    assert_eq!(padded_total_size(1000), 1024);
    assert_eq!(padded_total_size(1), 1);
}

#[test]
fn padding_keeps_exact_powers_of_two() {
    // A length that is already a power of two receives no padding, even
    // below 512.
    assert_eq!(padded_total_size(64), 64);
    assert_eq!(padded_total_size(512), 512);
    assert_eq!(padded_total_size(1024), 1024);
}

fn seg(progtype: u32, flags: u32, memsz: u64) -> ElfSegment {
    ElfSegment { progtype, flags, memsz }
}

#[test]
fn ram_size_formula() {
    // PT_LOAD = 1; PF_W + PF_R = 6.
    let segs = vec![seg(1, 6, 256)];
    assert_eq!(minimum_ram_size(&segs, 2048, 1024, 1024), 256 + 2048 + 1024 + 1024);
}

#[test]
fn ram_size_first_rw_load_segment_wins() {
    let segs = vec![
        seg(1, 5, 9999),  // loadable but R+X: not the RAM segment
        seg(2, 6, 9999),  // RW but not loadable
        seg(1, 6, 300),   // first loadable RW: picked
        seg(1, 6, 7777),  // later match: ignored
    ];
    assert_eq!(minimum_ram_size(&segs, 0, 0, 0), 300);
}

#[test]
fn ram_size_no_segment_means_zero_base() {
    let segs: Vec<ElfSegment> = Vec::new();
    assert_eq!(minimum_ram_size(&segs, 16, 4, 4), 24);
    // Unaligned reservations are rounded up individually.
    assert_eq!(minimum_ram_size(&segs, 9, 5, 1), 16 + 8 + 4);
}

#[test]
fn metadata_deterministic_has_no_build_date() {
    let m = build_metadata("blink", None);
    assert_eq!(m, "tab-version = 1\nname = \"blink\"\nonly-for-boards = \"\"\n");
}

#[test]
fn metadata_with_build_date() {
    let m = build_metadata("blink", Some("2020-05-13T14:55:10Z"));
    assert_eq!(
        m,
        "tab-version = 1\nname = \"blink\"\nonly-for-boards = \"\"\n\
         build-date = 2020-05-13T14:55:10Z\n"
    );
}

#[test]
fn metadata_empty_name() {
    let m = build_metadata("", None);
    assert_eq!(m, "tab-version = 1\nname = \"\"\nonly-for-boards = \"\"\n");
}

#[test]
fn archive_plan_one_metadata_entry_plus_two_per_image() {
    let meta = b"tab-version = 1\n".to_vec();
    let images = vec![
        TabImage {
            tbf_name: "blink.tbf".to_string(),
            bin_name: "blink.bin".to_string(),
            image: vec![1, 2, 3],
        },
        TabImage {
            tbf_name: "other.tbf".to_string(),
            bin_name: "other.bin".to_string(),
            image: vec![9, 9],
        },
    ];
    let entries = archive_plan(meta.clone(), images);
    assert_eq!(entries.len(), 5);
    assert_eq!(entries[0].name, "metadata.toml");
    assert_eq!(entries[0].bytes, meta);
    assert_eq!(entries[1].name, "blink.tbf");
    assert_eq!(entries[1].bytes, vec![1, 2, 3]);
    assert_eq!(entries[2].name, "blink.bin");
    assert_eq!(entries[2].bytes, vec![1, 2, 3]);
    assert_eq!(entries[3].name, "other.tbf");
    assert_eq!(entries[3].bytes, vec![9, 9]);
    assert_eq!(entries[4].name, "other.bin");
    assert_eq!(entries[4].bytes, vec![9, 9]);
}

#[test]
fn archive_plan_no_images() {
    let entries = archive_plan(vec![7], Vec::new());
    assert_eq!(entries.len(), 1);
    assert_eq!(entries[0].name, "metadata.toml");
    assert_eq!(entries[0].bytes, vec![7]);
}
