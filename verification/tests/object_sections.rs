use aobscan::object_image::{read_object, ObjectImage, SectionImage, SectionLookup, SliceImage};
use aobscan::object_scan::{scan_archive, scan_image, scan_section, SectionSink};
use aobscan::{ObjectError, ObjectScan, Pattern, PatternBuilder, SectionResult};

const TEXT_OFFSET: usize = 64;

fn section_header(
    out: &mut Vec<u8>,
    name: u32,
    kind: u32,
    flags: u64,
    address: u64,
    offset: u64,
    size: u64,
) {
    out.extend_from_slice(&name.to_le_bytes());
    out.extend_from_slice(&kind.to_le_bytes());
    out.extend_from_slice(&flags.to_le_bytes());
    out.extend_from_slice(&address.to_le_bytes());
    out.extend_from_slice(&offset.to_le_bytes());
    out.extend_from_slice(&size.to_le_bytes());
    out.extend_from_slice(&0u32.to_le_bytes());
    out.extend_from_slice(&0u32.to_le_bytes());
    out.extend_from_slice(&1u64.to_le_bytes());
    out.extend_from_slice(&0u64.to_le_bytes());
}

/// A 64-bit little-endian ELF object with a code section of the given
/// five-letter name, a string table and an empty `.bss`.
fn elf_object(code_name: &str, code: &[u8], address: u64) -> Vec<u8> {
    assert_eq!(code_name.len(), 5);
    let mut names = vec![0u8];
    names.extend_from_slice(code_name.as_bytes());
    names.extend_from_slice(b"\0.shstrtab\0.bss\0");
    let names_offset = TEXT_OFFSET + code.len();
    let headers_offset = (names_offset + names.len() + 7) / 8 * 8;

    let mut out = vec![0x7F, b'E', b'L', b'F', 2, 1, 1, 0, 0, 0, 0, 0, 0, 0, 0, 0];
    out.extend_from_slice(&1u16.to_le_bytes());
    out.extend_from_slice(&0x3Eu16.to_le_bytes());
    out.extend_from_slice(&1u32.to_le_bytes());
    out.extend_from_slice(&0u64.to_le_bytes());
    out.extend_from_slice(&0u64.to_le_bytes());
    out.extend_from_slice(&(headers_offset as u64).to_le_bytes());
    out.extend_from_slice(&0u32.to_le_bytes());
    out.extend_from_slice(&64u16.to_le_bytes());
    out.extend_from_slice(&0u16.to_le_bytes());
    out.extend_from_slice(&0u16.to_le_bytes());
    out.extend_from_slice(&64u16.to_le_bytes());
    out.extend_from_slice(&4u16.to_le_bytes());
    out.extend_from_slice(&2u16.to_le_bytes());
    assert_eq!(out.len(), TEXT_OFFSET);

    out.extend_from_slice(code);
    out.extend_from_slice(&names);
    out.resize(headers_offset, 0);
    section_header(&mut out, 0, 0, 0, 0, 0, 0);
    section_header(&mut out, 1, 1, 6, address, TEXT_OFFSET as u64, code.len() as u64);
    section_header(&mut out, 7, 3, 0, 0, names_offset as u64, names.len() as u64);
    section_header(&mut out, 17, 8, 3, address + 0x1000, names_offset as u64, 32);
    out
}

/// A 32-bit Mach-O fat archive of the given slices, each with its CPU
/// type; the slices start at multiples of 16.
fn fat_archive(slices: &[(u32, &[u8])]) -> (Vec<u8>, Vec<usize>) {
    let mut offsets = Vec::new();
    let mut next = (8 + 20 * slices.len() + 15) / 16 * 16;
    for (_, bytes) in slices {
        offsets.push(next);
        next = (next + bytes.len() + 15) / 16 * 16;
    }
    let mut out = Vec::new();
    out.extend_from_slice(&0xCAFEBABEu32.to_be_bytes());
    out.extend_from_slice(&(slices.len() as u32).to_be_bytes());
    for (index, (cpu, bytes)) in slices.iter().enumerate() {
        out.extend_from_slice(&cpu.to_be_bytes());
        out.extend_from_slice(&0u32.to_be_bytes());
        out.extend_from_slice(&(offsets[index] as u32).to_be_bytes());
        out.extend_from_slice(&(bytes.len() as u32).to_be_bytes());
        out.extend_from_slice(&4u32.to_be_bytes());
    }
    for (index, (_, bytes)) in slices.iter().enumerate() {
        out.resize(offsets[index], 0);
        out.extend_from_slice(bytes);
    }
    (out, offsets)
}

const CPU_X86_64: u32 = 0x0100_0007;
const CPU_ARM64: u32 = 0x0100_000C;

fn pattern(text: &str) -> Pattern {
    PatternBuilder::from_ida_style(text).unwrap().build()
}

fn scan(pattern: &Pattern, data: &[u8], name: &str) -> (Result<bool, ObjectError>, Vec<SectionResult>) {
    let mut hits = Vec::new();
    let result = pattern.scan_object(data, name, |hit| {
        hits.push(hit);
        true
    });
    (result, hits)
}

fn hit(raw_offset: usize, section_offset: usize, section_address: u64, archive: Option<&str>) -> SectionResult {
    SectionResult {
        raw_offset,
        section_offset,
        section_address,
        archive_id: archive.map(|name| name.to_string()),
    }
}

#[test]
fn matches_in_a_section_are_reported_with_their_places() {
    let object = elf_object(".text", &[0x90, 0x55, 0x48, 0x90, 0x55, 0x48], 0x40_1000);
    let (result, hits) = scan(&pattern("55 48"), &object, ".text");
    assert_eq!(result, Ok(true));
    assert_eq!(
        hits,
        vec![
            hit(TEXT_OFFSET + 1, 1, 0x40_1000, None),
            hit(TEXT_OFFSET + 4, 4, 0x40_1000, None),
        ]
    );
}

#[test]
fn only_the_named_section_is_scanned() {
    let object = elf_object(".text", &[0x90, 0x90, 0x90, 0x90], 0x1000);
    let (result, hits) = scan(&pattern("2E 73 68 73"), &object, ".text");
    assert_eq!(result, Ok(false));
    assert_eq!(hits, vec![]);
    let (result, hits) = scan(&pattern("2E 73 68 73"), &object, ".shstrtab");
    assert_eq!(result, Ok(true));
    assert_eq!(hits, vec![hit(TEXT_OFFSET + 4 + 7, 7, 0, None)]);
}

#[test]
fn a_missing_section_is_told_from_a_buffer_that_is_no_object() {
    let object = elf_object(".text", &[0x55, 0x48], 0x1000);
    assert_eq!(scan(&pattern("55"), &object, ".data"), (Err(ObjectError::SectionNotFound), vec![]));
    assert_eq!(scan(&pattern("55"), &object, ".TEXT"), (Err(ObjectError::SectionNotFound), vec![]));
    assert_eq!(scan(&pattern("55"), &[], ".text"), (Err(ObjectError::InvalidObject), vec![]));
    assert_eq!(
        scan(&pattern("55"), &[0x55; 256], ".text"),
        (Err(ObjectError::InvalidObject), vec![])
    );
    assert_eq!(
        scan(&pattern("55"), &object[..40], ".text"),
        (Err(ObjectError::InvalidObject), vec![])
    );
}

#[test]
fn a_section_without_contents_in_the_file_has_no_data() {
    let object = elf_object(".text", &[0x55, 0x48], 0x1000);
    assert_eq!(
        scan(&pattern("55"), &object, ".bss"),
        (Err(ObjectError::SectionDataNotFound), vec![])
    );
}

#[test]
fn each_architecture_of_a_fat_archive_is_scanned() {
    let first = elf_object(".text", &[0x55, 0x48, 0x90], 0x1000);
    let second = elf_object(".text", &[0x90, 0x90, 0x55, 0x48], 0x2000);
    let (archive, offsets) = fat_archive(&[(CPU_X86_64, &first), (CPU_ARM64, &second)]);
    let (result, hits) = scan(&pattern("55 48"), &archive, ".text");
    assert_eq!(result, Ok(true));
    assert_eq!(
        hits,
        vec![
            hit(offsets[0] + TEXT_OFFSET, 0, 0x1000, Some("X86_64")),
            hit(offsets[1] + TEXT_OFFSET + 2, 2, 0x2000, Some("Aarch64")),
        ]
    );
}

#[test]
fn an_architecture_without_the_section_is_passed_over() {
    let with = elf_object(".text", &[0x55, 0x48], 0x1000);
    let without = elf_object(".code", &[0x55, 0x48], 0x2000);
    let (archive, offsets) = fat_archive(&[(CPU_ARM64, &without), (CPU_X86_64, &with)]);
    let (result, hits) = scan(&pattern("55 48"), &archive, ".text");
    assert_eq!(result, Ok(true));
    assert_eq!(hits, vec![hit(offsets[1] + TEXT_OFFSET, 0, 0x1000, Some("X86_64"))]);

    let (result, hits) = scan(&pattern("48 55"), &archive, ".text");
    assert_eq!(result, Ok(false));
    assert_eq!(hits, vec![]);

    let (result, hits) = scan(&pattern("55 48"), &archive, ".data");
    assert_eq!(result, Err(ObjectError::SectionNotFound));
    assert_eq!(hits, vec![]);
}

#[test]
fn an_archive_without_architectures_has_no_section() {
    let (archive, _) = fat_archive(&[]);
    assert_eq!(
        scan(&pattern("55"), &archive, ".text"),
        (Err(ObjectError::SectionNotFound), vec![])
    );
}

#[test]
fn a_slice_that_is_no_object_stops_the_scan_of_an_archive() {
    let good = elf_object(".text", &[0x55, 0x48], 0x1000);
    let bad = vec![0x11u8; 80];
    let (archive, offsets) = fat_archive(&[(CPU_X86_64, &good), (CPU_ARM64, &bad)]);
    let (result, hits) = scan(&pattern("55 48"), &archive, ".text");
    assert_eq!(result, Err(ObjectError::InvalidObject));
    assert_eq!(hits, vec![hit(offsets[0] + TEXT_OFFSET, 0, 0x1000, Some("X86_64"))]);
}

#[test]
fn a_slice_without_data_in_its_file_stops_the_scan_of_an_archive() {
    let good = elf_object(".text", &[0x55, 0x48], 0x1000);
    let (archive, _) = fat_archive(&[(CPU_X86_64, &good), (CPU_ARM64, &good)]);
    assert_eq!(
        scan(&pattern("55 48"), &archive, ".bss"),
        (Err(ObjectError::SectionDataNotFound), vec![])
    );
}

#[test]
fn a_slice_that_lies_outside_the_archive_is_passed_over() {
    let good = elf_object(".text", &[0x55, 0x48], 0x1000);
    let (mut archive, offsets) = fat_archive(&[(CPU_X86_64, &good), (CPU_ARM64, &good)]);
    archive.truncate(offsets[1] + 10);
    let (result, hits) = scan(&pattern("55 48"), &archive, ".text");
    assert_eq!(result, Ok(true));
    assert_eq!(hits, vec![hit(offsets[0] + TEXT_OFFSET, 0, 0x1000, Some("X86_64"))]);
}

#[test]
fn a_stop_ends_the_scan_of_one_architecture_only() {
    let first = elf_object(".text", &[0x55, 0x55, 0x55], 0x1000);
    let second = elf_object(".text", &[0x55, 0x55], 0x2000);
    let (archive, offsets) = fat_archive(&[(CPU_X86_64, &first), (CPU_ARM64, &second)]);
    let mut hits = Vec::new();
    let result = pattern("55").scan_object(&archive, ".text", |hit| {
        hits.push(hit);
        false
    });
    assert_eq!(result, Ok(true));
    assert_eq!(
        hits,
        vec![
            hit(offsets[0] + TEXT_OFFSET, 0, 0x1000, Some("X86_64")),
            hit(offsets[1] + TEXT_OFFSET, 0, 0x2000, Some("Aarch64")),
        ]
    );
}

#[test]
fn a_stop_ends_the_scan_of_an_object_file() {
    let object = elf_object(".text", &[0x55, 0x55, 0x55], 0x1000);
    let mut hits = Vec::new();
    let result = pattern("55").scan_object(&object, ".text", |hit| {
        hits.push(hit);
        false
    });
    assert_eq!(result, Ok(true));
    assert_eq!(hits, vec![hit(TEXT_OFFSET, 0, 0x1000, None)]);
}

#[test]
fn sections_are_scanned_with_the_threads_of_the_pattern() {
    let mut code = vec![0x90u8; 300];
    code[0] = 0x55;
    code[149] = 0x55;
    code[150] = 0x55;
    code[299] = 0x55;
    let object = elf_object(".text", &code, 0x7000);
    let threaded = PatternBuilder::from_ida_style("55").unwrap().with_threads_within(2, 2).unwrap().build();
    let (result, hits) = scan(&threaded, &object, ".text");
    assert_eq!(result, Ok(true));
    assert_eq!(
        hits,
        vec![
            hit(TEXT_OFFSET, 0, 0x7000, None),
            hit(TEXT_OFFSET + 149, 149, 0x7000, None),
            hit(TEXT_OFFSET + 150, 150, 0x7000, None),
            hit(TEXT_OFFSET + 299, 299, 0x7000, None),
        ]
    );
}

#[test]
fn read_object_reads_the_section_of_an_object_file() {
    let object = elf_object(".text", &[1, 2, 3], 0x5000);
    match read_object(&object, ".text") {
        ObjectImage::Object(Some(section)) => {
            assert_eq!(section.data, Some(&[1u8, 2, 3][..]));
            assert_eq!(section.file_offset, Some(TEXT_OFFSET as u64));
            assert_eq!(section.address, 0x5000);
        }
        _ => panic!("the section is there"),
    }
    match read_object(&object, ".bss") {
        ObjectImage::Object(Some(section)) => {
            assert_eq!(section.data, Some(&[][..]));
            assert_eq!(section.file_offset, None);
            assert_eq!(section.address, 0x6000);
        }
        _ => panic!("the section is there"),
    }
    assert!(matches!(read_object(&object, ".data"), ObjectImage::Object(None)));
    assert!(matches!(read_object(&object[1..], ".text"), ObjectImage::Neither));
    assert!(matches!(read_object(&[], ".text"), ObjectImage::Neither));
}

#[test]
fn read_object_reads_the_architectures_of_an_archive() {
    let first = elf_object(".text", &[1, 2, 3], 0x5000);
    let second = elf_object(".code", &[4], 0x6000);
    let (mut archive, offsets) = fat_archive(&[
        (CPU_X86_64, &first),
        (CPU_ARM64, &second),
        (7, &[9, 9]),
        (12, &first),
    ]);
    archive.truncate(offsets[3] + 10);
    let ObjectImage::Archive(slices) = read_object(&archive, ".text") else {
        panic!("the buffer is an archive");
    };
    assert_eq!(slices.len(), 4);
    assert_eq!(slices[0].architecture, "X86_64");
    assert_eq!(slices[0].offset as usize, offsets[0]);
    match &slices[0].lookup {
        Some(SectionLookup::Found(section)) => {
            assert_eq!(section.data, Some(&[1u8, 2, 3][..]));
            assert_eq!(section.file_offset, Some(TEXT_OFFSET as u64));
            assert_eq!(section.address, 0x5000);
        }
        _ => panic!("the section is there"),
    }
    assert_eq!(slices[1].architecture, "Aarch64");
    assert_eq!(slices[1].offset as usize, offsets[1]);
    assert!(matches!(slices[1].lookup, Some(SectionLookup::Missing)));
    assert_eq!(slices[2].architecture, "I386");
    assert_eq!(slices[2].offset as usize, offsets[2]);
    assert!(matches!(slices[2].lookup, Some(SectionLookup::NotAnObject)));
    assert_eq!(slices[3].architecture, "Arm");
    assert_eq!(slices[3].offset as usize, offsets[3]);
    assert!(slices[3].lookup.is_none());
    assert!(matches!(read_object(&archive[..20], ".text"), ObjectImage::Neither));
}

#[test]
fn scan_section_places_matches_in_the_whole_buffer() {
    let data = [0x00, 0x55, 0x00, 0x55];
    let section = SectionImage { data: Some(&data), file_offset: Some(0x200), address: 0x9000 };
    let mut hits = Vec::new();
    let mut sink = SectionSink::new(|hit: SectionResult| {
        hits.push(hit);
        true
    });
    let result = scan_section(&pattern("55"), &section, Some("Arm".to_string()), 0x1000, &mut sink);
    let _ = sink;
    assert_eq!(result, Ok(true));
    assert_eq!(
        hits,
        vec![hit(0x1201, 1, 0x9000, Some("Arm")), hit(0x1203, 3, 0x9000, Some("Arm"))]
    );
}

#[test]
fn scan_section_needs_contents_that_have_a_place() {
    let data = [0x55u8];
    let mut calls = 0;
    let mut sink = SectionSink::new(|_: SectionResult| {
        calls += 1;
        true
    });
    let no_data = SectionImage { data: None, file_offset: Some(0), address: 0 };
    let no_offset = SectionImage { data: Some(&data), file_offset: None, address: 0 };
    let too_far = SectionImage { data: Some(&data), file_offset: Some(u64::MAX), address: 0 };
    let at_the_end =
        SectionImage { data: Some(&data), file_offset: Some(usize::MAX as u64 - 8), address: 0 };
    let needle = pattern("55");
    assert_eq!(scan_section(&needle, &no_data, None, 0, &mut sink), Err(ObjectError::SectionDataNotFound));
    assert_eq!(scan_section(&needle, &no_offset, None, 0, &mut sink), Err(ObjectError::SectionDataNotFound));
    assert_eq!(scan_section(&needle, &too_far, None, 0, &mut sink), Err(ObjectError::SectionDataNotFound));
    assert_eq!(scan_section(&needle, &at_the_end, None, 8, &mut sink), Err(ObjectError::SectionDataNotFound));
    assert_eq!(scan_section(&needle, &at_the_end, None, usize::MAX, &mut sink), Err(ObjectError::SectionDataNotFound));
    assert_eq!(scan_section(&needle, &at_the_end, None, 7, &mut sink), Ok(true));
    let _ = sink;
    assert_eq!(calls, 1);
}

fn slice<'a>(architecture: &str, offset: u32, lookup: Option<SectionLookup<'a>>) -> SliceImage<'a> {
    SliceImage { architecture: architecture.to_string(), offset, lookup }
}

fn found(data: &[u8], file_offset: u64) -> Option<SectionLookup<'_>> {
    Some(SectionLookup::Found(SectionImage {
        data: Some(data),
        file_offset: Some(file_offset),
        address: 0x1000,
    }))
}

fn archive_scan(needle: &Pattern, slices: &Vec<SliceImage>) -> (Result<bool, ObjectError>, Vec<SectionResult>) {
    let mut hits = Vec::new();
    let mut sink = SectionSink::new(|hit: SectionResult| {
        hits.push(hit);
        true
    });
    let result = scan_archive(needle, slices, &mut sink);
    let _ = sink;
    (result, hits)
}

#[test]
fn scan_archive_takes_the_slices_as_they_are_given() {
    let slices = vec![
        slice("First", 0x100, None),
        slice("Second", 0x200, Some(SectionLookup::Missing)),
        slice("Third", 0x300, found(&[0x00, 0x55], 0x40)),
        slice("Fourth", 0x400, found(&[0x00], 0x40)),
    ];
    assert_eq!(
        archive_scan(&pattern("55"), &slices),
        (Ok(true), vec![hit(0x341, 1, 0x1000, Some("Third"))])
    );
    assert_eq!(archive_scan(&pattern("56"), &slices), (Ok(false), vec![]));
}

#[test]
fn scan_archive_gives_the_error_of_the_first_slice_that_has_one() {
    let no_place = Some(SectionLookup::Found(SectionImage {
        data: Some(&[0x55]),
        file_offset: None,
        address: 0,
    }));
    let slices = vec![
        slice("First", 0x100, found(&[0x55], 0x40)),
        slice("Second", 0x200, no_place),
        slice("Third", 0x300, Some(SectionLookup::NotAnObject)),
    ];
    assert_eq!(
        archive_scan(&pattern("55"), &slices),
        (Err(ObjectError::SectionDataNotFound), vec![hit(0x140, 0, 0x1000, Some("First"))])
    );
    let slices = vec![
        slice("First", 0x100, Some(SectionLookup::NotAnObject)),
        slice("Second", 0x200, found(&[0x55], 0x40)),
    ];
    assert_eq!(archive_scan(&pattern("55"), &slices), (Err(ObjectError::InvalidObject), vec![]));
}

#[test]
fn scan_archive_needs_the_section_in_some_slice() {
    let slices = vec![slice("First", 0x100, None), slice("Second", 0x200, Some(SectionLookup::Missing))];
    assert_eq!(archive_scan(&pattern("55"), &slices), (Err(ObjectError::SectionNotFound), vec![]));
    assert_eq!(archive_scan(&pattern("55"), &vec![]), (Err(ObjectError::SectionNotFound), vec![]));
}

#[test]
fn scan_image_decides_by_the_kind_of_the_image() {
    let needle = pattern("55");
    let mut hits = Vec::new();
    let section = SectionImage { data: Some(&[0x55, 0x00, 0x55]), file_offset: Some(0x10), address: 0x77 };
    let result = scan_image(&needle, &ObjectImage::Object(Some(section)), |hit| {
        hits.push(hit);
        true
    });
    assert_eq!(result, Ok(true));
    assert_eq!(hits, vec![hit(0x10, 0, 0x77, None), hit(0x12, 2, 0x77, None)]);

    let mut calls = 0;
    let mut count = |_: SectionResult| {
        calls += 1;
        true
    };
    assert_eq!(scan_image(&needle, &ObjectImage::Object(None), &mut count), Err(ObjectError::SectionNotFound));
    assert_eq!(scan_image(&needle, &ObjectImage::Neither, &mut count), Err(ObjectError::InvalidObject));
    assert_eq!(
        scan_image(&needle, &ObjectImage::Archive(vec![]), &mut count),
        Err(ObjectError::SectionNotFound)
    );
    assert_eq!(
        scan_image(
            &needle,
            &ObjectImage::Archive(vec![slice("Only", 8, found(&[0x00, 0x00], 0))]),
            &mut count
        ),
        Ok(false)
    );
    assert_eq!(calls, 0);
}

#[test]
fn object_errors_describe_themselves() {
    assert_eq!(
        ObjectError::InvalidObject.message(),
        "the content of the data to scan is not a valid object file"
    );
    assert_eq!(ObjectError::SectionNotFound.message(), "the specified binary section is not found");
    assert_eq!(
        ObjectError::SectionDataNotFound.message(),
        "the data of the specified binary section is not available"
    );
}
