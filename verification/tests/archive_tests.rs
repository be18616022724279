use archive_writer::errors::ArchiveError;
use object::write::{Object, Symbol, SymbolSection};
use object::{Architecture, BinaryFormat, Endianness, SymbolFlags, SymbolKind, SymbolScope};
use archive_writer::kind::ArchiveKind;
use archive_writer::member::NewArchiveMember;
use archive_writer::writer::write_archive_to_stream;

fn member(name: &str, payload: Vec<u8>) -> NewArchiveMember {
    NewArchiveMember::new(name.as_bytes().to_vec(), payload)
}

fn gnu_header(name_field: &str, mtime: u64, uid: u32, gid: u32, perms: u32, size: u64) -> Vec<u8> {
    format!(
        "{:<16}{:<12}{:<6}{:<6}{:<8o}{:<10}`\n",
        name_field, mtime, uid, gid, perms, size
    )
    .into_bytes()
}

#[test]
fn gnu_two_members_exact_bytes() {
    let members = vec![member("a.o", vec![0u8; 500]), member("b.o", vec![0u8; 10])];
    let out = write_archive_to_stream(&members, false, ArchiveKind::Gnu, true, false).unwrap();

    let mut expected = b"!<arch>\n".to_vec();
    expected.extend_from_slice(&gnu_header("a.o/", 0, 0, 0, 0, 500));
    expected.extend_from_slice(&[0u8; 500]);
    expected.extend_from_slice(&gnu_header("b.o/", 0, 0, 0, 0, 10));
    expected.extend_from_slice(&[0u8; 10]);
    assert_eq!(out, expected);
}

#[test]
fn deterministic_runs_are_byte_identical() {
    let members = vec![member("x.o", vec![1, 2, 3, 4]), member("y.o", vec![9, 9])];
    let a = write_archive_to_stream(&members, false, ArchiveKind::Gnu, true, false).unwrap();
    let members2 = vec![member("x.o", vec![1, 2, 3, 4]), member("y.o", vec![9, 9])];
    let b = write_archive_to_stream(&members2, false, ArchiveKind::Gnu, true, false).unwrap();
    assert_eq!(a, b);
}

#[test]
fn thin_with_bsd_like_kind_fails_without_output() {
    let members = vec![member("a.o", vec![0u8; 4])];
    let r = write_archive_to_stream(&members, false, ArchiveKind::Bsd, true, true);
    assert!(matches!(r, Err(ArchiveError::ThinNotSupported)));
    let members = vec![member("a.o", vec![0u8; 4])];
    let r = write_archive_to_stream(&members, false, ArchiveKind::Darwin, true, true);
    assert!(matches!(r, Err(ArchiveError::ThinNotSupported)));
}

#[test]
fn unsupported_kinds_are_refused() {
    let members = vec![member("a.o", vec![0u8; 4])];
    let r = write_archive_to_stream(&members, false, ArchiveKind::Coff, true, false);
    assert!(matches!(r, Err(ArchiveError::UnsupportedKind)));
    let members = vec![member("a.o", vec![0u8; 4])];
    let r = write_archive_to_stream(&members, false, ArchiveKind::AixBig, true, false);
    assert!(matches!(r, Err(ArchiveError::UnsupportedKind)));
}

#[test]
fn empty_darwin_archive_still_has_symbol_table() {
    let members: Vec<NewArchiveMember> = Vec::new();
    let out = write_archive_to_stream(&members, true, ArchiveKind::Darwin, true, false).unwrap();
    assert!(out.len() > 8);
    assert_eq!(&out[0..8], b"!<arch>\n");
    // The BSD-family symbol table member is named __.SYMDEF.
    let needle = b"__.SYMDEF";
    assert!(out.windows(needle.len()).any(|w| w == needle));
}

#[test]
fn empty_gnu_archive_omits_symbol_table() {
    let members: Vec<NewArchiveMember> = Vec::new();
    let out = write_archive_to_stream(&members, true, ArchiveKind::Gnu, true, false).unwrap();
    assert_eq!(out, b"!<arch>\n".to_vec());
}

#[test]
fn long_duplicate_names_share_one_string_table_entry() {
    let name = "0123456789abcdef.o";
    let members = vec![member(name, b"XY".to_vec()), member(name, b"ZW".to_vec())];
    let out = write_archive_to_stream(&members, false, ArchiveKind::Gnu, true, false).unwrap();

    // Layout: magic (8), string table member (60 header + 20 data),
    // member records of 60 + 2 bytes each.
    assert_eq!(out.len(), 8 + 80 + 62 + 62);
    assert_eq!(&out[8..10], b"//");
    // The string table holds exactly one copy of the name record.
    let record = b"0123456789abcdef.o/\n";
    let hits = out.windows(record.len()).filter(|w| *w == record).count();
    assert_eq!(hits, 1);
    // Both member headers cite offset zero in the table.
    assert_eq!(&out[88..104], b"/0              ");
    assert_eq!(&out[150..166], b"/0              ");
}

#[test]
fn darwin_member_payload_aligned_to_eight() {
    let members = vec![member("x.o", vec![7u8; 5])];
    let out = write_archive_to_stream(&members, false, ArchiveKind::Darwin, true, false).unwrap();
    // magic (8) + header (60 + 3 name + 1 pad) + payload (5) + padding (3).
    assert_eq!(out.len(), 80);
    assert_eq!(&out[8..11], b"#1/");
    // Stored name length with padding is 4; member size field covers it: 4 + 8.
    assert_eq!(&out[56..58], b"12");
    assert_eq!(&out[68..71], b"x.o");
    assert_eq!(out[71], 0);
    // Payload followed by newline padding to the eight-byte boundary.
    assert_eq!(&out[72..77], &[7u8; 5][..]);
    assert_eq!(&out[77..80], b"\n\n\n");
}

#[test]
fn darwin_duplicate_names_get_increasing_timestamps() {
    let members = vec![
        NewArchiveMember::with_metadata(b"dup.o".to_vec(), vec![0u8; 8], 777, 0, 0, 0),
        NewArchiveMember::with_metadata(b"dup.o".to_vec(), vec![0u8; 8], 888, 0, 0, 0),
        NewArchiveMember::with_metadata(b"other.o".to_vec(), vec![0u8; 8], 42, 0, 0, 0),
    ];
    let out = write_archive_to_stream(&members, false, ArchiveKind::Darwin, true, false).unwrap();
    // Record 1: header 60 + 5 + 7 pad = 72, payload 8 -> 80 bytes at offset 8.
    // Record 2 at 88, same shape. Record 3 at 168: header 60 + 7 + 5 = 72.
    // The mtime field sits 16 bytes into each header.
    assert_eq!(&out[8 + 16..8 + 28], b"0           ");
    assert_eq!(&out[88 + 16..88 + 28], b"1           ");
    // A unique name keeps its own timestamp.
    assert_eq!(&out[168 + 16..168 + 28], b"42          ");
}

#[test]
fn thin_archive_has_names_but_no_payload() {
    let members = vec![member("a.o", vec![0xAAu8; 64]), member("b.o", vec![0xBBu8; 64])];
    let out = write_archive_to_stream(&members, false, ArchiveKind::Gnu, true, true).unwrap();
    assert_eq!(&out[0..8], b"!<thin>\n");
    // Thin mode routes every name through the string table and embeds no
    // payload bytes.
    let rec_a = b"a.o/\n";
    assert!(out.windows(rec_a.len()).any(|w| w == rec_a));
    let rec_b = b"b.o/\n";
    assert!(out.windows(rec_b.len()).any(|w| w == rec_b));
    assert!(!out.contains(&0xAAu8));
    assert!(!out.contains(&0xBBu8));
    // magic + string table member (60 + 10 data) + two bare headers.
    assert_eq!(out.len(), 8 + 70 + 60 + 60);
}

#[test]
fn symbol_table_indexes_global_defined_symbols() {
    let mut obj = Object::new(BinaryFormat::Elf, Architecture::X86_64, Endianness::Little);
    let text = obj.add_section(Vec::new(), b".text".to_vec(), object::SectionKind::Text);
    obj.append_section_data(text, &[0xC3], 1);
    obj.add_symbol(Symbol {
        name: b"my_symbol".to_vec(),
        value: 0,
        size: 1,
        kind: SymbolKind::Text,
        scope: SymbolScope::Linkage,
        weak: false,
        section: SymbolSection::Section(text),
        flags: SymbolFlags::None,
    });
    let payload = obj.write().unwrap();

    let members = vec![member("one.o", payload)];
    let out = write_archive_to_stream(&members, true, ArchiveKind::Gnu, true, false).unwrap();
    assert_eq!(&out[0..8], b"!<arch>\n");
    // GNU symbol table: header (60), big-endian count, one big-endian
    // member offset, then the NUL-terminated name.
    assert_eq!(&out[68..72], &[0, 0, 0, 1]);
    // Symbol table content: 4 (count) + 4 (entry) + 10 (names) = 18 bytes,
    // so the member record starts at 8 + 60 + 18 = 86.
    assert_eq!(&out[72..76], &[0, 0, 0, 86]);
    assert_eq!(&out[76..86], b"my_symbol\0");
    assert_eq!(&out[86..91], b"one.o");
}

#[test]
fn unparseable_payload_yields_no_symbols() {
    let members = vec![member("junk.o", vec![1, 2, 3, 4, 5, 6])];
    let out = write_archive_to_stream(&members, true, ArchiveKind::Gnu, true, false).unwrap();
    // No payload parsed as an object, so the GNU archive has no symbol
    // table member at all: the member header follows the magic directly.
    assert_eq!(&out[8..15], b"junk.o/");
}

#[test]
fn headers_read_back_names_and_sizes() {
    let members = vec![
        member("first.o", vec![5u8; 17]),
        member("second.o", vec![6u8; 3]),
        member("third.o", vec![7u8; 2]),
    ];
    let out = write_archive_to_stream(&members, false, ArchiveKind::Gnu, true, false).unwrap();
    // Walk the records and reparse each header's name and size fields.
    let mut pos = 8;
    let mut seen: Vec<(String, u64)> = Vec::new();
    while pos < out.len() {
        let header = &out[pos..pos + 60];
        let name_field = std::str::from_utf8(&header[0..16]).unwrap();
        let name = name_field.split('/').next().unwrap().to_string();
        let size_field = std::str::from_utf8(&header[48..58]).unwrap();
        let size: u64 = size_field.trim_end().parse().unwrap();
        seen.push((name, size));
        let padded = size + size % 2;
        pos += 60 + padded as usize;
    }
    let expected = vec![
        ("first.o".to_string(), 17u64),
        ("second.o".to_string(), 3u64),
        ("third.o".to_string(), 2u64),
    ];
    assert_eq!(seen, expected);
}

#[test]
fn uid_gid_truncated_to_six_digits() {
    let members = vec![NewArchiveMember::with_metadata(
        b"m.o".to_vec(),
        vec![0u8; 2],
        3,
        123456789,
        99000001,
        0o644,
    )];
    let out = write_archive_to_stream(&members, false, ArchiveKind::Gnu, true, false).unwrap();
    let header = &out[8..68];
    assert_eq!(&header[0..16], b"m.o/            ");
    assert_eq!(&header[16..28], b"3           ");
    assert_eq!(&header[28..34], b"456789");
    assert_eq!(&header[34..40], b"1     ");
    assert_eq!(&header[40..48], b"644     ");
    assert_eq!(&header[48..58], b"2         ");
    assert_eq!(&header[58..60], b"`\n");
}

#[test]
fn bsd_record_length_is_even() {
    let members = vec![member("ab.o", vec![9u8; 3])];
    let out = write_archive_to_stream(&members, false, ArchiveKind::Bsd, true, false).unwrap();
    // Header 60 + 4 name + 0 pad, payload 3, one newline of tail padding.
    assert_eq!(out.len(), 8 + 64 + 3 + 1);
    assert_eq!((out.len() - 8) % 2, 0);
    assert_eq!(&out[56..58], b"7 ");
    assert_eq!(out[out.len() - 1], b'\n');
}

#[test]
fn gnu64_symbol_table_uses_eight_byte_fields() {
    let mut obj = Object::new(BinaryFormat::Elf, Architecture::X86_64, Endianness::Little);
    let text = obj.add_section(Vec::new(), b".text".to_vec(), object::SectionKind::Text);
    obj.append_section_data(text, &[0xC3], 1);
    obj.add_symbol(Symbol {
        name: b"my_symbol".to_vec(),
        value: 0,
        size: 1,
        kind: SymbolKind::Text,
        scope: SymbolScope::Linkage,
        weak: false,
        section: SymbolSection::Section(text),
        flags: SymbolFlags::None,
    });
    let payload = obj.write().unwrap();

    let members = vec![member("one.o", payload)];
    let out = write_archive_to_stream(&members, true, ArchiveKind::Gnu64, true, false).unwrap();
    assert_eq!(&out[8..16], b"/SYM64/ ");
    // Count and entry are eight-byte big-endian words; the content is
    // 8 + 8 + 10 = 26 bytes, so the member record starts at 8 + 60 + 26.
    assert_eq!(&out[68..76], &[0, 0, 0, 0, 0, 0, 0, 1]);
    assert_eq!(&out[76..84], &[0, 0, 0, 0, 0, 0, 0, 94]);
    assert_eq!(&out[84..94], b"my_symbol\0");
    assert_eq!(&out[94..100], b"one.o/");
}
