use archive_writer::align::offset_to_alignment;
use archive_writer::bytefmt::print_n_bits;
use archive_writer::header::{
    print_bsd_member_header, print_gnu_small_member_header, print_rest_of_member_header,
};
use archive_writer::kind::{ArchiveKind, is_64bit_kind, is_bsd_like, is_darwin, use_string_table};
use archive_writer::strtab::compute_string_table;
use archive_writer::symtab::{compute_symbol_table_size_and_pad, now, write_symbol_table_header};

#[test]
fn alignment_padding() {
    assert_eq!(offset_to_alignment(0, 8), 0);
    assert_eq!(offset_to_alignment(1, 8), 7);
    assert_eq!(offset_to_alignment(71, 8), 1);
    assert_eq!(offset_to_alignment(16, 8), 0);
    assert_eq!(offset_to_alignment(5, 2), 1);
    assert_eq!(offset_to_alignment(6, 2), 0);
}

#[test]
fn kind_predicates() {
    assert!(is_darwin(ArchiveKind::Darwin));
    assert!(is_darwin(ArchiveKind::Darwin64));
    assert!(!is_darwin(ArchiveKind::Bsd));
    assert!(!is_darwin(ArchiveKind::Gnu));

    assert!(!is_bsd_like(ArchiveKind::Gnu));
    assert!(!is_bsd_like(ArchiveKind::Gnu64));
    assert!(is_bsd_like(ArchiveKind::Bsd));
    assert!(is_bsd_like(ArchiveKind::Darwin));
    assert!(is_bsd_like(ArchiveKind::Darwin64));

    assert!(is_64bit_kind(ArchiveKind::Gnu64));
    assert!(is_64bit_kind(ArchiveKind::Darwin64));
    assert!(!is_64bit_kind(ArchiveKind::Gnu));
    assert!(!is_64bit_kind(ArchiveKind::Bsd));
    assert!(!is_64bit_kind(ArchiveKind::Coff));
}

#[test]
fn string_table_routing() {
    assert!(!use_string_table(false, &b"short.o".to_vec()));
    assert!(use_string_table(true, &b"short.o".to_vec()));
    assert!(use_string_table(false, &b"exactly16bytes.o".to_vec()));
    assert!(use_string_table(false, &b"dir/in.o".to_vec()));
}

#[test]
fn rest_of_header_formatting() {
    let mut out = Vec::new();
    print_rest_of_member_header(&mut out, 123, 7, 8, 0o755, 42);
    assert_eq!(
        out,
        format!("{:<12}{:<6}{:<6}{:<8o}{:<10}`\n", 123, 7, 8, 0o755, 42).into_bytes()
    );
    assert_eq!(out.len(), 44);
}

#[test]
fn gnu_small_header_formatting() {
    let mut out = Vec::new();
    print_gnu_small_member_header(&mut out, &b"hi.o".to_vec(), 1, 2, 3, 0o644, 9);
    assert_eq!(&out[0..16], b"hi.o/           ");
    assert_eq!(out.len(), 60);
}

#[test]
fn bsd_header_formatting() {
    let mut out = Vec::new();
    // At position 8, a three-byte name needs one NUL of padding for the
    // payload to land on an eight-byte boundary.
    print_bsd_member_header(&mut out, 8, &b"x.o".to_vec(), 0, 0, 0, 0, 5);
    assert_eq!(&out[0..16], b"#1/4            ");
    assert_eq!(out.len(), 64);
    assert_eq!(&out[60..64], b"x.o\0");
}

#[test]
fn n_bits_endianness() {
    let mut out = Vec::new();
    print_n_bits(&mut out, ArchiveKind::Gnu, 0x0102_0304);
    assert_eq!(out, vec![1, 2, 3, 4]);
    let mut out = Vec::new();
    print_n_bits(&mut out, ArchiveKind::Bsd, 0x0102_0304);
    assert_eq!(out, vec![4, 3, 2, 1]);
    let mut out = Vec::new();
    print_n_bits(&mut out, ArchiveKind::Gnu64, 0x0102_0304_0506_0708);
    assert_eq!(out, vec![1, 2, 3, 4, 5, 6, 7, 8]);
    let mut out = Vec::new();
    print_n_bits(&mut out, ArchiveKind::Darwin64, 0x0102_0304_0506_0708);
    assert_eq!(out, vec![8, 7, 6, 5, 4, 3, 2, 1]);
}

#[test]
fn string_table_member_layout() {
    let names = b"averylongmembername.o/\n".to_vec();
    let md = compute_string_table(&names);
    assert_eq!(md.header.len(), 60);
    assert_eq!(&md.header[0..2], b"//");
    assert_eq!(&md.header[58..60], b"`\n");
    // 23 bytes of names round up to 24.
    assert_eq!(&md.header[48..58], b"24        ");
    assert_eq!(md.data, names);
    assert_eq!(md.padding, b"\n".to_vec());
    assert!(md.symbols.is_empty());
}

#[test]
fn symbol_table_sizing() {
    // GNU, 32-bit: count word + two entries + five name bytes, padded even.
    let (size, pad) = compute_symbol_table_size_and_pad(ArchiveKind::Gnu, 2, 4, b"a\0b\0c");
    assert_eq!((size, pad), (18, 1));
    // BSD pairs each entry with a name offset, adds a byte count, and
    // pads to eight bytes.
    let (size, pad) = compute_symbol_table_size_and_pad(ArchiveKind::Bsd, 2, 4, b"a\0b\0c");
    assert_eq!((size, pad), (32, 3));
}

#[test]
fn symbol_table_header_names() {
    let mut out = Vec::new();
    write_symbol_table_header(&mut out, ArchiveKind::Gnu, 0, 10);
    assert_eq!(&out[0..16], b"/               ");
    let mut out = Vec::new();
    write_symbol_table_header(&mut out, ArchiveKind::Gnu64, 0, 10);
    assert_eq!(&out[0..16], b"/SYM64/         ");
    let mut out = Vec::new();
    write_symbol_table_header(&mut out, ArchiveKind::Bsd, 0, 10);
    assert_eq!(&out[3..16], b"12           ");
    assert_eq!(&out[60..69], b"__.SYMDEF");
}

#[test]
fn deterministic_epoch() {
    assert_eq!(now(true), 0);
}
