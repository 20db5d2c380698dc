use zest::pkzip::{
    read_le_u16, read_le_u32, read_le_u64, CompressionMethod, Error, ErrorKind, ZipArchive,
    ZipCentralDirectoryFile, ZipEndOfCentralDirectory,
};

fn push16(v: &mut Vec<u8>, x: u16) {
    v.extend_from_slice(&x.to_le_bytes());
}

fn push32(v: &mut Vec<u8>, x: u32) {
    v.extend_from_slice(&x.to_le_bytes());
}

fn cd_record(name: &[u8], extra: &[u8], comment: &[u8], method: u16) -> Vec<u8> {
    let mut v = Vec::new();
    push32(&mut v, 0x02014b50);
    push16(&mut v, 20);
    push16(&mut v, 10);
    push16(&mut v, 0);
    push16(&mut v, method);
    push16(&mut v, 0x1234);
    push16(&mut v, 0x5678);
    push32(&mut v, 0xdeadbeef);
    push32(&mut v, 7);
    push32(&mut v, 9);
    push16(&mut v, name.len() as u16);
    push16(&mut v, extra.len() as u16);
    push16(&mut v, comment.len() as u16);
    push16(&mut v, 0);
    push16(&mut v, 1);
    push32(&mut v, 0x81a40000);
    push32(&mut v, 0x40);
    v.extend_from_slice(name);
    v.extend_from_slice(extra);
    v.extend_from_slice(comment);
    v
}

fn eocd_record(num_entries: u16, cd_len: u32, cd_offset: u32, comment: &[u8]) -> Vec<u8> {
    let mut v = Vec::new();
    push32(&mut v, 0x06054b50);
    push16(&mut v, 0);
    push16(&mut v, 0);
    push16(&mut v, num_entries);
    push16(&mut v, num_entries);
    push32(&mut v, cd_len);
    push32(&mut v, cd_offset);
    push16(&mut v, comment.len() as u16);
    v.extend_from_slice(comment);
    v
}

/// An archive with some payload bytes, then a central directory of `records`, then the
/// end-of-central-directory record.
fn archive_bytes(records: &[Vec<u8>], comment: &[u8]) -> Vec<u8> {
    let mut v = vec![0xAAu8; 64];
    let offset = v.len() as u32;
    let mut cd = Vec::new();
    for r in records {
        cd.extend_from_slice(r);
    }
    v.extend_from_slice(&cd);
    v.extend_from_slice(&eocd_record(records.len() as u16, cd.len() as u32, offset, comment));
    v
}

fn kind_of(r: Result<ZipArchive, Error>) -> ErrorKind {
    match r {
        Ok(_) => panic!("expected a failure"),
        Err(e) => e.kind().clone(),
    }
}

fn names(a: &ZipArchive) -> Vec<String> {
    a.files().iter().map(|f| f.filename().clone()).collect()
}

#[test]
fn le_integers_are_read_and_consumed() {
    let bytes: [u8; 10] = [0x34, 0x12, 0x78, 0x56, 0x34, 0x12, 1, 0, 0, 0];
    let mut s: &[u8] = &bytes;
    assert_eq!(read_le_u16(&mut s), 0x1234);
    assert_eq!(s.len(), 8);
    assert_eq!(read_le_u32(&mut s), 0x12345678);
    assert_eq!(s, &[1, 0, 0, 0]);
    let eight: [u8; 9] = [8, 7, 6, 5, 4, 3, 2, 1, 0xff];
    let mut t: &[u8] = &eight;
    assert_eq!(read_le_u64(&mut t), 0x0102030405060708);
    assert_eq!(t, &[0xff]);
}

#[test]
fn open_lists_every_entry_in_order() {
    let records = vec![
        cd_record(b"a.txt", b"", b"", 0),
        cd_record(b"dir/b.bin", b"\x01\x02\x03", b"second", 8),
        cd_record(b"c", b"", b"", 99),
    ];
    let a = ZipArchive::new(archive_bytes(&records, b"")).unwrap();
    assert_eq!(a.files().len(), 3);
    assert_eq!(names(&a), vec!["a.txt", "dir/b.bin", "c"]);
    assert_eq!(a.index_of(&"a.txt".to_string()), Some(0));
    assert_eq!(a.index_of(&"dir/b.bin".to_string()), Some(1));
    assert_eq!(a.index_of(&"c".to_string()), Some(2));
    assert_eq!(a.index_of(&"A.TXT".to_string()), None);
    assert_eq!(a.index_of(&"./a.txt".to_string()), None);
    let b = &a.files()[1];
    assert_eq!(b.extra, vec![1, 2, 3]);
    assert_eq!(b.comment, "second");
    assert_eq!(b.header.compression_method, CompressionMethod::Deflate);
    assert_eq!(b.header.made_by_ver, 20);
    assert_eq!(b.header.min_extract_ver, 10);
    assert_eq!(b.header.last_mod_time, 0x1234);
    assert_eq!(b.header.last_mod_date, 0x5678);
    assert_eq!(b.header.crc32, 0xdeadbeef);
    assert_eq!(b.header.compressed_len, 7);
    assert_eq!(b.header.uncompressed_len, 9);
    assert_eq!(b.header.file_name_len, 9);
    assert_eq!(b.header.extra_field_len, 3);
    assert_eq!(b.header.comment_len, 6);
    assert_eq!(b.header.internal_attrib, 1);
    assert_eq!(b.header.external_attrib, 0x81a40000);
    assert_eq!(b.header.relative_offset_of_local_header, 0x40);
}

#[test]
fn open_with_no_entries() {
    let a = ZipArchive::new(archive_bytes(&[], b"")).unwrap();
    assert!(a.files().is_empty());
    assert_eq!(a.index_of(&"a.txt".to_string()), None);
}

#[test]
fn short_stream_is_protocol_violation() {
    assert_eq!(kind_of(ZipArchive::new(vec![])), ErrorKind::Other);
    let mut eocd = eocd_record(0, 0, 0, b"");
    eocd.pop();
    assert_eq!(eocd.len(), 21);
    assert_eq!(kind_of(ZipArchive::new(eocd)), ErrorKind::Other);
}

#[test]
fn missing_signature_is_protocol_violation() {
    assert_eq!(kind_of(ZipArchive::new(vec![0u8; 30])), ErrorKind::Other);
    let mut v = vec![0x50u8, 0x4b, 0x05, 0x07];
    v.extend_from_slice(&[0u8; 40]);
    assert_eq!(kind_of(ZipArchive::new(v)), ErrorKind::Other);
}

#[test]
fn record_outside_trailing_window_is_not_found() {
    let mut v = eocd_record(0, 0, 0, b"");
    v.extend_from_slice(&vec![0u8; 65536]);
    assert_eq!(kind_of(ZipArchive::new(v)), ErrorKind::Other);
    let mut w = vec![0u8; 65536];
    w.extend_from_slice(&eocd_record(0, 0, 0, b""));
    assert!(ZipArchive::new(w).is_ok());
}

#[test]
fn truncated_end_record_is_protocol_violation() {
    let mut v = vec![0u8; 30];
    v.extend_from_slice(&[0x50, 0x4b, 0x05, 0x06, 0, 0, 0, 0]);
    assert_eq!(kind_of(ZipArchive::new(v)), ErrorKind::Other);
    let mut w = eocd_record(0, 0, 0, b"abc");
    w.pop();
    assert_eq!(kind_of(ZipArchive::new(w)), ErrorKind::Other);
}

#[test]
fn bad_central_signature_stops_open() {
    let mut bad = cd_record(b"b.txt", b"", b"", 0);
    bad[0] = 0x51;
    let records = vec![cd_record(b"a.txt", b"", b"", 0), bad, cd_record(b"c.txt", b"", b"", 0)];
    assert_eq!(kind_of(ZipArchive::new(archive_bytes(&records, b""))), ErrorKind::Other);
}

#[test]
fn bad_central_signature_is_refused_by_decoder() {
    let mut bad = cd_record(b"b.txt", b"", b"", 0);
    bad[3] = 0x03;
    let mut pos: usize = 0;
    let r = ZipCentralDirectoryFile::find(&bad, &mut pos);
    assert_eq!(*r.unwrap_err().kind(), ErrorKind::Other);
    assert_eq!(pos, 0);
}

#[test]
fn truncated_central_directory_is_io_failure() {
    let rec = cd_record(b"a.txt", b"", b"", 0);
    let mut pos: usize = 0;
    let r = ZipCentralDirectoryFile::find(&rec[..40], &mut pos);
    assert!(matches!(r.unwrap_err().kind(), ErrorKind::IO(std::io::ErrorKind::UnexpectedEof)));
    let r = ZipCentralDirectoryFile::find(&rec[..49], &mut pos);
    assert!(matches!(r.unwrap_err().kind(), ErrorKind::IO(std::io::ErrorKind::UnexpectedEof)));
    let mut v = vec![0u8; 10];
    v.extend_from_slice(&eocd_record(1, 46, 1000, b""));
    assert!(matches!(kind_of(ZipArchive::new(v)), ErrorKind::IO(_)));
}

#[test]
fn comment_length_is_consumed_exactly() {
    let rec = cd_record(b"n.txt", b"xy", b"hello", 0);
    let mut data = rec.clone();
    data.extend_from_slice(b"TRAILING");
    let mut pos: usize = 0;
    let f = ZipCentralDirectoryFile::find(&data, &mut pos).unwrap();
    assert_eq!(pos, 46 + 5 + 2 + 5);
    assert_eq!(f.filename(), "n.txt");
    assert_eq!(f.extra, b"xy".to_vec());
    assert_eq!(f.comment, "hello");

    let empty = cd_record(b"", b"", b"", 0);
    let mut pos: usize = 0;
    let f = ZipCentralDirectoryFile::find(&empty, &mut pos).unwrap();
    assert_eq!(pos, 46);
    assert_eq!(f.filename(), "");
    assert_eq!(f.comment, "");
    assert!(f.extra.is_empty());

    let e = ZipEndOfCentralDirectory::find(&eocd_record(0, 0, 0, b"archive note")).unwrap();
    assert_eq!(e.header.comment_len, 12);
    assert_eq!(e.comment, "archive note");
}

#[test]
fn decoder_starts_at_given_position() {
    let mut data = vec![0xEEu8; 5];
    data.extend_from_slice(&cd_record(b"one", b"", b"", 0));
    data.extend_from_slice(&cd_record(b"two", b"", b"", 8));
    let mut pos: usize = 5;
    let f = ZipCentralDirectoryFile::find(&data, &mut pos).unwrap();
    assert_eq!(f.filename(), "one");
    assert_eq!(pos, 5 + 49);
    let g = ZipCentralDirectoryFile::find(&data, &mut pos).unwrap();
    assert_eq!(g.filename(), "two");
    assert_eq!(pos, data.len());
}

#[test]
fn invalid_text_is_decoding_failure() {
    let records = vec![cd_record(b"ok", b"", b"", 0), cd_record(b"\xff\xfe", b"", b"", 0)];
    assert_eq!(kind_of(ZipArchive::new(archive_bytes(&records, b""))), ErrorKind::FromUtf8Error);
    let records = vec![cd_record(b"ok", b"\xff", b"\xc3\x28", 0)];
    assert_eq!(kind_of(ZipArchive::new(archive_bytes(&records, b""))), ErrorKind::FromUtf8Error);
    let r = ZipEndOfCentralDirectory::find(&eocd_record(0, 0, 0, b"\x80abc"));
    assert_eq!(*r.unwrap_err().kind(), ErrorKind::FromUtf8Error);
}

#[test]
fn extra_data_is_not_decoded() {
    let records = vec![cd_record("é.txt".as_bytes(), b"\xff\xff", "ünïcode".as_bytes(), 0)];
    let a = ZipArchive::new(archive_bytes(&records, b"")).unwrap();
    assert_eq!(a.files()[0].filename(), "é.txt");
    assert_eq!(a.files()[0].extra, vec![0xff, 0xff]);
    assert_eq!(a.files()[0].comment, "ünïcode");
}

#[test]
fn duplicate_names_resolve_to_last() {
    let list = ["x0", "x1", "a.txt", "x3", "x4", "a.txt"];
    let records: Vec<Vec<u8>> = list
        .iter()
        .enumerate()
        .map(|(i, n)| cd_record(n.as_bytes(), &[i as u8], b"", 0))
        .collect();
    let a = ZipArchive::new(archive_bytes(&records, b"")).unwrap();
    assert_eq!(a.files().len(), 6);
    assert_eq!(a.index_of(&"a.txt".to_string()), Some(5));
    assert_eq!(a.files()[2].filename(), "a.txt");
    assert_eq!(a.files()[2].extra, vec![2]);
    assert_eq!(a.files()[5].filename(), "a.txt");
    assert_eq!(a.files()[5].extra, vec![5]);
    assert_eq!(a.index_of(&"x3".to_string()), Some(3));
}

#[test]
fn minimal_end_record_scenario() {
    let buf: Vec<u8> = vec![
        0x50, 0x4B, 0x05, 0x06, 0x00, 0x00, 0x00, 0x00, 0x01, 0x00, 0x01, 0x00, 0x2A, 0x00, 0x00,
        0x00, 0x64, 0x00, 0x00, 0x00, 0x00, 0x00,
    ];
    let e = ZipEndOfCentralDirectory::find(&buf).unwrap();
    assert_eq!(e.header.signature, 0x06054b50);
    assert_eq!(e.header.num_entries, 1);
    assert_eq!(e.header.num_disk_entries, 1);
    assert_eq!(e.header.central_dir_len, 0x2A);
    assert_eq!(e.header.central_dir_offset, 100);
    assert_eq!(e.header.comment_len, 0);
    assert_eq!(e.comment, "");
}

#[test]
fn compression_method_codes() {
    let mut pos: usize = 0;
    let f = ZipCentralDirectoryFile::find(&cd_record(b"d", b"", b"", 8), &mut pos).unwrap();
    assert_eq!(f.header.compression_method, CompressionMethod::Deflate);
    let mut pos: usize = 0;
    let f = ZipCentralDirectoryFile::find(&cd_record(b"u", b"", b"", 99), &mut pos).unwrap();
    assert_eq!(f.header.compression_method, CompressionMethod::Unsupported(99));
    let mut pos: usize = 0;
    let f = ZipCentralDirectoryFile::find(&cd_record(b"s", b"", b"", 0), &mut pos).unwrap();
    assert_eq!(f.header.compression_method, CompressionMethod::Uncompressed);
    assert_eq!(CompressionMethod::from(8u16), CompressionMethod::Deflate);
    assert_eq!(CompressionMethod::from(1u16), CompressionMethod::Unsupported(1));
}

/// Known limitation: the backward scan takes the signature nearest to the end, even one that
/// stands inside the comment of the true record.
#[test]
fn signature_inside_comment_wins_the_scan() {
    let mut comment = b"zz".to_vec();
    comment.extend_from_slice(&eocd_record(0, 0, 0, b""));
    let records = vec![cd_record(b"a.txt", b"", b"", 0)];
    let a = ZipArchive::new(archive_bytes(&records, &comment)).unwrap();
    assert!(a.files().is_empty());
}

#[test]
fn error_carries_its_kind() {
    let e = Error::new(ErrorKind::IO(std::io::ErrorKind::NotFound));
    assert_eq!(*e.kind(), ErrorKind::IO(std::io::ErrorKind::NotFound));
    assert_eq!(*Error::new(ErrorKind::Other).kind(), ErrorKind::Other);
}
