use vstd::prelude::*;
use vstd::slice::{slice_subrange, slice_to_vec};

verus! {

/// Why opening an archive failed.
#[derive(Debug, Clone)]
pub struct Error {
    kind: ErrorKind,
}

/// The three kinds of failure a caller can tell apart.
#[derive(Debug, Clone, PartialEq, Eq)]
pub enum ErrorKind {
    /// The byte source could not deliver the bytes asked for.
    IO(std::io::ErrorKind),
    /// A filename or comment field is not valid UTF-8.
    FromUtf8Error,
    /// The bytes do not form the records of a ZIP central directory.
    Other,
}

/// std::io::ErrorKind, carried as it is inside I/O failures.
#[verifier::external_type_specification]
#[verifier::external_body]
pub struct ExIoErrorKind(std::io::ErrorKind);

/// Relies on the `Clone` of std::io::ErrorKind, a `Copy` type: the clone is the same category.
pub assume_specification[ <std::io::ErrorKind as Clone>::clone ](k: &std::io::ErrorKind) -> (r:
    std::io::ErrorKind)
    ensures
        r == *k,
;

/// How the payload of an entry is encoded.
#[derive(Debug, Copy, Clone, PartialEq, Eq)]
pub enum CompressionMethod {
    Uncompressed,
    Deflate,
    /// Any other method code, kept as it was read.
    Unsupported(u16),
}

impl View for Error {
    type V = ErrorKind;

    closed spec fn view(&self) -> ErrorKind {
        self.kind
    }
}

impl Error {
    /// A failure of the given kind.
    pub fn new(kind: ErrorKind) -> (r: Error)
        ensures
            r@ == kind,
    {
        Error { kind }
    }

    /// What kind of failure this is.
    pub fn kind(&self) -> (r: &ErrorKind)
        ensures
            *r == self@,
    {
        &self.kind
    }
}

/// The category that std's readers give a read running past the end of its data.
/// Relies on std::io::ErrorKind::UnexpectedEof, which `Read::read_exact` reports there.
#[verifier::external_body]
fn unexpected_eof() -> std::io::ErrorKind {
    std::io::ErrorKind::UnexpectedEof
}

/// What `String::from_utf8` yields on `b`: the text, or `None` where `b` is not UTF-8.
pub uninterp spec fn utf8_text(b: Seq<u8>) -> Option<Seq<char>>;

/// Relies on String::from_utf8: it decodes `b` when `b` is valid UTF-8 and fails otherwise.
#[verifier::external_body]
fn decode_text(b: &[u8]) -> (r: Option<String>)
    ensures
        match r {
            Some(t) => utf8_text(b@) == Some(t@),
            None => utf8_text(b@) is None,
        },
{
    String::from_utf8(b.to_vec()).ok()
}

/// A text field of `b.len()` bytes: empty without decoding when there are no bytes.
pub open spec fn text_of(b: Seq<u8>) -> Option<Seq<char>> {
    if b.len() == 0 {
        Some(Seq::empty())
    } else {
        utf8_text(b)
    }
}

/// Decodes a text field, leaving an empty one undecoded.
fn read_text(b: &[u8]) -> (r: Option<String>)
    ensures
        match r {
            Some(t) => text_of(b@) == Some(t@),
            None => text_of(b@) is None,
        },
{
    if b.len() == 0 {
        Some(String::new())
    } else {
        decode_text(b)
    }
}

/// The value of the little-endian 16-bit field that starts at `i` in `s`.
pub open spec fn le16(s: Seq<u8>, i: int) -> int {
    s[i] + 256 * s[i + 1]
}

/// The value of the little-endian 32-bit field that starts at `i` in `s`.
pub open spec fn le32(s: Seq<u8>, i: int) -> int {
    le16(s, i) + 65536 * le16(s, i + 2)
}

/// The value of the little-endian 64-bit field that starts at `i` in `s`.
pub open spec fn le64(s: Seq<u8>, i: int) -> int {
    le32(s, i) + 4294967296 * le32(s, i + 4)
}

/// Takes a little-endian `u16` off the front of `input`.
pub fn read_le_u16(input: &mut &[u8]) -> (r: u16)
    requires
        old(input)@.len() >= 2,
    ensures
        r as int == le16(old(input)@, 0),
        final(input)@ == old(input)@.subrange(2, old(input)@.len() as int),
{
    let (int_bytes, rest) = input.split_at(2);
    *input = rest;
    int_bytes[0] as u16 + (int_bytes[1] as u16) * 256
}

/// Takes a little-endian `u32` off the front of `input`.
pub fn read_le_u32(input: &mut &[u8]) -> (r: u32)
    requires
        old(input)@.len() >= 4,
    ensures
        r as int == le32(old(input)@, 0),
        final(input)@ == old(input)@.subrange(4, old(input)@.len() as int),
{
    let ghost s = input@;
    let lo = read_le_u16(input);
    let hi = read_le_u16(input);
    assert(le16(s, 2) == le16(s.subrange(2, s.len() as int), 0));
    lo as u32 + (hi as u32) * 65536
}

/// Takes a little-endian `u64` off the front of `input`.
pub fn read_le_u64(input: &mut &[u8]) -> (r: u64)
    requires
        old(input)@.len() >= 8,
    ensures
        r as int == le64(old(input)@, 0),
        final(input)@ == old(input)@.subrange(8, old(input)@.len() as int),
{
    let ghost s = input@;
    let lo = read_le_u32(input);
    let hi = read_le_u32(input);
    let ghost t = s.subrange(4, s.len() as int);
    assert(le16(s, 4) == le16(t, 0));
    assert(le16(s, 6) == le16(t, 2));
    lo as u64 + (hi as u64) * 4294967296
}

/// Size of the fixed part of the end-of-central-directory record.
pub const EOCD_LEN: usize = 22;

/// How far back from the end of the source the end-of-central-directory record is looked for.
pub const EOCD_WINDOW: usize = 65536;

/// The fixed part of the end-of-central-directory record.
#[derive(Debug, Copy, Clone)]
pub struct ZipEndOfCentralDirectoryHeader {
    pub signature: u32,
    pub disk_number: u16,
    pub start_disk: u16,
    pub num_disk_entries: u16,
    pub num_entries: u16,
    pub central_dir_len: u32,
    pub central_dir_offset: u32,
    pub comment_len: u16,
}

/// The end-of-central-directory record: where the central directory lies and how many
/// entries it holds.
#[derive(Debug)]
pub struct ZipEndOfCentralDirectory {
    pub header: ZipEndOfCentralDirectoryHeader,
    pub comment: String,
}

/// The end-of-central-directory signature `50 4B 05 06` starts at `i` in `s`.
pub open spec fn eocd_sig_at(s: Seq<u8>, i: int) -> bool {
    &&& 0 <= i
    &&& i + 4 <= s.len()
    &&& s[i] == 0x50
    &&& s[i + 1] == 0x4b
    &&& s[i + 2] == 0x05
    &&& s[i + 3] == 0x06
}

/// Where the trailing window of a source of `len` bytes starts.
pub open spec fn window_start(len: int) -> int {
    if len > 65536 {
        len - 65536
    } else {
        0
    }
}

/// The last position `i` with `lo <= i < n` at which the signature starts.
pub open spec fn last_sig_below(s: Seq<u8>, lo: int, n: int) -> Option<int>
    decreases n - lo,
{
    if n <= lo {
        None
    } else if eocd_sig_at(s, n - 1) {
        Some(n - 1)
    } else {
        last_sig_below(s, lo, n - 1)
    }
}

/// The signature nearest to the end of the trailing window, if there is one.
pub open spec fn eocd_position(s: Seq<u8>) -> Option<int> {
    last_sig_below(s, window_start(s.len() as int), s.len() - 3)
}

/// The comment of the record at `p`: the `comment_len` bytes after the fixed part.
pub open spec fn eocd_comment_bytes(s: Seq<u8>, p: int) -> Seq<u8> {
    s.subrange(p + 22, p + 22 + le16(s, p + 20))
}

/// The record at `p` and its comment lie within `s`.
pub open spec fn eocd_fits(s: Seq<u8>, p: int) -> bool {
    p + 22 <= s.len() && p + 22 + le16(s, p + 20) <= s.len()
}

/// The end-of-central-directory record of `s` can be located and decoded.
pub open spec fn eocd_ok(s: Seq<u8>) -> bool {
    &&& s.len() >= 22
    &&& eocd_position(s) is Some
    &&& eocd_fits(s, eocd_position(s)->0)
    &&& text_of(eocd_comment_bytes(s, eocd_position(s)->0)) is Some
}

/// `k` is the failure that locating the end-of-central-directory record of `s` ends in.
pub open spec fn eocd_fails_with(s: Seq<u8>, k: ErrorKind) -> bool {
    if s.len() < 22 {
        k is Other
    } else {
        match eocd_position(s) {
            None => k is Other,
            Some(p) => if !eocd_fits(s, p) {
                k is Other
            } else if text_of(eocd_comment_bytes(s, p)) is None {
                k is FromUtf8Error
            } else {
                false
            },
        }
    }
}

/// `h` holds the fixed fields of the record that starts at `p` in `s`.
pub open spec fn eocd_header_at(s: Seq<u8>, p: int, h: ZipEndOfCentralDirectoryHeader) -> bool {
    &&& h.signature == le32(s, p)
    &&& h.disk_number == le16(s, p + 4)
    &&& h.start_disk == le16(s, p + 6)
    &&& h.num_disk_entries == le16(s, p + 8)
    &&& h.num_entries == le16(s, p + 10)
    &&& h.central_dir_len == le32(s, p + 12)
    &&& h.central_dir_offset == le32(s, p + 16)
    &&& h.comment_len == le16(s, p + 20)
}

/// `e` is the end-of-central-directory record of `s`.
pub open spec fn eocd_decoded(s: Seq<u8>, e: ZipEndOfCentralDirectory) -> bool {
    &&& eocd_ok(s)
    &&& eocd_header_at(s, eocd_position(s)->0, e.header)
    &&& Some(e.comment@) == text_of(eocd_comment_bytes(s, eocd_position(s)->0))
}

/// Scans the window `[lo, data.len())` backward for the signature.
fn find_signature(data: &[u8], lo: usize) -> (r: Option<usize>)
    requires
        lo <= data@.len(),
    ensures
        r matches Some(p) ==> last_sig_below(data@, lo as int, data@.len() - 3) == Some(p as int)
            && p + 4 <= data@.len(),
        r is None ==> last_sig_below(data@, lo as int, data@.len() - 3) is None,
{
    if data.len() < 4 {
        return None;
    }
    let mut i: usize = data.len() - 3;
    while i > lo
        invariant
            data@.len() >= 4,
            i <= data@.len() - 3,
            last_sig_below(data@, lo as int, data@.len() - 3) == last_sig_below(data@, lo as int, i as int),
        decreases i,
    {
        let j = i - 1;
        if data[j] == 0x50 && data[j + 1] == 0x4b && data[j + 2] == 0x05 && data[j + 3] == 0x06 {
            return Some(j);
        }
        i = j;
    }
    None
}

impl ZipEndOfCentralDirectory {
    /// Locates and decodes the end-of-central-directory record of an archive whose bytes are
    /// `data`.
    pub fn find(data: &[u8]) -> (r: Result<ZipEndOfCentralDirectory, Error>)
        ensures
            match r {
                Ok(e) => eocd_decoded(data@, e),
                Err(err) => !eocd_ok(data@) && eocd_fails_with(data@, err@),
            },
    {
        let fsize = data.len();
        if fsize < EOCD_LEN {
            return Err(Error { kind: ErrorKind::Other });
        }
        let nbytes = if fsize < EOCD_WINDOW {
            fsize
        } else {
            EOCD_WINDOW
        };
        let p = match find_signature(data, fsize - nbytes) {
            Some(p) => p,
            None => {
                return Err(Error { kind: ErrorKind::Other });
            },
        };
        if fsize - p < EOCD_LEN {
            return Err(Error { kind: ErrorKind::Other });
        }
        let ghost s = data@;
        let mut bytes = slice_subrange(data, p, p + EOCD_LEN);
        let ghost b = bytes@;
        let signature = read_le_u32(&mut bytes);
        let disk_number = read_le_u16(&mut bytes);
        let start_disk = read_le_u16(&mut bytes);
        let num_disk_entries = read_le_u16(&mut bytes);
        let num_entries = read_le_u16(&mut bytes);
        let central_dir_len = read_le_u32(&mut bytes);
        let central_dir_offset = read_le_u32(&mut bytes);
        let comment_len = read_le_u16(&mut bytes);
        let header = ZipEndOfCentralDirectoryHeader {
            signature,
            disk_number,
            start_disk,
            num_disk_entries,
            num_entries,
            central_dir_len,
            central_dir_offset,
            comment_len,
        };
        assert(eocd_header_at(s, p as int, header));
        let start = p + EOCD_LEN;
        if fsize - start < comment_len as usize {
            return Err(Error { kind: ErrorKind::Other });
        }
        let comment = match read_text(slice_subrange(data, start, start + comment_len as usize)) {
            Some(t) => t,
            None => {
                return Err(Error { kind: ErrorKind::FromUtf8Error });
            },
        };
        Ok(ZipEndOfCentralDirectory { header, comment })
    }
}

/// Signature of a local file header.
pub const LOCAL_FILE_HEADER_SIGNATURE: u32 = 0x04034b50;

/// The fixed part of the local file header that stands before each entry's data. The
/// directory is read without it.
#[derive(Debug, Copy, Clone)]
pub struct ZipLocalFileHeader {
    pub signature: u32,
    pub min_extract_ver: u16,
    pub general_purpose_flag: u16,
    pub compression_method: CompressionMethod,
    pub last_mod_time: u16,
    pub last_mod_date: u16,
    pub crc32: u32,
    pub compressed_len: u32,
    pub uncompressed_len: u32,
    pub file_name_len: u16,
    pub extra_field_len: u16,
}

/// An archived file as its local file header describes it.
#[derive(Debug)]
pub struct ZipFile {
    pub header: ZipLocalFileHeader,
}

/// Size of the fixed part of a central directory record.
pub const CDF_HEADER_LEN: usize = 46;

/// Signature of a central directory record.
pub const CENTRAL_DIRECTORY_SIGNATURE: u32 = 0x02014b50;

/// The compression method that a method code stands for.
pub open spec fn method_of(code: u16) -> CompressionMethod {
    if code == 0 {
        CompressionMethod::Uncompressed
    } else if code == 8 {
        CompressionMethod::Deflate
    } else {
        CompressionMethod::Unsupported(code)
    }
}

impl From<u16> for CompressionMethod {
    fn from(n: u16) -> (r: CompressionMethod)
        ensures
            r == method_of(n),
    {
        match n {
            0 => CompressionMethod::Uncompressed,
            8 => CompressionMethod::Deflate,
            _ => CompressionMethod::Unsupported(n),
        }
    }
}

impl vstd::std_specs::convert::FromSpecImpl<u16> for CompressionMethod {
    open spec fn obeys_from_spec() -> bool {
        true
    }

    open spec fn from_spec(v: u16) -> CompressionMethod {
        method_of(v)
    }
}

/// The fixed part of a central directory record.
#[derive(Debug, Copy, Clone)]
pub struct ZipCentralDirectoryFileHeader {
    pub signature: u32,
    pub made_by_ver: u16,
    pub min_extract_ver: u16,
    pub general_purpose_flag: u16,
    pub compression_method: CompressionMethod,
    pub last_mod_time: u16,
    pub last_mod_date: u16,
    pub crc32: u32,
    pub compressed_len: u32,
    pub uncompressed_len: u32,
    pub file_name_len: u16,
    pub extra_field_len: u16,
    pub comment_len: u16,
    pub start_disk: u16,
    pub internal_attrib: u16,
    pub external_attrib: u32,
    pub relative_offset_of_local_header: u32,
}

/// One entry of the central directory: the metadata of one archived file.
#[derive(Debug)]
pub struct ZipCentralDirectoryFile {
    pub header: ZipCentralDirectoryFileHeader,
    pub filename: String,
    pub extra: Vec<u8>,
    pub comment: String,
}

/// Length of the filename of the record at `p`.
pub open spec fn cdf_name_len(s: Seq<u8>, p: int) -> int {
    le16(s, p + 28)
}

/// Length of the extra data of the record at `p`.
pub open spec fn cdf_extra_len(s: Seq<u8>, p: int) -> int {
    le16(s, p + 30)
}

/// Length of the comment of the record at `p`.
pub open spec fn cdf_comment_len(s: Seq<u8>, p: int) -> int {
    le16(s, p + 32)
}

/// Where the record at `p` ends: past its fixed part, filename, extra data and comment.
pub open spec fn cdf_end(s: Seq<u8>, p: int) -> int {
    p + 46 + cdf_name_len(s, p) + cdf_extra_len(s, p) + cdf_comment_len(s, p)
}

/// The filename bytes of the record at `p`.
pub open spec fn cdf_name_bytes(s: Seq<u8>, p: int) -> Seq<u8> {
    s.subrange(p + 46, p + 46 + cdf_name_len(s, p))
}

/// The extra data of the record at `p`, kept as it is.
pub open spec fn cdf_extra_bytes(s: Seq<u8>, p: int) -> Seq<u8> {
    s.subrange(p + 46 + cdf_name_len(s, p), p + 46 + cdf_name_len(s, p) + cdf_extra_len(s, p))
}

/// The comment bytes of the record at `p`.
pub open spec fn cdf_comment_bytes(s: Seq<u8>, p: int) -> Seq<u8> {
    s.subrange(p + 46 + cdf_name_len(s, p) + cdf_extra_len(s, p), cdf_end(s, p))
}

/// The central directory record at `p` in `s` can be decoded.
pub open spec fn cdf_ok(s: Seq<u8>, p: int) -> bool {
    &&& 0 <= p
    &&& p + 46 <= s.len()
    &&& le32(s, p) == 0x02014b50
    &&& cdf_end(s, p) <= s.len()
    &&& text_of(cdf_name_bytes(s, p)) is Some
    &&& text_of(cdf_comment_bytes(s, p)) is Some
}

/// `k` is the failure that decoding the central directory record at `p` in `s` ends in.
pub open spec fn cdf_fails_with(s: Seq<u8>, p: int, k: ErrorKind) -> bool {
    if p + 46 > s.len() {
        k is IO
    } else if le32(s, p) != 0x02014b50 {
        k is Other
    } else if cdf_end(s, p) > s.len() {
        k is IO
    } else if text_of(cdf_name_bytes(s, p)) is None {
        k is FromUtf8Error
    } else if text_of(cdf_comment_bytes(s, p)) is None {
        k is FromUtf8Error
    } else {
        false
    }
}

/// `h` holds the fixed fields of the record that starts at `p` in `s`.
pub open spec fn cdf_header_at(s: Seq<u8>, p: int, h: ZipCentralDirectoryFileHeader) -> bool {
    &&& h.signature == le32(s, p)
    &&& h.made_by_ver == le16(s, p + 4)
    &&& h.min_extract_ver == le16(s, p + 6)
    &&& h.general_purpose_flag == le16(s, p + 8)
    &&& h.compression_method == method_of(le16(s, p + 10) as u16)
    &&& h.last_mod_time == le16(s, p + 12)
    &&& h.last_mod_date == le16(s, p + 14)
    &&& h.crc32 == le32(s, p + 16)
    &&& h.compressed_len == le32(s, p + 20)
    &&& h.uncompressed_len == le32(s, p + 24)
    &&& h.file_name_len == le16(s, p + 28)
    &&& h.extra_field_len == le16(s, p + 30)
    &&& h.comment_len == le16(s, p + 32)
    &&& h.start_disk == le16(s, p + 34)
    &&& h.internal_attrib == le16(s, p + 36)
    &&& h.external_attrib == le32(s, p + 38)
    &&& h.relative_offset_of_local_header == le32(s, p + 42)
}

/// `f` is the entry that the central directory record at `p` in `s` decodes to.
pub open spec fn cdf_decoded(s: Seq<u8>, p: int, f: ZipCentralDirectoryFile) -> bool {
    &&& cdf_ok(s, p)
    &&& cdf_header_at(s, p, f.header)
    &&& Some(f.filename@) == text_of(cdf_name_bytes(s, p))
    &&& f.extra@ == cdf_extra_bytes(s, p)
    &&& Some(f.comment@) == text_of(cdf_comment_bytes(s, p))
}

impl ZipCentralDirectoryFile {
    /// Decodes the central directory record that starts at `*pos` in `data` and moves `*pos`
    /// past it.
    pub fn find(data: &[u8], pos: &mut usize) -> (r: Result<ZipCentralDirectoryFile, Error>)
        ensures
            match r {
                Ok(f) => cdf_decoded(data@, *old(pos) as int, f) && *final(pos) == cdf_end(
                    data@,
                    *old(pos) as int,
                ),
                Err(e) => !cdf_ok(data@, *old(pos) as int) && cdf_fails_with(
                    data@,
                    *old(pos) as int,
                    e@,
                ) && *final(pos) == *old(pos),
            },
    {
        let p = *pos;
        if p > data.len() || data.len() - p < CDF_HEADER_LEN {
            return Err(Error { kind: ErrorKind::IO(unexpected_eof()) });
        }
        let ghost s = data@;
        let mut bytes = slice_subrange(data, p, p + CDF_HEADER_LEN);
        let signature = read_le_u32(&mut bytes);
        if signature != CENTRAL_DIRECTORY_SIGNATURE {
            return Err(Error { kind: ErrorKind::Other });
        }
        let made_by_ver = read_le_u16(&mut bytes);
        let min_extract_ver = read_le_u16(&mut bytes);
        let general_purpose_flag = read_le_u16(&mut bytes);
        let compression_method = read_le_u16(&mut bytes);
        let last_mod_time = read_le_u16(&mut bytes);
        let last_mod_date = read_le_u16(&mut bytes);
        let crc32 = read_le_u32(&mut bytes);
        let compressed_len = read_le_u32(&mut bytes);
        let uncompressed_len = read_le_u32(&mut bytes);
        let file_name_len = read_le_u16(&mut bytes);
        let extra_field_len = read_le_u16(&mut bytes);
        let comment_len = read_le_u16(&mut bytes);
        let start_disk = read_le_u16(&mut bytes);
        let internal_attrib = read_le_u16(&mut bytes);
        let external_attrib = read_le_u32(&mut bytes);
        let relative_offset_of_local_header = read_le_u32(&mut bytes);
        let header = ZipCentralDirectoryFileHeader {
            signature,
            made_by_ver,
            min_extract_ver,
            general_purpose_flag,
            compression_method: CompressionMethod::from(compression_method),
            last_mod_time,
            last_mod_date,
            crc32,
            compressed_len,
            uncompressed_len,
            file_name_len,
            extra_field_len,
            comment_len,
            start_disk,
            internal_attrib,
            external_attrib,
            relative_offset_of_local_header,
        };
        assert(cdf_header_at(s, p as int, header));
        let start = p + CDF_HEADER_LEN;
        let var_len = file_name_len as usize + extra_field_len as usize + comment_len as usize;
        if data.len() - start < var_len {
            return Err(Error { kind: ErrorKind::IO(unexpected_eof()) });
        }
        let name_end = start + file_name_len as usize;
        let extra_end = name_end + extra_field_len as usize;
        let end = start + var_len;
        let filename = match read_text(slice_subrange(data, start, name_end)) {
            Some(t) => t,
            None => {
                return Err(Error { kind: ErrorKind::FromUtf8Error });
            },
        };
        let extra = slice_to_vec(slice_subrange(data, name_end, extra_end));
        let comment = match read_text(slice_subrange(data, extra_end, end)) {
            Some(t) => t,
            None => {
                return Err(Error { kind: ErrorKind::FromUtf8Error });
            },
        };
        *pos = end;
        Ok(ZipCentralDirectoryFile { header, filename, extra, comment })
    }

    /// The entry's filename.
    pub fn filename(&self) -> (r: &String)
        ensures
            *r == self.filename,
    {
        &self.filename
    }
}

/// An opened ZIP archive: its bytes, its end-of-central-directory record and its entries.
#[derive(Debug)]
pub struct ZipArchive {
    data: Vec<u8>,
    eocd: ZipEndOfCentralDirectory,
    files: Vec<ZipCentralDirectoryFile>,
}

/// Entry count of the end-of-central-directory record of `s`.
pub open spec fn num_entries(s: Seq<u8>) -> int {
    le16(s, eocd_position(s)->0 + 10)
}

/// Offset of the central directory, as the end-of-central-directory record of `s` gives it.
pub open spec fn central_dir_offset(s: Seq<u8>) -> int {
    le32(s, eocd_position(s)->0 + 16)
}

/// Where the `k`-th record of a central directory that starts at `start` begins.
pub open spec fn entry_pos(s: Seq<u8>, start: int, k: int) -> int
    decreases k,
{
    if k <= 0 {
        start
    } else {
        cdf_end(s, entry_pos(s, start, k - 1))
    }
}

/// The first `n` records of the central directory that starts at `start` decode.
pub open spec fn entries_ok(s: Seq<u8>, start: int, n: int) -> bool {
    forall|k: int| 0 <= k < n ==> cdf_ok(s, #[trigger] entry_pos(s, start, k))
}

/// `s` is a ZIP archive whose directory can be read whole.
pub open spec fn archive_ok(s: Seq<u8>) -> bool {
    eocd_ok(s) && entries_ok(s, central_dir_offset(s), num_entries(s))
}

/// `k` is the failure that opening the archive `s` ends in: that of the record locator, or
/// that of the first central directory record that does not decode.
pub open spec fn archive_fails_with(s: Seq<u8>, k: ErrorKind) -> bool {
    if !eocd_ok(s) {
        eocd_fails_with(s, k)
    } else {
        exists|j: int|
            0 <= j < num_entries(s) && #[trigger] entries_ok(s, central_dir_offset(s), j)
                && cdf_fails_with(s, entry_pos(s, central_dir_offset(s), j), k)
    }
}

/// `eocd` and `files` are what the directory of the archive `s` decodes to.
pub open spec fn archive_decoded(
    s: Seq<u8>,
    eocd: ZipEndOfCentralDirectory,
    files: Seq<ZipCentralDirectoryFile>,
) -> bool {
    &&& archive_ok(s)
    &&& eocd_decoded(s, eocd)
    &&& files.len() == num_entries(s)
    &&& forall|k: int|
        0 <= k < files.len() ==> cdf_decoded(
            s,
            #[trigger] entry_pos(s, central_dir_offset(s), k),
            files[k],
        )
}

/// The last index below `n` whose entry is named `name`.
pub open spec fn last_named(files: Seq<ZipCentralDirectoryFile>, name: Seq<char>, n: int) -> Option<
    int,
>
    decreases n,
{
    if n <= 0 {
        None
    } else if files[n - 1].filename@ == name {
        Some(n - 1)
    } else {
        last_named(files, name, n - 1)
    }
}

/// The name table: the index that a filename resolves to, the last entry of that name winning.
pub open spec fn name_index(files: Seq<ZipCentralDirectoryFile>, name: Seq<char>) -> Option<int> {
    last_named(files, name, files.len() as int)
}

impl ZipArchive {
    /// The bytes of the archive.
    pub closed spec fn spec_source(&self) -> Seq<u8> {
        self.data@
    }

    /// The end-of-central-directory record of the archive.
    pub closed spec fn spec_eocd(&self) -> ZipEndOfCentralDirectory {
        self.eocd
    }

    /// The entries of the archive, in the order of the central directory.
    pub closed spec fn spec_files(&self) -> Seq<ZipCentralDirectoryFile> {
        self.files@
    }

    /// The record and the entries are what the directory of the archive's bytes decodes to.
    pub open spec fn wf(&self) -> bool {
        archive_decoded(self.spec_source(), self.spec_eocd(), self.spec_files())
    }

    /// Reads the directory of the archive whose bytes are `data`.
    pub fn new(data: Vec<u8>) -> (r: Result<ZipArchive, Error>)
        ensures
            match r {
                Ok(a) => a.wf() && a.spec_source() == data@,
                Err(e) => !archive_ok(data@) && archive_fails_with(data@, e@),
            },
    {
        let ghost s = data@;
        let eocd = match ZipEndOfCentralDirectory::find(data.as_slice()) {
            Ok(e) => e,
            Err(e) => {
                return Err(e);
            },
        };
        let n = eocd.header.num_entries;
        let ghost start = central_dir_offset(s);
        let mut pos: usize = eocd.header.central_dir_offset as usize;
        let mut files: Vec<ZipCentralDirectoryFile> = Vec::new();
        let mut i: u16 = 0;
        while i < n
            invariant
                s == data@,
                eocd_decoded(s, eocd),
                n == num_entries(s),
                start == central_dir_offset(s),
                i <= n,
                files@.len() == i,
                pos == entry_pos(s, start, i as int),
                entries_ok(s, start, i as int),
                forall|k: int|
                    0 <= k < i ==> cdf_decoded(s, #[trigger] entry_pos(s, start, k), files@[k]),
            decreases n - i,
        {
            match ZipCentralDirectoryFile::find(data.as_slice(), &mut pos) {
                Ok(f) => {
                    files.push(f);
                },
                Err(e) => {
                    assert(entries_ok(s, start, i as int));
                    return Err(e);
                },
            }
            i = i + 1;
            assert(entries_ok(s, start, i as int)) by {
                assert forall|k: int| 0 <= k < i implies cdf_ok(s, #[trigger] entry_pos(s, start, k)) by {
                    if k < i - 1 {
                        assert(cdf_decoded(s, entry_pos(s, start, k), files@[k]));
                    }
                }
            }
        }
        Ok(ZipArchive { data, eocd, files })
    }

    /// The entries, in the order of the central directory.
    pub fn files(&self) -> (r: &Vec<ZipCentralDirectoryFile>)
        ensures
            r@ == self.spec_files(),
    {
        &self.files
    }

    /// The index of the entry named exactly `name`; where several share it, the last.
    pub fn index_of(&self, name: &String) -> (r: Option<usize>)
        ensures
            match r {
                Some(i) => name_index(self.spec_files(), name@) == Some(i as int),
                None => name_index(self.spec_files(), name@) is None,
            },
    {
        let mut i: usize = self.files.len();
        while i > 0
            invariant
                i <= self.files@.len(),
                name_index(self.files@, name@) == last_named(self.files@, name@, i as int),
            decreases i,
        {
            let j = i - 1;
            if self.files[j].filename == *name {
                return Some(j);
            }
            i = j;
        }
        None
    }
}

/// Below `n`, a name that entry `k` carries resolves to an entry of that name at `k` or after
/// it, and to `k` itself when no entry between `k` and `n` carries it.
pub proof fn lemma_last_named(files: Seq<ZipCentralDirectoryFile>, name: Seq<char>, n: int, k: int)
    requires
        0 <= k < n <= files.len(),
        files[k].filename@ == name,
    ensures
        last_named(files, name, n) matches Some(m) && k <= m < n && files[m].filename@ == name,
        (forall|j: int| k < j < n ==> files[j].filename@ != name) ==> last_named(files, name, n)
            == Some(k),
    decreases n,
{
    if files[n - 1].filename@ != name {
        lemma_last_named(files, name, n - 1, k);
    }
}

/// An opened archive holds exactly as many entries as its end-of-central-directory record
/// declares, the `k`-th decoded from the `k`-th record of the central directory; the name of
/// entry `k` resolves to an entry of that name at `k` or after it, and to `k` itself when no
/// other entry carries that name.
pub proof fn lemma_open_indexes_entries(a: ZipArchive, k: int)
    requires
        a.wf(),
        0 <= k < a.spec_files().len(),
    ensures
        a.spec_files().len() == num_entries(a.spec_source()),
        cdf_decoded(
            a.spec_source(),
            entry_pos(a.spec_source(), central_dir_offset(a.spec_source()), k),
            a.spec_files()[k],
        ),
        name_index(a.spec_files(), a.spec_files()[k].filename@) matches Some(m) && k <= m
            && a.spec_files()[m].filename@ == a.spec_files()[k].filename@,
        (forall|j: int|
            0 <= j < a.spec_files().len() && j != k ==> a.spec_files()[j].filename@
                != a.spec_files()[k].filename@) ==> name_index(
            a.spec_files(),
            a.spec_files()[k].filename@,
        ) == Some(k),
{
    let files = a.spec_files();
    lemma_last_named(files, files[k].filename@, files.len() as int, k);
}

/// Where entries `i < j` share a filename, that name resolves to `j` or to a later entry of
/// the same name, never to `i`, and to `j` itself when no entry after `j` carries it.
pub proof fn lemma_duplicate_name_last_wins(files: Seq<ZipCentralDirectoryFile>, i: int, j: int)
    requires
        0 <= i < j < files.len(),
        files[i].filename@ == files[j].filename@,
    ensures
        name_index(files, files[i].filename@) matches Some(m) && j <= m && files[m].filename@
            == files[j].filename@,
        name_index(files, files[i].filename@) != Some(i),
        (forall|m: int| j < m < files.len() ==> files[m].filename@ != files[j].filename@)
            ==> name_index(files, files[i].filename@) == Some(j),
{
    lemma_last_named(files, files[j].filename@, files.len() as int, j);
}

/// A source shorter than the fixed part of the end-of-central-directory record, or one whose
/// trailing window holds no signature, cannot be opened, and opening it fails with a protocol
/// violation and with nothing else.
pub proof fn lemma_no_record_is_protocol_violation(s: Seq<u8>, k: ErrorKind)
    requires
        s.len() < 22 || eocd_position(s) is None,
    ensures
        !archive_ok(s),
        archive_fails_with(s, k) <==> k is Other,
{
}

/// Where every record before record `j` decodes and record `j` is whole but does not start
/// with the central directory signature, the archive cannot be opened, and opening it fails
/// with a protocol violation and with nothing else.
pub proof fn lemma_bad_signature_stops_open(s: Seq<u8>, j: int, k: ErrorKind)
    requires
        eocd_ok(s),
        0 <= j < num_entries(s),
        entries_ok(s, central_dir_offset(s), j),
        entry_pos(s, central_dir_offset(s), j) + 46 <= s.len(),
        le32(s, entry_pos(s, central_dir_offset(s), j)) != 0x02014b50,
    ensures
        !archive_ok(s),
        archive_fails_with(s, k) <==> k is Other,
{
    let start = central_dir_offset(s);
    assert(!cdf_ok(s, entry_pos(s, start, j)));
    if archive_fails_with(s, k) {
        let i = choose|i: int|
            0 <= i < num_entries(s) && #[trigger] entries_ok(s, start, i) && cdf_fails_with(
                s,
                entry_pos(s, start, i),
                k,
            );
        if i < j {
            assert(cdf_ok(s, entry_pos(s, start, i)));
        } else if i > j {
            assert(cdf_ok(s, entry_pos(s, start, j)));
        }
    }
    if k is Other {
        assert(entries_ok(s, start, j));
    }
}

} // verus!
