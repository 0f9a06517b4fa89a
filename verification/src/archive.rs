//! Packing named byte documents into a gzip-compressed tar archive.
//!
//! The tar and gzip formats themselves are produced by the `tar` and `flate2`
//! crates. This module states what is taken on trust about them and proves,
//! on top of that, which bytes an archive is made of.

use crate::error::SerializationError;
use vstd::pervasive::unreached;
use vstd::prelude::*;
use vstd::string::*;
use vstd::utf8::is_ascii_chars;

verus! {

/// The compression level that gives the smallest output.
pub const BEST_COMPRESSION: u32 = 9;

/// `tar::Header`, an opaque block of 512 bytes.
#[verifier::external_type_specification]
#[verifier::external_body]
pub struct ExTarHeader(tar::Header);

/// `std::io::Error`, handed through and never looked into.
#[verifier::external_type_specification]
#[verifier::external_body]
pub struct ExIoError(std::io::Error);

/// A `tar::Builder` that writes into a byte vector.
#[verifier::external_body]
pub struct TarWriter {
    inner: tar::Builder<Vec<u8>>,
}

/// A `flate2::write::GzEncoder` that writes into a byte vector.
#[verifier::external_body]
pub struct GzipWriter {
    inner: flate2::write::GzEncoder<Vec<u8>>,
}

/// The 512 bytes that a tar header holds.
pub uninterp spec fn header_block(header: tar::Header) -> Seq<u8>;

/// The bytes that a tar writer has written to its vector so far.
pub uninterp spec fn tar_written(writer: TarWriter) -> Seq<u8>;

/// What `tar::Builder::append_data` makes of the header block it is handed
/// and of the entry's path: nothing when it refuses the path, and otherwise
/// the bytes that it writes before the entry's data, which are the header
/// block with the path and the checksum set in it, after an entry of its own
/// for a path that is too long for the block.
pub uninterp spec fn tar_entry_head(block: Seq<u8>, path: Seq<char>) -> Option<Seq<u8>>;

/// The compression level that a gzip writer was made with.
pub uninterp spec fn gzip_level(writer: GzipWriter) -> u32;

/// The writes that a gzip writer has taken so far, oldest first.
pub uninterp spec fn gzip_taken(writer: GzipWriter) -> Seq<Seq<u8>>;

/// Whether `std::io::Write::write_all` succeeds on an encoder made with
/// `level` that has taken `taken`, when it is handed `data`.
pub uninterp spec fn gzip_takes(level: u32, taken: Seq<Seq<u8>>, data: Seq<u8>) -> bool;

/// What `flate2::write::GzEncoder::finish` gives for an encoder made with
/// `level` that has taken `writes`: the gzip stream, or nothing when the
/// compressor fails.
pub uninterp spec fn gzip_stream(level: u32, writes: Seq<Seq<u8>>) -> Option<Seq<u8>>;

/// The magic of a GNU header, without the blank that ends it.
pub open spec fn ustar() -> Seq<u8> {
    seq![0x75u8, 0x73u8, 0x74u8, 0x61u8, 0x72u8]
}

/// A blank GNU header: zero everywhere but for the modification time, which
/// is eleven octal zeros, and the magic and version `ustar`, two blanks and a
/// zero byte.
pub open spec fn blank_gnu_block() -> Seq<u8> {
    Seq::new(
        512,
        |i: int|
            if 136 <= i < 147 {
                0x30u8
            } else if 257 <= i < 262 {
                ustar()[i - 257]
            } else if i == 262 || i == 263 {
                0x20u8
            } else {
                0u8
            },
    )
}

/// The last `width` octal digits of `n`, most significant first, with zeros
/// in front where `n` has fewer.
pub open spec fn octal(n: nat, width: nat) -> Seq<u8>
    decreases width,
{
    if width == 0 {
        Seq::empty()
    } else {
        octal(n / 8, (width - 1) as nat).push((0x30 + n % 8) as u8)
    }
}

/// The last `width` bytes of `n`, most significant first.
pub open spec fn big_endian(n: nat, width: nat) -> Seq<u8>
    decreases width,
{
    if width == 0 {
        Seq::empty()
    } else {
        big_endian(n / 256, (width - 1) as nat).push((n % 256) as u8)
    }
}

/// The sum of the bytes.
pub open spec fn byte_sum(bytes: Seq<u8>) -> nat
    decreases bytes.len(),
{
    if bytes.len() == 0 {
        0
    } else {
        byte_sum(bytes.drop_last()) + bytes.last() as nat
    }
}

/// The size field of a header, twelve bytes from byte 124 on: up to 8 GiB
/// the size as eleven octal digits and a zero byte; from there on a byte of
/// 0x80, three zero bytes and the size as eight bytes.
pub open spec fn size_field(size: u64) -> Seq<u8> {
    if size < 0x2_0000_0000 {
        octal(size as nat, 11).push(0u8)
    } else {
        seq![0x80u8, 0u8, 0u8, 0u8] + big_endian(size as nat, 8)
    }
}

/// A header block with `size` written into its size field.
pub open spec fn block_with_size(block: Seq<u8>, size: u64) -> Seq<u8> {
    block.subrange(0, 124) + size_field(size) + block.subrange(136, block.len() as int)
}

/// The checksum of a header block: the sum of its bytes, with the eight
/// bytes of the checksum field, from byte 148 on, each counted as a blank.
pub open spec fn checksum(block: Seq<u8>) -> nat {
    byte_sum(block.subrange(0, 148)) + 8 * 0x20 + byte_sum(
        block.subrange(156, block.len() as int),
    )
}

/// A header block with its checksum written into its checksum field, as
/// seven octal digits and a zero byte.
pub open spec fn block_with_checksum(block: Seq<u8>) -> Seq<u8> {
    block.subrange(0, 148) + octal(checksum(block), 7).push(0u8) + block.subrange(
        156,
        block.len() as int,
    )
}

/// The zero bytes after data of length `len`: as many as bring the length to
/// the next multiple of 512, the size of a tar block.
pub open spec fn padding(len: nat) -> Seq<u8> {
    Seq::new(((512 - len % 512) % 512) as nat, |i: int| 0u8)
}

/// A path that names the same entry on every platform: ASCII text with
/// neither a backslash nor a colon in it.
pub open spec fn is_portable_path(path: Seq<char>) -> bool {
    &&& is_ascii_chars(path)
    &&& forall|i: int| 0 <= i < path.len() ==> #[trigger] path[i] != '\\' && path[i] != ':'
}

/// A letter or a digit.
pub open spec fn is_alphanumeric(c: char) -> bool {
    ('a' <= c && c <= 'z') || ('A' <= c && c <= 'Z') || ('0' <= c && c <= '9')
}

/// A plain path: at most 100 characters, each a letter, a digit, a dot, a
/// dash, an underscore or a slash; it does not begin with a slash, and a
/// dot in it is followed by a letter or a digit, so that no part of the path
/// is `.` or `..`.
pub open spec fn is_plain_path(path: Seq<char>) -> bool {
    &&& 1 <= path.len() <= 100
    &&& path[0] != '/'
    &&& forall|i: int|
        0 <= i < path.len() ==> is_alphanumeric(#[trigger] path[i]) || path[i] == '.' || path[i]
            == '-' || path[i] == '_' || path[i] == '/'
    &&& forall|i: int|
        0 <= i < path.len() && #[trigger] path[i] == '.' ==> i + 1 < path.len() && is_alphanumeric(
            path[i + 1],
        )
}

/// Calls `tar::Header::new_gnu`. Trusted: the new header is the blank GNU
/// block.
#[verifier::external_body]
fn header_new_gnu() -> (header: tar::Header)
    ensures
        header_block(header) == blank_gnu_block(),
{
    tar::Header::new_gnu()
}

/// Calls `tar::Header::set_size`. Trusted: the block afterwards is the block
/// before with `size` written into its size field.
#[verifier::external_body]
fn header_set_size(header: &mut tar::Header, size: u64)
    ensures
        header_block(*final(header)) == block_with_size(header_block(*old(header)), size),
{
    header.set_size(size)
}

/// Calls `tar::Header::set_cksum`. Trusted: the block afterwards is the
/// block before with its checksum written into its checksum field.
#[verifier::external_body]
fn header_set_cksum(header: &mut tar::Header)
    ensures
        header_block(*final(header)) == block_with_checksum(header_block(*old(header))),
{
    header.set_cksum()
}

/// Calls `tar::Builder::new` on an empty vector. Trusted: nothing is written
/// yet.
#[verifier::external_body]
fn tar_new() -> (writer: TarWriter)
    ensures
        tar_written(writer) == Seq::<u8>::empty(),
{
    TarWriter { inner: tar::Builder::new(Vec::new()) }
}

/// Calls `tar::Builder::append_data`. Trusted: whether it succeeds depends
/// on the header block and the path alone, since writing to a vector and
/// reading from a slice do not fail. It succeeds on a plain path under a
/// header that is not a UStar header, which byte 262 tells: such a path is
/// relative, has no part that is `.` or `..`, and fits the 100 bytes of the
/// name field. When it succeeds, it has added to the vector a head that
/// depends on the header block and the path alone, then the data as they
/// are, then zero bytes up to the next multiple of 512.
#[verifier::external_body]
fn tar_append_data(writer: &mut TarWriter, header: &mut tar::Header, path: &str, data: &[u8]) -> (out:
    Result<(), std::io::Error>)
    requires
        is_portable_path(path@),
    ensures
        out is Ok <==> tar_entry_head(header_block(*old(header)), path@) is Some,
        is_plain_path(path@) && header_block(*old(header))[262] != 0 ==> out is Ok,
        out is Ok ==> tar_written(*final(writer)) == tar_written(*old(writer)) + tar_entry_head(
            header_block(*old(header)),
            path@,
        ).unwrap() + data@ + padding(data@.len()),
{
    writer.inner.append_data(header, path, data)
}

/// Calls `tar::Builder::into_inner`. Trusted: it succeeds, since all it does
/// is write to the vector, and it hands back what was written, followed by
/// the two zero blocks that end an archive.
#[verifier::external_body]
fn tar_into_inner(writer: TarWriter) -> (out: Result<Vec<u8>, std::io::Error>)
    ensures
        out is Ok,
        out matches Ok(bytes) ==> bytes@ == tar_written(writer) + Seq::new(1024, |i: int| 0u8),
{
    writer.inner.into_inner()
}

/// Calls `flate2::write::GzEncoder::new` on an empty vector, with
/// `flate2::Compression::new(level)`. Trusted: the writer remembers the level
/// and has taken nothing yet.
#[verifier::external_body]
fn gzip_new(level: u32) -> (writer: GzipWriter)
    requires
        level <= 9,
    ensures
        gzip_level(writer) == level,
        gzip_taken(writer) == Seq::<Seq<u8>>::empty(),
{
    GzipWriter { inner: flate2::write::GzEncoder::new(Vec::new(), flate2::Compression::new(level)) }
}

/// Calls `std::io::Write::write_all` on the encoder. Trusted: the level
/// stays; whether the call succeeds depends on the level, on the writes
/// taken before and on `data` alone; and when it succeeds the writer has
/// taken `data` as one more write.
#[verifier::external_body]
fn gzip_write_all(writer: &mut GzipWriter, data: &[u8]) -> (out: Result<(), std::io::Error>)
    ensures
        gzip_level(*final(writer)) == gzip_level(*old(writer)),
        out is Ok <==> gzip_takes(gzip_level(*old(writer)), gzip_taken(*old(writer)), data@),
        out is Ok ==> gzip_taken(*final(writer)) == gzip_taken(*old(writer)).push(data@),
{
    std::io::Write::write_all(&mut writer.inner, data)
}

/// Calls `flate2::write::GzEncoder::finish`. Trusted: whether it succeeds,
/// and the stream it then hands back, depend on the level and on the writes
/// taken alone.
#[verifier::external_body]
fn gzip_finish(writer: GzipWriter) -> (out: Result<Vec<u8>, std::io::Error>)
    ensures
        out is Ok <==> gzip_stream(gzip_level(writer), gzip_taken(writer)) is Some,
        out matches Ok(bytes) ==> gzip_stream(gzip_level(writer), gzip_taken(writer)) == Some(
            bytes@,
        ),
{
    writer.inner.finish()
}

/// The header block of an entry that holds `len` bytes: a blank GNU header
/// with the length and then the checksum filled in.
pub open spec fn entry_header(len: nat) -> Seq<u8> {
    block_with_checksum(block_with_size(blank_gnu_block(), len as u64))
}

/// Whether an entry at `path` that holds `len` bytes is accepted: the path
/// is portable, and the tar writer takes it under the header for that
/// length.
pub open spec fn accepts(path: Seq<char>, len: nat) -> bool {
    is_portable_path(path) && tar_entry_head(entry_header(len), path) is Some
}

/// The bytes of one archive member that was accepted: the head of the entry
/// at `path`, made from the header for the length of `data`; then `data`,
/// and the padding.
pub open spec fn member(path: Seq<char>, data: Seq<u8>) -> Seq<u8> {
    tar_entry_head(entry_header(data.len()), path).unwrap() + data + padding(data.len())
}

/// The members of `entries`, one after the other.
pub open spec fn members(entries: Seq<(Seq<char>, Seq<u8>)>) -> Seq<u8>
    decreases entries.len(),
{
    if entries.len() == 0 {
        Seq::empty()
    } else {
        members(entries.drop_last()) + member(entries.last().0, entries.last().1)
    }
}

/// The two zero blocks that end a tar stream.
pub open spec fn end_of_archive() -> Seq<u8> {
    Seq::new(1024, |i: int| 0u8)
}

/// The tar stream that holds `entries` in this order.
pub open spec fn tar_stream(entries: Seq<(Seq<char>, Seq<u8>)>) -> Seq<u8> {
    members(entries) + end_of_archive()
}

/// `data` as one gzip stream at the best compression level, or nothing when
/// the compressor fails on them.
pub open spec fn gzip_best(data: Seq<u8>) -> Option<Seq<u8>> {
    if gzip_takes(BEST_COMPRESSION, Seq::empty(), data) {
        gzip_stream(BEST_COMPRESSION, seq![data])
    } else {
        None
    }
}

/// The archive that holds `entries` in this order: their tar stream,
/// compressed.
pub open spec fn tar_gz(entries: Seq<(Seq<char>, Seq<u8>)>) -> Option<Seq<u8>> {
    gzip_best(tar_stream(entries))
}

/// A header for an entry whose data is `slice`: a new GNU header that records
/// the exact length of the data and then its own checksum.
pub fn from_bytes(slice: &[u8]) -> (header: tar::Header)
    ensures
        header_block(header) == entry_header(slice@.len()),
{
    let mut header = header_new_gnu();
    header_set_size(&mut header, slice.len() as u64);
    header_set_cksum(&mut header);
    header
}

/// Whether a path is portable.
pub fn portable(path: &str) -> (yes: bool)
    ensures
        yes == is_portable_path(path@),
{
    if !path.is_ascii() {
        return false;
    }
    proof {
        is_ascii_spec_bytes(path);
    }
    let bytes = path.as_bytes();
    let mut i: usize = 0;
    while i < bytes.len()
        invariant
            i <= bytes@.len() == path@.len(),
            is_ascii_chars(path@),
            forall|k: int| 0 <= k < path@.len() ==> bytes@[k] == #[trigger] path@[k] as u8,
            forall|k: int| 0 <= k < i ==> #[trigger] path@[k] != '\\' && path@[k] != ':',
        decreases bytes.len() - i,
    {
        if bytes[i] == 0x5c || bytes[i] == 0x3a {
            assert(path@[i as int] == '\\' || path@[i as int] == ':');
            return false;
        }
        i += 1;
    }
    true
}

/// A tar stream under construction, with the entries it holds so far.
pub struct Archive {
    writer: TarWriter,
    entries: Ghost<Seq<(Seq<char>, Seq<u8>)>>,
}

impl Archive {
    /// The entries added so far, oldest first, each with its path and data.
    pub closed spec fn entries(&self) -> Seq<(Seq<char>, Seq<u8>)> {
        self.entries@
    }

    /// What has been written is exactly the members of the entries.
    #[verifier::type_invariant]
    closed spec fn well_formed(&self) -> bool {
        tar_written(self.writer) == members(self.entries@)
    }

    /// An archive without entries.
    pub fn new() -> (archive: Archive)
        ensures
            archive.entries() == Seq::<(Seq<char>, Seq<u8>)>::empty(),
    {
        Archive { writer: tar_new(), entries: Ghost(Seq::empty()) }
    }

    /// Adds the entry at `path` that holds `data`, under a header made by
    /// [`from_bytes`]. The entry is added exactly when it is accepted, and is
    /// then the last one of the archive.
    pub fn append(self, path: &str, data: &[u8]) -> (out: Result<Archive, SerializationError>)
        ensures
            out is Ok <==> accepts(path@, data@.len()),
            is_plain_path(path@) ==> out is Ok,
            match out {
                Ok(archive) => archive.entries() == self.entries().push((path@, data@)),
                Err(e) => e == SerializationError::Archive,
            },
    {
        proof {
            use_type_invariant(&self);
        }
        if !portable(path) {
            return Err(SerializationError::Archive);
        }
        proof {
            lemma_entry_header_is_gnu(data@.len());
        }
        let Archive { writer, entries } = self;
        let mut writer = writer;
        let mut header = from_bytes(data);
        match tar_append_data(&mut writer, &mut header, path, data) {
            Ok(()) => {
                let ghost next = entries@.push((path@, data@));
                proof {
                    assert(next.drop_last() =~= entries@);
                    assert(tar_written(writer) =~= members(entries@) + member(path@, data@));
                }
                Ok(Archive { writer, entries: Ghost(next) })
            },
            Err(_) => Err(SerializationError::Archive),
        }
    }

    /// Ends the tar stream and compresses it at the best level. Ending the
    /// stream cannot fail; compressing it fails exactly when the compressor
    /// does.
    pub fn finish(self) -> (out: Result<Vec<u8>, SerializationError>)
        ensures
            match out {
                Ok(bytes) => tar_gz(self.entries()) == Some(bytes@),
                Err(e) => e == SerializationError::Compression && tar_gz(self.entries()) is None,
            },
    {
        proof {
            use_type_invariant(&self);
        }
        let Archive { writer, entries } = self;
        match tar_into_inner(writer) {
            Ok(stream) => compress(stream.as_slice()),
            Err(_) => unreached(),
        }
    }
}

/// Compresses `data` into one gzip stream at the best level. It fails
/// exactly when the compressor does.
pub fn compress(data: &[u8]) -> (out: Result<Vec<u8>, SerializationError>)
    ensures
        match out {
            Ok(bytes) => gzip_best(data@) == Some(bytes@),
            Err(e) => e == SerializationError::Compression && gzip_best(data@) is None,
        },
{
    let mut writer = gzip_new(BEST_COMPRESSION);
    match gzip_write_all(&mut writer, data) {
        Ok(()) => {
            proof {
                assert(gzip_taken(writer) =~= seq![data@]);
            }
            match gzip_finish(writer) {
                Ok(bytes) => Ok(bytes),
                Err(_) => Err(SerializationError::Compression),
            }
        },
        Err(_) => Err(SerializationError::Compression),
    }
}

/// The number that octal digits spell.
pub open spec fn octal_value(digits: Seq<u8>) -> nat
    decreases digits.len(),
{
    if digits.len() == 0 {
        0
    } else {
        octal_value(digits.drop_last()) * 8 + (digits.last() - 0x30) as nat
    }
}

/// Whether `n` can be written with `width` octal digits.
pub open spec fn fits_octal(n: nat, width: nat) -> bool
    decreases width,
{
    if width == 0 {
        n == 0
    } else {
        fits_octal(n / 8, (width - 1) as nat)
    }
}

/// Octal digits are as many as asked for, and spell the number they were
/// made from if it can be written with so many.
pub proof fn lemma_octal(n: nat, width: nat)
    ensures
        octal(n, width).len() == width,
        fits_octal(n, width) ==> octal_value(octal(n, width)) == n,
    decreases width,
{
    if width > 0 {
        lemma_octal(n / 8, (width - 1) as nat);
        assert(octal(n, width).drop_last() =~= octal(n / 8, (width - 1) as nat));
    }
}

/// The sum of bytes is at most 255 for each.
pub proof fn lemma_byte_sum_bound(bytes: Seq<u8>)
    ensures
        byte_sum(bytes) <= 255 * bytes.len(),
    decreases bytes.len(),
{
    if bytes.len() > 0 {
        lemma_byte_sum_bound(bytes.drop_last());
    }
}

/// The header of an entry of less than 8 GiB records the exact length of the
/// data: its size field spells the length in octal digits.
pub proof fn lemma_header_records_length(len: nat)
    requires
        len < 0x2_0000_0000,
    ensures
        entry_header(len).len() == 512,
        octal_value(entry_header(len).subrange(124, 135)) == len,
        entry_header(len)[135] == 0,
{
    let sized = block_with_size(blank_gnu_block(), len as u64);
    lemma_octal(len, 11);
    assert(fits_octal(len, 11)) by {
        reveal_with_fuel(fits_octal, 12);
    }
    assert(sized.len() == 512);
    assert(sized.subrange(124, 135) =~= octal(len, 11));
    lemma_octal(checksum(sized), 7);
    let header = entry_header(len);
    assert(header.len() == 512);
    assert(header.subrange(124, 135) =~= sized.subrange(124, 135));
    assert(header[135] == sized[135]);
}

/// The header of an entry records its own checksum: its checksum field
/// spells, in octal digits, the checksum of the header as it stands.
pub proof fn lemma_header_records_checksum(len: nat)
    requires
        len <= u64::MAX,
    ensures
        octal_value(entry_header(len).subrange(148, 155)) == checksum(entry_header(len)),
        entry_header(len)[155] == 0,
{
    let sized = block_with_size(blank_gnu_block(), len as u64);
    if len < 0x2_0000_0000 {
        lemma_octal(len, 11);
    } else {
        lemma_big_endian(len, 8);
    }
    assert(sized.len() == 512);
    let sum = checksum(sized);
    lemma_byte_sum_bound(sized.subrange(0, 148));
    lemma_byte_sum_bound(sized.subrange(156, 512));
    assert(sum < 0x20_0000);
    assert(fits_octal(sum, 7)) by {
        reveal_with_fuel(fits_octal, 8);
    }
    lemma_octal(sum, 7);
    let header = entry_header(len);
    assert(header.len() == 512);
    assert(header.subrange(148, 155) =~= octal(sum, 7));
    assert(header.subrange(0, 148) =~= sized.subrange(0, 148));
    assert(header.subrange(156, 512) =~= sized.subrange(156, 512));
}

/// The header of an entry is a block of 512 bytes that keeps the GNU magic:
/// writing the size and the checksum leaves byte 262 a blank.
pub proof fn lemma_entry_header_is_gnu(len: nat)
    ensures
        entry_header(len).len() == 512,
        entry_header(len)[262] == 0x20,
{
    let size = len as u64;
    let sized = block_with_size(blank_gnu_block(), size);
    if size < 0x2_0000_0000 {
        lemma_octal(size as nat, 11);
    } else {
        lemma_big_endian(size as nat, 8);
    }
    assert(sized.len() == 512);
    assert(sized[262] == blank_gnu_block()[262]);
    lemma_octal(checksum(sized), 7);
    assert(entry_header(len)[262] == sized[262]);
}

/// Bytes are as many as asked for.
pub proof fn lemma_big_endian(n: nat, width: nat)
    ensures
        big_endian(n, width).len() == width,
    decreases width,
{
    if width > 0 {
        lemma_big_endian(n / 256, (width - 1) as nat);
    }
}

} // verus!
