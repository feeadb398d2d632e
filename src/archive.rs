use vstd::prelude::*;
use vstd::slice::{slice_subrange, slice_to_vec};

use std::io::Read;
use std::io::Write;

use crate::error::Error;
use crate::kargs::same_text;

verus! {

/// Name of the archive entry that holds the Ignition config.
pub const CONFIG_NAME: &'static str = "config.ign";
/// Mode of that entry: a regular file, rw-r--r--.
pub const CONFIG_MODE: u32 = 0o100644;
/// xz preset used to compress the archive.
pub const XZ_PRESET: u32 = 9;

/// Integrity check stored in an xz stream.
#[derive(Debug, Clone, Copy, PartialEq, Eq)]
pub enum Integrity {
    NoCheck,
    Crc32,
    Crc64,
    Sha256,
}

/// Integrity check of the archives built here: the kernel's early-boot xz
/// decoder accepts CRC32 and not the encoder's default.
pub open spec fn archive_check() -> Integrity {
    Integrity::Crc32
}

/// Compression envelope of an archive.
#[derive(Debug, Clone, Copy, PartialEq, Eq)]
pub enum Compression {
    Xz,
    Gzip,
    Plain,
}

/// The newc cpio archive that holds one regular file `name`, with `mode`
/// and contents `data`, then the trailer.
pub uninterp spec fn newc_archive(name: Seq<char>, mode: u32, data: Seq<u8>) -> Seq<u8>;

/// The xz stream that compresses `data` with `preset` and `check`.
pub uninterp spec fn xz_compressed(data: Seq<u8>, preset: u32, check: Integrity) -> Seq<u8>;

/// What the xz stream that makes up `data` decompresses to, or `None` where
/// it cannot be decoded.
pub uninterp spec fn xz_decompressed(data: Seq<u8>) -> Option<Seq<u8>>;

/// What the gzip member at the start of `data` decompresses to, or `None`
/// where it cannot be decoded.
pub uninterp spec fn gzip_decompressed(data: Seq<u8>) -> Option<Seq<u8>>;

/// The newc entry at the start of `input`, where one can be read there: its
/// name, whether it is the trailer, its contents, and the bytes after it.
pub uninterp spec fn newc_entry(input: Seq<u8>) -> Option<(Seq<char>, bool, Seq<u8>, Seq<u8>)>;

/// Relies on `cpio::write_cpio` with one `cpio::NewcBuilder` entry: it
/// writes that entry and the trailer to a fresh buffer. Writing to a `Vec`
/// cannot fail, and an entry of up to `u32::MAX` bytes fits its size field.
#[verifier::external_body]
fn newc_single(name: &str, mode: u32, data: &[u8]) -> (r: Option<Vec<u8>>)
    ensures
        r matches Some(v) ==> v@ == newc_archive(name@, mode, data@),
        data@.len() <= u32::MAX ==> r is Some,
{
    let entry = (cpio::NewcBuilder::new(name).mode(mode), std::io::Cursor::new(data));
    cpio::write_cpio(vec![entry].into_iter(), Vec::new()).ok()
}

/// Relies on `xz2::write::XzEncoder` over a stream from
/// `xz2::stream::Stream::new_easy_encoder`: it compresses `data` into a fresh
/// buffer. The presets are 0 to 9, and every liblzma build supports CRC32.
#[verifier::external_body]
fn xz_compress(data: &[u8], preset: u32, check: Integrity) -> (r: Option<Vec<u8>>)
    ensures
        r matches Some(v) ==> v@ == xz_compressed(data@, preset, check),
        preset <= 9 && check == Integrity::Crc32 ==> r is Some,
{
    let check = match check {
        Integrity::NoCheck => xz2::stream::Check::None,
        Integrity::Crc32 => xz2::stream::Check::Crc32,
        Integrity::Crc64 => xz2::stream::Check::Crc64,
        Integrity::Sha256 => xz2::stream::Check::Sha256,
    };
    let stream = xz2::stream::Stream::new_easy_encoder(preset, check).ok()?;
    let mut encoder = xz2::write::XzEncoder::new_stream(Vec::new(), stream);
    encoder.write_all(data).ok()?;
    encoder.finish().ok()
}

/// Relies on `xz2::read::XzDecoder`: it decompresses the xz stream that
/// makes up `data`.
#[verifier::external_body]
fn xz_decompress(data: &[u8]) -> (r: Option<Vec<u8>>)
    ensures
        r is Some <==> xz_decompressed(data@) is Some,
        r matches Some(v) ==> v@ == xz_decompressed(data@)->Some_0,
{
    let mut out = Vec::new();
    xz2::read::XzDecoder::new(data).read_to_end(&mut out).ok()?;
    Some(out)
}

/// Relies on `flate2::read::GzDecoder`: it decompresses the gzip member that
/// starts `data`.
#[verifier::external_body]
fn gzip_decompress(data: &[u8]) -> (r: Option<Vec<u8>>)
    ensures
        r is Some <==> gzip_decompressed(data@) is Some,
        r matches Some(v) ==> v@ == gzip_decompressed(data@)->Some_0,
{
    let mut out = Vec::new();
    flate2::read::GzDecoder::new(data).read_to_end(&mut out).ok()?;
    Some(out)
}

/// Relies on `cpio::NewcReader`: `new` reads one entry's 110-byte header and
/// name, the entry's contents are read to their end, and `finish` hands back
/// the input after the entry and its padding.
#[verifier::external_body]
fn newc_read_entry(input: &[u8]) -> (r: Option<(String, bool, Vec<u8>, Vec<u8>)>)
    ensures
        r is None ==> newc_entry(input@) is None,
        r matches Some(e) ==> newc_entry(input@) == Some((e.0@, e.1, e.2@, e.3@)),
        r matches Some(e) ==> e.3@.len() < input@.len(),
{
    let mut reader = cpio::NewcReader::new(input).ok()?;
    let name = reader.entry().name().to_string();
    let trailer = reader.entry().is_trailer();
    let mut data = Vec::new();
    reader.read_to_end(&mut data).ok()?;
    let rest = reader.finish().ok()?;
    Some((name, trailer, data, rest.to_vec()))
}

pub open spec fn xz_magic() -> Seq<u8> {
    seq![0xFDu8, 0x37u8, 0x7Au8, 0x58u8, 0x5Au8, 0x00u8]
}

/// The envelope that the first bytes of `b` announce.
pub open spec fn compression_of(b: Seq<u8>) -> Compression {
    if b.len() >= 6 && b.subrange(0, 6) == xz_magic() {
        Compression::Xz
    } else if b.len() >= 2 && b[0] == 0x1F && b[1] == 0x8B {
        Compression::Gzip
    } else {
        Compression::Plain
    }
}

/// `b` without the run of zero bytes that ends it. An xz stream ends with
/// its footer magic, never with a zero byte, so this takes off the padding
/// of an embed area and nothing of the stream.
pub open spec fn strip_zero_padding(b: Seq<u8>) -> Seq<u8>
    decreases b.len(),
{
    if b.len() > 0 && b.last() == 0 {
        strip_zero_padding(b.drop_last())
    } else {
        b
    }
}

/// What `b` holds once its envelope is taken off, or `None` where it cannot
/// be decompressed.
pub open spec fn decompressed(b: Seq<u8>) -> Option<Seq<u8>> {
    match compression_of(b) {
        Compression::Xz => xz_decompressed(strip_zero_padding(b)),
        Compression::Gzip => gzip_decompressed(b),
        Compression::Plain => Some(b),
    }
}

/// Looks the Ignition config up in an archive, whatever its envelope.
pub open spec fn extracted(b: Seq<u8>) -> EntrySearch {
    match decompressed(b) {
        None => EntrySearch::Unreadable,
        Some(d) => lookup_entry(d, CONFIG_NAME@),
    }
}

/// The result that a lookup outcome stands for.
pub open spec fn search_result(s: EntrySearch, r: Result<Vec<u8>, Error>) -> bool {
    match s {
        EntrySearch::Found(d) => r matches Ok(v) && v@ == d,
        EntrySearch::Missing => r == Err::<Vec<u8>, Error>(Error::ConfigNotInArchive),
        EntrySearch::Unreadable => r == Err::<Vec<u8>, Error>(Error::ArchiveRead),
    }
}

/// Outcome of looking an entry up in a newc archive.
pub enum EntrySearch {
    Found(Seq<u8>),
    Missing,
    Unreadable,
}

/// Looks the entry `name` up in the newc archive `input`, entry by entry, up
/// to the trailer.
pub open spec fn lookup_entry(input: Seq<u8>, name: Seq<char>) -> EntrySearch
    decreases input.len(),
{
    match newc_entry(input) {
        None => EntrySearch::Unreadable,
        Some(e) => if e.1 {
            EntrySearch::Missing
        } else if e.0 == name {
            EntrySearch::Found(e.2)
        } else if e.3.len() < input.len() {
            lookup_entry(e.3, name)
        } else {
            EntrySearch::Unreadable
        },
    }
}

/// The envelope that the first bytes of `b` announce: xz, gzip, or none.
pub fn detect_compression(b: &[u8]) -> (r: Compression)
    ensures
        r == compression_of(b@),
{
    if b.len() >= 6 && b[0] == 0xFD && b[1] == 0x37 && b[2] == 0x7A && b[3] == 0x58 && b[4] == 0x5A
        && b[5] == 0x00 {
        assert(b@.subrange(0, 6) =~= xz_magic());
        Compression::Xz
    } else if b.len() >= 2 && b[0] == 0x1F && b[1] == 0x8B {
        proof {
            if b@.len() >= 6 {
                assert(b@.subrange(0, 6)[0] == b@[0]);
            }
        }
        Compression::Gzip
    } else {
        proof {
            if b@.len() >= 6 && b@.subrange(0, 6) == xz_magic() {
                assert(b@.subrange(0, 6)[0] == b@[0]);
                assert(b@.subrange(0, 6)[1] == b@[1]);
                assert(b@.subrange(0, 6)[2] == b@[2]);
                assert(b@.subrange(0, 6)[3] == b@[3]);
                assert(b@.subrange(0, 6)[4] == b@[4]);
                assert(b@.subrange(0, 6)[5] == b@[5]);
            }
        }
        Compression::Plain
    }
}

fn without_zero_padding(b: &[u8]) -> (r: &[u8])
    ensures
        r@ == strip_zero_padding(b@),
{
    let mut end: usize = b.len();
    assert(b@.subrange(0, end as int) =~= b@);
    while end > 0 && b[end - 1] == 0
        invariant
            end <= b@.len(),
            strip_zero_padding(b@) == strip_zero_padding(b@.subrange(0, end as int)),
        decreases end,
    {
        assert(b@.subrange(0, end as int).drop_last() =~= b@.subrange(0, end - 1));
        end -= 1;
    }
    slice_subrange(b, 0, end)
}

/// Takes the envelope off `b`: xz (without the zero padding that follows
/// it) and gzip are decompressed, anything else is taken as it is.
pub fn decompress(b: &[u8]) -> (r: Result<Vec<u8>, Error>)
    ensures
        r is Ok <==> decompressed(b@) is Some,
        r matches Ok(v) ==> v@ == decompressed(b@)->Some_0,
        r matches Err(e) ==> e is ArchiveRead,
{
    let out = match detect_compression(b) {
        Compression::Xz => xz_decompress(without_zero_padding(b)),
        Compression::Gzip => gzip_decompress(b),
        Compression::Plain => Some(slice_to_vec(b)),
    };
    match out {
        Some(v) => Ok(v),
        None => Err(Error::ArchiveRead),
    }
}

/// The contents of the entry `name` of the newc archive `archive`, reading
/// entries in order up to the trailer.
pub fn find_entry(archive: &[u8], name: &str) -> (r: Result<Vec<u8>, Error>)
    ensures
        search_result(lookup_entry(archive@, name@), r),
{
    let mut cur: Vec<u8> = slice_to_vec(archive);
    loop
        invariant
            lookup_entry(cur@, name@) == lookup_entry(archive@, name@),
        decreases cur@.len(),
    {
        match newc_read_entry(cur.as_slice()) {
            None => {
                return Err(Error::ArchiveRead);
            },
            Some((entry_name, trailer, data, rest)) => {
                if trailer {
                    return Err(Error::ConfigNotInArchive);
                }
                if same_text(entry_name.as_str(), name) {
                    return Ok(data);
                }
                cur = rest;
            },
        }
    }
}

/// Wraps an Ignition config into an xz-compressed newc archive that holds it
/// as `config.ign`.
pub fn make_cpio(config: &[u8]) -> (r: Result<Vec<u8>, Error>)
    ensures
        r matches Ok(v) ==> v@ == xz_compressed(
            newc_archive(CONFIG_NAME@, CONFIG_MODE, config@),
            XZ_PRESET,
            archive_check(),
        ),
        r matches Err(e) ==> e is ArchiveWrite,
        config@.len() <= u32::MAX ==> r is Ok,
{
    let archive = match newc_single(CONFIG_NAME, CONFIG_MODE, config) {
        Some(a) => a,
        None => {
            return Err(Error::ArchiveWrite);
        },
    };
    match xz_compress(archive.as_slice(), XZ_PRESET, Integrity::Crc32) {
        Some(v) => Ok(v),
        None => Err(Error::ArchiveWrite),
    }
}

/// Takes the Ignition config out of an archive made by `make_cpio`, or by
/// older tools that compressed with gzip.
pub fn extract_cpio(buf: &[u8]) -> (r: Result<Vec<u8>, Error>)
    ensures
        search_result(extracted(buf@), r),
{
    let plain = match decompress(buf) {
        Ok(v) => v,
        Err(e) => {
            return Err(e);
        },
    };
    find_entry(plain.as_slice(), CONFIG_NAME)
}

} // verus!
