use vstd::prelude::*;

use std::io::Cursor;
use std::io::Read;
use zip::result::ZipError;
use zip::ZipArchive;

use crate::path::safe_name;
use crate::plan::{entry_is_safe, is_vouched_safe, EntryRecord};

verus! {

#[verifier::external_type_specification]
#[verifier::external_body]
#[verifier::reject_recursive_types(T)]
pub struct ExCursor<T>(Cursor<T>);

#[verifier::external_type_specification]
#[verifier::external_body]
#[verifier::reject_recursive_types(R)]
pub struct ExZipArchive<R>(ZipArchive<R>);

#[verifier::external_type_specification]
#[verifier::external_body]
pub struct ExZipError(ZipError);

/// Why reading or materialising an archive stopped.
pub enum ExtractError {
    /// The container or an entry's stream could not be read.
    Archive(ZipError),
    /// An entry's stream ended at a length other than its reported size.
    SizeMismatch { name: String },
    /// A filesystem operation failed; carries its description.
    Io(String),
}

/// The number of entries zip reads from `bytes`, or none when it cannot
/// parse them as an archive.
pub uninterp spec fn zip_count(bytes: Seq<u8>) -> Option<nat>;

/// The stored name, comment, uncompressed size and Unix mode that zip reads
/// for entry `i` of `bytes`, or none when it cannot read that header.
pub uninterp spec fn zip_header(bytes: Seq<u8>, i: int) -> Option<(Seq<char>, Seq<char>, u64, Option<u32>)>;

/// The decompressed content that zip reads for entry `i` of `bytes`, or
/// none when the stream cannot be read.
pub uninterp spec fn zip_data(bytes: Seq<u8>, i: int) -> Option<Seq<u8>>;

/// An entry's header fields, read into plain values.
pub struct EntryHeader {
    pub name: String,
    /// The archive reader's sanitised path for the name, if it deems it enclosed.
    pub enclosed: Option<String>,
    pub comment: String,
    pub size: u64,
    pub unix_mode: Option<u32>,
}

pub open spec fn header_view(h: EntryHeader) -> (Seq<char>, Seq<char>, u64, Option<u32>) {
    (h.name@, h.comment@, h.size, h.unix_mode)
}

pub open spec fn record_header(e: EntryRecord) -> (Seq<char>, Seq<char>, u64, Option<u32>) {
    (e.name@, e.comment@, e.size, e.unix_mode)
}

/// What the archive reader guarantees of the sanitised path of every name:
/// when present it is the stored name itself, and names with a NUL
/// character or a leading `/` never get one.
pub open spec fn enclosed_facts(name: Seq<char>, enclosed: Option<String>) -> bool {
    &&& (enclosed matches Some(p) ==> p@ == name)
    &&& (name.contains('\0') ==> enclosed is None)
    &&& (name.len() > 0 && name[0] == '/' ==> enclosed is None)
}

pub open spec fn reader_facts(e: EntryRecord) -> bool {
    enclosed_facts(e.name@, e.enclosed)
}

/// An entry whose content has exactly its reported size.
pub open spec fn size_consistent(e: EntryRecord) -> bool {
    e.data@.len() == e.size
}

/// `e` is entry `k` of `bytes` as reading keeps it: its header as zip reads
/// it, and its content read only when the entry is to be materialised.
pub open spec fn read_as(e: EntryRecord, bytes: Seq<u8>, k: int) -> bool {
    &&& zip_header(bytes, k) == Some(record_header(e))
    &&& reader_facts(e)
    &&& entry_is_safe(e) ==> zip_data(bytes, k) == Some(e.data@) && size_consistent(e)
    &&& !entry_is_safe(e) ==> e.data@.len() == 0
}

/// Entry `k` of `bytes` stops reading: its header cannot be read, or its
/// name is safe and its content cannot be read or is not of its reported size.
pub open spec fn read_fails_at(bytes: Seq<u8>, k: int) -> bool {
    match zip_header(bytes, k) {
        None => true,
        Some(h) => safe_name(h.0) && match zip_data(bytes, k) {
            None => true,
            Some(d) => d.len() != h.2,
        },
    }
}

/// An open archive and the bytes it was parsed from.
struct Archive {
    inner: ZipArchive<Cursor<Vec<u8>>>,
    bytes: Ghost<Seq<u8>>,
}

/// Relies on zip::ZipArchive::new: parses the central directory of an
/// in-memory archive; it succeeds or fails on the bytes alone.
#[verifier::external_body]
fn parse_archive(bytes: Vec<u8>) -> (r: Result<ZipArchive<Cursor<Vec<u8>>>, ZipError>)
    ensures
        r is Ok <==> zip_count(bytes@) is Some,
{
    ZipArchive::new(Cursor::new(bytes))
}

fn open_archive(bytes: Vec<u8>) -> (r: Result<Archive, ZipError>)
    ensures
        r is Ok <==> zip_count(bytes@) is Some,
        r matches Ok(a) ==> a.bytes@ == bytes@,
{
    let ghost b = bytes@;
    match parse_archive(bytes) {
        Ok(inner) => Ok(Archive { inner, bytes: Ghost(b) }),
        Err(e) => Err(e),
    }
}

/// Relies on zip::ZipArchive::len: the number of entries in the central directory.
#[verifier::external_body]
fn entry_count(a: &Archive) -> (r: usize)
    ensures
        zip_count(a.bytes@) == Some(r as nat),
{
    a.inner.len()
}

/// Relies on zip::ZipArchive::by_index_raw, which locates entry `i` without
/// decompressing it, and on the accessors `name`, `enclosed_name`, `comment`,
/// `size` and `unix_mode` of what it returns. `enclosed_name` returns
/// `Path::new` of the stored name or nothing, and nothing for a name with a
/// NUL character or a root component.
#[verifier::external_body]
fn entry_header(a: &mut Archive, i: usize) -> (r: Result<EntryHeader, ZipError>)
    ensures
        final(a).bytes == old(a).bytes,
        r is Ok <==> zip_header(old(a).bytes@, i as int) is Some,
        r matches Ok(h) ==> zip_header(old(a).bytes@, i as int) == Some(header_view(h))
            && enclosed_facts(h.name@, h.enclosed),
{
    let f = a.inner.by_index_raw(i)?;
    Ok(EntryHeader {
        name: f.name().to_string(),
        enclosed: f.enclosed_name().map(|p| p.to_string_lossy().into_owned()),
        comment: f.comment().to_string(),
        size: f.size(),
        unix_mode: f.unix_mode(),
    })
}

/// Relies on zip::ZipArchive::by_index_decrypt and the `Read` impl of the
/// entry it returns: the decompressed content of entry `i`. The empty
/// password is discarded for an entry that is not encrypted; an entry that
/// needs one is an error here.
#[verifier::external_body]
fn entry_data(a: &mut Archive, i: usize) -> (r: Result<Vec<u8>, ZipError>)
    ensures
        final(a).bytes == old(a).bytes,
        r is Ok <==> zip_data(old(a).bytes@, i as int) is Some,
        r matches Ok(d) ==> zip_data(old(a).bytes@, i as int) == Some(d@),
{
    let mut f = match a.inner.by_index_decrypt(i, b"")? {
        Ok(f) => f,
        Err(_) => return Err(ZipError::UnsupportedArchive(ZipError::PASSWORD_REQUIRED)),
    };
    let mut data = Vec::new();
    f.read_to_end(&mut data)?;
    Ok(data)
}

/// The entries that were read, in archive order, and the failure that
/// stopped reading early, if any.
pub struct ReadOutcome {
    pub entries: Vec<EntryRecord>,
    pub failure: Option<ExtractError>,
}

/// Reads the entries of an in-memory archive in order. The content of an
/// entry is read only when the entry is to be materialised, so an unsafe
/// entry never stops reading. Reading stops at the first entry whose header
/// or content cannot be read, or whose content is not of its reported size;
/// the entries before it are kept.
pub fn read_archive(bytes: Vec<u8>) -> (r: ReadOutcome)
    ensures
        forall|k: int| 0 <= k < r.entries@.len() ==> read_as(#[trigger] r.entries@[k], bytes@, k),
        zip_count(bytes@) is None ==> r.entries@.len() == 0 && r.failure is Some,
        r.failure is None <==> zip_count(bytes@) == Some(r.entries@.len()),
        r.failure is Some && zip_count(bytes@) is Some ==> r.entries@.len() < zip_count(bytes@).unwrap()
            && read_fails_at(bytes@, r.entries@.len() as int),
        r.failure matches Some(e) ==> !(e is Io),
{
    let ghost b = bytes@;
    let mut entries: Vec<EntryRecord> = Vec::new();
    let mut archive = match open_archive(bytes) {
        Ok(a) => a,
        Err(e) => {
            return ReadOutcome { entries, failure: Some(ExtractError::Archive(e)) };
        },
    };
    let n = entry_count(&archive);
    let mut i: usize = 0;
    while i < n
        invariant
            i <= n,
            archive.bytes@ == b,
            b == bytes@,
            zip_count(b) == Some(n as nat),
            entries@.len() == i,
            forall|k: int| 0 <= k < entries@.len() ==> read_as(#[trigger] entries@[k], b, k),
        decreases n - i,
    {
        let h = match entry_header(&mut archive, i) {
            Ok(h) => h,
            Err(e) => {
                return ReadOutcome { entries, failure: Some(ExtractError::Archive(e)) };
            },
        };
        let keep = is_vouched_safe(&h.name, &h.enclosed);
        let data = if keep {
            let d = match entry_data(&mut archive, i) {
                Ok(d) => d,
                Err(e) => {
                    return ReadOutcome { entries, failure: Some(ExtractError::Archive(e)) };
                },
            };
            if d.len() as u64 != h.size {
                let failure = ExtractError::SizeMismatch { name: h.name };
                return ReadOutcome { entries, failure: Some(failure) };
            }
            d
        } else {
            Vec::new()
        };
        let e = EntryRecord {
            name: h.name,
            enclosed: h.enclosed,
            comment: h.comment,
            size: h.size,
            unix_mode: h.unix_mode,
            data,
        };
        assert(read_as(e, b, i as int));
        entries.push(e);
        i += 1;
    }
    ReadOutcome { entries, failure: None }
}

} // verus!
