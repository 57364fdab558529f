//! The archive reader boundary and the extraction loop.
//!
//! Parsing the central directory and decompressing entry payloads is
//! the work of the `zip` crate, operating on an in-memory archive.  The
//! archive is held behind a trusted boundary: its entries are named by
//! an uninterpreted sequence, each reading call is a wrapper whose
//! contract relates what it returns to that sequence, and the verified
//! extraction loop plans one outcome per entry from those plain values.

use vstd::prelude::*;

use crate::plan::{models_of, plan_entry, plan_seq, EntryModel, EntryOutcome, RawEntry};

verus! {

#[verifier::external_type_specification]
#[verifier::external_body]
#[verifier::reject_recursive_types(R)]
pub struct ExZipArchive<R>(zip::ZipArchive<R>);

#[verifier::external_type_specification]
#[verifier::external_body]
#[verifier::reject_recursive_types(T)]
pub struct ExCursor<T>(std::io::Cursor<T>);

#[verifier::external_type_specification]
#[verifier::external_body]
pub struct ExZipError(zip::result::ZipError);

/// The entries of a parsed archive, in the index order of the parsed
/// central directory (the zip crate keeps one record per name): name,
/// declared uncompressed size, comment, stored Unix mode, decompressed
/// content.  What this sequence is for a given archive is known only
/// through the trusted reading wrappers below.
pub uninterp spec fn archive_entries(a: zip::ZipArchive<std::io::Cursor<Vec<u8>>>) -> Seq<
    (Seq<u8>, u64, Seq<u8>, Option<u32>, Seq<u8>),
>;

/// Whether each entry of a parsed archive can be read in full: per
/// index, whether fetching the entry and decompressing its whole
/// payload succeeds.  The archive is in memory, so this is a function
/// of its parsed metadata and underlying bytes alone — an entry with a
/// corrupt local header, an unsupported compression method, an
/// encrypted payload, or a checksum mismatch is unreadable, every
/// other entry is readable, and neither depends on the read cursor.
pub uninterp spec fn archive_readable(a: zip::ZipArchive<std::io::Cursor<Vec<u8>>>) -> Seq<bool>;

/// Whether zip::ZipArchive::new parses the archive held in these
/// bytes: parsing an in-memory archive is a function of the bytes
/// alone.
pub uninterp spec fn zip_parse_ok(bytes: Seq<u8>) -> bool;

/// The entries that zip::ZipArchive::new parses out of these bytes,
/// as a function of the bytes alone.
pub uninterp spec fn zip_entries_of(bytes: Seq<u8>) -> Seq<
    (Seq<u8>, u64, Seq<u8>, Option<u32>, Seq<u8>),
>;

/// Relies on zip::ZipArchive::new: parses the central directory of the
/// archive held in `bytes`.  Parsing succeeds or fails, and on success
/// yields the archive's entries, as a function of the bytes alone.
#[verifier::external_body]
fn archive_open(bytes: Vec<u8>) -> (r: Result<
    zip::ZipArchive<std::io::Cursor<Vec<u8>>>,
    zip::result::ZipError,
>)
    ensures
        r is Ok <==> zip_parse_ok(bytes@),
        r matches Ok(a) ==> archive_entries(a) == zip_entries_of(bytes@),
{
    zip::ZipArchive::new(std::io::Cursor::new(bytes))
}

/// Relies on zip::ZipArchive::len: the number of entries in the
/// central directory.
#[verifier::external_body]
fn archive_len(a: &zip::ZipArchive<std::io::Cursor<Vec<u8>>>) -> (n: usize)
    ensures
        n == archive_entries(*a).len(),
{
    a.len()
}

/// Relies on zip::ZipArchive::by_index and std::io::Read::read_to_end:
/// returns entry `i` of the archive — its name as decoded by the zip
/// crate, its declared uncompressed size, its comment, its stored Unix
/// mode, and its fully decompressed content.  It succeeds exactly on a
/// readable entry and fails on one it cannot read: a corrupt local
/// header, an unsupported compression method, an encrypted payload, or
/// a decompression failure — for this in-memory archive a function of
/// the archive alone.  Reading moves only the archive's cursor and
/// leaves its entries and their readability unchanged.
#[verifier::external_body]
fn archive_read_entry(a: &mut zip::ZipArchive<std::io::Cursor<Vec<u8>>>, i: usize) -> (r: Result<
    RawEntry,
    zip::result::ZipError,
>)
    requires
        i < archive_entries(*old(a)).len(),
    ensures
        archive_entries(*final(a)) == archive_entries(*old(a)),
        archive_readable(*final(a)) == archive_readable(*old(a)),
        r is Ok <==> archive_readable(*old(a))[i as int],
        r matches Ok(e) ==> e.model() == archive_entries(*old(a))[i as int],
{
    let mut f = match a.by_index(i) {
        Ok(f) => f,
        Err(e) => return Err(e),
    };
    let mut data = Vec::new();
    if let Err(e) = std::io::Read::read_to_end(&mut f, &mut data) {
        return Err(zip::result::ZipError::Io(e));
    }
    Ok(RawEntry {
        name: f.name().as_bytes().to_vec(),
        size: f.size(),
        comment: f.comment().as_bytes().to_vec(),
        unix_mode: f.unix_mode(),
        data,
    })
}

/// A fatal extraction failure.
#[derive(Debug)]
pub enum ExtractError {
    /// The archive could not be opened or its central directory could
    /// not be parsed.
    OpenFailed,
    /// An entry's metadata or content could not be read.
    EntryFailed,
}

/// Opens the archive held in `bytes`: succeeds exactly when the bytes
/// parse as an archive, yielding its entries, and reports an open
/// failure otherwise.
pub fn open_archive(bytes: Vec<u8>) -> (r: Result<
    zip::ZipArchive<std::io::Cursor<Vec<u8>>>,
    ExtractError,
>)
    ensures
        r is Ok <==> zip_parse_ok(bytes@),
        r matches Ok(a) ==> archive_entries(a) == zip_entries_of(bytes@),
        r matches Err(e) ==> e == ExtractError::OpenFailed,
{
    match archive_open(bytes) {
        Ok(a) => Ok(a),
        Err(_) => Err(ExtractError::OpenFailed),
    }
}

/// Plans the extraction of every entry of the archive, in archive
/// order, each entry exactly once.  The run succeeds exactly when
/// every entry is readable, and then the outcomes are the planned
/// outcomes of all entries.  Otherwise the run aborts at the first
/// unreadable entry: the outcomes are the plans of exactly the entries
/// before it, and no later entry is processed.
pub fn extract_archive(a: &mut zip::ZipArchive<std::io::Cursor<Vec<u8>>>) -> (r: (
    Vec<EntryOutcome>,
    Option<ExtractError>,
))
    ensures
        archive_entries(*final(a)) == archive_entries(*old(a)),
        archive_readable(*final(a)) == archive_readable(*old(a)),
        archive_entries(*old(a)).len() == 0 ==> r.1 is None && r.0@.len() == 0,
        r.1 is None <==> (forall|k: int|
            0 <= k < archive_entries(*old(a)).len() ==> #[trigger] archive_readable(
                *old(a),
            )[k]),
        r.1 is None ==> models_of(r.0@) == plan_seq(archive_entries(*old(a))),
        r.1 matches Some(err) ==> err == ExtractError::EntryFailed && (exists|k: int|
            0 <= k < archive_entries(*old(a)).len() && !archive_readable(*old(a))[k] && (
            forall|j: int| 0 <= j < k ==> #[trigger] archive_readable(*old(a))[j])
                && models_of(r.0@) == plan_seq(archive_entries(*old(a)).take(k))),
{
    let ghost es = archive_entries(*a);
    let ghost rd = archive_readable(*a);
    let len = archive_len(a);
    let mut out: Vec<EntryOutcome> = Vec::new();
    let mut i: usize = 0;
    proof {
        assert(models_of(out@) =~~= plan_seq(es.take(0)));
    }
    while i < len
        invariant
            i <= len,
            len == es.len(),
            es == archive_entries(*a),
            es == archive_entries(*old(a)),
            rd == archive_readable(*a),
            rd == archive_readable(*old(a)),
            forall|j: int| 0 <= j < i ==> #[trigger] rd[j],
            models_of(out@) == plan_seq(es.take(i as int)),
        decreases len - i,
    {
        let entry = match archive_read_entry(a, i) {
            Ok(entry) => entry,
            Err(_) => {
                proof {
                    assert(!rd[i as int]);
                }
                return (out, Some(ExtractError::EntryFailed));
            },
        };
        let outcome = plan_entry(i as u64, &entry);
        let ghost prev = out@;
        out.push(outcome);
        proof {
            assert(models_of(prev).len() == plan_seq(es.take(i as int)).len());
            assert(prev.len() == i as int);
            assert forall|k: int| 0 <= k < i + 1 implies models_of(out@)[k] == plan_seq(
                es.take(i + 1),
            )[k] by {
                assert(es.take(i + 1)[k] == es[k]);
                if k < i {
                    assert(out@[k] == prev[k]);
                    assert(models_of(prev)[k] == plan_seq(es.take(i as int))[k]);
                    assert(es.take(i as int)[k] == es[k]);
                } else {
                    assert(out@[k] == outcome);
                }
            }
            assert(models_of(out@) =~= plan_seq(es.take(i + 1)));
        }
        i += 1;
    }
    proof {
        assert(es.take(es.len() as int) =~= es);
    }
    (out, None)
}

} // verus!
