//! Reading a compressed archive: raw bytes in, entries (name and
//! decompressed content) out. The zip crate does the container parsing and
//! decompression behind trusted wrappers; what the entries are is named by
//! `zip_entries`, a function of the bytes alone.

use crate::engine::{
    entries_view, extract_entries, init_state, run_entries, ArchiveEntry, ArchiveError,
    ExtractionReport,
};
use crate::tree::DestTree;
use vstd::prelude::*;

verus! {

#[verifier::external_type_specification]
#[verifier::external_body]
#[verifier::reject_recursive_types(R)]
pub struct ExZipArchive<R>(zip::ZipArchive<R>);

#[verifier::external_type_specification]
#[verifier::external_body]
pub struct ExZipError(zip::result::ZipError);

#[verifier::external_type_specification]
#[verifier::external_body]
#[verifier::reject_recursive_types(T)]
pub struct ExCursor<T>(std::io::Cursor<T>);

/// Do these bytes hold an archive whose container structure parses? A
/// function of the bytes alone.
pub uninterp spec fn zip_wf(bytes: Seq<u8>) -> bool;

/// The entries that an archive with these bytes holds: each entry's declared
/// name and decompressed content, in the archive's native enumeration order.
/// A function of the bytes alone.
pub uninterp spec fn zip_entries(bytes: Seq<u8>) -> Seq<(Seq<u8>, Seq<u8>)>;

/// Can entry `i` of an archive with these bytes be read out in full
/// (supported compression, sound stream)? A function of the bytes and the
/// index alone.
pub uninterp spec fn zip_entry_readable(bytes: Seq<u8>, i: int) -> bool;

/// Every entry of an archive with these bytes can be read out.
pub open spec fn zip_all_readable(bytes: Seq<u8>) -> bool {
    forall|i: int| 0 <= i < zip_entries(bytes).len() ==> zip_entry_readable(bytes, i)
}

/// The entries behind an opened archive handle.
pub uninterp spec fn archive_entries(ar: zip::ZipArchive<std::io::Cursor<Vec<u8>>>) -> Seq<
    (Seq<u8>, Seq<u8>),
>;

/// The bytes an archive handle was opened from.
pub uninterp spec fn archive_source(ar: zip::ZipArchive<std::io::Cursor<Vec<u8>>>) -> Seq<u8>;

/// Relies on zip::ZipArchive::new: it reads the archive's central directory
/// from the bytes behind the cursor, deterministically in the bytes, so it
/// succeeds exactly on parseable bytes and the opened archive holds exactly
/// the entries of those bytes.
#[verifier::external_body]
fn open_archive(bytes: Vec<u8>) -> (r: Result<
    zip::ZipArchive<std::io::Cursor<Vec<u8>>>,
    zip::result::ZipError,
>)
    ensures
        r is Ok <==> zip_wf(bytes@),
        r matches Ok(ar) ==> archive_entries(ar) == zip_entries(bytes@) && archive_source(ar)
            == bytes@,
{
    zip::ZipArchive::new(std::io::Cursor::new(bytes))
}

/// Relies on zip::ZipArchive::len: the number of entries in the archive.
#[verifier::external_body]
fn archive_len(ar: &zip::ZipArchive<std::io::Cursor<Vec<u8>>>) -> (r: usize)
    ensures
        r == archive_entries(*ar).len(),
{
    ar.len()
}

/// Relies on zip::ZipArchive::by_index for the entry and on its Read
/// implementation (std::io::Read::read_to_end) for the decompressed content;
/// the entry's declared name comes from zip::read::ZipFile::name. Reading an
/// in-memory archive is deterministic in its bytes and the index, and
/// mutates only the archive's cursor, never which entries it holds.
#[verifier::external_body]
fn read_entry(ar: &mut zip::ZipArchive<std::io::Cursor<Vec<u8>>>, i: usize) -> (r: Result<
    ArchiveEntry,
    ArchiveError,
>)
    requires
        i < archive_entries(*old(ar)).len(),
    ensures
        archive_entries(*final(ar)) == archive_entries(*old(ar)),
        archive_source(*final(ar)) == archive_source(*old(ar)),
        r is Ok <==> zip_entry_readable(archive_source(*old(ar)), i as int),
        r matches Ok(e) ==> (e.name@, e.data@) == archive_entries(*old(ar))[i as int],
        r matches Err(e) ==> e == ArchiveError::Io,
{
    let mut f = match ar.by_index(i) {
        Ok(f) => f,
        Err(_) => return Err(ArchiveError::Io),
    };
    let name = f.name().as_bytes().to_vec();
    let mut data = Vec::new();
    match std::io::Read::read_to_end(&mut f, &mut data) {
        Ok(_) => Ok(ArchiveEntry { name, data }),
        Err(_) => Err(ArchiveError::Io),
    }
}

/// Opens raw archive bytes and reads out every entry, in the archive's
/// native order. Succeeds exactly when the container parses and every entry
/// can be read: a container that cannot be parsed is `Corrupt`, an entry
/// that cannot be read is `Io`.
#[verifier::loop_isolation(false)]
pub fn read_archive_entries(bytes: Vec<u8>) -> (r: Result<Vec<ArchiveEntry>, ArchiveError>)
    ensures
        r is Ok <==> zip_wf(bytes@) && zip_all_readable(bytes@),
        r matches Ok(v) ==> entries_view(v@) == zip_entries(bytes@),
        r == Err::<Vec<ArchiveEntry>, ArchiveError>(ArchiveError::Corrupt) <==> !zip_wf(bytes@),
        r == Err::<Vec<ArchiveEntry>, ArchiveError>(ArchiveError::Io) <==> zip_wf(bytes@)
            && !zip_all_readable(bytes@),
{
    let ghost bs = bytes@;
    let mut ar = match open_archive(bytes) {
        Ok(a) => a,
        Err(_) => {
            return Err(ArchiveError::Corrupt);
        },
    };
    let n = archive_len(&ar);
    let mut out: Vec<ArchiveEntry> = Vec::new();
    let mut i: usize = 0;
    while i < n
        invariant
            i <= n,
            archive_entries(ar) == zip_entries(bs),
            archive_source(ar) == bs,
            zip_wf(bs),
            n == zip_entries(bs).len(),
            out@.len() == i,
            forall|j: int| 0 <= j < i ==> (#[trigger] out@[j])@ == zip_entries(bs)[j],
            forall|j: int| 0 <= j < i ==> zip_entry_readable(bs, j),
        decreases n - i,
    {
        match read_entry(&mut ar, i) {
            Ok(e) => {
                out.push(e);
            },
            Err(er) => {
                proof {
                    assert(!zip_entry_readable(bs, i as int));
                    assert(!zip_all_readable(bs));
                }
                return Err(er);
            },
        }
        i += 1;
    }
    proof {
        assert(entries_view(out@) =~= zip_entries(bs));
    }
    Ok(out)
}

/// The archive synchronizer: opens the raw archive bytes and extracts every
/// entry not already present into the destination tree. Succeeds exactly
/// when the container parses, every entry can be read, and no ancestor
/// conflict aborts the extraction. A container that cannot be parsed is
/// `Corrupt` and leaves the tree untouched; an entry that cannot be read is
/// `Io` and leaves the tree untouched; an ancestor conflict is `Io` and
/// leaves the entries extracted so far in place.
pub fn sync(tree: &mut DestTree, archive_bytes: Vec<u8>) -> (r: Result<
    ExtractionReport,
    ArchiveError,
>)
    requires
        old(tree).wf(),
    ensures
        final(tree).wf(),
        r is Ok <==> zip_wf(archive_bytes@) && zip_all_readable(archive_bytes@) && !run_entries(
            init_state(old(tree)@),
            zip_entries(archive_bytes@),
        ).failed,
        r matches Ok(rep) ==> ({
            let fin = run_entries(init_state(old(tree)@), zip_entries(archive_bytes@));
            &&& final(tree)@ == fin.tree
            &&& rep.created as nat == fin.created
            &&& rep.skipped as nat == fin.skipped
            &&& rep.rejected as nat == fin.rejected
        }),
        r == Err::<ExtractionReport, ArchiveError>(ArchiveError::Corrupt) <==> !zip_wf(
            archive_bytes@,
        ),
        !zip_wf(archive_bytes@) ==> final(tree)@ == old(tree)@,
        zip_wf(archive_bytes@) && !zip_all_readable(archive_bytes@) ==> r == Err::<
            ExtractionReport,
            ArchiveError,
        >(ArchiveError::Io) && final(tree)@ == old(tree)@,
        zip_wf(archive_bytes@) && zip_all_readable(archive_bytes@) && run_entries(
            init_state(old(tree)@),
            zip_entries(archive_bytes@),
        ).failed ==> r == Err::<ExtractionReport, ArchiveError>(ArchiveError::Io) && final(tree)@
            == run_entries(init_state(old(tree)@), zip_entries(archive_bytes@)).tree,
{
    let ghost bs = archive_bytes@;
    let entries = match read_archive_entries(archive_bytes) {
        Ok(v) => v,
        Err(e) => {
            return Err(e);
        },
    };
    extract_entries(tree, &entries)
}

} // verus!
