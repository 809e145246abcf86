//! Reading the files of an EPUB's ZIP archive into memory, with caps on
//! the size of each file and of all files together.
use vstd::prelude::*;

use super::resources::{resource_views, Resource};
use crate::models::book::{AdapterError, AdapterErrorView};

verus! {

/// The largest uncompressed size of one archive file that is read.
pub const MAX_EPUB_ENTRY_SIZE: u64 = 64 * 1024 * 1024;

/// The largest uncompressed size of all archive files together.
pub const MAX_EPUB_TOTAL_SIZE: u64 = 512 * 1024 * 1024;

#[verifier::external_type_specification]
#[verifier::external_body]
#[verifier::reject_recursive_types(R)]
pub struct ExZipArchive<R>(zip::ZipArchive<R>);

#[verifier::external_type_specification]
#[verifier::external_body]
#[verifier::reject_recursive_types(T)]
pub struct ExCursor<T>(std::io::Cursor<T>);

/// An archive over the bytes of an EPUB file.
pub type EpubArchive = zip::ZipArchive<std::io::Cursor<Vec<u8>>>;

/// What the header of an archive entry tells.
pub struct ZipHeaderView {
    pub is_file: bool,
    pub size: u64,
    /// The entry's name, when it decodes.
    pub name: Option<Seq<char>>,
}

/// One entry of an archive: its header, when the entry can be opened, and
/// its uncompressed contents, when they can be read.
pub struct ZipEntryView {
    pub header: Option<ZipHeaderView>,
    pub data: Option<Seq<u8>>,
}

/// The entries that an archive holds, in archive order.
pub uninterp spec fn zip_entries(archive: EpubArchive) -> Seq<ZipEntryView>;

/// What `zip::ZipArchive::new` makes of the bytes: the archive's entries, or
/// the error's message.
pub uninterp spec fn zip_opened(bytes: Seq<u8>) -> Result<Seq<ZipEntryView>, Seq<char>>;

/// Opens the archive with `zip::ZipArchive::new` over a `Cursor`. The entries
/// of the archive are those that `zip_opened` names.
#[verifier::external_body]
fn open_archive(bytes: Vec<u8>) -> (res: Result<EpubArchive, String>)
    ensures
        match res {
            Ok(a) => zip_opened(bytes@) == Ok::<Seq<ZipEntryView>, Seq<char>>(zip_entries(a)),
            Err(e) => zip_opened(bytes@) == Err::<Seq<ZipEntryView>, Seq<char>>(e@),
        },
{
    zip::ZipArchive::new(std::io::Cursor::new(bytes)).map_err(|e| e.to_string())
}

/// `ZipArchive::len`: the number of entries.
#[verifier::external_body]
fn archive_len(archive: &EpubArchive) -> (res: usize)
    ensures
        res == zip_entries(*archive).len(),
{
    archive.len()
}

/// The header of an entry, as the adapter reads it.
pub struct ZipHeader {
    pub is_file: bool,
    pub size: u64,
    pub name: Option<String>,
}

/// Opens entry `i` with `ZipArchive::by_index` and reads its header
/// (`is_file`, `size`, `name`). `None` when the entry cannot be opened.
/// Reading does not change what the archive holds.
#[verifier::external_body]
fn entry_header(archive: &mut EpubArchive, i: usize) -> (res: Option<ZipHeader>)
    requires
        i < zip_entries(*old(archive)).len(),
    ensures
        zip_entries(*final(archive)) == zip_entries(*old(archive)),
        match res {
            Some(h) => zip_entries(*old(archive))[i as int].header == Some(
                ZipHeaderView {
                    is_file: h.is_file,
                    size: h.size,
                    name: match h.name {
                        Some(n) => Some(n@),
                        None => None,
                    },
                },
            ),
            None => zip_entries(*old(archive))[i as int].header is None,
        },
{
    match archive.by_index(i) {
        Ok(entry) => Some(ZipHeader {
            is_file: entry.is_file(),
            size: entry.size(),
            name: entry.name().ok().map(|n| n.into_owned()),
        }),
        Err(_) => None,
    }
}

/// Opens entry `i` with `ZipArchive::by_index` and reads its contents with
/// `Read::read_to_end`. `None` when it cannot be opened or read. Reading
/// does not change what the archive holds.
#[verifier::external_body]
fn entry_data(archive: &mut EpubArchive, i: usize) -> (res: Option<Vec<u8>>)
    requires
        i < zip_entries(*old(archive)).len(),
    ensures
        zip_entries(*final(archive)) == zip_entries(*old(archive)),
        match res {
            Some(d) => zip_entries(*old(archive))[i as int].data == Some(d@),
            None => zip_entries(*old(archive))[i as int].data is None,
        },
{
    let mut entry = archive.by_index(i).ok()?;
    let mut buf = Vec::new();
    std::io::Read::read_to_end(&mut entry, &mut buf).ok()?;
    Some(buf)
}

/// The files read from the first `k` entries and their total declared size,
/// or `None` once a file is over the size caps. Entries that cannot be
/// opened, and entries that are not files, are skipped; so are files whose
/// name or contents cannot be read, after their size is counted.
pub open spec fn loaded_upto(entries: Seq<ZipEntryView>, k: int) -> Option<(Seq<(Seq<char>, Seq<u8>)>, int)>
    decreases k,
{
    if k <= 0 {
        Some((Seq::empty(), 0))
    } else {
        match loaded_upto(entries, k - 1) {
            None => None,
            Some((rs, total)) => match entries[k - 1].header {
                None => Some((rs, total)),
                Some(h) => if !h.is_file {
                    Some((rs, total))
                } else if h.size > MAX_EPUB_ENTRY_SIZE || total + h.size > MAX_EPUB_TOTAL_SIZE {
                    None
                } else {
                    match (h.name, entries[k - 1].data) {
                        (Some(n), Some(d)) => Some((rs.push((n, d)), total + h.size)),
                        _ => Some((rs, total + h.size)),
                    }
                },
            },
        }
    }
}

/// The message for an EPUB over the size caps.
pub open spec fn too_large_message() -> Seq<char> {
    "EPUB too large to open safely"@
}

/// The files of an EPUB archive, in archive order, or the error that
/// opening it gives.
pub open spec fn archive_files(bytes: Seq<u8>) -> Result<Seq<(Seq<char>, Seq<u8>)>, AdapterErrorView> {
    match zip_opened(bytes) {
        Err(msg) => Err(AdapterErrorView::ParseError(msg)),
        Ok(entries) => match loaded_upto(entries, entries.len() as int) {
            None => Err(AdapterErrorView::ParseError(too_large_message())),
            Some((rs, _)) => Ok(rs),
        },
    }
}

/// An archive with a file larger than the per-file cap is refused as too
/// large, whatever else it holds.
pub proof fn law_oversized_entry_refused(bytes: Seq<u8>, k: int)
    requires
        zip_opened(bytes) matches Ok(entries) && 0 <= k < entries.len() && (entries[k].header matches Some(h)
            && h.is_file && h.size > MAX_EPUB_ENTRY_SIZE),
    ensures
        archive_files(bytes) == Err::<Seq<(Seq<char>, Seq<u8>)>, AdapterErrorView>(
            AdapterErrorView::ParseError(too_large_message()),
        ),
{
    let entries = zip_opened(bytes)->Ok_0;
    assert(loaded_upto(entries, k + 1) is None);
    lemma_loaded_none_stays(entries, k + 1, entries.len() as int);
}

proof fn lemma_loaded_total(entries: Seq<ZipEntryView>, k: int)
    ensures
        loaded_upto(entries, k) matches Some((rs, total)) ==> 0 <= total <= MAX_EPUB_TOTAL_SIZE,
    decreases k,
{
    if k > 0 {
        lemma_loaded_total(entries, k - 1);
    }
}

/// Reads the files of an EPUB archive into memory.
pub fn load_resources(bytes: Vec<u8>) -> (res: Result<Vec<Resource>, AdapterError>)
    ensures
        match res {
            Ok(rs) => archive_files(bytes@) == Ok::<Seq<(Seq<char>, Seq<u8>)>, AdapterErrorView>(resource_views(rs@)),
            Err(e) => archive_files(bytes@) == Err::<Seq<(Seq<char>, Seq<u8>)>, AdapterErrorView>(e@),
        },
{
    let ghost raw = bytes@;
    let mut archive = match open_archive(bytes) {
        Ok(a) => a,
        Err(msg) => return Err(AdapterError::ParseError(msg)),
    };
    let ghost entries = zip_entries(archive);
    let n = archive_len(&archive);
    let mut resources: Vec<Resource> = Vec::new();
    let mut total: u64 = 0;
    let mut i: usize = 0;
    assert(resource_views(resources@) =~= Seq::<(Seq<char>, Seq<u8>)>::empty());
    while i < n
        invariant
            i <= n,
            n == entries.len(),
            raw == bytes@,
            zip_opened(raw) == Ok::<Seq<ZipEntryView>, Seq<char>>(entries),
            zip_entries(archive) == entries,
            loaded_upto(entries, i as int) == Some((resource_views(resources@), total as int)),
        decreases n - i,
    {
        proof {
            lemma_loaded_total(entries, i as int);
        }
        let header = match entry_header(&mut archive, i) {
            Some(h) => h,
            None => {
                i = i + 1;
                continue;
            },
        };
        if !header.is_file {
            i = i + 1;
            continue;
        }
        if header.size > MAX_EPUB_ENTRY_SIZE || header.size > MAX_EPUB_TOTAL_SIZE - total {
            proof {
                lemma_loaded_none_stays(entries, (i + 1) as int, n as int);
            }
            return Err(AdapterError::ParseError("EPUB too large to open safely".to_string()));
        }
        total = total + header.size;
        let ghost before = resources@;
        match header.name {
            Some(name) => match entry_data(&mut archive, i) {
                Some(data) => {
                    resources.push(Resource { name, bytes: data });
                    assert(resource_views(resources@) =~= resource_views(before).push(
                        (resources@.last().name@, resources@.last().bytes@),
                    ));
                },
                None => {},
            },
            None => {},
        }
        i = i + 1;
    }
    Ok(resources)
}

/// Once over the caps, the loading stays failed.
proof fn lemma_loaded_none_stays(entries: Seq<ZipEntryView>, k: int, n: int)
    requires
        k <= n,
        loaded_upto(entries, k) is None,
    ensures
        loaded_upto(entries, n) is None,
    decreases n - k,
{
    if k < n {
        lemma_loaded_none_stays(entries, k + 1, n);
    }
}

} // verus!
