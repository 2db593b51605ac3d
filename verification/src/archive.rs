use vstd::prelude::*;
use crate::errors::UpdateError;
use crate::paths::lemma_bytes_deep_view;
use std::io::Cursor;
use zip::CompressionMethod;

verus! {

/// An archive entry as the reader reports it: `None` when the entry's
/// metadata cannot be read at all; otherwise its name and, when
/// decompression succeeds, its bytes.
pub type RawEntry = Option<(Seq<u8>, Option<Seq<u8>>)>;

/// One entry of an update archive.
pub enum ArchiveEntry {
    /// A readable entry: its declared name and its decompressed bytes.
    File { name: Vec<u8>, data: Vec<u8> },
    /// An entry whose bytes cannot be decompressed.
    Corrupt { name: Vec<u8> },
    /// An entry whose metadata cannot be read.
    Unreadable,
}

/// The mathematical form of an archive entry.
pub enum EntryModel {
    File { name: Seq<u8>, data: Seq<u8> },
    Corrupt { name: Seq<u8> },
    Unreadable,
}

impl View for ArchiveEntry {
    type V = EntryModel;

    open spec fn view(&self) -> EntryModel {
        match self {
            ArchiveEntry::File { name, data } => EntryModel::File { name: name@, data: data@ },
            ArchiveEntry::Corrupt { name } => EntryModel::Corrupt { name: name@ },
            ArchiveEntry::Unreadable => EntryModel::Unreadable,
        }
    }
}

/// The entry a raw reading stands for.
pub open spec fn entry_of_raw(r: RawEntry) -> EntryModel {
    match r {
        Option::None => EntryModel::Unreadable,
        Option::Some((name, d)) => match d {
            Option::Some(data) => EntryModel::File { name, data },
            Option::None => EntryModel::Corrupt { name },
        },
    }
}

/// The entries a sequence of raw readings stands for.
pub open spec fn entries_of_raw(rs: Seq<RawEntry>) -> Seq<EntryModel> {
    rs.map_values(|r: RawEntry| entry_of_raw(r))
}

/// The views of a sequence of entries.
pub open spec fn entries_view(es: Seq<ArchiveEntry>) -> Seq<EntryModel> {
    es.map_values(|e: ArchiveEntry| e@)
}

proof fn lemma_entries_of_raw_snoc(rs: Seq<RawEntry>, r: RawEntry)
    ensures
        entries_of_raw(rs.push(r)) == entries_of_raw(rs).push(entry_of_raw(r)),
{
    assert(entries_of_raw(rs.push(r)) =~= entries_of_raw(rs).push(entry_of_raw(r)));
}

proof fn lemma_entries_view_snoc(es: Seq<ArchiveEntry>, e: ArchiveEntry)
    ensures
        entries_view(es.push(e)) == entries_view(es).push(e@),
{
    assert(entries_view(es.push(e)) =~= entries_view(es).push(e@));
}

#[verifier::external_type_specification]
#[verifier::external_body]
#[verifier::reject_recursive_types(R)]
pub struct ExZipArchive<R>(zip::ZipArchive<R>);

#[verifier::external_type_specification]
#[verifier::external_body]
#[verifier::reject_recursive_types(T)]
pub struct ExCursor<T>(Cursor<T>);

/// What reading `bytes` as a zip archive yields: `None` when the central
/// directory cannot be parsed, otherwise one raw reading per entry. The
/// outcome depends on the bytes alone.
pub uninterp spec fn zip_parse(bytes: Seq<u8>) -> Option<Seq<RawEntry>>;

/// The raw readings the entries of an open archive yield.
pub uninterp spec fn zip_raw_entries(a: zip::ZipArchive<Cursor<Vec<u8>>>) -> Seq<RawEntry>;

/// Relies on `zip::ZipArchive::new` over an in-memory cursor: it parses
/// the central directory of `bytes` and fails exactly when that fails;
/// which entries the archive then holds depends on the bytes alone.
#[verifier::external_body]
fn zip_open(bytes: Vec<u8>) -> (r: Option<zip::ZipArchive<Cursor<Vec<u8>>>>)
    ensures
        r is Some <==> zip_parse(bytes@) is Some,
        r matches Some(a) ==> zip_raw_entries(a) == zip_parse(bytes@).unwrap(),
{
    zip::ZipArchive::new(Cursor::new(bytes)).ok()
}

/// Relies on `zip::ZipArchive::len`: the number of entries the central
/// directory lists.
#[verifier::external_body]
fn zip_len(a: &zip::ZipArchive<Cursor<Vec<u8>>>) -> (n: usize)
    ensures
        n == zip_raw_entries(*a).len(),
{
    a.len()
}

/// Relies on `zip::ZipArchive::by_index_decrypt` (with an empty
/// password, so that an entry demanding a password is reported as a
/// value, never unwrapped into a panic as `by_index` would),
/// `zip::read::ZipFile::name`, `zip::read::ZipFile::compression` and
/// `std::io::Read::read_to_end`: entry `i`'s declared name, and its
/// decompressed bytes, which fail to read when the entry is corrupt or
/// truncated (the reader checks the entry's checksum). An entry that
/// cannot be opened — bad metadata or a password demand — is an
/// unreadable entry; one whose compression method the reader does not
/// decompress (anything but stored, deflate, bzip2, zstd — reading any
/// other panics) counts as an entry without readable bytes and is
/// never read. Reading moves the cursor but leaves the archive's
/// entries unchanged. The calls share one wrapper because the entry
/// handle mutably borrows the archive and cannot outlive the call.
#[verifier::external_body]
fn zip_read_entry(a: &mut zip::ZipArchive<Cursor<Vec<u8>>>, i: usize) -> (r: Option<
    (Vec<u8>, Option<Vec<u8>>),
>)
    requires
        i < zip_raw_entries(*old(a)).len(),
    ensures
        zip_raw_entries(*final(a)) == zip_raw_entries(*old(a)),
        r.deep_view() == zip_raw_entries(*old(a))[i as int],
{
    match a.by_index_decrypt(i, b"") {
        Err(_) => None,
        Ok(Err(_)) => None,
        Ok(Ok(mut f)) => {
            let name = f.name().as_bytes().to_vec();
            let supported = matches!(f.compression(),
                CompressionMethod::Stored | CompressionMethod::Deflated
                | CompressionMethod::Bzip2 | CompressionMethod::Zstd);
            let mut buf: Vec<u8> = Vec::new();
            let readable = supported && std::io::Read::read_to_end(&mut f, &mut buf).is_ok();
            Some((name, if readable { Some(buf) } else { None }))
        },
    }
}

/// Read every entry of the archive held in `bytes`. Fails exactly when
/// the bytes do not parse as a zip archive; a single unreadable or
/// corrupt entry is reported in its place in the result instead, so the
/// caller decides its fate.
pub fn load_entries(bytes: Vec<u8>) -> (r: Result<Vec<ArchiveEntry>, UpdateError>)
    ensures
        r is Ok <==> zip_parse(bytes@) is Some,
        r matches Ok(es) ==> entries_view(es@) == entries_of_raw(zip_parse(bytes@).unwrap()),
        r matches Err(e) ==> e == UpdateError::ArchiveUnreadable,
{
    let mut a = match zip_open(bytes) {
        Option::None => {
            return Err(UpdateError::ArchiveUnreadable);
        },
        Option::Some(a) => a,
    };
    let ghost raws = zip_raw_entries(a);
    let n: usize = zip_len(&a);
    let mut es: Vec<ArchiveEntry> = Vec::new();
    let mut i: usize = 0;
    proof {
        assert(entries_view(es@) =~= entries_of_raw(raws.take(0)));
    }
    while i < n
        invariant
            0 <= i <= n,
            n == raws.len(),
            zip_raw_entries(a) == raws,
            entries_view(es@) == entries_of_raw(raws.take(i as int)),
        decreases n - i,
    {
        let raw = zip_read_entry(&mut a, i);
        let e = match raw {
            Option::None => ArchiveEntry::Unreadable,
            Option::Some((name, Option::Some(data))) => {
                proof {
                    lemma_bytes_deep_view(&name);
                    lemma_bytes_deep_view(&data);
                }
                ArchiveEntry::File { name, data }
            },
            Option::Some((name, Option::None)) => {
                proof {
                    lemma_bytes_deep_view(&name);
                }
                ArchiveEntry::Corrupt { name }
            },
        };
        proof {
            assert(e@ == entry_of_raw(raws[i as int]));
        }
        let ghost pre = es@;
        es.push(e);
        proof {
            assert(es@ == pre.push(e));
            lemma_entries_view_snoc(pre, e);
            assert(raws.take(i + 1) =~= raws.take(i as int).push(raws[i as int]));
            lemma_entries_of_raw_snoc(raws.take(i as int), raws[i as int]);
            assert(entries_view(es@) == entries_of_raw(raws.take(i + 1)));
        }
        i = i + 1;
    }
    proof {
        assert(raws.take(n as int) =~= raws);
    }
    Ok(es)
}

} // verus!
