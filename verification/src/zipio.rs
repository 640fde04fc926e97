//! Trusted shims over the zip crate. An archive lives in memory, so each
//! shim reopens it; every result is a function of the archive bytes and
//! the entry index alone.

use vstd::prelude::*;

verus! {

/// How many entries the archive holds; `None` when the bytes are not a
/// readable ZIP archive.
pub uninterp spec fn zip_count_of(data: Seq<u8>) -> Option<usize>;

/// The name of the entry at an index; `None` when the entry cannot be
/// opened.
pub uninterp spec fn zip_name_of(data: Seq<u8>, i: int) -> Option<Seq<char>>;

/// The declared (uncompressed, compressed) sizes of the entry at an
/// index.
pub uninterp spec fn zip_sizes_of(data: Seq<u8>, i: int) -> Option<(u64, u64)>;

/// The decompressed bytes of the entry at an index; `None` when reading
/// fails (a bad index, a corrupt stream, a checksum mismatch).
pub uninterp spec fn zip_data_of(data: Seq<u8>, i: int) -> Option<Seq<u8>>;

/// Relies on `zip::ZipArchive::new` and `ZipArchive::len`: opening an
/// in-memory archive and counting its entries depends on the bytes alone.
#[verifier::external_body]
pub fn zip_len(data: &[u8]) -> (r: Option<usize>)
    ensures
        r == zip_count_of(data@),
{
    match zip::ZipArchive::new(std::io::Cursor::new(data)) {
        Ok(z) => Some(z.len()),
        Err(_) => None,
    }
}

/// Relies on `zip::ZipArchive::by_index_raw` and `ZipFile::name`: the
/// stored name of one entry.
#[verifier::external_body]
pub fn zip_entry_name(data: &[u8], i: usize) -> (r: Option<String>)
    ensures
        crate::codec::opt_view(r) == zip_name_of(data@, i as int),
{
    let mut z = zip::ZipArchive::new(std::io::Cursor::new(data)).ok()?;
    let f = z.by_index_raw(i).ok()?;
    Some(f.name().to_string())
}

/// Relies on `zip::ZipFile::size` and `ZipFile::compressed_size`: the
/// sizes an entry's header declares.
#[verifier::external_body]
pub fn zip_entry_sizes(data: &[u8], i: usize) -> (r: Option<(u64, u64)>)
    ensures
        r == zip_sizes_of(data@, i as int),
{
    let mut z = zip::ZipArchive::new(std::io::Cursor::new(data)).ok()?;
    let f = z.by_index_raw(i).ok()?;
    Some((f.size(), f.compressed_size()))
}

/// Relies on `zip::ZipArchive::by_index` and `std::io::Read::read_to_end`:
/// the decompressed contents of one entry, checksum verified.
#[verifier::external_body]
pub fn zip_entry_data(data: &[u8], i: usize) -> (r: Option<Vec<u8>>)
    ensures
        match r {
            Option::Some(v) => zip_data_of(data@, i as int) == Option::Some(v@),
            Option::None => zip_data_of(data@, i as int) is None,
        },
{
    let mut z = zip::ZipArchive::new(std::io::Cursor::new(data)).ok()?;
    let mut f = z.by_index(i).ok()?;
    let mut out = Vec::new();
    std::io::Read::read_to_end(&mut f, &mut out).ok()?;
    Some(out)
}

} // verus!
