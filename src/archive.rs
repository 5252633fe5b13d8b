//! The archive reader of the `mila` crate, as the disassembler uses it.

use vstd::prelude::*;

verus! {

#[verifier::external_type_specification]
#[verifier::external_body]
pub struct ExBinArchive(mila::BinArchive);

#[verifier::external_type_specification]
#[verifier::external_body]
pub struct ExArchiveError(mila::ArchiveError);

/// The little-endian `u32` at `off` in `b`.
pub open spec fn le_u32(b: Seq<u8>, off: int) -> int {
    b[off] as int + b[off + 1] as int * 0x100 + b[off + 2] as int * 0x10000
        + b[off + 3] as int * 0x1000000
}

/// Whether the header sizes of an archive image fit the reader's 32-bit
/// arithmetic: data size plus 4 bytes per pointer plus 8 per label.
pub open spec fn header_sizes_fit(b: Seq<u8>) -> bool {
    b.len() >= 0x20 ==> le_u32(b, 4) + le_u32(b, 8) * 4 + le_u32(b, 12) * 8 <= u32::MAX
}

/// The data bytes that a parsed archive holds.
pub uninterp spec fn archive_data(a: mila::BinArchive) -> Seq<u8>;

/// The pointers that a parsed archive holds, by the offset they stand at.
pub uninterp spec fn archive_pointers(a: mila::BinArchive) -> Map<usize, usize>;

/// The label lists that a parsed archive holds, by offset.
pub uninterp spec fn archive_labels(a: mila::BinArchive) -> Map<usize, Seq<Seq<char>>>;

/// The text entries that a parsed archive holds, by the offset of the
/// pointer that refers to them.
pub uninterp spec fn archive_texts(a: mila::BinArchive) -> Map<usize, Seq<char>>;

/// The pointers that `mila::BinArchive::from_bytes` reads from an image.
pub uninterp spec fn image_pointers(image: Seq<u8>) -> Map<usize, usize>;

/// The label lists that `mila::BinArchive::from_bytes` reads from an image.
pub uninterp spec fn image_labels(image: Seq<u8>) -> Map<usize, Seq<Seq<char>>>;

/// The text entries that `mila::BinArchive::from_bytes` reads from an image.
pub uninterp spec fn image_texts(image: Seq<u8>) -> Map<usize, Seq<char>>;

/// Whether `mila::BinArchive::from_bytes` reads the image without error.
pub uninterp spec fn image_parses(image: Seq<u8>) -> bool;

/// The data section of an archive image: the data size is the header's
/// second little-endian `u32`, and the data follows the 0x20-byte header.
pub open spec fn image_data(image: Seq<u8>) -> Seq<u8> {
    image.subrange(0x20, 0x20 + le_u32(image, 4))
}

/// The value at `k`, if `m` has one.
pub open spec fn lookup<V>(m: Map<usize, V>, k: usize) -> Option<V> {
    if m.contains_key(k) { Some(m[k]) } else { None }
}

/// Whether a word read at `address` passes the reader's checks: aligned to
/// 4 and within the data.
pub open spec fn word_in(a: mila::BinArchive, address: usize) -> bool {
    address % 4 == 0 && address + 4 <= archive_data(a).len()
}

/// Relies on `mila::BinArchive::from_bytes`, which reads an archive image:
/// the data is the image's data section, and the pointers, labels and text
/// entries are those it reads from the image's tables. It computes the
/// header's section sizes in `u32`, so images whose sizes overflow there
/// are left out.
#[verifier::external_body]
pub(crate) fn parse_archive(bytes: &[u8]) -> (r: Result<mila::BinArchive, mila::ArchiveError>)
    requires
        header_sizes_fit(bytes@),
    ensures
        r is Ok <==> image_parses(bytes@),
        r matches Ok(a) ==> {
            &&& bytes@.len() >= 0x20
            &&& 0x20 + le_u32(bytes@, 4) <= bytes@.len()
            &&& archive_data(a) == image_data(bytes@)
            &&& archive_pointers(a) == image_pointers(bytes@)
            &&& archive_labels(a) == image_labels(bytes@)
            &&& archive_texts(a) == image_texts(bytes@)
        },
{
    mila::BinArchive::from_bytes(bytes)
}

/// Relies on `mila::BinArchive::size`: the length of the archive's data.
#[verifier::external_body]
pub(crate) fn archive_size(archive: &mila::BinArchive) -> (r: usize)
    ensures
        r == archive_data(*archive).len(),
{
    archive.size()
}

/// Relies on `mila::BinArchive::read_pointer`: the in-archive offset that
/// the pointer stored at `address` resolves to, if one is stored there. It
/// fails exactly on an address that is unaligned or not within the data.
#[verifier::external_body]
pub(crate) fn read_pointer(archive: &mila::BinArchive, address: usize) -> (r: Result<
    Option<usize>,
    mila::ArchiveError,
>)
    requires
        address + 4 <= usize::MAX,
    ensures
        r is Ok <==> word_in(*archive, address),
        r matches Ok(p) ==> p == lookup(archive_pointers(*archive), address),
{
    archive.read_pointer(address)
}

/// Relies on `mila::BinArchive::read_labels`: the labels attached at
/// `address`, in the archive's order. It fails exactly on an address that
/// is unaligned or not within the data.
#[verifier::external_body]
pub(crate) fn read_labels(archive: &mila::BinArchive, address: usize) -> (r: Result<
    Option<Vec<String>>,
    mila::ArchiveError,
>)
    requires
        address + 4 <= usize::MAX,
    ensures
        r is Ok <==> word_in(*archive, address),
        r matches Ok(None) ==> !archive_labels(*archive).contains_key(address),
        r matches Ok(Some(v)) ==> archive_labels(*archive).contains_key(address)
            && v@.map_values(|l: String| l@) == archive_labels(*archive)[address],
{
    archive.read_labels(address)
}

/// Relies on `mila::BinArchive::read_string`: the text entry that the
/// pointer stored at `address` refers to, if any. The entry stands in that
/// one word of the archive's data. It fails exactly on an address that is
/// unaligned or not within the data.
#[verifier::external_body]
pub(crate) fn read_string(archive: &mila::BinArchive, address: usize) -> (r: Result<
    Option<String>,
    mila::ArchiveError,
>)
    requires
        address + 4 <= usize::MAX,
    ensures
        r is Ok <==> word_in(*archive, address),
        r matches Ok(None) ==> !archive_texts(*archive).contains_key(address),
        r matches Ok(Some(t)) ==> archive_texts(*archive).contains_key(address)
            && t@ == archive_texts(*archive)[address],
{
    archive.read_string(address)
}

/// Relies on `mila::BinArchive::read_bytes`: the `amount` bytes of data
/// from `address` on. It fails exactly when they do not lie within the data.
#[verifier::external_body]
pub(crate) fn read_bytes(archive: &mila::BinArchive, address: usize, amount: usize) -> (r: Result<
    Vec<u8>,
    mila::ArchiveError,
>)
    requires
        address + amount <= usize::MAX,
    ensures
        r is Ok <==> (address < archive_data(*archive).len() && address + amount <= archive_data(*archive).len()),
        r matches Ok(v) ==> v@ == archive_data(*archive).subrange(address as int, address + amount),
{
    archive.read_bytes(address, amount).map(|b| b.to_vec())
}

/// Relies on `String::from_utf8_lossy`: ASCII bytes are valid UTF-8, and
/// each stands for the character of the same code.
#[verifier::external_body]
pub(crate) fn ascii_string(bytes: &[u8]) -> (r: String)
    ensures
        (forall|k: int| 0 <= k < bytes@.len() ==> bytes@[k] < 0x80) ==>
            r@ == bytes@.map_values(|b: u8| b as char),
{
    String::from_utf8_lossy(bytes).into_owned()
}

/// Whether the header sizes of an archive image fit 32 bits.
pub fn header_fits(raw: &[u8]) -> (r: bool)
    ensures
        r == header_sizes_fit(raw@),
{
    if raw.len() >= 0x20 {
        let data = raw[4] as u64 + raw[5] as u64 * 0x100 + raw[6] as u64 * 0x10000
            + raw[7] as u64 * 0x1000000;
        let pointers = raw[8] as u64 + raw[9] as u64 * 0x100 + raw[10] as u64 * 0x10000
            + raw[11] as u64 * 0x1000000;
        let labels = raw[12] as u64 + raw[13] as u64 * 0x100 + raw[14] as u64 * 0x10000
            + raw[15] as u64 * 0x1000000;
        proof {
            assert(data == le_u32(raw@, 4));
            assert(pointers == le_u32(raw@, 8));
            assert(labels == le_u32(raw@, 12));
        }
        data + pointers * 4 + labels * 8 <= 0xffff_ffff
    } else {
        true
    }
}

} // verus!
