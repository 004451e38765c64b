//! Where an entry's bytes are: which pack file, and where in it.

use vstd::prelude::*;
use vstd::string::*;
use crate::text::{padded_decimal, signed_decimal, string_of_chars, zero_padded};

verus! {

/// The number of bytes at the start of a pack file that precede its payloads.
pub const HEADER_SKIP: u64 = 0x30;

/// A pack id as it stands in a file name: decimal, filled with `0` to three
/// characters.
pub open spec fn pack_number(id: int) -> Seq<char> {
    zero_padded(signed_decimal(id), 3)
}

/// The file name of a pack.
pub open spec fn pack_file(id: int) -> Seq<char> {
    "Data"@ + pack_number(id) + ".rsdk"@
}

/// The path of a pack's file in the directory `dir`.
pub open spec fn pack_path(dir: Seq<char>, id: int) -> Seq<char> {
    dir + "/"@ + pack_file(id)
}

/// Writes a pack id as it stands in a file name.
pub fn pack_number_text(id: i64) -> (r: String)
    ensures
        r@ == pack_number(id as int),
{
    let digits: Vec<char> = padded_decimal(id, 3);
    string_of_chars(&digits)
}

/// The file name of a pack.
pub fn pack_file_name(id: i64) -> (r: String)
    ensures
        r@ == pack_file(id as int),
{
    let mut out: String = String::from_str("Data");
    let number: String = pack_number_text(id);
    out.append(number.as_str());
    out.append(".rsdk");
    out
}

/// The path of a pack's file in the directory `dir`.
pub fn pack_file_path(dir: &str, id: i64) -> (r: String)
    ensures
        r@ == pack_path(dir@, id as int),
{
    let mut out: String = String::from_str(dir);
    out.append("/");
    let file: String = pack_file_name(id);
    out.append(file.as_str());
    assert(out@ =~= pack_path(dir@, id as int));
    out
}

/// Where a payload starts in its pack file: its offset past the header.
/// An offset that would put the start before the file's first byte has none.
pub open spec fn start_of(offset: int) -> Option<int> {
    if offset + 0x30 >= 0 {
        Some(offset + 0x30)
    } else {
        None
    }
}

/// Computes where a payload starts in its pack file.
pub fn payload_start(offset: i64) -> (r: Option<u64>)
    ensures
        r.is_some() == start_of(offset as int).is_some(),
        r.is_some() ==> r.unwrap() as int == start_of(offset as int).unwrap(),
{
    if offset < -0x30 {
        None
    } else if offset < 0 {
        Some((offset + 0x30) as u64)
    } else {
        Some(offset as u64 + HEADER_SKIP)
    }
}

/// The length of a payload as a buffer size; none for a negative size or
/// one that no buffer can have.
pub fn payload_len(size: i64) -> (r: Option<usize>)
    ensures
        r.is_some() == (0 <= size <= usize::MAX),
        r.is_some() ==> r.unwrap() as int == size as int,
{
    if size < 0 {
        None
    } else if size as u64 > usize::MAX as u64 {
        None
    } else {
        Some(size as usize)
    }
}

/// Follows the pack ids of the rows, which come in ascending order, and says
/// when another pack file has to be opened.
pub struct PackRouter {
    pub current: i64,
}

impl PackRouter {
    /// A router whose current pack is `id`. Give it the id of the pack that
    /// is already open, or one that no row has where none is.
    pub fn starting_at(id: i64) -> (r: Self)
        ensures
            r.current == id,
    {
        PackRouter { current: id }
    }

    /// Takes the pack id of the next row. Where it differs from the current
    /// one it becomes the current one, and the name of the file to open in
    /// place of the one that is open comes back.
    pub fn ensure_open(&mut self, pack_id: i64) -> (r: Option<String>)
        ensures
            final(self).current == pack_id,
            r.is_some() == (pack_id != old(self).current),
            r.is_some() ==> r.unwrap()@ == pack_file(pack_id as int),
    {
        if pack_id != self.current {
            self.current = pack_id;
            Some(pack_file_name(pack_id))
        } else {
            None
        }
    }
}

} // verus!
