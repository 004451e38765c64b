//! The lines of the report.

use vstd::prelude::*;
use vstd::string::*;
use crate::dictionary::NameDictionary;
use crate::router::{pack_number, pack_number_text};

verus! {

/// The line for a row that was resolved.
pub open spec fn row_text(hash: Seq<char>, name: Seq<char>) -> Seq<char> {
    hash + " - "@ + name
}

/// The line for a row whose payload could not be read.
pub open spec fn error_text(hash: Seq<char>, name: Seq<char>, error: Seq<char>) -> Seq<char> {
    hash + " - "@ + name + " - ERROR: "@ + error
}

/// The line for a dictionary entry that no row matched.
pub open spec fn unused_text(hash: Seq<char>, name: Seq<char>) -> Seq<char> {
    hash + " - "@ + name + " - UNUSED"@
}

/// The line for a name found inside a payload.
pub open spec fn guess_text(hash: Seq<char>, name: Seq<char>) -> Seq<char> {
    hash + " --> "@ + name
}

/// The line that opens the rows of a pack.
pub open spec fn pack_header_text(id: int, display: Seq<char>) -> Seq<char> {
    "------------ PACK "@ + pack_number(id) + " - "@ + display + " ------------"@
}

/// The name a pack is shown under: the one filed under its stored name in
/// the table of pack names, or the stored name itself.
pub open spec fn display_of(packs: Map<Seq<char>, (Seq<char>, bool)>, stored: Seq<char>) -> Seq<
    char,
> {
    if packs.contains_key(stored) {
        packs[stored].0
    } else {
        stored
    }
}

/// Writes the line for a row that was resolved.
pub fn row_line(hash: &str, name: &str) -> (r: String)
    ensures
        r@ == row_text(hash@, name@),
{
    let mut out: String = String::from_str(hash);
    out.append(" - ");
    out.append(name);
    out
}

/// Writes the line for a row whose payload could not be read.
pub fn error_line(hash: &str, name: &str, error: &str) -> (r: String)
    ensures
        r@ == error_text(hash@, name@, error@),
{
    let mut out: String = row_line(hash, name);
    out.append(" - ERROR: ");
    out.append(error);
    out
}

/// Writes the line for a dictionary entry that no row matched.
pub fn unused_line(hash: &str, name: &str) -> (r: String)
    ensures
        r@ == unused_text(hash@, name@),
{
    let mut out: String = row_line(hash, name);
    out.append(" - UNUSED");
    out
}

/// Writes the line for a name found inside a payload.
pub fn guess_line(hash: &str, name: &str) -> (r: String)
    ensures
        r@ == guess_text(hash@, name@),
{
    let mut out: String = String::from_str(hash);
    out.append(" --> ");
    out.append(name);
    out
}

/// The name a pack is shown under.
pub fn display_name(packs: &NameDictionary, stored: &str) -> (r: String)
    requires
        packs.wf(),
    ensures
        r@ == display_of(packs@, stored@),
{
    match packs.get(stored) {
        Some(name) => name,
        None => String::from_str(stored),
    }
}

/// Writes the line that opens the rows of a pack.
pub fn pack_header(id: i64, display: &str) -> (r: String)
    ensures
        r@ == pack_header_text(id as int, display@),
{
    let mut out: String = String::from_str("------------ PACK ");
    let number: String = pack_number_text(id);
    out.append(number.as_str());
    out.append(" - ");
    out.append(display);
    out.append(" ------------");
    out
}

/// Writes the end of the report: a blank line, the entries that were never
/// matched, a blank line, the heading of the guessed names, the guessed
/// names, and a blank line.
pub fn closing_lines(unused: &Vec<(String, String)>, guessed: &Vec<(String, String)>) -> (r: Vec<
    String,
>)
    ensures
        r.len() == unused.len() + guessed.len() + 4,
        r[0]@ == ""@,
        forall|k: int|
            0 <= k < unused.len() ==> (#[trigger] r[1 + k])@ == unused_text(unused[k].0@, unused[k].1@),
        r[1 + unused.len()]@ == ""@,
        r[2 + unused.len()]@ == "Guessed names:"@,
        forall|k: int|
            0 <= k < guessed.len() ==> (#[trigger] r[3 + unused.len() + k])@ == guess_text(
                guessed[k].0@,
                guessed[k].1@,
            ),
        r[r.len() - 1]@ == ""@,
{
    let mut out: Vec<String> = Vec::new();
    out.push(String::from_str(""));
    let mut i: usize = 0;
    while i < unused.len()
        invariant
            i <= unused.len(),
            out.len() == 1 + i,
            out[0]@ == ""@,
            forall|k: int| 0 <= k < i ==> (#[trigger] out[1 + k])@ == unused_text(unused[k].0@, unused[k].1@),
        decreases unused.len() - i,
    {
        out.push(unused_line(unused[i].0.as_str(), unused[i].1.as_str()));
        i += 1;
    }
    out.push(String::from_str(""));
    out.push(String::from_str("Guessed names:"));
    let mut j: usize = 0;
    while j < guessed.len()
        invariant
            j <= guessed.len(),
            out.len() == unused.len() + 3 + j,
            out[0]@ == ""@,
            forall|k: int|
                0 <= k < unused.len() ==> (#[trigger] out[1 + k])@ == unused_text(unused[k].0@, unused[k].1@),
            out[1 + unused.len()]@ == ""@,
            out[2 + unused.len()]@ == "Guessed names:"@,
            forall|k: int|
                0 <= k < j ==> (#[trigger] out[3 + unused.len() + k])@ == guess_text(
                    guessed[k].0@,
                    guessed[k].1@,
                ),
        decreases guessed.len() - j,
    {
        out.push(guess_line(guessed[j].0.as_str(), guessed[j].1.as_str()));
        j += 1;
    }
    out.push(String::from_str(""));
    out
}

} // verus!
