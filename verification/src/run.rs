//! The state of one extraction run, and what each row does to it.

use vstd::prelude::*;
use vstd::string::*;
use crate::dictionary::{marked, NameDictionary, Table};
use crate::tally::{after_rows, hit_count, lemma_row_step, miss_count};
use crate::report::{
    display_name, display_of, error_line, error_text, pack_header, pack_header_text, row_line, row_text,
};
use crate::router::{pack_file, PackRouter};
use crate::signature::{
    classify, guessed_name, guessed_text, inferred_suffix, is_structured_text, signature_of,
    structured_text, suffix_for, Signature,
};
use crate::text::{decimal_chars, signed_decimal, string_of_chars};

verus! {

/// The name that a row resolves to before its payload is read.
pub struct Resolved {
    pub name: String,
    pub hit: bool,
}

/// The tallies and the report of a run. `seen` holds the hashes of the rows
/// that were begun, in order.
pub struct Run {
    pub seen: Ghost<Seq<Seq<char>>>,
    pub rows: u64,
    pub hits: u64,
    pub misses: u64,
    pub new_files: u64,
    pub guessed: Vec<(String, String)>,
    pub log: Vec<String>,
}

/// The placeholder name of an entry that the dictionary does not know.
pub open spec fn placeholder(hash: Seq<char>) -> Seq<char> {
    "MISSING/"@ + hash
}

/// The name under which a payload is written. A dictionary name stands as
/// it is; a placeholder gets the pack id and the inferred suffix.
pub open spec fn output_name(
    name: Seq<char>,
    hit: bool,
    pack_id: int,
    sig: Option<Signature>,
    structured: bool,
) -> Seq<char> {
    if hit {
        name
    } else {
        name + "@"@ + signed_decimal(pack_id) + inferred_suffix(sig, structured)
    }
}

/// Writes the name under which a payload is written, from the base name,
/// the pack id, the signature of the payload and whether it parsed as
/// structured text.
pub fn name_for(
    resolved: &Resolved,
    pack_id: i64,
    sig: Option<Signature>,
    structured: bool,
) -> (r: String)
    ensures
        r@ == output_name(resolved.name@, resolved.hit, pack_id as int, sig, structured),
{
    let mut name: String = resolved.name.clone();
    if !resolved.hit {
        name.append("@");
        let digits: Vec<char> = decimal_chars(pack_id);
        let number: String = string_of_chars(&digits);
        name.append(number.as_str());
        name.append(suffix_for(sig, structured));
    }
    name
}

impl Run {
    /// Every row seen is either a hit or a miss, never both.
    pub open spec fn wf(&self) -> bool {
        self.hits + self.misses == self.rows
    }

    /// Whether the tallies, and the table `now`, are what the rows seen so
    /// far make of the table `start`: `now` is `start` with every entry
    /// flagged that a row has matched, the hits are the rows whose hash is a
    /// key, and the misses are the others.
    pub open spec fn follows(&self, start: Table, now: Table) -> bool {
        &&& now == after_rows(start, self.seen@)
        &&& self.rows == self.seen@.len()
        &&& self.hits == hit_count(start.dom(), self.seen@)
        &&& self.misses == miss_count(start.dom(), self.seen@)
    }

    /// A run that has seen nothing.
    pub fn new() -> (r: Self)
        ensures
            r.wf(),
            r.seen@.len() == 0,
            r.rows == 0 && r.hits == 0 && r.misses == 0 && r.new_files == 0,
            r.guessed@.len() == 0,
            r.log@.len() == 0,
    {
        Run { seen: Ghost(Seq::empty()), rows: 0, hits: 0, misses: 0, new_files: 0, guessed: Vec::new(), log: Vec::new() }
    }

    /// Takes the pack of the next row. Where it is another pack than the
    /// current one, the line that opens it is logged, and the name of the
    /// file to open comes back; within a pack nothing happens.
    pub fn enter_pack(
        &mut self,
        router: &mut PackRouter,
        packs: &NameDictionary,
        pack_id: i64,
        stored: &str,
    ) -> (r: Option<String>)
        requires
            packs.wf(),
        ensures
            final(router).current == pack_id,
            r.is_some() == (pack_id != old(router).current),
            r.is_some() ==> {
                &&& r.unwrap()@ == pack_file(pack_id as int)
                &&& final(self).log@.len() == old(self).log@.len() + 1
                &&& final(self).log@.drop_last() == old(self).log@
                &&& final(self).log@.last()@ == pack_header_text(
                    pack_id as int,
                    display_of(packs@, stored@),
                )
            },
            r.is_none() ==> final(self).log == old(self).log,
            final(self).seen == old(self).seen,
            final(self).rows == old(self).rows,
            final(self).hits == old(self).hits,
            final(self).misses == old(self).misses,
            final(self).new_files == old(self).new_files,
            final(self).guessed == old(self).guessed,
    {
        match router.ensure_open(pack_id) {
            Some(file) => {
                let shown: String = display_name(packs, stored);
                let ghost before = self.log@;
                self.log.push(pack_header(pack_id, shown.as_str()));
                assert(self.log@.drop_last() =~= before);
                Some(file)
            },
            None => None,
        }
    }

    /// Resolves the base name of a row: the dictionary name filed under its
    /// hash, which is then flagged and counted as a hit, or the placeholder,
    /// counted as a miss.
    pub fn begin_row(&mut self, dict: &mut NameDictionary, hash: &str) -> (r: Resolved)
        requires
            old(self).wf(),
            old(dict).wf(),
            old(self).rows < u64::MAX,
        ensures
            final(self).wf(),
            final(dict).wf(),
            final(dict)@ == marked(old(dict)@, hash@),
            final(self).seen@ == old(self).seen@.push(hash@),
            forall|start: Table|
                old(self).follows(start, old(dict)@) ==> final(self).follows(start, final(dict)@),
            final(self).rows == old(self).rows + 1,
            r.hit == old(dict)@.contains_key(hash@),
            r.hit ==> r.name@ == old(dict)@[hash@].0 && final(self).hits == old(self).hits + 1
                && final(self).misses == old(self).misses,
            !r.hit ==> r.name@ == placeholder(hash@) && final(self).misses == old(self).misses + 1
                && final(self).hits == old(self).hits,
            final(self).new_files == old(self).new_files,
            final(self).guessed == old(self).guessed,
            final(self).log == old(self).log,
    {
        proof {
            assert forall|start: Table| old(self).follows(start, old(dict)@) implies after_rows(
                start,
                old(self).seen@.push(hash@),
            ) == marked(old(dict)@, hash@) && hit_count(start.dom(), old(self).seen@.push(hash@))
                == old(self).hits + if old(dict)@.contains_key(hash@) { 1nat } else { 0nat }
                && miss_count(start.dom(), old(self).seen@.push(hash@)) == old(self).misses
                + if old(dict)@.contains_key(hash@) { 0nat } else { 1nat } by {
                lemma_row_step(start, old(self).seen@, hash@);
            }
        }
        self.seen = Ghost(self.seen@.push(hash@));
        self.rows = self.rows + 1;
        match dict.mark(hash) {
            Some(name) => {
                self.hits = self.hits + 1;
                Resolved { name, hit: true }
            },
            None => {
                self.misses = self.misses + 1;
                let mut name: String = String::from_str("MISSING/");
                name.append(hash);
                Resolved { name, hit: false }
            },
        }
    }

    /// Records that the payload of a row could not be read. The row is
    /// logged with the error and otherwise left out: no tally changes.
    pub fn read_failed(&mut self, hash: &str, name: &str, error: &str)
        ensures
            final(self).log@.len() == old(self).log@.len() + 1,
            final(self).log@.drop_last() == old(self).log@,
            final(self).log@.last()@ == error_text(hash@, name@, error@),
            final(self).seen == old(self).seen,
            final(self).rows == old(self).rows,
            final(self).hits == old(self).hits,
            final(self).misses == old(self).misses,
            final(self).new_files == old(self).new_files,
            final(self).guessed == old(self).guessed,
    {
        let ghost before = self.log@;
        self.log.push(error_line(hash, name, error));
        assert(self.log@.drop_last() =~= before);
    }

    /// Settles the name under which the payload of a row is written, and
    /// logs the row. For a miss the placeholder gets the pack id and the
    /// suffix inferred from the payload, and a file name found in a gzip
    /// header is noted with the row's hash.
    pub fn finish_row(&mut self, hash: &str, resolved: &Resolved, pack_id: i64, payload: &[u8]) -> (r:
        String)
        ensures
            r@ == output_name(
                resolved.name@,
                resolved.hit,
                pack_id as int,
                signature_of(payload@),
                structured_text(payload@),
            ),
            final(self).log@.len() == old(self).log@.len() + 1,
            final(self).log@.drop_last() == old(self).log@,
            final(self).log@.last()@ == row_text(hash@, r@),
            !resolved.hit && guessed_text(payload@).is_some() ==> {
                &&& final(self).guessed@.len() == old(self).guessed@.len() + 1
                &&& final(self).guessed@.drop_last() == old(self).guessed@
                &&& final(self).guessed@.last().0@ == hash@
                &&& final(self).guessed@.last().1@ == guessed_text(payload@).unwrap()
            },
            resolved.hit || guessed_text(payload@).is_none() ==> final(self).guessed == old(
                self,
            ).guessed,
            final(self).seen == old(self).seen,
            final(self).rows == old(self).rows,
            final(self).hits == old(self).hits,
            final(self).misses == old(self).misses,
            final(self).new_files == old(self).new_files,
    {
        let sig: Option<Signature> = classify(payload);
        let structured: bool = if !resolved.hit && sig.is_none() {
            is_structured_text(payload)
        } else {
            false
        };
        let name: String = name_for(resolved, pack_id, sig, structured);
        if !resolved.hit {
            match guessed_name(payload) {
                Some(inner) => {
                    let ghost before = self.guessed@;
                    self.guessed.push((String::from_str(hash), inner));
                    assert(self.guessed@.drop_last() =~= before);
                },
                None => {},
            }
        }
        let ghost before = self.log@;
        self.log.push(row_line(hash, name.as_str()));
        assert(self.log@.drop_last() =~= before);
        name
    }

    /// Records what became of a payload: it counts as new where no file
    /// stood at its place, and is left unwritten and uncounted where one did.
    pub fn record_write(&mut self, existed: bool) -> (write: bool)
        requires
            old(self).new_files < u64::MAX,
        ensures
            write == !existed,
            final(self).new_files == old(self).new_files + if existed { 0int } else { 1int },
            final(self).seen == old(self).seen,
            final(self).rows == old(self).rows,
            final(self).hits == old(self).hits,
            final(self).misses == old(self).misses,
            final(self).guessed == old(self).guessed,
            final(self).log == old(self).log,
    {
        if !existed {
            self.new_files = self.new_files + 1;
        }
        !existed
    }
}

} // verus!
