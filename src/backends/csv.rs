//! A backend that keeps its entries as records of a flat CSV file.
//!
//! A save appends one record; a load reads every record in order, so that a
//! later record for a key replaces an earlier one; a delete reads the whole
//! file, drops the key and writes every remaining entry back.
//!
//! The delete is a read-modify-write over the whole file and is not atomic:
//! a save or another delete that runs between its read and its write is lost.
//! Mutations of one file must therefore be serialized by the caller.
use vstd::prelude::*;

use crate::error::PersistentError;
use crate::snapshot::{keys_unique, pair_views, pairs_map, KeyValues, Snapshot};

verus! {

/// What reading CSV data without a header row gives: its records in file
/// order, each read as two string fields, or the message of the error that
/// stops the reading.
pub uninterp spec fn csv_read_of(data: Seq<u8>) -> Result<Seq<(Seq<char>, Seq<char>)>, Seq<char>>;

/// The bytes of one CSV record whose two fields are `key` and `value`.
pub uninterp spec fn csv_record_of(key: Seq<char>, value: Seq<char>) -> Seq<u8>;

/// Relies on the csv crate's `Reader::deserialize`, with no header row: the
/// records of `data` as pairs of strings, in file order, or the message of
/// the first error.
#[verifier::external_body]
fn read_records(data: &[u8]) -> (r: Result<Vec<(String, String)>, String>)
    ensures
        r matches Ok(rows) ==> (csv_read_of(data@) matches Ok(read) && read == pair_views(rows@)),
        r matches Err(m) ==> (csv_read_of(data@) matches Err(message) && message == m@),
{
    ::csv::ReaderBuilder::new().has_headers(false).from_reader(data).deserialize::<(
        String,
        String,
    )>().collect::<Result<Vec<_>, _>>().map_err(|e| e.to_string())
}

/// Relies on the csv crate's `Writer::serialize`, with no header row: the
/// bytes of one record of the two fields. Writing the first record into a
/// `Vec` cannot fail.
#[verifier::external_body]
fn write_record(key: &String, value: &String) -> (r: Result<Vec<u8>, String>)
    ensures
        r is Ok,
        r matches Ok(bytes) ==> bytes@ == csv_record_of(key@, value@),
{
    let mut writer = ::csv::WriterBuilder::new().has_headers(false).from_writer(Vec::new());
    writer.serialize((key, value)).map_err(|e| e.to_string())?;
    writer.into_inner().map_err(|e| e.to_string())
}

/// What a file with contents `data` holds: nothing for an empty file, and
/// otherwise its records inserted in file order; or the message of the error
/// that stops reading them.
pub open spec fn stored(data: Seq<u8>) -> Result<KeyValues, Seq<char>> {
    if data.len() == 0 {
        Ok(KeyValues::empty())
    } else {
        match csv_read_of(data) {
            Ok(rows) => Ok(pairs_map(rows)),
            Err(message) => Err(message),
        }
    }
}

/// The bytes of the records of `entries`, one after another.
pub open spec fn records_bytes(entries: Seq<(Seq<char>, Seq<char>)>) -> Seq<u8>
    decreases entries.len(),
{
    if entries.len() == 0 {
        Seq::empty()
    } else {
        records_bytes(entries.drop_last()) + csv_record_of(entries.last().0, entries.last().1)
    }
}

/// How the file follows the writes, under two facts about the csv crate
/// that its documentation does not state and that are therefore taken here
/// as hypotheses: it reads back every non-empty run of records it writes,
/// and no record it writes is empty. Then a file made of the records of
/// `rows` holds `pairs_map(rows)`, and appending the record of a save of
/// `key` and `value` makes it hold `pairs_map(rows).insert(key, value)`. The
/// contents that a delete writes back are again the records of some
/// entries, so the first clause applies to them too.
pub proof fn lemma_file_follows_writes_if_records_read_back(rows: Seq<(Seq<char>, Seq<char>)>)
    requires
        forall|rs: Seq<(Seq<char>, Seq<char>)>|
            rs.len() > 0 ==> #[trigger] csv_read_of(records_bytes(rs)) == Ok::<
                Seq<(Seq<char>, Seq<char>)>,
                Seq<char>,
            >(rs),
        forall|k: Seq<char>, v: Seq<char>| #[trigger] csv_record_of(k, v).len() > 0,
    ensures
        stored(records_bytes(rows)) == Ok::<KeyValues, Seq<char>>(pairs_map(rows)),
        forall|k: Seq<char>, v: Seq<char>|
            #[trigger] stored(records_bytes(rows) + csv_record_of(k, v)) == Ok::<
                KeyValues,
                Seq<char>,
            >(pairs_map(rows).insert(k, v)),
{
    assert forall|rs: Seq<(Seq<char>, Seq<char>)>| rs.len() > 0 implies stored(records_bytes(rs))
        == Ok::<KeyValues, Seq<char>>(pairs_map(rs)) by {
        assert(csv_record_of(rs.last().0, rs.last().1).len() > 0);
        assert(records_bytes(rs).len() > 0);
    }
    assert forall|k: Seq<char>, v: Seq<char>| #[trigger]
        stored(records_bytes(rows) + csv_record_of(k, v)) == Ok::<KeyValues, Seq<char>>(
            pairs_map(rows).insert(k, v),
        ) by {
        let rs = rows.push((k, v));
        assert(rs.drop_last() =~= rows);
        assert(records_bytes(rs) == records_bytes(rows) + csv_record_of(k, v));
        assert(csv_record_of(rs.last().0, rs.last().1).len() > 0);
        assert(records_bytes(rs).len() > 0);
    }
}

/// A backend over one CSV file, one record per saved entry.
pub struct CsvBackend {
    path: String,
}

impl CsvBackend {
    /// A backend over the file at `path`, which is created on first use.
    pub fn new(path: &str) -> (r: Self)
        ensures
            r.path_view() == path@,
    {
        CsvBackend { path: path.to_owned() }
    }

    /// The path of the file.
    pub closed spec fn path_view(&self) -> Seq<char> {
        self.path@
    }

    /// The path of the file.
    pub fn path(&self) -> (r: &str)
        ensures
            r@ == self.path_view(),
    {
        self.path.as_str()
    }

    /// The mapping that a file with contents `data` holds. Fails with a CSV
    /// error, carrying the reader's message, when a record cannot be read.
    pub fn parse(data: &[u8]) -> (r: Result<Snapshot, PersistentError>)
        ensures
            match stored(data@) {
                Ok(m) => r matches Ok(s) && s@ == m,
                Err(message) => r matches Err(PersistentError::Csv(m)) && m@ == message,
            },
    {
        if data.len() == 0 {
            return Ok(Snapshot::new());
        }
        match read_records(data) {
            Ok(rows) => Ok(Snapshot::from_pairs(rows)),
            Err(message) => Err(PersistentError::Csv(message)),
        }
    }

    /// The bytes that a save appends to the file to record that `key` holds
    /// `value`.
    pub fn record(key: &String, value: &String) -> (r: Vec<u8>)
        ensures
            r@ == csv_record_of(key@, value@),
    {
        match write_record(key, value) {
            Ok(bytes) => bytes,
            Err(_) => {
                assert(false);
                Vec::new()
            },
        }
    }

    /// The bytes of a file that holds exactly the entries of `s`, each once,
    /// in some order.
    fn write_all(s: &Snapshot) -> (r: Vec<u8>)
        ensures
            exists|kept: Seq<(Seq<char>, Seq<char>)>|
                keys_unique(kept) && pairs_map(kept) == s@ && r@ == records_bytes(kept),
    {
        let entries = s.entries();
        let ghost all = pair_views(entries@);
        let mut out: Vec<u8> = Vec::new();
        let n = entries.len();
        let mut i: usize = 0;
        while i < n
            invariant
                n == entries@.len(),
                all == pair_views(entries@),
                i <= n,
                out@ == records_bytes(all.take(i as int)),
            decreases n - i,
        {
            let mut bytes = Self::record(&entries[i].0, &entries[i].1);
            assert(all.take(i + 1).drop_last() =~= all.take(i as int));
            out.append(&mut bytes);
            i = i + 1;
        }
        assert(all.take(n as int) =~= all);
        out
    }

    /// The contents that a delete of `key` writes back in place of `data`:
    /// the records of every entry that `data` holds but `key`, each once.
    /// When `data` cannot be read, fails with the error that [`Self::parse`]
    /// gives, and nothing is to be written.
    pub fn rewrite_without(data: &[u8], key: &String) -> (r: Result<Vec<u8>, PersistentError>)
        ensures
            match stored(data@) {
                Ok(m) => r matches Ok(bytes) && exists|kept: Seq<(Seq<char>, Seq<char>)>|
                    keys_unique(kept) && pairs_map(kept) == m.remove(key@) && bytes@
                        == records_bytes(kept),
                Err(message) => r matches Err(PersistentError::Csv(m)) && m@ == message,
            },
    {
        let mut all = Self::parse(data)?;
        all.remove(key);
        Ok(Self::write_all(&all))
    }

    /// Nothing is buffered: each write reaches the file before it returns.
    pub fn flush(&self) -> (r: Result<(), PersistentError>)
        ensures
            r is Ok,
    {
        Ok(())
    }
}

} // verus!
