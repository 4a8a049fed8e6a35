//! The rows of the relational backend: one row per key, with the value
//! stored as JSON text. Opening the database and running its statements is
//! the caller's part; this module turns rows into a mapping and values into
//! the text that a row stores.
use vstd::prelude::*;

use crate::error::PersistentError;
use crate::snapshot::{pair_views, pairs_map, Snapshot};

verus! {

/// The lower-case hexadecimal digit of `n`, below 16.
pub open spec fn hex_digit(n: u32) -> char {
    seq!['0', '1', '2', '3', '4', '5', '6', '7', '8', '9', 'a', 'b', 'c', 'd', 'e', 'f'][n as int]
}

/// The characters that stand for `c` inside a JSON string: a quote and a
/// backslash are escaped with a backslash; backspace, tab, line feed, form
/// feed and carriage return get their short escapes; every other character
/// below U+0020 becomes `\u00` and two lower-case hex digits; any other
/// character stands for itself.
pub open spec fn json_escape(c: char) -> Seq<char> {
    if c == '"' {
        seq!['\\', '"']
    } else if c == '\\' {
        seq!['\\', '\\']
    } else if c == '\x08' {
        seq!['\\', 'b']
    } else if c == '\t' {
        seq!['\\', 't']
    } else if c == '\n' {
        seq!['\\', 'n']
    } else if c == '\x0c' {
        seq!['\\', 'f']
    } else if c == '\r' {
        seq!['\\', 'r']
    } else if (c as u32) < 0x20 {
        seq!['\\', 'u', '0', '0', hex_digit((c as u32) / 16), hex_digit((c as u32) % 16)]
    } else {
        seq![c]
    }
}

/// The characters of `s`, each escaped for a JSON string.
pub open spec fn json_escaped(s: Seq<char>) -> Seq<char>
    decreases s.len(),
{
    if s.len() == 0 {
        Seq::empty()
    } else {
        json_escaped(s.drop_last()) + json_escape(s.last())
    }
}

/// The JSON text that encodes the string `value`: its escaped characters
/// between quotes.
pub open spec fn json_text_of(value: Seq<char>) -> Seq<char> {
    seq!['"'] + json_escaped(value) + seq!['"']
}

/// The string that the JSON text `text` encodes; none when it encodes no
/// string.
pub uninterp spec fn json_string_of(text: Seq<char>) -> Option<Seq<char>>;

/// Relies on `serde_json::to_string` for a string: its JSON encoding. A
/// string neither fails to serialize nor holds a map key, so this succeeds.
#[verifier::external_body]
fn to_json(value: &String) -> (r: Result<String, String>)
    ensures
        r is Ok,
        r matches Ok(text) ==> text@ == json_text_of(value@),
{
    serde_json::to_string(value).map_err(|e| e.to_string())
}

/// Relies on `serde_json::from_str` for a string: the string that the text
/// encodes.
#[verifier::external_body]
fn from_json(text: &String) -> (r: Result<String, String>)
    ensures
        r matches Ok(value) ==> json_string_of(text@) == Some(value@),
        r is Err ==> json_string_of(text@) is None,
{
    serde_json::from_str::<String>(text).map_err(|e| e.to_string())
}

/// The rows with each stored value decoded from JSON; none when some value
/// does not decode to a string.
pub open spec fn decoded_rows(rows: Seq<(Seq<char>, Seq<char>)>) -> Option<
    Seq<(Seq<char>, Seq<char>)>,
>
    decreases rows.len(),
{
    if rows.len() == 0 {
        Some(Seq::empty())
    } else {
        match (decoded_rows(rows.drop_last()), json_string_of(rows.last().1)) {
            (Some(d), Some(v)) => Some(d.push((rows.last().0, v))),
            _ => None,
        }
    }
}

/// The mapping that `rows` of keys and JSON-encoded values describe, in
/// row order. Fails with a serialization error when a value does not
/// decode to a string.
pub fn decode_rows(rows: &Vec<(String, String)>) -> (r: Result<Snapshot, PersistentError>)
    ensures
        match decoded_rows(pair_views(rows@)) {
            Some(d) => r matches Ok(s) && s@ == pairs_map(d),
            None => r matches Err(PersistentError::Serde(_)),
        },
{
    let ghost all = pair_views(rows@);
    let mut decoded: Vec<(String, String)> = Vec::new();
    let n = rows.len();
    let mut i: usize = 0;
    while i < n
        invariant
            n == rows@.len(),
            all == pair_views(rows@),
            i <= n,
            decoded_rows(all.take(i as int)) == Some(pair_views(decoded@)),
        decreases n - i,
    {
        assert(all.take(i + 1).drop_last() =~= all.take(i as int));
        match from_json(&rows[i].1) {
            Ok(value) => {
                let key = rows[i].0.clone();
                let ghost before = decoded@;
                decoded.push((key, value));
                assert(pair_views(decoded@) =~= pair_views(before).push(
                    (rows@[i as int].0@, value@),
                ));
            },
            Err(message) => {
                proof {
                    lemma_decode_fails_later(all, i as int + 1);
                }
                return Err(PersistentError::Serde(message));
            },
        }
        i = i + 1;
    }
    assert(all.take(n as int) =~= all);
    Ok(Snapshot::from_pairs(decoded))
}

/// Once a prefix of the rows fails to decode, so do all the rows.
proof fn lemma_decode_fails_later(rows: Seq<(Seq<char>, Seq<char>)>, i: int)
    requires
        0 <= i <= rows.len(),
        decoded_rows(rows.take(i)) is None,
    ensures
        decoded_rows(rows) is None,
    decreases rows.len() - i,
{
    if i < rows.len() {
        assert(rows.take(i + 1).drop_last() =~= rows.take(i));
        lemma_decode_fails_later(rows, i + 1);
    } else {
        assert(rows.take(i) =~= rows);
    }
}

/// The text that a row stores for `value`: its JSON encoding.
pub fn encode_value(value: &String) -> (r: String)
    ensures
        r@ == json_text_of(value@),
{
    match to_json(value) {
        Ok(text) => text,
        Err(_) => {
            assert(false);
            String::new()
        },
    }
}

} // verus!
