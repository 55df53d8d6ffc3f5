//! The line extractors: byte-wise, character-wise and field-wise selection.

use vstd::prelude::*;
use vstd::string::{StrSliceExecFns, StringExecFns};

use crate::index_set::IndexSet;

verus! {

/// The elements among the first `n` of `s` whose index lies in `set`, in
/// input order.
pub open spec fn selected_upto<A>(s: Seq<A>, set: Set<int>, n: int) -> Seq<A>
    decreases n,
{
    if n <= 0 {
        Seq::empty()
    } else {
        selected_upto(s, set, n - 1) + if set.contains(n - 1) {
            seq![s[n - 1]]
        } else {
            Seq::empty()
        }
    }
}

/// The elements of `s` whose index lies in `set`, in input order.
pub open spec fn selected<A>(s: Seq<A>, set: Set<int>) -> Seq<A> {
    selected_upto(s, set, s.len() as int)
}

/// Retain the bytes of `line` whose zero-based offset is in `set`.
pub fn select_bytes(line: &Vec<u8>, set: &IndexSet) -> (out: Vec<u8>)
    ensures
        out@ == selected(line@, set@),
{
    let mut out: Vec<u8> = Vec::new();
    let mut i: usize = 0;
    while i < line.len()
        invariant
            i <= line@.len(),
            out@ == selected_upto(line@, set@, i as int),
        decreases line@.len() - i,
    {
        if set.contains(i) {
            out.push(line[i]);
        }
        proof {
            assert(out@ =~= selected_upto(line@, set@, i + 1));
        }
        i += 1;
    }
    out
}

/// Retain the code points of `line` whose zero-based character index is in
/// `set`, concatenated in input order.
pub fn select_chars(line: &str, set: &IndexSet) -> (out: String)
    ensures
        out@ == selected(line@, set@),
{
    let n = line.unicode_len();
    let mut out = String::new();
    let mut i: usize = 0;
    while i < n
        invariant
            i <= n,
            n == line@.len(),
            out@ == selected_upto(line@, set@, i as int),
        decreases n - i,
    {
        if set.contains(i) {
            let piece = line.substring_char(i, i + 1);
            proof {
                assert(piece@ =~= seq![line@[i as int]]);
            }
            out.append(piece);
        }
        proof {
            assert(out@ =~= selected_upto(line@, set@, i + 1));
        }
        i += 1;
    }
    out
}

/// Retain the fields of one record whose zero-based column index is in
/// `set`, in input order.
pub fn select_fields(fields: &Vec<String>, set: &IndexSet) -> (out: Vec<String>)
    ensures
        out.deep_view() == selected(fields.deep_view(), set@),
{
    let mut out: Vec<String> = Vec::new();
    let mut i: usize = 0;
    while i < fields.len()
        invariant
            i <= fields@.len(),
            out.deep_view() =~~= selected_upto(fields.deep_view(), set@, i as int),
        decreases fields@.len() - i,
    {
        let ghost prev = out.deep_view();
        if set.contains(i) {
            out.push(fields[i].clone());
            proof {
                assert(fields.deep_view()[i as int] == fields@[i as int]@);
                assert(out.deep_view() =~~= prev.push(fields@[i as int]@));
            }
        }
        proof {
            assert(out.deep_view() =~~= selected_upto(fields.deep_view(), set@, i + 1));
        }
        i += 1;
    }
    proof {
        assert(fields.deep_view().len() == fields@.len());
    }
    out
}

/// The text that lossy UTF-8 decoding yields for a byte sequence.
pub uninterp spec fn lossy_utf8_of(bytes: Seq<u8>) -> Seq<char>;

/// Relies on String::from_utf8_lossy: the decoded text is a function of the
/// bytes alone, with the replacement character substituted for invalid
/// sequences, and no bytes yield no text.
#[verifier::external_body]
fn decode_lossy(bytes: &Vec<u8>) -> (r: String)
    ensures
        r@ == lossy_utf8_of(bytes@),
        bytes@.len() == 0 ==> r@.len() == 0,
{
    String::from_utf8_lossy(bytes.as_slice()).into_owned()
}

/// Extract the bytes of `line` selected by `set` and decode them leniently:
/// offsets may fall inside multi-byte sequences, so the decode substitutes
/// replacement markers instead of failing.
pub fn extract_bytes_line(line: &Vec<u8>, set: &IndexSet) -> (out: String)
    ensures
        out@ == lossy_utf8_of(selected(line@, set@)),
        selected(line@, set@).len() == 0 ==> out@.len() == 0,
{
    let picked = select_bytes(line, set);
    decode_lossy(&picked)
}

/// The fields of one delimited record, under standard quoting rules.
pub uninterp spec fn record_fields_of(line: Seq<char>, delim: u8) -> Seq<Seq<char>>;

/// Relies on csv::ReaderBuilder and csv::Reader: parsing one in-memory
/// record with a given single-byte delimiter, no header row, is a function
/// of the record text and the delimiter alone. Reading from memory cannot
/// fail otherwise, and splitting valid UTF-8 at an ASCII delimiter leaves
/// every field valid UTF-8, so an ASCII delimiter always succeeds.
#[verifier::external_body]
fn split_record(line: &str, delim: u8) -> (r: Option<Vec<String>>)
    ensures
        delim < 128 ==> r is Some,
        r matches Some(v) ==> v.deep_view() == record_fields_of(line@, delim),
{
    let mut reader = csv::ReaderBuilder::new().delimiter(delim).has_headers(
        false,
    ).from_reader(line.as_bytes());
    match reader.records().next() {
        Some(Ok(record)) => Some(record.iter().map(|f| f.to_string()).collect()),
        Some(Err(_)) => None,
        None => Some(Vec::new()),
    }
}

/// The serialized form of one delimited record, under standard quoting
/// rules, including the record terminator.
pub uninterp spec fn record_line_of(fields: Seq<Seq<char>>, delim: u8) -> Seq<char>;

/// Relies on csv::WriterBuilder and csv::Writer: serializing one record to
/// memory with a given single-byte delimiter is a function of the fields
/// and the delimiter alone. Writing to memory cannot fail, and quoting,
/// terminator and an ASCII delimiter keep the output valid UTF-8, so an
/// ASCII delimiter always succeeds.
#[verifier::external_body]
fn join_record(fields: &Vec<String>, delim: u8) -> (r: Option<String>)
    ensures
        delim < 128 ==> r is Some,
        r matches Some(s) ==> s@ == record_line_of(fields.deep_view(), delim),
{
    let mut writer = csv::WriterBuilder::new().delimiter(delim).from_writer(Vec::new());
    if writer.write_record(fields.iter()).is_err() {
        return None;
    }
    match writer.into_inner() {
        Ok(buf) => String::from_utf8(buf).ok(),
        Err(_) => None,
    }
}

/// Extract from one delimited record the fields selected by `set` and
/// re-serialize them with the same delimiter and quoting convention.
///
/// With an ASCII delimiter — the only kind a configuration ever carries —
/// extraction always succeeds.
pub fn extract_fields_line(line: &str, set: &IndexSet, delim: u8) -> (r: Option<String>)
    ensures
        delim < 128 ==> r is Some,
        r matches Some(s) ==> s@ == record_line_of(
            selected(record_fields_of(line@, delim), set@),
            delim,
        ),
{
    match split_record(line, delim) {
        None => None,
        Some(fields) => {
            let kept = select_fields(&fields, set);
            join_record(&kept, delim)
        },
    }
}

} // verus!
