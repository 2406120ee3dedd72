//! Reading JSON records out of a file's bytes, the way the polymorphic JSON reader does:
//! serde_json parses, and everything after the parse — which records count, how many are read
//! under a sample size, which failure is reported first — is decided here.

use vstd::prelude::*;

use crate::external::JsonShape;
use crate::json_infer::{
    cols_of, empty_sample_text, field_models, infer_fields, infer_upto, json_error_text, not_a_record, Field, Jv,
};
use crate::text::{append_str, string_of};

verus! {

/// `serde_json::Value`, which only the two readers below ever hold.
#[verifier::external_type_specification]
#[verifier::external_body]
pub struct ExJsonDoc(serde_json::Value);

/// What serde_json's stream reader makes of `bytes` (whitespace-separated values, read one
/// after another), stopping after `limit` values when there is a limit: the values read, each
/// as a [`Jv`], and the text of the syntax error that stopped it, if one did.
pub uninterp spec fn json_stream_of(bytes: Seq<u8>, limit: Option<usize>) -> (Seq<Jv>, Option<Seq<char>>);

/// What `serde_json::from_slice` makes of `bytes` as one document: the value as a [`Jv`], or
/// the text of its syntax error.
pub uninterp spec fn json_doc_of(bytes: Seq<u8>) -> Result<Jv, Seq<char>>;

/// A parsed value as the library's [`Jv`]: its shape, with a number reduced to whether it is
/// an integer that fits an `i64` (`serde_json::Number::is_i64`).
#[verifier::external_body]
fn jv_of(v: &serde_json::Value) -> Jv {
    match v {
        serde_json::Value::Null => Jv::Null,
        serde_json::Value::Bool(b) => Jv::Bool(*b),
        serde_json::Value::Number(n) => Jv::Number { is_i64: n.is_i64() },
        serde_json::Value::String(s) => Jv::String(s.clone()),
        serde_json::Value::Array(items) => Jv::Array(items.iter().map(jv_of).collect()),
        serde_json::Value::Object(m) => Jv::Object(m.iter().map(|(k, v)| (k.clone(), jv_of(v))).collect()),
    }
}

/// `serde_json::Deserializer::from_slice(bytes).into_iter::<Value>()`, read to its end or to
/// `limit` values: the values before the first error, and that error's text.
///
/// Trusted: the result is [`json_stream_of`] of the bytes and the limit; nothing more is said
/// of it here (that it holds at most `limit` values is not stated, and not relied on).
#[verifier::external_body]
fn json_stream(bytes: &[u8], limit: Option<usize>) -> (r: (Vec<Jv>, Option<String>))
    ensures
        (r.0@, match r.1 {
            Some(e) => Some(e@),
            None => None,
        }) == json_stream_of(bytes@, limit),
{
    let mut out: Vec<Jv> = Vec::new();
    let values = serde_json::Deserializer::from_slice(bytes).into_iter::<serde_json::Value>();
    for v in values.take(limit.unwrap_or(usize::MAX)) {
        match v {
            Ok(v) => out.push(jv_of(&v)),
            Err(e) => return (out, Some(e.to_string())),
        }
    }
    (out, None)
}

/// `serde_json::from_slice::<Value>(bytes)`: the document, or its syntax error's text.
///
/// Trusted: the result is [`json_doc_of`] of the bytes.
#[verifier::external_body]
fn json_doc(bytes: &[u8]) -> (r: Result<Jv, String>)
    ensures
        match r {
            Ok(d) => json_doc_of(bytes@) == Ok::<Jv, Seq<char>>(d),
            Err(e) => json_doc_of(bytes@) == Err::<Jv, Seq<char>>(e@),
        },
{
    serde_json::from_slice::<serde_json::Value>(bytes).map(|d| jv_of(&d)).map_err(|e| e.to_string())
}

/// A syntax failure in the stock reader's words, which the registration's diagnosis keys on.
pub open spec fn syntax_text(e: Seq<char>) -> Seq<char> {
    json_error_text("Not valid JSON: "@ + e)
}

/// At most `budget` of `s`, all of it when there is no budget.
pub open spec fn within(s: Seq<Jv>, budget: Option<usize>) -> Seq<Jv> {
    match budget {
        Some(b) => if b < s.len() {
            s.take(b as int)
        } else {
            s
        },
        None => s,
    }
}

/// The records one file's bytes give under `budget`, and the failure that ends them: for the
/// newline-delimited shape the values read one after another, for the array shape the
/// elements of the one document, which has to be an array.
pub open spec fn records_of(bytes: Seq<u8>, shape: JsonShape, budget: Option<usize>) -> (Seq<Jv>, Option<Seq<char>>) {
    match shape {
        JsonShape::NewlineDelimited => {
            let (vs, e) = json_stream_of(bytes, budget);
            (within(vs, budget), match e {
                Some(t) => Some(syntax_text(t)),
                None => None,
            })
        },
        JsonShape::Array => match json_doc_of(bytes) {
            Err(t) => (seq![], Some(syntax_text(t))),
            Ok(Jv::Array(items)) => (within(items@, budget), None),
            Ok(d) => (seq![], Some(json_error_text(not_a_record(d)))),
        },
    }
}

/// The view of an optional string.
pub open spec fn opt_chars(o: Option<String>) -> Option<Seq<char>> {
    match o {
        Some(t) => Some(t@),
        None => None,
    }
}

fn truncate_to(v: &mut Vec<Jv>, budget: Option<usize>)
    ensures
        final(v)@ == within(old(v)@, budget),
{
    match budget {
        Some(b) => if b < v.len() {
            v.truncate(b);
        },
        None => {},
    }
}

/// The records of one file's `bytes` read in `shape`, at most `budget` of them: those read
/// before the first failure, and that failure in the stock reader's words ([`records_of`]).
/// The array shape parses its whole document; the newline-delimited one reads no further
/// than the budget, so a syntax error past it is never met.
pub fn record_iter(bytes: &[u8], shape: JsonShape, budget: Option<usize>) -> (r: (Vec<Jv>, Option<String>))
    ensures
        (r.0@, opt_chars(r.1)) == records_of(bytes@, shape, budget),
{
    match shape {
        JsonShape::NewlineDelimited => {
            let (mut vs, e) = json_stream(bytes, budget);
            truncate_to(&mut vs, budget);
            let e = match e {
                Some(t) => Some(syntax_error(t.as_str())),
                None => None,
            };
            (vs, e)
        },
        JsonShape::Array => match json_doc(bytes) {
            Err(t) => (Vec::new(), Some(syntax_error(t.as_str()))),
            Ok(doc) => match crate::json_infer::array_records(doc) {
                Ok(mut items) => {
                    truncate_to(&mut items, budget);
                    (items, None)
                },
                Err(m) => (Vec::new(), Some(m)),
            },
        },
    }
}

fn syntax_error(e: &str) -> (r: String)
    ensures
        r@ == syntax_text(e@),
{
    let mut v: Vec<char> = Vec::new();
    append_str(&mut v, "Json error: Not valid JSON: ");
    append_str(&mut v, e);
    proof {
        reveal_strlit("Json error: Not valid JSON: ");
        reveal_strlit("Json error: ");
        reveal_strlit("Not valid JSON: ");
    }
    let r = string_of(&v);
    assert(r@ =~= syntax_text(e@));
    r
}

/// What is left of a sample budget once `n` records are read.
pub open spec fn spent(budget: Option<usize>, n: nat) -> Option<usize> {
    match budget {
        Some(b) => Some((b - n) as usize),
        None => None,
    }
}

/// The records a JSON source's files give in order under a sample budget, and the failure that
/// ends them: no file is read once the budget is spent, and the first failure stops the read.
pub open spec fn records_across(files: Seq<Vec<u8>>, shape: JsonShape, budget: Option<usize>) -> (Seq<Jv>, Option<Seq<char>>)
    decreases files.len(),
{
    if files.len() == 0 || budget == Some(0usize) {
        (seq![], None)
    } else {
        let (vs, e) = records_of(files[0]@, shape, budget);
        match e {
            Some(t) => (vs, Some(t)),
            None => {
                let (rest, e2) = records_across(files.drop_first(), shape, spent(budget, vs.len()));
                (vs + rest, e2)
            },
        }
    }
}

/// The schema a JSON source infers from its files: a sample of none is refused; otherwise the
/// records read under the budget are folded in order, so a record that is not an object is
/// reported before a syntax error that comes after it, and a read failure only once every
/// record before it was folded.
pub open spec fn infer_files_spec(files: Seq<Vec<u8>>, shape: JsonShape, infer_rows: Option<usize>) -> Result<
    Seq<(Seq<char>, crate::json_infer::Col, bool)>,
    Seq<char>,
> {
    if infer_rows == Some(0usize) {
        Err(empty_sample_text())
    } else {
        let (recs, e) = records_across(files, shape, infer_rows);
        match infer_fields(recs) {
            Err(t) => Err(json_error_text(t)),
            Ok(m) => match e {
                Some(t) => Err(t),
                None => Ok(cols_of(m)),
            },
        }
    }
}

proof fn lemma_within_len(s: Seq<Jv>, budget: Option<usize>)
    ensures
        budget matches Some(b) ==> within(s, budget).len() <= b,
{
}

/// [`infer_files_spec`]: the schema of a JSON source whose files hold `files`.
pub fn infer_files(files: &[Vec<u8>], shape: JsonShape, infer_rows: Option<usize>) -> (r: Result<Vec<Field>, String>)
    ensures
        match infer_files_spec(files@, shape, infer_rows) {
            Ok(c) => r matches Ok(fs) && field_models(fs@) == c,
            Err(e) => r matches Err(m) && m@ == e,
        },
{
    if infer_rows == Some(0usize) {
        let mut v: Vec<char> = Vec::new();
        append_str(&mut v, "Json error: Rows scanned to infer must be at least 1. Set a higher value in Table Config.");
        let m = string_of(&v);
        proof {
            reveal_strlit("Json error: Rows scanned to infer must be at least 1. Set a higher value in Table Config.");
            reveal_strlit("Json error: ");
            reveal_strlit("Rows scanned to infer must be at least 1. Set a higher value in Table Config.");
            assert(m@ =~= empty_sample_text());
        }
        return Err(m);
    }
    let mut recs: Vec<Jv> = Vec::new();
    let mut budget = infer_rows;
    let mut failure: Option<String> = None;
    let mut i: usize = 0;
    assert(files@.skip(0) =~= files@);
    while i < files.len() && failure.is_none() && budget != Some(0usize)
        invariant
            i <= files@.len(),
            failure is None ==> records_across(files@, shape, infer_rows) == (
                recs@ + records_across(files@.skip(i as int), shape, budget).0,
                records_across(files@.skip(i as int), shape, budget).1,
            ),
            failure is Some ==> records_across(files@, shape, infer_rows) == (recs@, opt_chars(failure)),
        decreases files@.len() - i,
    {
        let ghost rest = files@.skip(i as int);
        assert(rest[0] == files@[i as int]);
        assert(rest.drop_first() =~= files@.skip(i + 1));
        let (mut vs, e) = record_iter(files[i].as_slice(), shape, budget);
        proof {
            lemma_within_len(records_of(files@[i as int]@, shape, budget).0, budget);
        }
        let n = vs.len();
        let ghost before = recs@;
        recs.append(&mut vs);
        match e {
            Some(t) => {
                failure = Some(t);
            },
            None => {
                budget = match budget {
                    Some(b) => Some(b - n),
                    None => None,
                };
            },
        }
        i = i + 1;
    }
    proof {
        if failure is None {
            if i == files@.len() {
                assert(files@.skip(i as int).len() == 0);
            }
            assert(recs@ + Seq::<Jv>::empty() =~= recs@);
        }
    }
    match infer_upto(recs.as_slice(), recs.len()) {
        Err(t) => {
            assert(recs@.take(recs@.len() as int) =~= recs@);
            let mut v: Vec<char> = Vec::new();
            append_str(&mut v, "Json error: ");
            append_str(&mut v, t.as_str());
            proof {
                reveal_strlit("Json error: ");
            }
            Err(string_of(&v))
        },
        Ok(fs) => {
            assert(recs@.take(recs@.len() as int) =~= recs@);
            match failure {
                Some(t) => Err(t),
                None => Ok(fs),
            }
        },
    }
}

} // verus!
