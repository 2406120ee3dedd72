//! Typed `CREATE EXTERNAL TABLE`: reading `STORED AS` and `OPTIONS` onto a table definition.
//!
//! `OPTIONS` is two vocabularies wearing one syntax: a `format.` key the definition has a
//! field for is read onto it; a client option or object-store namespace is refused toward
//! Connections on the key alone — never echoing the value, which may be a secret; anything
//! else is refused by name.

use datafusion_common::parsers::CompressionTypeVariant;

use vstd::prelude::*;

use crate::text::{
    append_chars, append_str, chars_of, has_prefix, lower_all, lower_seq, same_chars, starts_with, str_is,
    string_of, trimmed,
};
use crate::util::{all_digits, digits_value};

verus! {

// ---- the definition's read options -------------------------------------------------------

/// Whole-file compression of a source.
#[derive(Clone, Copy, Debug, PartialEq, Eq, Structural)]
pub enum FileCompression {
    Uncompressed,
    Gzip,
    Bzip2,
    Xz,
    Zstd,
}

/// How a JSON source lays out its records.
#[derive(Clone, Copy, Debug, PartialEq, Eq, Structural)]
pub enum JsonShape {
    /// One record after another, whitespace-separated.
    NewlineDelimited,
    /// One document holding an array of records.
    Array,
}

/// The CSV reader's options.
#[derive(Clone, Copy, Debug, PartialEq, Eq, Structural)]
pub struct CsvRead {
    pub header: bool,
    pub delimiter: char,
    pub quote: char,
    pub escape: Option<char>,
    pub comment: Option<char>,
    pub newlines_in_values: bool,
    pub truncated_rows: bool,
    /// Rows read to infer the schema; `None` reads the reader's default.
    pub infer_rows: Option<usize>,
    pub compression: FileCompression,
}

/// The JSON reader's options.
#[derive(Clone, Copy, Debug, PartialEq, Eq, Structural)]
pub struct JsonRead {
    pub shape: JsonShape,
    pub infer_rows: Option<usize>,
    pub compression: FileCompression,
}

/// The CSV reader's defaults: a header row, `,` and `"`, nothing else set.
pub open spec fn csv_default() -> CsvRead {
    CsvRead {
        header: true,
        delimiter: ',',
        quote: '"',
        escape: None,
        comment: None,
        newlines_in_values: false,
        truncated_rows: false,
        infer_rows: None,
        compression: FileCompression::Uncompressed,
    }
}

/// The JSON reader's defaults: newline-delimited, nothing else set.
pub open spec fn json_default() -> JsonRead {
    JsonRead { shape: JsonShape::NewlineDelimited, infer_rows: None, compression: FileCompression::Uncompressed }
}

impl CsvRead {
    /// [`csv_default`].
    pub fn new() -> (r: CsvRead)
        ensures
            r == csv_default(),
    {
        CsvRead {
            header: true,
            delimiter: ',',
            quote: '"',
            escape: None,
            comment: None,
            newlines_in_values: false,
            truncated_rows: false,
            infer_rows: None,
            compression: FileCompression::Uncompressed,
        }
    }
}

impl JsonRead {
    /// [`json_default`].
    pub fn new() -> (r: JsonRead)
        ensures
            r == json_default(),
    {
        JsonRead { shape: JsonShape::NewlineDelimited, infer_rows: None, compression: FileCompression::Uncompressed }
    }
}

/// The reader a table is read with, dressed in the options that reader takes.
#[derive(Clone, Debug, PartialEq, Eq)]
pub enum SourceFormat {
    Parquet,
    Arrow,
    Csv(CsvRead),
    Json(JsonRead),
    /// A format this build has no reader for, kept so a stored definition still loads.
    Unknown(String),
}

/// The format's lower-case name.
pub open spec fn format_name(f: SourceFormat) -> Seq<char> {
    match f {
        SourceFormat::Parquet => "parquet"@,
        SourceFormat::Arrow => "arrow"@,
        SourceFormat::Csv(_) => "csv"@,
        SourceFormat::Json(_) => "json"@,
        SourceFormat::Unknown(s) => s@,
    }
}

impl SourceFormat {
    /// The format a stored lower-case name denotes: the reader of that name with its
    /// default options, or an unknown format carrying the name.
    pub fn from_name(name: &str) -> (r: SourceFormat)
        ensures
            name@ == "parquet"@ ==> r == SourceFormat::Parquet,
            name@ == "arrow"@ ==> r == SourceFormat::Arrow,
            name@ == "csv"@ ==> r == SourceFormat::Csv(csv_default()),
            name@ == "json"@ ==> r == SourceFormat::Json(json_default()),
            name@ != "parquet"@ && name@ != "arrow"@ && name@ != "csv"@ && name@ != "json"@ ==> (r matches SourceFormat::Unknown(s) && s@ == name@),
    {
        let c = chars_of(name);
        proof {
            reveal_strlit("parquet");
            reveal_strlit("arrow");
            reveal_strlit("csv");
            reveal_strlit("json");
            assert("parquet"@.len() == 7);
            assert("arrow"@.len() == 5);
            assert("csv"@.len() == 3);
            assert("json"@.len() == 4);
        }
        if str_is("parquet", &c) {
            SourceFormat::Parquet
        } else if str_is("arrow", &c) {
            SourceFormat::Arrow
        } else if str_is("csv", &c) {
            SourceFormat::Csv(CsvRead::new())
        } else if str_is("json", &c) {
            SourceFormat::Json(JsonRead::new())
        } else {
            SourceFormat::Unknown(crate::text::owned(name))
        }
    }

    /// The format's lower-case name, [`format_name`].
    pub fn name(&self) -> (r: String)
        ensures
            r@ == format_name(*self),
    {
        match self {
            SourceFormat::Parquet => crate::text::owned("parquet"),
            SourceFormat::Arrow => crate::text::owned("arrow"),
            SourceFormat::Csv(_) => crate::text::owned("csv"),
            SourceFormat::Json(_) => crate::text::owned("json"),
            SourceFormat::Unknown(s) => s.clone(),
        }
    }
}

/// An `OPTIONS` value as the statement parser hands it over.
#[derive(Clone, Debug, PartialEq, Eq)]
pub enum OptionValue {
    /// A single-quoted, double-quoted or escaped string literal.
    Quoted(String),
    /// A number, in its source spelling.
    Number(String),
    /// Anything else the parser can produce.
    Other,
}

// ---- value coercions ---------------------------------------------------------------------

/// `"The option '<key>'"`, the start of every value refusal.
pub open spec fn the_option(key: Seq<char>) -> Seq<char> {
    "The option '"@ + key + "'"@
}

/// An option's value as text.
pub open spec fn text_of(key: Seq<char>, v: OptionValue) -> Result<Seq<char>, Seq<char>> {
    match v {
        OptionValue::Quoted(s) => Ok(s@),
        OptionValue::Number(n) => Ok(n@),
        OptionValue::Other => Err(the_option(key) + " needs a string or number value"@),
    }
}

fn push_the_option(v: &mut Vec<char>, key: &str)
    ensures
        final(v)@ == old(v)@ + the_option(key@),
{
    append_str(v, "The option '");
    append_str(v, key);
    append_str(v, "'");
    assert(final(v)@ =~= old(v)@ + the_option(key@));
}

fn text(key: &str, value: &OptionValue) -> (r: Result<Vec<char>, String>)
    ensures
        match text_of(key@, *value) {
            Ok(t) => r matches Ok(c) && c@ == t,
            Err(e) => r matches Err(m) && m@ == e,
        },
{
    match value {
        OptionValue::Quoted(s) => Ok(chars_of(s.as_str())),
        OptionValue::Number(n) => Ok(chars_of(n.as_str())),
        OptionValue::Other => {
            let mut v: Vec<char> = Vec::new();
            push_the_option(&mut v, key);
            append_str(&mut v, " needs a string or number value");
            Err(string_of(&v))
        },
    }
}

/// A `true` / `false` option, in any ASCII case.
pub open spec fn boolean_of(key: Seq<char>, v: OptionValue) -> Result<bool, Seq<char>> {
    match text_of(key, v) {
        Err(e) => Err(e),
        Ok(t) => if lower_seq(t) == "true"@ {
            Ok(true)
        } else if lower_seq(t) == "false"@ {
            Ok(false)
        } else {
            Err(the_option(key) + " is '"@ + lower_seq(t) + "'. It takes true or false"@)
        },
    }
}

fn boolean(key: &str, value: &OptionValue) -> (r: Result<bool, String>)
    ensures
        match boolean_of(key@, *value) {
            Ok(b) => r == Ok::<bool, String>(b),
            Err(e) => r matches Err(m) && m@ == e,
        },
{
    let t = match text(key, value) {
        Ok(t) => t,
        Err(e) => return Err(e),
    };
    let low = lower_all(&t);
    if str_is("true", &low) {
        return Ok(true);
    }
    if str_is("false", &low) {
        return Ok(false);
    }
    let mut v: Vec<char> = Vec::new();
    push_the_option(&mut v, key);
    append_str(&mut v, " is '");
    crate::text::append_chars(&mut v, &low);
    append_str(&mut v, "'. It takes true or false");
    Err(string_of(&v))
}

/// One character from a text box or an option: nothing for an empty value, a tab for the
/// two characters `\t`, the character itself for one, and a refusal naming `what` for a
/// longer value, which is reported rather than truncated.
pub open spec fn one_char_of(what: Seq<char>, s: Seq<char>) -> Result<Option<char>, Seq<char>> {
    if s.len() == 0 {
        Ok(None)
    } else if s == seq!['\\', 't'] {
        Ok(Some('\t'))
    } else if s.len() == 1 {
        Ok(Some(s[0]))
    } else {
        Err("The "@ + what + " has to be a single character"@)
    }
}

/// [`one_char_of`].
pub fn one_char(what: &str, s: &str) -> (r: Result<Option<char>, String>)
    ensures
        match one_char_of(what@, s@) {
            Ok(c) => r == Ok::<Option<char>, String>(c),
            Err(e) => r matches Err(m) && m@ == e,
        },
{
    let c = chars_of(s);
    if c.len() == 0 {
        return Ok(None);
    }
    if c.len() == 2 && c[0] == '\\' && c[1] == 't' {
        assert(c@ =~= seq!['\\', 't']);
        return Ok(Some('\t'));
    }
    assert(c@ != seq!['\\', 't']);
    if c.len() == 1 {
        return Ok(Some(c[0]));
    }
    let mut v: Vec<char> = Vec::new();
    append_str(&mut v, "The ");
    append_str(&mut v, what);
    append_str(&mut v, " has to be a single character");
    Err(string_of(&v))
}

/// A single-character option.
pub open spec fn character_of(key: Seq<char>, what: Seq<char>, v: OptionValue) -> Result<char, Seq<char>> {
    match text_of(key, v) {
        Err(e) => Err(e),
        Ok(t) => match one_char_of(what, t) {
            Err(e) => Err(e),
            Ok(None) => Err(the_option(key) + " has no value"@),
            Ok(Some(c)) => Ok(c),
        },
    }
}

fn character(key: &str, what: &str, value: &OptionValue) -> (r: Result<char, String>)
    ensures
        match character_of(key@, what@, *value) {
            Ok(c) => r == Ok::<char, String>(c),
            Err(e) => r matches Err(m) && m@ == e,
        },
{
    let t = match text(key, value) {
        Ok(t) => t,
        Err(e) => return Err(e),
    };
    let s = string_of(&t);
    match one_char(what, s.as_str()) {
        Err(e) => Err(e),
        Ok(Some(c)) => Ok(c),
        Ok(None) => {
            let mut v: Vec<char> = Vec::new();
            push_the_option(&mut v, key);
            append_str(&mut v, " has no value");
            Err(string_of(&v))
        },
    }
}

/// What `usize::from_str` reads: an optional `+`, then one or more ASCII digits whose value
/// fits in a `usize`.
pub open spec fn parse_usize(s: Seq<char>) -> Option<nat> {
    let d = if s.len() > 0 && s[0] == '+' { s.drop_first() } else { s };
    if d.len() > 0 && all_digits(d) && digits_value(d) <= usize::MAX {
        Some(digits_value(d))
    } else {
        None
    }
}

fn parse_usize_chars(s: &[char]) -> (r: Option<usize>)
    ensures
        match parse_usize(s@) {
            Some(n) => r == Some(n as usize),
            None => r is None,
        },
{
    let signed = s.len() > 0 && s[0] == '+';
    let d: Vec<char> = if signed { crate::text::slice_vec(s, 1, s.len()) } else { crate::text::slice_vec(s, 0, s.len()) };
    proof {
        if signed {
            assert(d@ =~= s@.drop_first());
        } else {
            assert(d@ =~= s@);
        }
    }
    if d.len() == 0 {
        return None;
    }
    let mut i: usize = 0;
    while i < d.len()
        invariant
            i <= d@.len(),
            d@ == (if s@.len() > 0 && s@[0] == '+' { s@.drop_first() } else { s@ }),
            forall|j: int| 0 <= j < i ==> crate::text::is_ascii_digit(#[trigger] d@[j]),
        decreases d@.len() - i,
    {
        if !crate::text::is_digit(d[i]) {
            assert(!all_digits(d@)) by {
                assert(!crate::text::is_ascii_digit(d@[i as int]));
            }
            return None;
        }
        i = i + 1;
    }
    match crate::util::digits_upto(&d, usize::MAX as u64) {
        Some(v) => Some(v as usize),
        None => None,
    }
}

/// A row-count option.
pub open spec fn count_of(key: Seq<char>, v: OptionValue) -> Result<nat, Seq<char>> {
    match text_of(key, v) {
        Err(e) => Err(e),
        Ok(t) => match parse_usize(t) {
            Some(n) => Ok(n),
            None => Err(the_option(key) + " takes a number of rows"@),
        },
    }
}

fn count(key: &str, value: &OptionValue) -> (r: Result<usize, String>)
    ensures
        match count_of(key@, *value) {
            Ok(n) => r == Ok::<usize, String>(n as usize),
            Err(e) => r matches Err(m) && m@ == e,
        },
{
    let t = match text(key, value) {
        Ok(t) => t,
        Err(e) => return Err(e),
    };
    match parse_usize_chars(&t) {
        Some(n) => Ok(n),
        None => {
            let mut v: Vec<char> = Vec::new();
            push_the_option(&mut v, key);
            append_str(&mut v, " takes a number of rows");
            Err(string_of(&v))
        },
    }
}

/// The compression an upper-cased word names in the reader's own vocabulary: `GZIP` or
/// `GZ`, `BZIP2` or `BZ2`, `XZ`, `ZST` or `ZSTD`, and `UNCOMPRESSED` or the empty word.
pub open spec fn compression_word(upper: Seq<char>) -> Option<FileCompression> {
    if upper == "GZIP"@ || upper == "GZ"@ {
        Some(FileCompression::Gzip)
    } else if upper == "BZIP2"@ || upper == "BZ2"@ {
        Some(FileCompression::Bzip2)
    } else if upper == "XZ"@ {
        Some(FileCompression::Xz)
    } else if upper == "ZST"@ || upper == "ZSTD"@ {
        Some(FileCompression::Zstd)
    } else if upper == Seq::<char>::empty() || upper == "UNCOMPRESSED"@ {
        Some(FileCompression::Uncompressed)
    } else {
        None
    }
}

/// `raw.parse::<CompressionTypeVariant>()` from `datafusion-common`.
///
/// Trusted: the source upper-cases `raw` with `str::to_uppercase` ([`uppercase_of`]) and
/// matches the result against its words ([`compression_word`]); in particular the five
/// lower-case words `uncompressed`, `gzip`, `bzip2`, `xz` and `zstd` read as the variants of
/// the same names.
#[verifier::external_body]
fn parse_compression(raw: &str) -> (r: Option<FileCompression>)
    ensures
        r == compression_word(uppercase_of(raw@)),
        raw@ == "uncompressed"@ ==> r == Some(FileCompression::Uncompressed),
        raw@ == "gzip"@ ==> r == Some(FileCompression::Gzip),
        raw@ == "bzip2"@ ==> r == Some(FileCompression::Bzip2),
        raw@ == "xz"@ ==> r == Some(FileCompression::Xz),
        raw@ == "zstd"@ ==> r == Some(FileCompression::Zstd),
{
    match raw.parse::<CompressionTypeVariant>() {
        Ok(CompressionTypeVariant::UNCOMPRESSED) => Some(FileCompression::Uncompressed),
        Ok(CompressionTypeVariant::GZIP) => Some(FileCompression::Gzip),
        Ok(CompressionTypeVariant::BZIP2) => Some(FileCompression::Bzip2),
        Ok(CompressionTypeVariant::XZ) => Some(FileCompression::Xz),
        Ok(CompressionTypeVariant::ZSTD) => Some(FileCompression::Zstd),
        Err(_) => None,
    }
}

/// A compression option, in the engine's own spelling.
pub open spec fn compression_of(key: Seq<char>, v: OptionValue) -> Result<FileCompression, Seq<char>> {
    match text_of(key, v) {
        Err(e) => Err(e),
        Ok(t) => match compression_word(uppercase_of(t)) {
            Some(c) => Ok(c),
            None => Err(
                the_option(key) + " is '"@ + t + "'. It takes uncompressed, gzip, bzip2, xz or zstd"@,
            ),
        },
    }
}

fn compression(key: &str, value: &OptionValue) -> (r: Result<FileCompression, String>)
    ensures
        match compression_of(key@, *value) {
            Ok(c) => r == Ok::<FileCompression, String>(c),
            Err(e) => r matches Err(m) && m@ == e,
        },
{
    let t = match text(key, value) {
        Ok(t) => t,
        Err(e) => return Err(e),
    };
    let raw = string_of(&t);
    match parse_compression(raw.as_str()) {
        Some(c) => Ok(c),
        None => {
            let mut v: Vec<char> = Vec::new();
            push_the_option(&mut v, key);
            append_str(&mut v, " is '");
            crate::text::append_chars(&mut v, &t);
            append_str(&mut v, "'. It takes uncompressed, gzip, bzip2, xz or zstd");
            Err(string_of(&v))
        },
    }
}

// ---- the option tables --------------------------------------------------------------------

/// The closed sets of words an option may take.
#[derive(Clone, Copy, Debug, PartialEq, Eq, Structural)]
pub enum WordSet {
    /// Whole-file compression, in the engine's spelling.
    Compression,
}

/// The words of a set, in the order they are offered.
pub open spec fn word_set_words(w: WordSet) -> Seq<Seq<char>> {
    match w {
        WordSet::Compression => seq!["uncompressed"@, "gzip"@, "bzip2"@, "xz"@, "zstd"@],
    }
}

impl WordSet {
    /// The words of this set, [`word_set_words`].
    pub fn words(self) -> (r: Vec<&'static str>)
        ensures
            crate::text::str_views(r@) == word_set_words(self),
    {
        match self {
            WordSet::Compression => {
                let r = vec!["uncompressed", "gzip", "bzip2", "xz", "zstd"];
                assert(crate::text::str_views(r@) =~= word_set_words(self));
                r
            },
        }
    }
}

/// The value shape of one `OPTIONS` key: what completion may offer at its value.
#[derive(Clone, Copy, Debug, PartialEq, Eq, Structural)]
pub enum OptionKind {
    Bool,
    Char,
    Int,
    Enum(WordSet),
}

/// The field of [`CsvRead`] a key lands on.
#[derive(Clone, Copy, Debug, PartialEq, Eq, Structural)]
pub enum CsvField {
    Header,
    Delimiter,
    Quote,
    Escape,
    Comment,
    NewlinesInValues,
    TruncatedRows,
    InferRows,
    Compression,
}

/// The field of [`JsonRead`] a key lands on.
#[derive(Clone, Copy, Debug, PartialEq, Eq, Structural)]
pub enum JsonField {
    NewlineDelimited,
    InferRows,
    Compression,
}

/// One `OPTIONS` key of a format: its spelling, value shape, the short detail completion
/// shows, and the field its value lands on.
#[derive(Clone, Copy, Debug)]
pub struct OptionKey<F> {
    pub key: &'static str,
    pub kind: OptionKind,
    pub what: &'static str,
    pub field: F,
}

/// The CSV reader's keys: every field of [`CsvRead`] and nothing else.
pub open spec fn csv_keys() -> Seq<(Seq<char>, OptionKind, Seq<char>, CsvField)> {
    seq![
        ("format.has_header"@, OptionKind::Bool, "header row"@, CsvField::Header),
        ("format.delimiter"@, OptionKind::Char, "delimiter character"@, CsvField::Delimiter),
        ("format.quote"@, OptionKind::Char, "quote character"@, CsvField::Quote),
        ("format.escape"@, OptionKind::Char, "escape character"@, CsvField::Escape),
        ("format.comment"@, OptionKind::Char, "comment character"@, CsvField::Comment),
        ("format.newlines_in_values"@, OptionKind::Bool, "newlines in quoted values"@, CsvField::NewlinesInValues),
        ("format.truncated_rows"@, OptionKind::Bool, "tolerate short rows"@, CsvField::TruncatedRows),
        ("format.schema_infer_max_rec"@, OptionKind::Int, "rows read to infer the schema"@, CsvField::InferRows),
        ("format.compression"@, OptionKind::Enum(WordSet::Compression), "whole-file compression"@, CsvField::Compression),
    ]
}

/// The JSON reader's keys: every field of [`JsonRead`] and nothing else.
pub open spec fn json_keys() -> Seq<(Seq<char>, OptionKind, Seq<char>, JsonField)> {
    seq![
        ("format.newline_delimited"@, OptionKind::Bool, "newline-delimited shape"@, JsonField::NewlineDelimited),
        ("format.schema_infer_max_rec"@, OptionKind::Int, "rows read to infer the schema"@, JsonField::InferRows),
        ("format.compression"@, OptionKind::Enum(WordSet::Compression), "whole-file compression"@, JsonField::Compression),
    ]
}

/// The model of one key row.
pub open spec fn key_row<F>(k: OptionKey<F>) -> (Seq<char>, OptionKind, Seq<char>, F) {
    (k.key@, k.kind, k.what@, k.field)
}

/// The CSV reader's keys, [`csv_keys`].
pub fn csv_option_keys() -> (r: Vec<OptionKey<CsvField>>)
    ensures
        r@.map_values(|k: OptionKey<CsvField>| key_row(k)) == csv_keys(),
{
    let r = vec![
        OptionKey { key: "format.has_header", kind: OptionKind::Bool, what: "header row", field: CsvField::Header },
        OptionKey { key: "format.delimiter", kind: OptionKind::Char, what: "delimiter character", field: CsvField::Delimiter },
        OptionKey { key: "format.quote", kind: OptionKind::Char, what: "quote character", field: CsvField::Quote },
        OptionKey { key: "format.escape", kind: OptionKind::Char, what: "escape character", field: CsvField::Escape },
        OptionKey { key: "format.comment", kind: OptionKind::Char, what: "comment character", field: CsvField::Comment },
        OptionKey { key: "format.newlines_in_values", kind: OptionKind::Bool, what: "newlines in quoted values", field: CsvField::NewlinesInValues },
        OptionKey { key: "format.truncated_rows", kind: OptionKind::Bool, what: "tolerate short rows", field: CsvField::TruncatedRows },
        OptionKey { key: "format.schema_infer_max_rec", kind: OptionKind::Int, what: "rows read to infer the schema", field: CsvField::InferRows },
        OptionKey { key: "format.compression", kind: OptionKind::Enum(WordSet::Compression), what: "whole-file compression", field: CsvField::Compression },
    ];
    assert(r@.map_values(|k: OptionKey<CsvField>| key_row(k)) =~= csv_keys());
    r
}

/// The JSON reader's keys, [`json_keys`].
pub fn json_option_keys() -> (r: Vec<OptionKey<JsonField>>)
    ensures
        r@.map_values(|k: OptionKey<JsonField>| key_row(k)) == json_keys(),
{
    let r = vec![
        OptionKey { key: "format.newline_delimited", kind: OptionKind::Bool, what: "newline-delimited shape", field: JsonField::NewlineDelimited },
        OptionKey { key: "format.schema_infer_max_rec", kind: OptionKind::Int, what: "rows read to infer the schema", field: JsonField::InferRows },
        OptionKey { key: "format.compression", kind: OptionKind::Enum(WordSet::Compression), what: "whole-file compression", field: JsonField::Compression },
    ];
    assert(r@.map_values(|k: OptionKey<JsonField>| key_row(k)) =~= json_keys());
    r
}

/// A key row as completion sees it: key, kind and detail.
pub open spec fn offer_row<F>(r: (Seq<char>, OptionKind, Seq<char>, F)) -> (Seq<char>, OptionKind, Seq<char>) {
    (r.0, r.1, r.2)
}

/// The keys completion may offer for a `STORED AS` word: the format's own keys, less the
/// shape key on `NDJSON` (which already states its shape), and nothing for a format with
/// no read options or a word that is no format.
pub open spec fn option_offer(word: Seq<char>) -> Seq<(Seq<char>, OptionKind, Seq<char>)> {
    if word == "CSV"@ {
        csv_keys().map_values(|r: (Seq<char>, OptionKind, Seq<char>, CsvField)| offer_row(r))
    } else if word == "JSON"@ {
        json_keys().map_values(|r: (Seq<char>, OptionKind, Seq<char>, JsonField)| offer_row(r))
    } else if word == "NDJSON"@ {
        json_keys().drop_first().map_values(|r: (Seq<char>, OptionKind, Seq<char>, JsonField)| offer_row(r))
    } else {
        seq![]
    }
}

/// The view of an offer row.
pub open spec fn offer_view(r: (&str, OptionKind, &str)) -> (Seq<char>, OptionKind, Seq<char>) {
    (r.0@, r.1, r.2@)
}

/// The keys completion may offer for the format word `STORED AS` names, [`option_offer`]:
/// the very tables the options are read through.
pub fn option_keys_for(format_word: &str) -> (r: Vec<(&'static str, OptionKind, &'static str)>)
    ensures
        r@.map_values(|x: (&str, OptionKind, &str)| offer_view(x)) == option_offer(format_word@),
{
    proof {
        reveal_strlit("CSV");
        reveal_strlit("JSON");
        reveal_strlit("NDJSON");
    }
    let mut out: Vec<(&'static str, OptionKind, &'static str)> = Vec::new();
    if str_is("CSV", &chars_of(format_word)) {
        let keys = csv_option_keys();
        let ghost rows = csv_keys();
        for i in 0..keys.len()
            invariant
                keys@.map_values(|k: OptionKey<CsvField>| key_row(k)) == rows,
                rows == csv_keys(),
                out@.map_values(|x: (&str, OptionKind, &str)| offer_view(x)) == rows.take(i as int).map_values(
                    |r: (Seq<char>, OptionKind, Seq<char>, CsvField)| offer_row(r),
                ),
        {
            let k = keys[i];
            assert(key_row(keys@[i as int]) == rows[i as int]);
            let ghost prev = out@;
            out.push((k.key, k.kind, k.what));
            proof {
                assert(out@ =~= prev.push((k.key, k.kind, k.what)));
                assert(out@.map_values(|x: (&str, OptionKind, &str)| offer_view(x)) =~= prev.map_values(
                    |x: (&str, OptionKind, &str)| offer_view(x),
                ).push(offer_row(rows[i as int])));
                assert(rows.take(i + 1).map_values(|r: (Seq<char>, OptionKind, Seq<char>, CsvField)| offer_row(r))
                    =~= rows.take(i as int).map_values(|r: (Seq<char>, OptionKind, Seq<char>, CsvField)| offer_row(r)).push(
                    offer_row(rows[i as int]),
                ));
            }
        }
        assert(rows.take(rows.len() as int) =~= rows);
        assert(format_word@ == "CSV"@);
        assert(out@.map_values(|x: (&str, OptionKind, &str)| offer_view(x)) == rows.map_values(|r: (Seq<char>, OptionKind, Seq<char>, CsvField)| offer_row(r)));
        assert(out@.map_values(|x: (&str, OptionKind, &str)| offer_view(x)) == option_offer(format_word@));
    } else if str_is("JSON", &chars_of(format_word)) || str_is("NDJSON", &chars_of(format_word)) {
        let skip: usize = if str_is("NDJSON", &chars_of(format_word)) { 1 } else { 0 };
        let keys = json_option_keys();
        let ghost rows = json_keys().skip(skip as int);
        assert(json_keys().skip(0) =~= json_keys());
        assert(json_keys().skip(1) =~= json_keys().drop_first());
        for i in skip..keys.len()
            invariant
                keys@.map_values(|k: OptionKey<JsonField>| key_row(k)) == json_keys(),
                rows == json_keys().skip(skip as int),
                skip <= 1,
                out@.map_values(|x: (&str, OptionKind, &str)| offer_view(x)) == rows.take(i - skip).map_values(
                    |r: (Seq<char>, OptionKind, Seq<char>, JsonField)| offer_row(r),
                ),
        {
            let k = keys[i];
            assert(key_row(keys@[i as int]) == json_keys()[i as int]);
            assert(rows[i - skip] == json_keys()[i as int]);
            let ghost prev = out@;
            out.push((k.key, k.kind, k.what));
            proof {
                let j = i - skip;
                assert(out@ =~= prev.push((k.key, k.kind, k.what)));
                assert(out@.map_values(|x: (&str, OptionKind, &str)| offer_view(x)) =~= prev.map_values(
                    |x: (&str, OptionKind, &str)| offer_view(x),
                ).push(offer_row(rows[j])));
                assert(rows.take(j + 1).map_values(|r: (Seq<char>, OptionKind, Seq<char>, JsonField)| offer_row(r))
                    =~= rows.take(j).map_values(|r: (Seq<char>, OptionKind, Seq<char>, JsonField)| offer_row(r)).push(
                    offer_row(rows[j]),
                ));
            }
        }
        assert(rows.take(rows.len() as int) =~= rows);
        assert(out@.map_values(|x: (&str, OptionKind, &str)| offer_view(x)) == rows.map_values(|r: (Seq<char>, OptionKind, Seq<char>, JsonField)| offer_row(r)));
        proof {
            reveal_strlit("CSV");
            reveal_strlit("JSON");
            reveal_strlit("NDJSON");
        }
        assert("JSON"@.len() == 4);
        assert("NDJSON"@.len() == 6);
        assert("CSV"@.len() == 3);
        if skip == 1 {
            assert(format_word@ == "NDJSON"@);
            assert(format_word@ != "CSV"@);
            assert(format_word@ != "JSON"@);
            assert(rows == json_keys().drop_first());
        } else {
            assert(format_word@ == "JSON"@);
            assert(format_word@ != "CSV"@);
            assert(rows == json_keys());
        }
        assert(out@.map_values(|x: (&str, OptionKind, &str)| offer_view(x)) == option_offer(format_word@));
    } else {
        assert(out@.map_values(|x: (&str, OptionKind, &str)| offer_view(x)) =~= Seq::<(Seq<char>, OptionKind, Seq<char>)>::empty());
    }
    out
}

/// The format words `STORED AS` takes.
pub open spec fn stored_as_words() -> Seq<Seq<char>> {
    seq!["PARQUET"@, "CSV"@, "JSON"@, "NDJSON"@, "ARROW"@]
}

/// The format words `STORED AS` takes, [`stored_as_words`].
pub fn stored_as_formats() -> (r: Vec<&'static str>)
    ensures
        crate::text::str_views(r@) == stored_as_words(),
{
    let r = vec!["PARQUET", "CSV", "JSON", "NDJSON", "ARROW"];
    assert(crate::text::str_views(r@) =~= stored_as_words());
    r
}

// ---- reading OPTIONS onto the definition -----------------------------------------------

/// The field of the first row of a key table whose key is `key`.
pub open spec fn first_key<F>(t: Seq<(Seq<char>, OptionKind, Seq<char>, F)>, key: Seq<char>) -> Option<F>
    decreases t.len(),
{
    if t.len() == 0 {
        None
    } else if t[0].0 == key {
        Some(t[0].3)
    } else {
        first_key(t.drop_first(), key)
    }
}

/// `o` with one CSV option read onto its field.
pub open spec fn set_csv(o: CsvRead, field: CsvField, key: Seq<char>, v: OptionValue) -> Result<CsvRead, Seq<char>> {
    match field {
        CsvField::Header => match boolean_of(key, v) {
            Ok(b) => Ok(CsvRead { header: b, ..o }),
            Err(e) => Err(e),
        },
        CsvField::Delimiter => match character_of(key, "delimiter"@, v) {
            Ok(c) => Ok(CsvRead { delimiter: c, ..o }),
            Err(e) => Err(e),
        },
        CsvField::Quote => match character_of(key, "quote character"@, v) {
            Ok(c) => Ok(CsvRead { quote: c, ..o }),
            Err(e) => Err(e),
        },
        CsvField::Escape => match character_of(key, "escape character"@, v) {
            Ok(c) => Ok(CsvRead { escape: Some(c), ..o }),
            Err(e) => Err(e),
        },
        CsvField::Comment => match character_of(key, "comment character"@, v) {
            Ok(c) => Ok(CsvRead { comment: Some(c), ..o }),
            Err(e) => Err(e),
        },
        CsvField::NewlinesInValues => match boolean_of(key, v) {
            Ok(b) => Ok(CsvRead { newlines_in_values: b, ..o }),
            Err(e) => Err(e),
        },
        CsvField::TruncatedRows => match boolean_of(key, v) {
            Ok(b) => Ok(CsvRead { truncated_rows: b, ..o }),
            Err(e) => Err(e),
        },
        CsvField::InferRows => match count_of(key, v) {
            Ok(n) => Ok(CsvRead { infer_rows: Some(n as usize), ..o }),
            Err(e) => Err(e),
        },
        CsvField::Compression => match compression_of(key, v) {
            Ok(c) => Ok(CsvRead { compression: c, ..o }),
            Err(e) => Err(e),
        },
    }
}

/// `o` with one JSON option read onto its field; a row count of zero means the default.
pub open spec fn set_json(o: JsonRead, field: JsonField, key: Seq<char>, v: OptionValue) -> Result<JsonRead, Seq<char>> {
    match field {
        JsonField::NewlineDelimited => match boolean_of(key, v) {
            Ok(b) => Ok(JsonRead { shape: if b { JsonShape::NewlineDelimited } else { JsonShape::Array }, ..o }),
            Err(e) => Err(e),
        },
        JsonField::InferRows => match count_of(key, v) {
            Ok(n) => Ok(JsonRead { infer_rows: if n > 0 { Some(n as usize) } else { None }, ..o }),
            Err(e) => Err(e),
        },
        JsonField::Compression => match compression_of(key, v) {
            Ok(c) => Ok(JsonRead { compression: c, ..o }),
            Err(e) => Err(e),
        },
    }
}

fn set_csv_field(o: CsvRead, field: CsvField, key: &str, value: &OptionValue) -> (r: Result<CsvRead, String>)
    ensures
        match set_csv(o, field, key@, *value) {
            Ok(n) => r == Ok::<CsvRead, String>(n),
            Err(e) => r matches Err(m) && m@ == e,
        },
{
    match field {
        CsvField::Header => match boolean(key, value) {
            Ok(b) => Ok(CsvRead { header: b, ..o }),
            Err(e) => Err(e),
        },
        CsvField::Delimiter => match character(key, "delimiter", value) {
            Ok(c) => Ok(CsvRead { delimiter: c, ..o }),
            Err(e) => Err(e),
        },
        CsvField::Quote => match character(key, "quote character", value) {
            Ok(c) => Ok(CsvRead { quote: c, ..o }),
            Err(e) => Err(e),
        },
        CsvField::Escape => match character(key, "escape character", value) {
            Ok(c) => Ok(CsvRead { escape: Some(c), ..o }),
            Err(e) => Err(e),
        },
        CsvField::Comment => match character(key, "comment character", value) {
            Ok(c) => Ok(CsvRead { comment: Some(c), ..o }),
            Err(e) => Err(e),
        },
        CsvField::NewlinesInValues => match boolean(key, value) {
            Ok(b) => Ok(CsvRead { newlines_in_values: b, ..o }),
            Err(e) => Err(e),
        },
        CsvField::TruncatedRows => match boolean(key, value) {
            Ok(b) => Ok(CsvRead { truncated_rows: b, ..o }),
            Err(e) => Err(e),
        },
        CsvField::InferRows => match count(key, value) {
            Ok(n) => Ok(CsvRead { infer_rows: Some(n), ..o }),
            Err(e) => Err(e),
        },
        CsvField::Compression => match compression(key, value) {
            Ok(c) => Ok(CsvRead { compression: c, ..o }),
            Err(e) => Err(e),
        },
    }
}

fn set_json_field(o: JsonRead, field: JsonField, key: &str, value: &OptionValue) -> (r: Result<JsonRead, String>)
    ensures
        match set_json(o, field, key@, *value) {
            Ok(n) => r == Ok::<JsonRead, String>(n),
            Err(e) => r matches Err(m) && m@ == e,
        },
{
    match field {
        JsonField::NewlineDelimited => match boolean(key, value) {
            Ok(b) => Ok(JsonRead { shape: if b { JsonShape::NewlineDelimited } else { JsonShape::Array }, ..o }),
            Err(e) => Err(e),
        },
        JsonField::InferRows => match count(key, value) {
            Ok(n) => Ok(JsonRead { infer_rows: if n > 0 { Some(n) } else { None }, ..o }),
            Err(e) => Err(e),
        },
        JsonField::Compression => match compression(key, value) {
            Ok(c) => Ok(JsonRead { compression: c, ..o }),
            Err(e) => Err(e),
        },
    }
}

fn find_csv_field(key: &str) -> (r: Option<CsvField>)
    ensures
        r == first_key(csv_keys(), key@),
{
    let keys = csv_option_keys();
    let ghost t = csv_keys();
    let target = chars_of(key);
    let mut i: usize = 0;
    assert(t.skip(0) =~= t);
    while i < keys.len()
        invariant
            i <= keys@.len(),
            keys@.map_values(|k: OptionKey<CsvField>| key_row(k)) == t,
            t == csv_keys(),
            target@ == key@,
            first_key(t, key@) == first_key(t.skip(i as int), key@),
        decreases keys@.len() - i,
    {
        assert(key_row(keys@[i as int]) == t[i as int]);
        assert(t.skip(i as int)[0] == t[i as int]);
        assert(t.skip(i as int).drop_first() =~= t.skip(i + 1));
        if str_is(keys[i].key, &target) {
            return Some(keys[i].field);
        }
        i = i + 1;
    }
    None
}

fn find_json_field(key: &str) -> (r: Option<JsonField>)
    ensures
        r == first_key(json_keys(), key@),
{
    let keys = json_option_keys();
    let ghost t = json_keys();
    let target = chars_of(key);
    let mut i: usize = 0;
    assert(t.skip(0) =~= t);
    while i < keys.len()
        invariant
            i <= keys@.len(),
            keys@.map_values(|k: OptionKey<JsonField>| key_row(k)) == t,
            t == json_keys(),
            target@ == key@,
            first_key(t, key@) == first_key(t.skip(i as int), key@),
        decreases keys@.len() - i,
    {
        assert(key_row(keys@[i as int]) == t[i as int]);
        assert(t.skip(i as int)[0] == t[i as int]);
        assert(t.skip(i as int).drop_first() =~= t.skip(i + 1));
        if str_is(keys[i].key, &target) {
            return Some(keys[i].field);
        }
        i = i + 1;
    }
    None
}

/// What `str::to_uppercase` makes of a string: Unicode upper case.
pub uninterp spec fn uppercase_of(s: Seq<char>) -> Seq<char>;

/// `str::to_uppercase`.
///
/// Trusted: the result is the standard library's Unicode upper case of `s`, a function of
/// `s` alone, named [`uppercase_of`].
#[verifier::external_body]
fn to_uppercase(s: &str) -> (r: String)
    ensures
        r@ == uppercase_of(s@),
{
    s.to_uppercase()
}

/// The format's name in upper case, as `STORED AS` spells it.
pub open spec fn upper_name(f: SourceFormat) -> Seq<char> {
    match f {
        SourceFormat::Parquet => "PARQUET"@,
        SourceFormat::Arrow => "ARROW"@,
        SourceFormat::Csv(_) => "CSV"@,
        SourceFormat::Json(_) => "JSON"@,
        SourceFormat::Unknown(s) => uppercase_of(s@),
    }
}

fn upper_name_of(f: &SourceFormat) -> (r: String)
    ensures
        r@ == upper_name(*f),
{
    match f {
        SourceFormat::Parquet => crate::text::owned("PARQUET"),
        SourceFormat::Arrow => crate::text::owned("ARROW"),
        SourceFormat::Csv(_) => crate::text::owned("CSV"),
        SourceFormat::Json(_) => crate::text::owned("JSON"),
        SourceFormat::Unknown(s) => to_uppercase(s.as_str()),
    }
}

/// A key with no field on the format in play, naming the format.
pub open spec fn unsupported_text(key: Seq<char>, f: SourceFormat, name: Seq<char>) -> Seq<char> {
    "'"@ + key + "' is not a read option for a "@ + format_name(f) + " table. Table '"@ + name + "' is STORED AS "@
        + upper_name(f)
}

/// One `OPTIONS` entry read onto the definition's own field, refused by name where there
/// is none; a format without read options refuses every key.
pub open spec fn apply_option(f: SourceFormat, name: Seq<char>, key: Seq<char>, v: OptionValue) -> Result<SourceFormat, Seq<char>> {
    match f {
        SourceFormat::Csv(o) => match first_key(csv_keys(), key) {
            Some(field) => match set_csv(o, field, key, v) {
                Ok(n) => Ok(SourceFormat::Csv(n)),
                Err(e) => Err(e),
            },
            None => Err(unsupported_text(key, f, name)),
        },
        SourceFormat::Json(o) => match first_key(json_keys(), key) {
            Some(field) => match set_json(o, field, key, v) {
                Ok(n) => Ok(SourceFormat::Json(n)),
                Err(e) => Err(e),
            },
            None => Err(unsupported_text(key, f, name)),
        },
        _ => Err("Table '"@ + name + "' is STORED AS "@ + upper_name(f) + ", which takes no read options"@),
    }
}

fn unsupported(key: &str, format: &SourceFormat, name: &str) -> (r: String)
    ensures
        r@ == unsupported_text(key@, *format, name@),
{
    let mut v: Vec<char> = Vec::new();
    append_str(&mut v, "'");
    append_str(&mut v, key);
    append_str(&mut v, "' is not a read option for a ");
    let n = format.name();
    append_str(&mut v, n.as_str());
    append_str(&mut v, " table. Table '");
    append_str(&mut v, name);
    append_str(&mut v, "' is STORED AS ");
    let u = upper_name_of(format);
    append_str(&mut v, u.as_str());
    let r = string_of(&v);
    assert(r@ =~= unsupported_text(key@, *format, name@));
    r
}

/// Read one `OPTIONS` entry onto the definition, [`apply_option`]; a refusal leaves the
/// format as it was.
pub fn apply(format: &mut SourceFormat, name: &str, key: &str, value: &OptionValue) -> (r: Result<(), String>)
    ensures
        match apply_option(*old(format), name@, key@, *value) {
            Ok(n) => r is Ok && *final(format) == n,
            Err(e) => r matches Err(m) && m@ == e && *final(format) == *old(format),
        },
{
    match format {
        SourceFormat::Csv(o) => match find_csv_field(key) {
            Some(field) => match set_csv_field(*o, field, key, value) {
                Ok(n) => {
                    *format = SourceFormat::Csv(n);
                    Ok(())
                },
                Err(e) => Err(e),
            },
            None => Err(unsupported(key, format, name)),
        },
        SourceFormat::Json(o) => match find_json_field(key) {
            Some(field) => match set_json_field(*o, field, key, value) {
                Ok(n) => {
                    *format = SourceFormat::Json(n);
                    Ok(())
                },
                Err(e) => Err(e),
            },
            None => Err(unsupported(key, format, name)),
        },
        _ => {
            let mut v: Vec<char> = Vec::new();
            append_str(&mut v, "Table '");
            append_str(&mut v, name);
            append_str(&mut v, "' is STORED AS ");
            let u = upper_name_of(format);
            append_str(&mut v, u.as_str());
            append_str(&mut v, ", which takes no read options");
            let r = string_of(&v);
            assert(r@ =~= "Table '"@ + name@ + "' is STORED AS "@ + upper_name(*format) + ", which takes no read options"@);
            Err(r)
        },
    }
}

// ---- object store keys ----------------------------------------------------------------------

/// The object-store provider namespaces an option may sit under.
pub open spec fn store_namespaces() -> Seq<Seq<char>> {
    seq!["aws."@, "s3."@, "gcp."@, "google."@, "azure."@]
}

/// The object-store client options.
pub open spec fn client_keys() -> Seq<Seq<char>> {
    seq![
        "allow_http"@,
        "allow_invalid_certificates"@,
        "connect_timeout"@,
        "default_content_type"@,
        "http1_only"@,
        "http2_keep_alive_interval"@,
        "http2_keep_alive_timeout"@,
        "http2_keep_alive_while_idle"@,
        "http2_only"@,
        "pool_idle_timeout"@,
        "pool_max_idle_per_host"@,
        "proxy_url"@,
        "proxy_ca_certificate"@,
        "proxy_excludes"@,
        "timeout"@,
        "user_agent"@,
    ]
}

/// Where a store setting belongs.
pub open spec fn store_surface() -> Seq<char> {
    "A bucket, its region and where its credentials come from belong to a connection. Add one in Connections"@
}

/// Which surface owns `key` when the object store takes it rather than the reader.
pub open spec fn store_key_text(key: Seq<char>) -> Option<Seq<char>> {
    if (exists|i: int| 0 <= i < store_namespaces().len() && starts_with(key, #[trigger] store_namespaces()[i]))
        || client_keys().contains(key) {
        Some(store_surface())
    } else {
        None
    }
}

/// Which surface owns `key`, when it is one the object store takes rather than the reader,
/// and `None` for every other key — chosen only to pick a better sentence, never a gate.
pub fn store_key(key: &str) -> (r: Option<&'static str>)
    ensures
        match store_key_text(key@) {
            Some(t) => r matches Some(s) && s@ == t,
            None => r is None,
        },
{
    let k = chars_of(key);
    let namespaces = vec!["aws.", "s3.", "gcp.", "google.", "azure."];
    assert(crate::text::str_views(namespaces@) =~= store_namespaces());
    let mut i: usize = 0;
    while i < namespaces.len()
        invariant
            i <= namespaces@.len(),
            k@ == key@,
            crate::text::str_views(namespaces@) == store_namespaces(),
            forall|j: int| 0 <= j < i ==> !starts_with(key@, #[trigger] store_namespaces()[j]),
        decreases namespaces@.len() - i,
    {
        assert(store_namespaces()[i as int] == namespaces@[i as int]@);
        if has_prefix(&k, &chars_of(namespaces[i])) {
            return Some("A bucket, its region and where its credentials come from belong to a connection. Add one in Connections");
        }
        i = i + 1;
    }
    let clients = vec![
        "allow_http",
        "allow_invalid_certificates",
        "connect_timeout",
        "default_content_type",
        "http1_only",
        "http2_keep_alive_interval",
        "http2_keep_alive_timeout",
        "http2_keep_alive_while_idle",
        "http2_only",
        "pool_idle_timeout",
        "pool_max_idle_per_host",
        "proxy_url",
        "proxy_ca_certificate",
        "proxy_excludes",
        "timeout",
        "user_agent",
    ];
    assert(crate::text::str_views(clients@) =~= client_keys());
    let mut j: usize = 0;
    while j < clients.len()
        invariant
            j <= clients@.len(),
            k@ == key@,
            crate::text::str_views(clients@) == client_keys(),
            forall|m: int| 0 <= m < j ==> client_keys()[m] != key@,
        decreases clients@.len() - j,
    {
        assert(client_keys()[j as int] == clients@[j as int]@);
        if str_is(clients[j], &k) {
            assert(client_keys().contains(key@)) by {
                assert(client_keys()[j as int] == key@);
            }
            return Some("A bucket, its region and where its credentials come from belong to a connection. Add one in Connections");
        }
        j = j + 1;
    }
    None
}

// ---- STORED AS and OPTIONS -----------------------------------------------------------------

/// The reader a `STORED AS` word names, and whether the word itself states the
/// newline-delimited shape.
pub open spec fn base_format(word: Seq<char>) -> Option<(SourceFormat, bool)> {
    if word == "PARQUET"@ {
        Some((SourceFormat::Parquet, false))
    } else if word == "ARROW"@ {
        Some((SourceFormat::Arrow, false))
    } else if word == "CSV"@ {
        Some((SourceFormat::Csv(csv_default()), false))
    } else if word == "JSON"@ {
        Some((SourceFormat::Json(json_default()), false))
    } else if word == "NDJSON"@ {
        Some((SourceFormat::Json(json_default()), true))
    } else {
        None
    }
}

/// One `OPTIONS` entry in turn, given the entries before it: a key set twice (ignoring ASCII
/// case), an object-store key, and the shape key on `NDJSON` are refused before the key is
/// read onto the format.
pub open spec fn option_step(
    f: SourceFormat,
    ndjson: bool,
    name: Seq<char>,
    earlier: Seq<(String, OptionValue)>,
    entry: (String, OptionValue),
) -> Result<SourceFormat, Seq<char>> {
    let key = lower_seq(entry.0@);
    if exists|j: int| 0 <= j < earlier.len() && lower_seq(#[trigger] earlier[j].0@) == key {
        Err("The option '"@ + key + "' is set twice"@)
    } else if store_key_text(key) is Some {
        Err("'"@ + key + "' is an object store setting, not a table read option. "@ + store_surface())
    } else if ndjson && key == "format.newline_delimited"@ {
        Err("STORED AS NDJSON is newline-delimited JSON. Use STORED AS JSON to set 'format.newline_delimited'"@)
    } else {
        apply_option(f, name, key, entry.1)
    }
}

/// Every `OPTIONS` entry read in order onto `f`, stopping at the first refusal.
pub open spec fn read_options(
    f: SourceFormat,
    ndjson: bool,
    name: Seq<char>,
    options: Seq<(String, OptionValue)>,
) -> Result<SourceFormat, Seq<char>>
    decreases options.len(),
{
    if options.len() == 0 {
        Ok(f)
    } else {
        match read_options(f, ndjson, name, options.drop_last()) {
            Err(e) => Err(e),
            Ok(g) => option_step(g, ndjson, name, options.drop_last(), options.last()),
        }
    }
}

/// The reader `STORED AS` names, dressed in the options it takes; a format with no reader
/// here is refused by name.
pub open spec fn read_format_text(word: Seq<char>, name: Seq<char>, options: Seq<(String, OptionValue)>) -> Result<SourceFormat, Seq<char>> {
    match base_format(word) {
        None => Err("STORED AS "@ + word + " is not a format Strata reads. Use PARQUET, CSV, JSON or ARROW"@),
        Some((f, ndjson)) => read_options(f, ndjson, name, options),
    }
}

proof fn lemma_read_options_err(
    f: SourceFormat,
    ndjson: bool,
    name: Seq<char>,
    options: Seq<(String, OptionValue)>,
    k: int,
)
    requires
        0 <= k <= options.len(),
        read_options(f, ndjson, name, options.take(k)) is Err,
    ensures
        read_options(f, ndjson, name, options) == read_options(f, ndjson, name, options.take(k)),
    decreases options.len() - k,
{
    if k < options.len() {
        assert(options.drop_last().take(k) =~= options.take(k));
        lemma_read_options_err(f, ndjson, name, options.drop_last(), k);
    } else {
        assert(options.take(k) =~= options);
    }
}

fn seen_before(seen: &Vec<Vec<char>>, key: &Vec<char>) -> (r: bool)
    ensures
        r == exists|w: int| 0 <= w < seen@.len() && (#[trigger] seen@[w])@ == key@,
{
    let mut j: usize = 0;
    while j < seen.len()
        invariant
            j <= seen@.len(),
            forall|m: int| 0 <= m < j ==> (#[trigger] seen@[m])@ != key@,
        decreases seen@.len() - j,
    {
        if same_chars(&seen[j], key) {
            return true;
        }
        j = j + 1;
    }
    false
}

fn base_format_of(word: &str) -> (r: Option<(SourceFormat, bool)>)
    ensures
        r == base_format(word@),
{
    let w = chars_of(word);
    if str_is("PARQUET", &w) {
        Some((SourceFormat::Parquet, false))
    } else if str_is("ARROW", &w) {
        Some((SourceFormat::Arrow, false))
    } else if str_is("CSV", &w) {
        Some((SourceFormat::Csv(CsvRead::new()), false))
    } else if str_is("JSON", &w) {
        Some((SourceFormat::Json(JsonRead::new()), false))
    } else if str_is("NDJSON", &w) {
        Some((SourceFormat::Json(JsonRead::new()), true))
    } else {
        None
    }
}

/// The reader `STORED AS` names, dressed in the options that reader takes,
/// [`read_format_text`].
pub fn read_format(file_type: &str, name: &str, options: &[(String, OptionValue)]) -> (r: Result<SourceFormat, String>)
    ensures
        match read_format_text(file_type@, name@, options@) {
            Ok(f) => r == Ok::<SourceFormat, String>(f),
            Err(e) => r matches Err(m) && m@ == e,
        },
{
    let (mut format, ndjson) = match base_format_of(file_type) {
        Some(b) => b,
        None => {
            let mut v: Vec<char> = Vec::new();
            append_str(&mut v, "STORED AS ");
            append_str(&mut v, file_type);
            append_str(&mut v, " is not a format Strata reads. Use PARQUET, CSV, JSON or ARROW");
            return Err(string_of(&v));
        },
    };
    let ghost start = format;
    let mut seen: Vec<Vec<char>> = Vec::new();
    let mut i: usize = 0;
    assert(options@.take(0) =~= Seq::<(String, OptionValue)>::empty());
    while i < options.len()
        invariant
            i <= options@.len(),
            base_format(file_type@) == Some((start, ndjson)),
            read_options(start, ndjson, name@, options@.take(i as int)) == Ok::<SourceFormat, Seq<char>>(format),
            seen@.len() == i,
            forall|j: int| 0 <= j < i ==> (#[trigger] seen@[j])@ == lower_seq(options@[j].0@),
        decreases options@.len() - i,
    {
        let ghost earlier = options@.take(i as int);
        assert(options@.take(i + 1).drop_last() =~= earlier);
        assert(options@.take(i + 1).last() == options@[i as int]);
        let raw = chars_of(options[i].0.as_str());
        let key_chars = lower_all(&raw);
        let key = string_of(&key_chars);
        if seen_before(&seen, &key_chars) {
            let mut v: Vec<char> = Vec::new();
            append_str(&mut v, "The option '");
            crate::text::append_chars(&mut v, &key_chars);
            append_str(&mut v, "' is set twice");
            let r = string_of(&v);
            proof {
                let w = choose|w: int| 0 <= w < seen@.len() && (#[trigger] seen@[w])@ == key_chars@;
                assert(earlier[w] == options@[w]);
                assert(lower_seq(earlier[w].0@) == key_chars@);
                assert(r@ =~= "The option '"@ + key_chars@ + "' is set twice"@);
                assert(read_options(start, ndjson, name@, options@.take(i + 1)) == Err::<SourceFormat, Seq<char>>(r@));
                lemma_read_options_err(start, ndjson, name@, options@, i + 1);
            }
            return Err(r);
        }
        proof {
            assert forall|w: int| 0 <= w < earlier.len() implies lower_seq(#[trigger] earlier[w].0@) != key_chars@ by {
                assert(earlier[w] == options@[w]);
                assert(seen@[w]@ == lower_seq(options@[w].0@));
            }
        }
        if let Some(surface) = store_key(key.as_str()) {
            let mut v: Vec<char> = Vec::new();
            append_str(&mut v, "'");
            crate::text::append_chars(&mut v, &key_chars);
            append_str(&mut v, "' is an object store setting, not a table read option. ");
            append_str(&mut v, surface);
            let r = string_of(&v);
            proof {
                assert(r@ =~= "'"@ + key_chars@ + "' is an object store setting, not a table read option. "@ + store_surface());
                assert(read_options(start, ndjson, name@, options@.take(i + 1)) == Err::<SourceFormat, Seq<char>>(r@));
                lemma_read_options_err(start, ndjson, name@, options@, i + 1);
            }
            return Err(r);
        }
        if ndjson && str_is("format.newline_delimited", &key_chars) {
            let r = crate::text::owned("STORED AS NDJSON is newline-delimited JSON. Use STORED AS JSON to set 'format.newline_delimited'");
            proof {
                assert(read_options(start, ndjson, name@, options@.take(i + 1)) == Err::<SourceFormat, Seq<char>>(r@));
                lemma_read_options_err(start, ndjson, name@, options@, i + 1);
            }
            return Err(r);
        }
        match apply(&mut format, name, key.as_str(), &options[i].1) {
            Ok(()) => {},
            Err(e) => {
                proof {
                    assert(read_options(start, ndjson, name@, options@.take(i + 1)) == Err::<SourceFormat, Seq<char>>(e@));
                    lemma_read_options_err(start, ndjson, name@, options@, i + 1);
                }
                return Err(e);
            },
        }
        seen.push(key_chars);
        i = i + 1;
    }
    assert(options@.take(options@.len() as int) =~= options@);
    Ok(format)
}

// ---- partition columns --------------------------------------------------------------------

/// A partition column's declared SQL type, as the statement parser read it.
#[derive(Clone, Debug, PartialEq, Eq)]
pub enum DeclaredType {
    /// `VARCHAR`, `TEXT`, `STRING` or `CHAR`.
    Text,
    /// `INT` or `INTEGER`.
    Int,
    /// `BIGINT`.
    BigInt,
    /// `DATE`.
    Date,
    /// Any other type, in its SQL rendering.
    Other(String),
}

/// A column type as the statement parser spells it: the variants the partition rule tells
/// apart, and any other in its SQL rendering.
#[derive(Clone, Debug, PartialEq, Eq)]
pub enum SqlType {
    Varchar,
    Text,
    String,
    Char,
    Int,
    Integer,
    BigInt,
    Date,
    Other(String),
}

/// The declared type a parsed column type stands for: the four text spellings are one text
/// type, `INT` and `INTEGER` one integer.
pub fn declared_type(t: SqlType) -> (r: DeclaredType)
    ensures
        r == match t {
            SqlType::Varchar | SqlType::Text | SqlType::String | SqlType::Char => DeclaredType::Text,
            SqlType::Int | SqlType::Integer => DeclaredType::Int,
            SqlType::BigInt => DeclaredType::BigInt,
            SqlType::Date => DeclaredType::Date,
            SqlType::Other(s) => DeclaredType::Other(s),
        },
{
    match t {
        SqlType::Varchar | SqlType::Text | SqlType::String | SqlType::Char => DeclaredType::Text,
        SqlType::Int | SqlType::Integer => DeclaredType::Int,
        SqlType::BigInt => DeclaredType::BigInt,
        SqlType::Date => DeclaredType::Date,
        SqlType::Other(s) => DeclaredType::Other(s),
    }
}

/// One column definition of a `CREATE EXTERNAL TABLE` column list.
#[derive(Clone, Debug, PartialEq, Eq)]
pub struct DeclaredColumn {
    /// The name as the statement renders it, quotes included.
    pub name: String,
    /// The identifier's own value.
    pub value: String,
    pub ty: DeclaredType,
    /// Whether the column carries column options.
    pub has_options: bool,
}

/// A declared partition type as the definition's Arrow type name: the four a partition
/// column may read as.
pub open spec fn partition_type_text(name: Seq<char>, ty: DeclaredType) -> Result<Seq<char>, Seq<char>> {
    match ty {
        DeclaredType::Text => Ok("Utf8"@),
        DeclaredType::Int => Ok("Int32"@),
        DeclaredType::BigInt => Ok("Int64"@),
        DeclaredType::Date => Ok("Date32"@),
        DeclaredType::Other(s) => Err(
            "Partition column '"@ + name + "' is declared "@ + s@
                + ". A partition column reads as VARCHAR, INT, BIGINT or DATE"@,
        ),
    }
}

/// [`partition_type_text`].
pub fn partition_type(name: &str, ty: &DeclaredType) -> (r: Result<String, String>)
    ensures
        match partition_type_text(name@, *ty) {
            Ok(t) => r matches Ok(s) && s@ == t,
            Err(t) => r matches Err(s) && s@ == t,
        },
{
    match ty {
        DeclaredType::Text => Ok(crate::text::owned("Utf8")),
        DeclaredType::Int => Ok(crate::text::owned("Int32")),
        DeclaredType::BigInt => Ok(crate::text::owned("Int64")),
        DeclaredType::Date => Ok(crate::text::owned("Date32")),
        DeclaredType::Other(s) => {
            let mut v: Vec<char> = Vec::new();
            append_str(&mut v, "Partition column '");
            append_str(&mut v, name);
            append_str(&mut v, "' is declared ");
            append_str(&mut v, s.as_str());
            append_str(&mut v, ". A partition column reads as VARCHAR, INT, BIGINT or DATE");
            let r = string_of(&v);
            assert(r@ =~= "Partition column '"@ + name@ + "' is declared "@ + s@ + ". A partition column reads as VARCHAR, INT, BIGINT or DATE"@);
            Err(r)
        },
    }
}

/// The first partition name that repeats an earlier one.
pub open spec fn first_repeat(names: Seq<Seq<char>>) -> Option<int> {
    if exists|i: int| 0 <= i < names.len() && names.take(i).contains(#[trigger] names[i]) {
        Some(choose|i: int|
            0 <= i < names.len() && names.take(i).contains(#[trigger] names[i]) && forall|j: int|
                0 <= j < i ==> !names.take(j).contains(#[trigger] names[j]))
    } else {
        None
    }
}

/// The declared types of a column list, each column checked in order: it must name a
/// partition column and carry no options.
pub open spec fn declared_types(cols: Seq<DeclaredColumn>, names: Seq<Seq<char>>) -> Result<Seq<(Seq<char>, Seq<char>)>, Seq<char>>
    decreases cols.len(),
{
    if cols.len() == 0 {
        Ok(seq![])
    } else {
        match declared_types(cols.drop_last(), names) {
            Err(e) => Err(e),
            Ok(d) => {
                let c = cols.last();
                if !names.contains(c.name@) {
                    Err("Schemas are inferred. Remove the column list, or move '"@ + c.name@ + "' into PARTITIONED BY"@)
                } else if c.has_options {
                    Err("Partition column '"@ + c.name@ + "' cannot carry column options"@)
                } else {
                    match partition_type_text(c.value@, c.ty) {
                        Err(e) => Err(e),
                        Ok(t) => Ok(d.push((c.name@, t))),
                    }
                }
            },
        }
    }
}

/// The type a partition column is read as: the first declared for it, or `Utf8`.
pub open spec fn type_for(declared: Seq<(Seq<char>, Seq<char>)>, name: Seq<char>) -> Seq<char>
    decreases declared.len(),
{
    if declared.len() == 0 {
        "Utf8"@
    } else if declared[0].0 == name {
        declared[0].1
    } else {
        type_for(declared.drop_first(), name)
    }
}

/// The definition's `(name, type)` partition columns.
pub open spec fn partition_cols_text(
    cols: Seq<DeclaredColumn>,
    names: Seq<Seq<char>>,
    dialect: Seq<char>,
) -> Result<Seq<(Seq<char>, Seq<char>)>, Seq<char>> {
    if exists|i: int| 0 <= i < names.len() && !crate::export::bare_word(dialect, #[trigger] names[i]) {
        let i = choose|i: int|
            0 <= i < names.len() && !crate::export::bare_word(dialect, #[trigger] names[i]) && forall|j: int|
                0 <= j < i ==> crate::export::bare_word(dialect, #[trigger] names[j]);
        Err(crate::export::not_bare_text(names[i]))
    } else {
        match first_repeat(names) {
            Some(i) => Err("Partition column '"@ + names[i] + "' is listed twice"@),
            None => match declared_types(cols, names) {
                Err(e) => Err(e),
                Ok(d) => Ok(names.map_values(|n: Seq<char>| (n, type_for(d, n)))),
            },
        }
    }
}

fn contains_name(names: &[String], name: &str, end: usize) -> (r: bool)
    requires
        end <= names@.len(),
    ensures
        r == crate::text::string_views(names@).take(end as int).contains(name@),
{
    let ghost nm = crate::text::string_views(names@);
    let target = chars_of(name);
    for i in 0..end
        invariant
            end <= names@.len(),
            nm == crate::text::string_views(names@),
            target@ == name@,
            forall|j: int| 0 <= j < i ==> nm[j] != name@,
    {
        if str_is(names[i].as_str(), &target) {
            assert(nm[i as int] == name@);
            assert(nm.take(end as int)[i as int] == name@);
            return true;
        }
    }
    false
}

fn find_type(declared: &Vec<(String, String)>, name: &str) -> (r: String)
    ensures
        r@ == type_for(declared@.map_values(|p: (String, String)| (p.0@, p.1@)), name@),
{
    let ghost d = declared@.map_values(|p: (String, String)| (p.0@, p.1@));
    let target = chars_of(name);
    let mut i: usize = 0;
    assert(d.skip(0) =~= d);
    while i < declared.len()
        invariant
            i <= declared@.len(),
            d == declared@.map_values(|p: (String, String)| (p.0@, p.1@)),
            target@ == name@,
            type_for(d, name@) == type_for(d.skip(i as int), name@),
        decreases declared@.len() - i,
    {
        assert(d.skip(i as int)[0] == d[i as int]);
        assert(d.skip(i as int).drop_first() =~= d.skip(i + 1));
        if str_is(declared[i].0.as_str(), &target) {
            return declared[i].1.clone();
        }
        i = i + 1;
    }
    assert(d.skip(i as int) =~= Seq::<(Seq<char>, Seq<char>)>::empty());
    crate::text::owned("Utf8")
}

/// The definition's `(name, type)` partition columns, [`partition_cols_text`]: the names
/// must be bare words under the dialect and distinct; a column list may only give the
/// partition columns their types, and a partition with no declared type reads as `Utf8`.
pub fn partition_cols(columns: &[DeclaredColumn], names: &[String], dialect: &str) -> (r: Result<Vec<(String, String)>, String>)
    ensures
        match partition_cols_text(columns@, crate::text::string_views(names@), dialect@) {
            Ok(t) => r matches Ok(v) && v@.map_values(|p: (String, String)| (p.0@, p.1@)) == t,
            Err(t) => r matches Err(m) && m@ == t,
        },
{
    let ghost nm = crate::text::string_views(names@);
    match crate::export::partition_columns_are_bare_words(names, dialect) {
        Ok(()) => {},
        Err(e) => {
            proof {
                let i = choose|i: int|
                    0 <= i < names@.len() && !crate::export::bare_word(dialect@, #[trigger] names@[i]@) && e@ == crate::export::not_bare_text(
                        names@[i]@,
                    ) && forall|j: int| 0 <= j < i ==> crate::export::bare_word(dialect@, #[trigger] names@[j]@);
                assert(nm[i] == names@[i]@);
                let c = choose|c: int|
                    0 <= c < nm.len() && !crate::export::bare_word(dialect@, #[trigger] nm[c]) && forall|j: int|
                        0 <= j < c ==> crate::export::bare_word(dialect@, #[trigger] nm[j]);
                assert(c == i) by {
                    if c < i {
                        assert(nm[c] == names@[c]@);
                    } else if c > i {
                        assert(crate::export::bare_word(dialect@, nm[i]));
                    }
                }
            }
            return Err(e);
        },
    }
    assert forall|i: int| 0 <= i < nm.len() implies crate::export::bare_word(dialect@, #[trigger] nm[i]) by {
        assert(nm[i] == names@[i]@);
    }
    let mut i: usize = 0;
    while i < names.len()
        invariant
            i <= names@.len(),
            nm == crate::text::string_views(names@),
            forall|j: int| 0 <= j < nm.len() ==> crate::export::bare_word(dialect@, #[trigger] nm[j]),
            forall|j: int| 0 <= j < i ==> !nm.take(j).contains(#[trigger] nm[j]),
        decreases names@.len() - i,
    {
        if contains_name(names, names[i].as_str(), i) {
            proof {
                assert(crate::text::string_views(names@.take(i as int)) =~= nm.take(i as int));
                assert(nm[i as int] == names@[i as int]@);
            }
            let mut v: Vec<char> = Vec::new();
            append_str(&mut v, "Partition column '");
            append_str(&mut v, names[i].as_str());
            append_str(&mut v, "' is listed twice");
            let r = string_of(&v);
            proof {
                let c = choose|c: int|
                    0 <= c < nm.len() && nm.take(c).contains(#[trigger] nm[c]) && forall|j: int|
                        0 <= j < c ==> !nm.take(j).contains(#[trigger] nm[j]);
                assert(c == i as int) by {
                    if c > i {
                        assert(nm.take(i as int).contains(nm[i as int]));
                    }
                }
                assert(r@ =~= "Partition column '"@ + nm[i as int] + "' is listed twice"@);
            }
            return Err(r);
        }
        proof {
            assert(crate::text::string_views(names@.take(i as int)) =~= nm.take(i as int));
            assert(nm[i as int] == names@[i as int]@);
        }
        i = i + 1;
    }
    assert(first_repeat(nm) is None);
    let mut declared: Vec<(String, String)> = Vec::new();
    let mut c: usize = 0;
    assert(columns@.take(0) =~= Seq::<DeclaredColumn>::empty());
    assert(declared@.map_values(|p: (String, String)| (p.0@, p.1@)) =~= Seq::<(Seq<char>, Seq<char>)>::empty());
    assert(nm.take(nm.len() as int) =~= nm);
    while c < columns.len()
        invariant
            c <= columns@.len(),
            nm == crate::text::string_views(names@),
            nm.take(nm.len() as int) == nm,
            nm.len() == names@.len(),
            forall|j: int| 0 <= j < nm.len() ==> crate::export::bare_word(dialect@, #[trigger] nm[j]),
            first_repeat(nm) is None,
            declared_types(columns@.take(c as int), nm) == Ok::<Seq<(Seq<char>, Seq<char>)>, Seq<char>>(
                declared@.map_values(|p: (String, String)| (p.0@, p.1@)),
            ),
        decreases columns@.len() - c,
    {
        let ghost before = declared@.map_values(|p: (String, String)| (p.0@, p.1@));
        assert(columns@.take(c + 1).drop_last() =~= columns@.take(c as int));
        assert(columns@.take(c + 1).last() == columns@[c as int]);
        let col = &columns[c];
        if !contains_name(names, col.name.as_str(), names.len()) {
            let mut v: Vec<char> = Vec::new();
            append_str(&mut v, "Schemas are inferred. Remove the column list, or move '");
            append_str(&mut v, col.name.as_str());
            append_str(&mut v, "' into PARTITIONED BY");
            let r = string_of(&v);
            proof {
                assert(r@ =~= "Schemas are inferred. Remove the column list, or move '"@ + col.name@ + "' into PARTITIONED BY"@);
                lemma_declared_types_err(columns@, nm, c as int + 1);
            }
            return Err(r);
        }
        if col.has_options {
            let mut v: Vec<char> = Vec::new();
            append_str(&mut v, "Partition column '");
            append_str(&mut v, col.name.as_str());
            append_str(&mut v, "' cannot carry column options");
            let r = string_of(&v);
            proof {
                assert(r@ =~= "Partition column '"@ + col.name@ + "' cannot carry column options"@);
                lemma_declared_types_err(columns@, nm, c as int + 1);
            }
            return Err(r);
        }
        match partition_type(col.value.as_str(), &col.ty) {
            Ok(t) => {
                declared.push((col.name.clone(), t));
                assert(declared@.map_values(|p: (String, String)| (p.0@, p.1@)) =~= before.push((col.name@, declared@.last().1@)));
            },
            Err(e) => {
                proof {
                    lemma_declared_types_err(columns@, nm, c as int + 1);
                }
                return Err(e);
            },
        }
        c = c + 1;
    }
    assert(columns@.take(columns@.len() as int) =~= columns@);
    let ghost d = declared@.map_values(|p: (String, String)| (p.0@, p.1@));
    let mut out: Vec<(String, String)> = Vec::new();
    for k in 0..names.len()
        invariant
            nm == crate::text::string_views(names@),
            d == declared@.map_values(|p: (String, String)| (p.0@, p.1@)),
            out@.map_values(|p: (String, String)| (p.0@, p.1@)) == nm.take(k as int).map_values(
                |n: Seq<char>| (n, type_for(d, n)),
            ),
    {
        let ghost before = out@.map_values(|p: (String, String)| (p.0@, p.1@));
        let t = find_type(&declared, names[k].as_str());
        out.push((names[k].clone(), t));
        proof {
            assert(nm[k as int] == names@[k as int]@);
            assert(out@.map_values(|p: (String, String)| (p.0@, p.1@)) =~= before.push((nm[k as int], type_for(d, nm[k as int]))));
            assert(nm.take(k + 1).map_values(|n: Seq<char>| (n, type_for(d, n))) =~= nm.take(k as int).map_values(
                |n: Seq<char>| (n, type_for(d, n)),
            ).push((nm[k as int], type_for(d, nm[k as int]))));
        }
    }
    assert(nm.take(nm.len() as int) =~= nm);
    Ok(out)
}

proof fn lemma_declared_types_err(cols: Seq<DeclaredColumn>, names: Seq<Seq<char>>, k: int)
    requires
        0 <= k <= cols.len(),
        declared_types(cols.take(k), names) is Err,
    ensures
        declared_types(cols, names) == declared_types(cols.take(k), names),
    decreases cols.len() - k,
{
    if k < cols.len() {
        assert(cols.drop_last().take(k) =~= cols.take(k));
        lemma_declared_types_err(cols.drop_last(), names, k);
    } else {
        assert(cols.take(k) =~= cols);
    }
}

// ---- the statement's own clauses, and the name it takes ------------------------------------

/// What a `CREATE EXTERNAL TABLE` carries besides its format, location and options.
pub struct ExternalClauses {
    /// Whether the engine has a project folder to store the table's definition in.
    pub has_project: bool,
    pub temporary: bool,
    pub unbounded: bool,
    /// Whether it declares a `WITH ORDER`.
    pub ordered: bool,
    /// Whether it declares table constraints.
    pub constrained: bool,
    /// How many parts its name has.
    pub name_parts: usize,
}

/// The refusal of the first clause the statement cannot honour, in the order they are
/// checked: no project folder, `TEMPORARY`, `UNBOUNDED`, `WITH ORDER`, constraints, and a
/// name with more parts than catalog, schema and table.
pub open spec fn clause_refusal_text(c: ExternalClauses) -> Option<Seq<char>> {
    if !c.has_project {
        Some("CREATE EXTERNAL TABLE needs a project folder to store the table"@)
    } else if c.temporary {
        Some("CREATE EXTERNAL TABLE does not support TEMPORARY"@)
    } else if c.unbounded {
        Some("CREATE EXTERNAL TABLE does not support UNBOUNDED"@)
    } else if c.ordered {
        Some("CREATE EXTERNAL TABLE does not support WITH ORDER"@)
    } else if c.constrained {
        Some("Table constraints are not supported"@)
    } else if c.name_parts > 3 {
        Some("Strata has one schema, '"@ + crate::ddl::schema_name() + "'. "@ + "Tables"@ + " cannot be created elsewhere"@)
    } else {
        None
    }
}

/// [`clause_refusal_text`]: `None` when the statement's clauses are all ones it honours.
pub fn clause_refusal(c: &ExternalClauses) -> (r: Option<String>)
    ensures
        match clause_refusal_text(*c) {
            Some(t) => r matches Some(m) && m@ == t,
            None => r is None,
        },
{
    if !c.has_project {
        Some(crate::text::owned("CREATE EXTERNAL TABLE needs a project folder to store the table"))
    } else if c.temporary {
        Some(crate::text::owned("CREATE EXTERNAL TABLE does not support TEMPORARY"))
    } else if c.unbounded {
        Some(crate::text::owned("CREATE EXTERNAL TABLE does not support UNBOUNDED"))
    } else if c.ordered {
        Some(crate::text::owned("CREATE EXTERNAL TABLE does not support WITH ORDER"))
    } else if c.constrained {
        Some(crate::text::owned("Table constraints are not supported"))
    } else if c.name_parts > 3 {
        Some(crate::ddl::elsewhere("Tables"))
    } else {
        None
    }
}

/// The decision a `CREATE EXTERNAL TABLE name` makes from what holds `name`: that of a
/// `CREATE TABLE` ([`crate::tables::create_step_spec`]), except that `OR REPLACE` never
/// replaces a table whose data the engine stores itself.
pub open spec fn external_step_spec(
    name: Seq<char>,
    existing: Option<crate::tables::Existing>,
    if_not_exists: bool,
    or_replace: bool,
    internal: bool,
) -> Result<(bool, Option<Seq<char>>), Seq<char>> {
    if existing == Some(crate::tables::Existing::Table) && !if_not_exists && or_replace && internal {
        Err("'"@ + name + "' is a table Strata stores in this project. Drop it first"@)
    } else {
        crate::tables::create_step_spec(name, existing, if_not_exists, or_replace)
    }
}

/// [`external_step_spec`], in the shape of [`crate::tables::create_step`].
pub fn external_step(
    name: &str,
    existing: Option<crate::tables::Existing>,
    if_not_exists: bool,
    or_replace: bool,
    internal: bool,
) -> (r: Result<crate::tables::CreateStep, String>)
    ensures
        match external_step_spec(name@, existing, if_not_exists, or_replace, internal) {
            Ok((replacing, None)) => r == Ok::<crate::tables::CreateStep, String>(
                crate::tables::CreateStep::Write { replacing },
            ),
            Ok((_, Some(m))) => r matches Ok(crate::tables::CreateStep::Nothing(t)) && t@ == m,
            Err(m) => r matches Err(t) && t@ == m,
        },
{
    if existing == Some(crate::tables::Existing::Table) && !if_not_exists && or_replace && internal {
        let mut v: Vec<char> = Vec::new();
        append_str(&mut v, "'");
        append_str(&mut v, name);
        append_str(&mut v, "' is a table Strata stores in this project. Drop it first");
        return Err(string_of(&v));
    }
    crate::tables::create_step(name, existing, if_not_exists, or_replace)
}

/// What a completed `CREATE EXTERNAL TABLE` reports: the verb, and how many columns the
/// registration found.
pub open spec fn external_report_text(name: Seq<char>, replacing: bool, columns: nat) -> Seq<char> {
    "Table '"@ + name + "' "@ + (if replacing { "replaced"@ } else { "created"@ }) + ", "@ + crate::util::plural_text(
        columns,
        "column"@,
    )
}

/// [`external_report_text`].
pub fn external_report(name: &str, replacing: bool, columns: usize) -> (r: String)
    ensures
        r@ == external_report_text(name@, replacing, columns as nat),
{
    let mut v: Vec<char> = Vec::new();
    append_str(&mut v, "Table '");
    append_str(&mut v, name);
    append_str(&mut v, "' ");
    if replacing {
        append_str(&mut v, "replaced");
    } else {
        append_str(&mut v, "created");
    }
    append_str(&mut v, ", ");
    let p = crate::util::plural(columns, "column");
    append_str(&mut v, p.as_str());
    string_of(&v)
}

// ---- where a LOCATION reads from --------------------------------------------------------------

/// The views of a split location, `(store URL, path inside it)`.
pub open spec fn split_view(split: Option<(String, String)>) -> Option<(Seq<char>, Seq<char>)> {
    match split {
        Some((url, path)) => Some((url@, path@)),
        None => None,
    }
}

/// The view of an optional string.
pub open spec fn opt_view(o: Option<String>) -> Option<Seq<char>> {
    match o {
        Some(t) => Some(t@),
        None => None,
    }
}

/// Where a `CREATE EXTERNAL TABLE`'s `LOCATION` reads from, as `(connection, path)`: a path
/// with no scheme is local, and one on an object store must name a connection of the project
/// and a path inside its bucket.
///
/// `split` is how the trimmed location divides into a store URL and the path inside it (`None`
/// for a plain path), `local` is the trimmed location as the project stores a local path, and
/// `resolved` is the project connection that `split`'s URL names, if there is one.
pub open spec fn source_spec(
    location: Seq<char>,
    split: Option<(Seq<char>, Seq<char>)>,
    local: Seq<char>,
    resolved: Option<Seq<char>>,
) -> Result<(Option<Seq<char>>, Seq<char>), Seq<char>> {
    let loc = crate::text::trim(location);
    if loc.len() == 0 {
        Err("LOCATION has no path"@)
    } else {
        match split {
            None => Ok((None, local)),
            Some((url, path)) => if crate::text::starts_with(url, "file:"@) {
                Err("LOCATION takes a path, not a file:// URL"@)
            } else {
                match resolved {
                    None => Err("'"@ + url + "' is not a connection in this project. Add it in Connections"@),
                    Some(conn) => if crate::text::trim(path).len() == 0 {
                        Err("LOCATION '"@ + loc + "' names the bucket. Add the path inside it that holds the files"@)
                    } else {
                        Ok((Some(conn), path))
                    },
                }
            },
        }
    }
}

/// [`source_spec`]: the connection a location reads through, and the path the def stores.
pub fn source_of(
    location: &str,
    split: Option<(String, String)>,
    local: String,
    resolved: Option<String>,
) -> (r: Result<(Option<String>, String), String>)
    ensures
        match source_spec(location@, split_view(split), local@, opt_view(resolved)) {
            Ok((conn, path)) => r matches Ok((c, p)) && opt_view(c) == conn && p@ == path,
            Err(m) => r matches Err(t) && t@ == m,
        },
{
    proof {
        reveal_strlit("file:");
    }
    let lc = chars_of(location);
    let loc = trimmed(&lc, 0, lc.len());
    assert(lc@.subrange(0, lc@.len() as int) =~= location@);
    if loc.len() == 0 {
        return Err(crate::text::owned("LOCATION has no path"));
    }
    match split {
        None => Ok((None, local)),
        Some((url, path)) => {
            let uc = chars_of(url.as_str());
            let file: Vec<char> = vec!['f', 'i', 'l', 'e', ':'];
            assert(file@ =~= "file:"@);
            if has_prefix(&uc, &file) {
                return Err(crate::text::owned("LOCATION takes a path, not a file:// URL"));
            }
            match resolved {
                None => {
                    let mut v: Vec<char> = Vec::new();
                    append_str(&mut v, "'");
                    append_chars(&mut v, &uc);
                    append_str(&mut v, "' is not a connection in this project. Add it in Connections");
                    let t = string_of(&v);
                    assert(t@ =~= "'"@ + url@ + "' is not a connection in this project. Add it in Connections"@);
                    Err(t)
                },
                Some(conn) => {
                    let pc = chars_of(path.as_str());
                    let pt = trimmed(&pc, 0, pc.len());
                    assert(pc@.subrange(0, pc@.len() as int) =~= path@);
                    if pt.len() == 0 {
                        let mut v: Vec<char> = Vec::new();
                        append_str(&mut v, "LOCATION '");
                        append_chars(&mut v, &loc);
                        append_str(&mut v, "' names the bucket. Add the path inside it that holds the files");
                        let t = string_of(&v);
                        assert(t@ =~= "LOCATION '"@ + loc@
                            + "' names the bucket. Add the path inside it that holds the files"@);
                        Err(t)
                    } else {
                        Ok((Some(conn), path))
                    }
                },
            }
        },
    }
}

// ---- what completion offers, the reader takes ------------------------------------------------

/// `v` is a value of `kind` for `key`: `true` or `false` in any case for a flag, one character
/// for a character, a row count for a number, and a word of the reader's own vocabulary for a
/// compression.
pub open spec fn kind_value(kind: OptionKind, key: Seq<char>, v: OptionValue) -> bool {
    match text_of(key, v) {
        Err(_) => false,
        Ok(t) => match kind {
            OptionKind::Bool => lower_seq(t) == "true"@ || lower_seq(t) == "false"@,
            OptionKind::Char => t.len() == 1,
            OptionKind::Int => parse_usize(t) is Some,
            OptionKind::Enum(WordSet::Compression) => compression_word(uppercase_of(t)) is Some,
        },
    }
}

proof fn lemma_first_key_at<F>(t: Seq<(Seq<char>, OptionKind, Seq<char>, F)>, j: int)
    requires
        0 <= j < t.len(),
        forall|i: int| 0 <= i < j ==> #[trigger] t[i].0 != t[j].0,
    ensures
        first_key(t, t[j].0) == Some(t[j].3),
    decreases j,
{
    if j > 0 {
        assert(t[0].0 != t[j].0);
        let d = t.drop_first();
        assert forall|i: int| 0 <= i < j - 1 implies #[trigger] d[i].0 != d[j - 1].0 by {
            assert(d[i] == t[i + 1] && d[j - 1] == t[j]);
        }
        lemma_first_key_at(d, j - 1);
        assert(d[j - 1] == t[j]);
    }
}

proof fn lemma_csv_first_key(j: int)
    requires
        0 <= j < csv_keys().len(),
    ensures
        first_key(csv_keys(), csv_keys()[j].0) == Some(csv_keys()[j].3),
{
    reveal_strlit("format.has_header");
    reveal_strlit("format.delimiter");
    reveal_strlit("format.quote");
    reveal_strlit("format.escape");
    reveal_strlit("format.comment");
    reveal_strlit("format.newlines_in_values");
    reveal_strlit("format.truncated_rows");
    reveal_strlit("format.schema_infer_max_rec");
    reveal_strlit("format.compression");
    let t = csv_keys();
    if j == 0 {
        lemma_first_key_at(t, 0);
    }
    if j == 1 {
        assert forall|i: int| 0 <= i < 1 implies #[trigger] t[i].0 != t[1].0 by {
            if i == 0 {
                assert(t[0].0.len() != t[1].0.len());
            }
        }
        lemma_first_key_at(t, 1);
    }
    if j == 2 {
        assert forall|i: int| 0 <= i < 2 implies #[trigger] t[i].0 != t[2].0 by {
            if i == 0 {
                assert(t[0].0.len() != t[2].0.len());
            }
            if i == 1 {
                assert(t[1].0.len() != t[2].0.len());
            }
        }
        lemma_first_key_at(t, 2);
    }
    if j == 3 {
        assert forall|i: int| 0 <= i < 3 implies #[trigger] t[i].0 != t[3].0 by {
            if i == 0 {
                assert(t[0].0.len() != t[3].0.len());
            }
            if i == 1 {
                assert(t[1].0.len() != t[3].0.len());
            }
            if i == 2 {
                assert(t[2].0.len() != t[3].0.len());
            }
        }
        lemma_first_key_at(t, 3);
    }
    if j == 4 {
        assert forall|i: int| 0 <= i < 4 implies #[trigger] t[i].0 != t[4].0 by {
            if i == 0 {
                assert(t[0].0.len() != t[4].0.len());
            }
            if i == 1 {
                assert(t[1].0.len() != t[4].0.len());
            }
            if i == 2 {
                assert(t[2].0.len() != t[4].0.len());
            }
            if i == 3 {
                assert(t[3].0.len() != t[4].0.len());
            }
        }
        lemma_first_key_at(t, 4);
    }
    if j == 5 {
        assert forall|i: int| 0 <= i < 5 implies #[trigger] t[i].0 != t[5].0 by {
            if i == 0 {
                assert(t[0].0.len() != t[5].0.len());
            }
            if i == 1 {
                assert(t[1].0.len() != t[5].0.len());
            }
            if i == 2 {
                assert(t[2].0.len() != t[5].0.len());
            }
            if i == 3 {
                assert(t[3].0.len() != t[5].0.len());
            }
            if i == 4 {
                assert(t[4].0.len() != t[5].0.len());
            }
        }
        lemma_first_key_at(t, 5);
    }
    if j == 6 {
        assert forall|i: int| 0 <= i < 6 implies #[trigger] t[i].0 != t[6].0 by {
            if i == 0 {
                assert(t[0].0.len() != t[6].0.len());
            }
            if i == 1 {
                assert(t[1].0.len() != t[6].0.len());
            }
            if i == 2 {
                assert(t[2].0.len() != t[6].0.len());
            }
            if i == 3 {
                assert(t[3].0.len() != t[6].0.len());
            }
            if i == 4 {
                assert(t[4].0.len() != t[6].0.len());
            }
            if i == 5 {
                assert(t[5].0.len() != t[6].0.len());
            }
        }
        lemma_first_key_at(t, 6);
    }
    if j == 7 {
        assert forall|i: int| 0 <= i < 7 implies #[trigger] t[i].0 != t[7].0 by {
            if i == 0 {
                assert(t[0].0.len() != t[7].0.len());
            }
            if i == 1 {
                assert(t[1].0.len() != t[7].0.len());
            }
            if i == 2 {
                assert(t[2].0.len() != t[7].0.len());
            }
            if i == 3 {
                assert(t[3].0.len() != t[7].0.len());
            }
            if i == 4 {
                assert(t[4].0.len() != t[7].0.len());
            }
            if i == 5 {
                assert(t[5].0.len() != t[7].0.len());
            }
            if i == 6 {
                assert(t[6].0.len() != t[7].0.len());
            }
        }
        lemma_first_key_at(t, 7);
    }
    if j == 8 {
        assert forall|i: int| 0 <= i < 8 implies #[trigger] t[i].0 != t[8].0 by {
            if i == 0 {
                assert(t[0].0.len() != t[8].0.len());
            }
            if i == 1 {
                assert(t[1].0.len() != t[8].0.len());
            }
            if i == 2 {
                assert(t[2].0.len() != t[8].0.len());
            }
            if i == 3 {
                assert(t[3].0.len() != t[8].0.len());
            }
            if i == 4 {
                assert(t[4].0.len() != t[8].0.len());
            }
            if i == 5 {
                assert(t[5].0.len() != t[8].0.len());
            }
            if i == 6 {
                assert(t[6].0.len() != t[8].0.len());
            }
            if i == 7 {
                assert(t[7].0.len() != t[8].0.len());
            }
        }
        lemma_first_key_at(t, 8);
    }
}

proof fn lemma_json_first_key(j: int)
    requires
        0 <= j < json_keys().len(),
    ensures
        first_key(json_keys(), json_keys()[j].0) == Some(json_keys()[j].3),
{
    reveal_strlit("format.newline_delimited");
    reveal_strlit("format.schema_infer_max_rec");
    reveal_strlit("format.compression");
    let t = json_keys();
    if j == 0 {
        lemma_first_key_at(t, 0);
    }
    if j == 1 {
        assert forall|i: int| 0 <= i < 1 implies #[trigger] t[i].0 != t[1].0 by {
            if i == 0 {
                assert(t[0].0.len() != t[1].0.len());
            }
        }
        lemma_first_key_at(t, 1);
    }
    if j == 2 {
        assert forall|i: int| 0 <= i < 2 implies #[trigger] t[i].0 != t[2].0 by {
            if i == 0 {
                assert(t[0].0.len() != t[2].0.len());
            }
            if i == 1 {
                assert(t[1].0.len() != t[2].0.len());
            }
        }
        lemma_first_key_at(t, 2);
    }
}

/// **Completion offers nothing the reader refuses**: every key offered for a `STORED AS`
/// word is read onto that format's definition, whatever it held, when its value is of the
/// key's declared kind.
pub proof fn law_offered_keys_are_accepted(word: Seq<char>, f: SourceFormat, name: Seq<char>, i: int, v: OptionValue)
    requires
        0 <= i < option_offer(word).len(),
        word == "CSV"@ ==> f is Csv,
        word == "JSON"@ || word == "NDJSON"@ ==> f is Json,
        kind_value(option_offer(word)[i].1, option_offer(word)[i].0, v),
    ensures
        apply_option(f, name, option_offer(word)[i].0, v) is Ok,
{
    reveal_strlit("CSV");
    reveal_strlit("JSON");
    reveal_strlit("NDJSON");
    if word == "CSV"@ {
        let rows = csv_keys();
        assert(option_offer(word)[i] == offer_row(rows[i]));
        lemma_csv_first_key(i);
    } else if word == "JSON"@ {
        let rows = json_keys();
        assert(option_offer(word)[i] == offer_row(rows[i]));
        lemma_json_first_key(i);
    } else {
        let rows = json_keys().drop_first();
        assert(word == "NDJSON"@);
        assert(option_offer(word)[i] == offer_row(rows[i]));
        lemma_json_first_key(i + 1);
    }
}

} // verus!
