//! Export one result snapshot to disk through `COPY … TO`: one file, or a Hive directory
//! when partition columns are given.
//!
//! Write options belong to the format that has them, so an impossible export cannot be
//! spelled. The snapshot is the source, never a re-run: the export reads the table the grid
//! pages, in the order the grid shows.

use vstd::prelude::*;

use crate::text::{
    append_str, bool_text, chars_of, decimal, doubled, join, push_bool, push_decimal, push_doubled,
    string_of, string_views, append_chars,
};

verus! {

// ---- the spec ----------------------------------------------------------------------------

/// How much of the snapshot to write.
#[derive(Clone, Copy, Debug, PartialEq, Eq, Structural)]
pub enum Scope {
    /// Every row.
    All,
    /// One page window, in the grid's own 1-based paging terms.
    Page { page: usize, page_size: usize },
}

/// Whole-file compression, for the formats where compression wraps the file.
#[derive(Clone, Copy, Debug, PartialEq, Eq, Structural)]
pub enum Compression {
    Uncompressed,
    Gzip,
    Zstd,
    Bzip2,
    Xz,
}

/// The option value for a compression.
pub open spec fn compression_option(c: Compression) -> Seq<char> {
    match c {
        Compression::Uncompressed => "uncompressed"@,
        Compression::Gzip => "gzip"@,
        Compression::Zstd => "zstd"@,
        Compression::Bzip2 => "bzip2"@,
        Compression::Xz => "xz"@,
    }
}

/// The suffix a compression adds to the destination's own extension.
pub open spec fn compression_extension(c: Compression) -> Seq<char> {
    match c {
        Compression::Uncompressed => ""@,
        Compression::Gzip => ".gz"@,
        Compression::Zstd => ".zst"@,
        Compression::Bzip2 => ".bz2"@,
        Compression::Xz => ".xz"@,
    }
}

impl Compression {
    /// The `COMPRESSION` option value.
    pub fn as_option(&self) -> (r: &'static str)
        ensures
            r@ == compression_option(*self),
    {
        match self {
            Compression::Uncompressed => "uncompressed",
            Compression::Gzip => "gzip",
            Compression::Zstd => "zstd",
            Compression::Bzip2 => "bzip2",
            Compression::Xz => "xz",
        }
    }

    /// The suffix this compression adds to the destination's own extension, so a filename
    /// shown to the user matches what is written (`orders.csv` → `orders.csv.gz`).
    pub fn extension(&self) -> (r: &'static str)
        ensures
            r@ == compression_extension(*self),
    {
        match self {
            Compression::Uncompressed => "",
            Compression::Gzip => ".gz",
            Compression::Zstd => ".zst",
            Compression::Bzip2 => ".bz2",
            Compression::Xz => ".xz",
        }
    }
}

/// Parquet's column codec; the level rides with the codecs that take one.
#[derive(Clone, Copy, Debug, PartialEq, Eq, Structural)]
pub enum Codec {
    Uncompressed,
    Snappy,
    Lz4,
    Gzip(u32),
    Brotli(u32),
    Zstd(u32),
}

/// `level` clamped into `lo..=hi`.
pub open spec fn clamp(level: u32, lo: u32, hi: u32) -> u32 {
    if level < lo {
        lo
    } else if level > hi {
        hi
    } else {
        level
    }
}

/// The codec string, the level inside it clamped to the codec's range: `zstd(3)`.
pub open spec fn codec_option(c: Codec) -> Seq<char> {
    match c {
        Codec::Uncompressed => "uncompressed"@,
        Codec::Snappy => "snappy"@,
        Codec::Lz4 => "lz4"@,
        Codec::Gzip(l) => leveled_text("gzip"@, clamp(l, 1, 9)),
        Codec::Brotli(l) => leveled_text("brotli"@, clamp(l, 1, 11)),
        Codec::Zstd(l) => leveled_text("zstd"@, clamp(l, 1, 22)),
    }
}

/// A codec name with its level in parentheses.
pub open spec fn leveled_text(name: Seq<char>, level: u32) -> Seq<char> {
    name + "("@ + decimal(level as nat) + ")"@
}

fn clamp_level(level: u32, lo: u32, hi: u32) -> (r: u32)
    ensures
        r == clamp(level, lo, hi),
{
    if level < lo {
        lo
    } else if level > hi {
        hi
    } else {
        level
    }
}

fn leveled(name: &str, level: u32) -> (r: String)
    ensures
        r@ == leveled_text(name@, level),
{
    let mut v: Vec<char> = Vec::new();
    append_str(&mut v, name);
    append_str(&mut v, "(");
    push_decimal(&mut v, level as u64);
    append_str(&mut v, ")");
    assert(v@ =~= leveled_text(name@, level));
    string_of(&v)
}

impl Codec {
    /// The `COMPRESSION` option value, [`codec_option`].
    pub fn as_option(&self) -> (r: String)
        ensures
            r@ == codec_option(*self),
    {
        match self {
            Codec::Uncompressed => crate::text::owned("uncompressed"),
            Codec::Snappy => crate::text::owned("snappy"),
            Codec::Lz4 => crate::text::owned("lz4"),
            Codec::Gzip(l) => leveled("gzip", clamp_level(*l, 1, 9)),
            Codec::Brotli(l) => leveled("brotli", clamp_level(*l, 1, 11)),
            Codec::Zstd(l) => leveled("zstd", clamp_level(*l, 1, 22)),
        }
    }
}

/// How much column statistics Parquet writes.
#[derive(Clone, Copy, Debug, PartialEq, Eq, Structural)]
pub enum Statistics {
    Disabled,
    Chunk,
    Page,
}

/// The option value for a statistics level.
pub open spec fn statistics_option(s: Statistics) -> Seq<char> {
    match s {
        Statistics::Disabled => "none"@,
        Statistics::Chunk => "chunk"@,
        Statistics::Page => "page"@,
    }
}

impl Statistics {
    /// The `STATISTICS_ENABLED` option value.
    pub fn as_option(&self) -> (r: &'static str)
        ensures
            r@ == statistics_option(*self),
    {
        match self {
            Statistics::Disabled => "none",
            Statistics::Chunk => "chunk",
            Statistics::Page => "page",
        }
    }
}

/// Parquet format version.
#[derive(Clone, Copy, Debug, PartialEq, Eq, Structural)]
pub enum WriterVersion {
    V1,
    V2,
}

/// The option value for a writer version.
pub open spec fn writer_version_option(w: WriterVersion) -> Seq<char> {
    match w {
        WriterVersion::V1 => "1.0"@,
        WriterVersion::V2 => "2.0"@,
    }
}

impl WriterVersion {
    /// The `WRITER_VERSION` option value.
    pub fn as_option(&self) -> (r: &'static str)
        ensures
            r@ == writer_version_option(*self),
    {
        match self {
            WriterVersion::V1 => "1.0",
            WriterVersion::V2 => "2.0",
        }
    }
}

/// CSV write options.
#[derive(Clone, Debug, PartialEq)]
pub struct Csv {
    /// Write the column-name row.
    pub header: bool,
    /// Field separator: one ASCII character.
    pub delimiter: char,
    /// Text written for NULL cells.
    pub null_value: String,
    /// Character fields containing the delimiter are wrapped in.
    pub quote: char,
    /// Character that escapes a quote; `None` leaves the writer's default.
    pub escape: Option<char>,
    /// Escape quotes by doubling them rather than with `escape`.
    pub double_quote: bool,
    /// Whole-file compression.
    pub compression: Compression,
}

/// Newline-delimited JSON write options.
#[derive(Clone, Debug, PartialEq)]
pub struct Json {
    pub compression: Compression,
}

/// Parquet write options.
#[derive(Clone, Debug, PartialEq)]
pub struct Parquet {
    pub compression: Codec,
    pub statistics: Statistics,
    /// Rows per row group: a row count, not a byte size.
    pub max_row_group_size: usize,
    pub writer_version: WriterVersion,
    pub dictionary: bool,
}

/// The output format, each carrying exactly the write options the writer honours for it.
#[derive(Clone, Debug, PartialEq)]
pub enum Format {
    Csv(Csv),
    Json(Json),
    Parquet(Parquet),
    /// Arrow IPC: no write options exist.
    Arrow,
}

/// The `STORED AS` keyword of a format.
pub open spec fn stored_as_text(f: Format) -> Seq<char> {
    match f {
        Format::Csv(_) => "CSV"@,
        Format::Json(_) => "JSON"@,
        Format::Parquet(_) => "PARQUET"@,
        Format::Arrow => "ARROW"@,
    }
}

impl Format {
    /// The `STORED AS` keyword.
    pub fn stored_as(&self) -> (r: &'static str)
        ensures
            r@ == stored_as_text(*self),
    {
        match self {
            Format::Csv(_) => "CSV",
            Format::Json(_) => "JSON",
            Format::Parquet(_) => "PARQUET",
            Format::Arrow => "ARROW",
        }
    }
}

/// Hive-style partitioning; no columns means a flat single-file export.
#[derive(Clone, Debug, PartialEq, Eq)]
pub struct Partition {
    /// Directory levels, outermost first.
    pub columns: Vec<String>,
    /// Also write the partition columns inside the files.
    pub keep_columns: bool,
}

impl Partition {
    /// No partition columns: one file.
    pub fn is_flat(&self) -> (r: bool)
        ensures
            r == (self.columns@.len() == 0),
    {
        self.columns.len() == 0
    }
}

/// Everything one export needs.
#[derive(Clone, Debug, PartialEq)]
pub struct ExportSpec {
    /// The destination: a file for a flat export, a directory when partitioned.
    pub path: String,
    pub scope: Scope,
    /// `(column name, ascending)`: the grid's active sort, applied over the whole snapshot
    /// before any row window; `None` is snapshot order.
    pub sort: Option<(String, bool)>,
    pub format: Format,
    pub partition: Partition,
}

// ---- SQL text ----------------------------------------------------------------------------

/// A result column name rendered into SQL: double-quoted verbatim, embedded quotes doubled.
pub open spec fn quote_col_text(name: Seq<char>) -> Seq<char> {
    seq!['"'] + doubled(name, '"') + seq!['"']
}

/// A result column name rendered into SQL, [`quote_col_text`].
pub fn quote_col(name: &str) -> (r: String)
    ensures
        r@ == quote_col_text(name@),
{
    let mut v: Vec<char> = Vec::new();
    v.push('"');
    push_doubled(&mut v, name, '"');
    v.push('"');
    let r = string_of(&v);
    assert(r@ =~= quote_col_text(name@));
    r
}

/// A value escaped for a single-quoted SQL literal: every `'` doubled.
pub fn quote_literal(raw: &str) -> (r: String)
    ensures
        r@ == doubled(raw@, '\''),
{
    let mut v: Vec<char> = Vec::new();
    push_doubled(&mut v, raw, '\'');
    assert(v@ =~= doubled(raw@, '\''));
    string_of(&v)
}

/// The rows a page window skips: every full page before it.
pub open spec fn page_offset(page: usize, page_size: usize) -> int {
    (if page > 0 { page - 1 } else { 0int }) * page_size
}

/// Every name in `names` except `ord`, each quoted.
pub open spec fn select_list(names: Seq<Seq<char>>, ord: Option<Seq<char>>) -> Seq<Seq<char>>
    decreases names.len(),
{
    if names.len() == 0 {
        seq![]
    } else if ord == Some(names.last()) {
        select_list(names.drop_last(), ord)
    } else {
        select_list(names.drop_last(), ord).push(quote_col_text(names.last()))
    }
}

/// The `ORDER BY` terms: the user's sort first, the ordinal as the tie-break.
pub open spec fn order_terms(sort: Option<(Seq<char>, bool)>, ord: Option<Seq<char>>) -> Seq<Seq<char>> {
    let s: Seq<Seq<char>> = match sort {
        Some((name, asc)) => seq![
            quote_col_text(name) + (if asc { " ASC"@ } else { " DESC"@ }) + " NULLS LAST"@,
        ],
        None => seq![],
    };
    match ord {
        Some(o) => s.push(quote_col_text(o)),
        None => s,
    }
}

/// The `SELECT` an export wraps: the result's columns, explicitly and never the snapshot's
/// ordinal, over the whole snapshot or one page window, in the grid's order.
pub open spec fn select_text(
    snap: Seq<char>,
    scope: Scope,
    sort: Option<(Seq<char>, bool)>,
    names: Seq<Seq<char>>,
    ord: Option<Seq<char>>,
) -> Seq<char> {
    let order = order_terms(sort, ord);
    "SELECT "@ + join(select_list(names, ord), ", "@) + " FROM "@ + snap + (if order.len() == 0 {
        Seq::<char>::empty()
    } else {
        " ORDER BY "@ + join(order, ", "@)
    }) + match scope {
        Scope::All => Seq::<char>::empty(),
        Scope::Page { page, page_size } => " LIMIT "@ + decimal(page_size as nat) + " OFFSET "@
            + decimal(page_offset(page, page_size) as nat),
    }
}

/// The sort of a spec, as characters.
pub open spec fn sort_view(sort: Option<(String, bool)>) -> Option<(Seq<char>, bool)> {
    match sort {
        Some((n, a)) => Some((n@, a)),
        None => None,
    }
}

/// Appends [`join`] of the given parts to `v`.
fn push_join_strings(v: &mut Vec<char>, parts: &Vec<String>, sep: &str)
    ensures
        final(v)@ == old(v)@ + join(string_views(parts@), sep@),
{
    let mut i: usize = 0;
    while i < parts.len()
        invariant
            i <= parts@.len(),
            v@ == old(v)@ + join(string_views(parts@.take(i as int)), sep@),
        decreases parts@.len() - i,
    {
        if i > 0 {
            append_str(v, sep);
        }
        append_str(v, parts[i].as_str());
        proof {
            let a = string_views(parts@.take(i + 1));
            assert(a.drop_last() =~= string_views(parts@.take(i as int)));
            assert(a.last() == parts@[i as int]@);
            if i == 0 {
                assert(join(string_views(parts@.take(0)), sep@) =~= seq![]);
            }
            assert(v@ =~= old(v)@ + join(a, sep@));
        }
        i = i + 1;
    }
    assert(parts@.take(parts@.len() as int) =~= parts@);
}

/// The view of an optional `&str`.
pub open spec fn opt_str(o: Option<&str>) -> Option<Seq<char>> {
    match o {
        Some(t) => Some(t@),
        None => None,
    }
}

/// The projected columns of an export, [`select_list`].
fn select_columns(names: &[String], ord: Option<&str>) -> (r: Vec<String>)
    ensures
        string_views(r@) == select_list(string_views(names@), opt_str(ord)),
{
    let ghost ordv = opt_str(ord);
    let mut cols: Vec<String> = Vec::new();
    let mut i: usize = 0;
    assert(string_views(names@.take(0)) =~= Seq::<Seq<char>>::empty());
    while i < names.len()
        invariant
            i <= names@.len(),
            ordv == opt_str(ord),
            string_views(cols@) == select_list(string_views(names@.take(i as int)), ordv),
        decreases names@.len() - i,
    {
        let ghost pre = string_views(names@.take(i as int));
        assert(string_views(names@.take(i + 1)).drop_last() =~= pre);
        assert(string_views(names@.take(i + 1)).last() == names@[i as int]@);
        let skip = match ord {
            Some(o) => crate::text::str_is(o, &chars_of(names[i].as_str())),
            None => false,
        };
        if !skip {
            let q = quote_col(names[i].as_str());
            cols.push(q);
            assert(string_views(cols@) =~= select_list(pre, ordv).push(quote_col_text(names@[i as int]@)));
        }
        i = i + 1;
    }
    assert(names@.take(names@.len() as int) =~= names@);
    cols
}

/// The `ORDER BY` terms of an export, [`order_terms`].
fn order_by(sort: &Option<(String, bool)>, ord: Option<&str>) -> (r: Vec<String>)
    ensures
        string_views(r@) == order_terms(sort_view(*sort), opt_str(ord)),
{
    let mut order: Vec<String> = Vec::new();
    match sort {
        Some((name, asc)) => {
            let mut t: Vec<char> = Vec::new();
            let q = quote_col(name.as_str());
            append_str(&mut t, q.as_str());
            if *asc {
                append_str(&mut t, " ASC");
            } else {
                append_str(&mut t, " DESC");
            }
            append_str(&mut t, " NULLS LAST");
            assert(t@ =~= quote_col_text(name@) + (if *asc { " ASC"@ } else { " DESC"@ }) + " NULLS LAST"@);
            order.push(string_of(&t));
        },
        None => {},
    }
    match ord {
        Some(o) => {
            order.push(quote_col(o));
        },
        None => {},
    }
    assert(string_views(order@) =~= order_terms(sort_view(*sort), opt_str(ord)));
    order
}

/// The window clause of an export's scope.
pub open spec fn window_text(scope: Scope) -> Seq<char> {
    match scope {
        Scope::All => Seq::<char>::empty(),
        Scope::Page { page, page_size } => " LIMIT "@ + decimal(page_size as nat) + " OFFSET "@
            + decimal(page_offset(page, page_size) as nat),
    }
}

fn push_window(v: &mut Vec<char>, scope: Scope)
    requires
        scope matches Scope::Page { page, page_size } ==> page_offset(page, page_size) <= usize::MAX,
    ensures
        final(v)@ == old(v)@ + window_text(scope),
{
    match scope {
        Scope::All => {
            assert(final(v)@ =~= old(v)@ + window_text(scope));
        },
        Scope::Page { page, page_size } => {
            let before: usize = if page > 0 { page - 1 } else { 0 };
            let offset = before * page_size;
            append_str(v, " LIMIT ");
            push_decimal(v, page_size as u64);
            append_str(v, " OFFSET ");
            push_decimal(v, offset as u64);
            assert(final(v)@ =~= old(v)@ + window_text(scope));
        },
    }
}

/// The `SELECT` an export wraps, [`select_text`]; `names` are the snapshot's columns in
/// schema order and `ord` its ordinal column, if it carries one.
pub fn select_sql(snap: &str, spec: &ExportSpec, names: &[String], ord: Option<&str>) -> (r: String)
    requires
        spec.scope matches Scope::Page { page, page_size } ==> page_offset(page, page_size) <= usize::MAX,
    ensures
        r@ == select_text(snap@, spec.scope, sort_view(spec.sort), string_views(names@), opt_str(ord)),
{
    let cols = select_columns(names, ord);
    let order = order_by(&spec.sort, ord);
    let mut v: Vec<char> = Vec::new();
    append_str(&mut v, "SELECT ");
    push_join_strings(&mut v, &cols, ", ");
    append_str(&mut v, " FROM ");
    append_str(&mut v, snap);
    if order.len() > 0 {
        append_str(&mut v, " ORDER BY ");
        push_join_strings(&mut v, &order, ", ");
    }
    let ghost ord_terms = order_terms(sort_view(spec.sort), opt_str(ord));
    assert(ord_terms.len() == order@.len());
    let ghost mid = "SELECT "@ + join(select_list(string_views(names@), opt_str(ord)), ", "@) + " FROM "@ + snap@
        + (if ord_terms.len() == 0 { Seq::<char>::empty() } else { " ORDER BY "@ + join(ord_terms, ", "@) });
    assert(v@ =~= mid);
    push_window(&mut v, spec.scope);
    let r = string_of(&v);
    assert(r@ =~= select_text(snap@, spec.scope, sort_view(spec.sort), string_views(names@), opt_str(ord)));
    r
}

// ---- write options ------------------------------------------------------------------------

/// What `format!("{c:?}")` writes for a character: the character quoted, with the escapes
/// `char::escape_debug` makes.
pub uninterp spec fn char_debug(c: char) -> Seq<char>;

/// `<char as Debug>::fmt`, through `format!`.
///
/// Trusted: the result is the standard library's debug rendering of `c`, a function of `c`
/// alone, named [`char_debug`].
#[verifier::external_body]
fn debug_char(c: char) -> (r: String)
    ensures
        r@ == char_debug(c),
{
    format!("{c:?}")
}

/// A single-character CSV option as its byte value, or the refusal of a character that is
/// not ASCII. The number is sent because the writer tries a number before a character, so
/// the character `9` would otherwise arrive as a tab.
pub open spec fn ascii_byte_text(what: Seq<char>, c: char) -> Result<Seq<char>, Seq<char>> {
    if (c as u32) < 128 {
        Ok(decimal(c as u32 as nat))
    } else {
        Err("The CSV "@ + what + " has to be a single ASCII character, not "@ + char_debug(c))
    }
}

/// [`ascii_byte_text`].
pub fn ascii_byte(what: &str, c: char) -> (r: Result<String, String>)
    ensures
        match ascii_byte_text(what@, c) {
            Ok(t) => r matches Ok(s) && s@ == t,
            Err(t) => r matches Err(s) && s@ == t,
        },
{
    let n = c as u32;
    if n < 128 {
        let mut v: Vec<char> = Vec::new();
        push_decimal(&mut v, n as u64);
        assert(v@ =~= decimal(n as nat));
        Ok(string_of(&v))
    } else {
        let mut v: Vec<char> = Vec::new();
        append_str(&mut v, "The CSV ");
        append_str(&mut v, what);
        append_str(&mut v, " has to be a single ASCII character, not ");
        let d = debug_char(c);
        append_str(&mut v, d.as_str());
        Err(string_of(&v))
    }
}

/// One option pair as characters.
pub open spec fn pair_view(p: (&str, String)) -> (Seq<char>, Seq<char>) {
    (p.0@, p.1@)
}

/// The option pairs a CSV spec contributes, or the first refusal.
pub open spec fn csv_pairs(c: Csv) -> Result<Seq<(Seq<char>, Seq<char>)>, Seq<char>> {
    match ascii_byte_text("delimiter"@, c.delimiter) {
        Err(e) => Err(e),
        Ok(d) => match ascii_byte_text("quote character"@, c.quote) {
            Err(e) => Err(e),
            Ok(q) => {
                let base = seq![
                    ("HAS_HEADER"@, bool_text(c.header)),
                    ("DELIMITER"@, d),
                    ("QUOTE"@, q),
                    ("DOUBLE_QUOTE"@, bool_text(c.double_quote)),
                    ("NULL_VALUE"@, doubled(c.null_value@, '\'')),
                    ("COMPRESSION"@, compression_option(c.compression)),
                ];
                match c.escape {
                    None => Ok(base),
                    Some(e) => match ascii_byte_text("escape character"@, e) {
                        Err(m) => Err(m),
                        Ok(b) => Ok(base.push(("ESCAPE"@, b))),
                    },
                }
            },
        },
    }
}

/// The `'key' 'value'` pairs a format contributes to ` OPTIONS (…)`: bare upper-case keys
/// the planner prefixes and lower-cases itself.
pub open spec fn format_pairs_text(f: Format) -> Result<Seq<(Seq<char>, Seq<char>)>, Seq<char>> {
    match f {
        Format::Csv(c) => csv_pairs(c),
        Format::Json(j) => Ok(seq![("COMPRESSION"@, compression_option(j.compression))]),
        Format::Parquet(p) => Ok(
            seq![
                ("COMPRESSION"@, codec_option(p.compression)),
                ("STATISTICS_ENABLED"@, statistics_option(p.statistics)),
                ("MAX_ROW_GROUP_SIZE"@, decimal((if p.max_row_group_size < 1 { 1 } else { p.max_row_group_size }) as nat)),
                ("WRITER_VERSION"@, writer_version_option(p.writer_version)),
                ("DICTIONARY_ENABLED"@, bool_text(p.dictionary)),
            ],
        ),
        Format::Arrow => Ok(seq![]),
    }
}

fn bool_string(b: bool) -> (r: String)
    ensures
        r@ == bool_text(b),
{
    let mut v: Vec<char> = Vec::new();
    crate::text::push_bool(&mut v, b);
    assert(v@ =~= bool_text(b));
    string_of(&v)
}

/// [`format_pairs_text`].
pub fn format_pairs(format: &Format) -> (r: Result<Vec<(&'static str, String)>, String>)
    ensures
        match format_pairs_text(*format) {
            Ok(ps) => r matches Ok(v) && v@.map_values(|p: (&str, String)| pair_view(p)) == ps,
            Err(e) => r matches Err(m) && m@ == e,
        },
{
    match format {
        Format::Csv(c) => {
            let d = match ascii_byte("delimiter", c.delimiter) {
                Ok(d) => d,
                Err(e) => return Err(e),
            };
            let q = match ascii_byte("quote character", c.quote) {
                Ok(q) => q,
                Err(e) => return Err(e),
            };
            let mut pairs: Vec<(&'static str, String)> = Vec::new();
            pairs.push(("HAS_HEADER", bool_string(c.header)));
            pairs.push(("DELIMITER", d));
            pairs.push(("QUOTE", q));
            pairs.push(("DOUBLE_QUOTE", bool_string(c.double_quote)));
            pairs.push(("NULL_VALUE", quote_literal(c.null_value.as_str())));
            pairs.push(("COMPRESSION", crate::text::owned(c.compression.as_option())));
            let ghost base = pairs@.map_values(|p: (&str, String)| pair_view(p));
            match c.escape {
                None => {},
                Some(e) => {
                    let b = match ascii_byte("escape character", e) {
                        Ok(b) => b,
                        Err(m) => return Err(m),
                    };
                    pairs.push(("ESCAPE", b));
                    assert(pairs@.map_values(|p: (&str, String)| pair_view(p)) =~= base.push(pair_view(pairs@.last())));
                },
            }
            proof {
                match format_pairs_text(*format) {
                    Ok(ps) => {
                        assert(pairs@.map_values(|p: (&str, String)| pair_view(p)) =~= ps);
                    },
                    Err(_) => {},
                }
            }
            Ok(pairs)
        },
        Format::Json(j) => {
            let mut pairs: Vec<(&'static str, String)> = Vec::new();
            pairs.push(("COMPRESSION", crate::text::owned(j.compression.as_option())));
            assert(pairs@.map_values(|p: (&str, String)| pair_view(p)) =~= seq![("COMPRESSION"@, compression_option(j.compression))]);
            Ok(pairs)
        },
        Format::Parquet(p) => {
            let rows = if p.max_row_group_size < 1 { 1 } else { p.max_row_group_size };
            let mut v: Vec<char> = Vec::new();
            push_decimal(&mut v, rows as u64);
            let mut pairs: Vec<(&'static str, String)> = Vec::new();
            pairs.push(("COMPRESSION", p.compression.as_option()));
            pairs.push(("STATISTICS_ENABLED", crate::text::owned(p.statistics.as_option())));
            pairs.push(("MAX_ROW_GROUP_SIZE", string_of(&v)));
            pairs.push(("WRITER_VERSION", crate::text::owned(p.writer_version.as_option())));
            pairs.push(("DICTIONARY_ENABLED", bool_string(p.dictionary)));
            proof {
                let ps = format_pairs_text(*format)->Ok_0;
                assert(pairs@.map_values(|p: (&str, String)| pair_view(p)) =~= ps);
            }
            Ok(pairs)
        },
        Format::Arrow => {
            let pairs: Vec<(&'static str, String)> = Vec::new();
            assert(pairs@.map_values(|p: (&str, String)| pair_view(p)) =~= Seq::<(Seq<char>, Seq<char>)>::empty());
            Ok(pairs)
        },
    }
}

/// One pair as it is written: `'key' 'value'`.
pub open spec fn pair_text(p: (Seq<char>, Seq<char>)) -> Seq<char> {
    seq!['\''] + p.0 + "' '"@ + p.1 + seq!['\'']
}

/// The ` OPTIONS (…)` clause for a set of pairs, or nothing for none.
pub open spec fn options_clause_text(pairs: Seq<(Seq<char>, Seq<char>)>) -> Seq<char> {
    if pairs.len() == 0 {
        seq![]
    } else {
        " OPTIONS ("@ + join(pairs.map_values(|p: (Seq<char>, Seq<char>)| pair_text(p)), ", "@) + ")"@
    }
}

/// [`options_clause_text`].
pub fn options_clause(pairs: &[(&str, String)]) -> (r: String)
    ensures
        r@ == options_clause_text(pairs@.map_values(|p: (&str, String)| pair_view(p))),
{
    let ghost views = pairs@.map_values(|p: (&str, String)| pair_view(p));
    if pairs.len() == 0 {
        assert(views.len() == 0);
        return String::new();
    }
    let mut v: Vec<char> = Vec::new();
    append_str(&mut v, " OPTIONS (");
    let ghost head = v@;
    let mut i: usize = 0;
    while i < pairs.len()
        invariant
            i <= pairs@.len(),
            views == pairs@.map_values(|p: (&str, String)| pair_view(p)),
            v@ == head + join(views.take(i as int).map_values(|p: (Seq<char>, Seq<char>)| pair_text(p)), ", "@),
        decreases pairs@.len() - i,
    {
        let ghost before = v@;
        if i > 0 {
            append_str(&mut v, ", ");
        }
        let ghost mid = v@;
        v.push('\'');
        append_str(&mut v, pairs[i].0);
        append_str(&mut v, "' '");
        append_str(&mut v, pairs[i].1.as_str());
        v.push('\'');
        proof {
            assert(v@ =~= mid + pair_text(views[i as int]));
            let a = views.take(i + 1).map_values(|p: (Seq<char>, Seq<char>)| pair_text(p));
            assert(a.drop_last() =~= views.take(i as int).map_values(|p: (Seq<char>, Seq<char>)| pair_text(p)));
            assert(a.last() == pair_text(views[i as int]));
            if i == 0 {
                assert(join(views.take(0).map_values(|p: (Seq<char>, Seq<char>)| pair_text(p)), ", "@) =~= seq![]);
            }
            assert(v@ =~= head + join(a, ", "@));
        }
        i = i + 1;
    }
    assert(views.take(views.len() as int) =~= views);
    append_str(&mut v, ")");
    let r = string_of(&v);
    assert(r@ =~= options_clause_text(views));
    r
}

/// The COPY option that keeps partition columns inside the files, in its own namespace so
/// the planner reads it from the statement and the session is left alone.
pub const KEEP_PARTITION_COLUMNS: &'static str = "execution.keep_partition_by_columns";

/// The whole `COPY` statement an export runs, around the `select` it wraps.
pub open spec fn export_statement_text(spec: ExportSpec, select: Seq<char>) -> Result<Seq<char>, Seq<char>> {
    match format_pairs_text(spec.format) {
        Err(e) => Err(e),
        Ok(ps) => {
            let flat = spec.partition.columns@.len() == 0;
            let options = if flat {
                ps
            } else {
                ps.push(("execution.keep_partition_by_columns"@, bool_text(spec.partition.keep_columns)))
            };
            let part = if flat {
                Seq::<char>::empty()
            } else {
                " PARTITIONED BY ("@ + join(string_views(spec.partition.columns@), ", "@) + ")"@
            };
            Ok(
                "COPY ("@ + select + ") TO '"@ + doubled(spec.path@, '\'') + "' STORED AS "@
                    + stored_as_text(spec.format) + part + options_clause_text(options),
            )
        },
    }
}

/// The `COPY (…) TO '…' STORED AS …` statement for `spec`, [`export_statement_text`].
pub fn export_statement(spec: &ExportSpec, select: &str) -> (r: Result<String, String>)
    ensures
        match export_statement_text(*spec, select@) {
            Ok(t) => r matches Ok(s) && s@ == t,
            Err(t) => r matches Err(s) && s@ == t,
        },
{
    let mut options = match format_pairs(&spec.format) {
        Ok(o) => o,
        Err(e) => return Err(e),
    };
    let ghost ps = options@.map_values(|p: (&str, String)| pair_view(p));
    let mut part: Vec<char> = Vec::new();
    if !spec.partition.is_flat() {
        options.push((KEEP_PARTITION_COLUMNS, bool_string(spec.partition.keep_columns)));
        assert(options@.map_values(|p: (&str, String)| pair_view(p)) =~= ps.push(("execution.keep_partition_by_columns"@, bool_text(spec.partition.keep_columns))));
        append_str(&mut part, " PARTITIONED BY (");
        push_join_strings(&mut part, &spec.partition.columns, ", ");
        append_str(&mut part, ")");
    } else {
        assert(part@ =~= Seq::<char>::empty());
    }
    let opts = options_clause(options.as_slice());
    let esc = quote_literal(spec.path.as_str());
    let mut v: Vec<char> = Vec::new();
    append_str(&mut v, "COPY (");
    append_str(&mut v, select);
    append_str(&mut v, ") TO '");
    append_str(&mut v, esc.as_str());
    append_str(&mut v, "' STORED AS ");
    append_str(&mut v, spec.format.stored_as());
    append_chars(&mut v, &part);
    append_str(&mut v, opts.as_str());
    let r = string_of(&v);
    proof {
        let t = export_statement_text(*spec, select@)->Ok_0;
        assert(r@ =~= t);
    }
    Ok(r)
}

// ---- partition gates ---------------------------------------------------------------------

/// Why a partition column containing NULLs is refused, in the one wording every surface
/// uses.
pub open spec fn null_refusal_text(name: Seq<char>) -> Seq<char> {
    "Can't partition by '"@ + name
        + "': it contains NULL values, and a NULL has no folder name — those rows would be written under another value and read back wrong. Partition by a column with no NULLs, or filter them out of the query first"@
}

/// [`null_refusal_text`].
pub fn partition_null_refusal(name: &str) -> (r: String)
    ensures
        r@ == null_refusal_text(name@),
{
    let mut v: Vec<char> = Vec::new();
    append_str(&mut v, "Can't partition by '");
    append_str(&mut v, name);
    append_str(
        &mut v,
        "': it contains NULL values, and a NULL has no folder name — those rows would be written under another value and read back wrong. Partition by a column with no NULLs, or filter them out of the query first",
    );
    string_of(&v)
}

/// The first position of `name` in `names`.
pub open spec fn position_of(names: Seq<Seq<char>>, name: Seq<char>) -> Option<int> {
    if exists|i: int| 0 <= i < names.len() && names[i] == name {
        Some(choose|i: int| 0 <= i < names.len() && names[i] == name && forall|j: int| 0 <= j < i ==> names[j] != name)
    } else {
        None
    }
}

/// What one partition column is refused with, given the result's column names and the
/// exact null count of each: missing from the result, or not known to hold no NULLs.
pub open spec fn null_check(name: Seq<char>, names: Seq<Seq<char>>, nulls: Seq<u64>) -> Option<Seq<char>> {
    match position_of(names, name) {
        None => Some("Can't partition by '"@ + name + "': the result has no such column"@),
        Some(i) => if i < nulls.len() && nulls[i] == 0 {
            None
        } else {
            Some(null_refusal_text(name))
        },
    }
}

/// The first partition column that is refused, checked in order.
pub open spec fn null_gate(columns: Seq<Seq<char>>, names: Seq<Seq<char>>, nulls: Seq<u64>) -> Option<Seq<char>>
    decreases columns.len(),
{
    if columns.len() == 0 {
        None
    } else {
        match null_check(columns[0], names, nulls) {
            Some(e) => Some(e),
            None => null_gate(columns.drop_first(), names, nulls),
        }
    }
}

/// The first position of `name` among `names`, [`position_of`].
fn position_in(names: &[String], name: &str) -> (r: Option<usize>)
    ensures
        match r {
            Some(k) => position_of(string_views(names@), name@) == Some(k as int),
            None => position_of(string_views(names@), name@) is None,
        },
{
    let ghost nm = string_views(names@);
    let target = chars_of(name);
    let mut i: usize = 0;
    while i < names.len()
        invariant
            i <= names@.len(),
            nm == string_views(names@),
            target@ == name@,
            forall|j: int| 0 <= j < i ==> nm[j] != name@,
        decreases names@.len() - i,
    {
        if crate::text::str_is(names[i].as_str(), &target) {
            proof {
                assert(nm[i as int] == name@);
                let p = choose|p: int| 0 <= p < nm.len() && nm[p] == name@ && forall|j: int| 0 <= j < p ==> nm[j] != name@;
                assert(p == i as int) by {
                    if p > i {
                        assert(nm[i as int] == name@);
                    }
                }
            }
            return Some(i);
        }
        i = i + 1;
    }
    None
}

/// [`null_check`] of one column.
fn check_column(name: &str, names: &[String], nulls: &[u64]) -> (r: Option<String>)
    ensures
        match null_check(name@, string_views(names@), nulls@) {
            None => r is None,
            Some(e) => r matches Some(m) && m@ == e,
        },
{
    match position_in(names, name) {
        None => {
            let mut v: Vec<char> = Vec::new();
            append_str(&mut v, "Can't partition by '");
            append_str(&mut v, name);
            append_str(&mut v, "': the result has no such column");
            assert(v@ =~= "Can't partition by '"@ + name@ + "': the result has no such column"@);
            Some(string_of(&v))
        },
        Some(k) => {
            if k >= nulls.len() || nulls[k] != 0 {
                Some(partition_null_refusal(name))
            } else {
                None
            }
        },
    }
}

/// Refuse a partitioned export whose partition columns may contain NULLs: a directory name
/// cannot hold a NULL, and the writer would file such rows under a neighbouring value. The
/// rule is "proceed only on an exact zero", so a count that is missing declines too.
pub fn partition_columns_have_no_nulls(columns: &[String], names: &[String], nulls: &[u64]) -> (r: Result<(), String>)
    ensures
        match null_gate(string_views(columns@), string_views(names@), nulls@) {
            None => r is Ok,
            Some(e) => r matches Err(m) && m@ == e,
        },
{
    let ghost cols = string_views(columns@);
    let ghost nm = string_views(names@);
    let mut c: usize = 0;
    assert(cols.skip(0) =~= cols);
    while c < columns.len()
        invariant
            c <= columns@.len(),
            cols == string_views(columns@),
            nm == string_views(names@),
            null_gate(cols, nm, nulls@) == null_gate(cols.skip(c as int), nm, nulls@),
        decreases columns@.len() - c,
    {
        let name = columns[c].as_str();
        proof {
            assert(cols.skip(c as int)[0] == name@);
            assert(cols.skip(c as int).drop_first() =~= cols.skip(c + 1));
        }
        match check_column(name, names, nulls) {
            Some(e) => {
                return Err(e);
            },
            None => {},
        }
        c = c + 1;
    }
    assert(cols.skip(c as int) =~= Seq::<Seq<char>>::empty());
    Ok(())
}

/// Whether the parser dialect named `dialect` lets `c` start an identifier; `None` when
/// no dialect has that name.
pub uninterp spec fn dialect_ident_start(dialect: Seq<char>, c: char) -> Option<bool>;

/// Whether the parser dialect named `dialect` lets `c` continue an identifier; `None` when
/// no dialect has that name.
pub uninterp spec fn dialect_ident_part(dialect: Seq<char>, c: char) -> Option<bool>;

/// `Dialect::is_identifier_start` of the dialect `sqlparser::dialect::dialect_from_str`
/// finds by name.
///
/// Trusted: the answer depends on the dialect name and the character alone, named
/// [`dialect_ident_start`]; an unknown name gives `None`.
#[verifier::external_body]
fn ident_start(dialect: &str, c: char) -> (r: Option<bool>)
    ensures
        r == dialect_ident_start(dialect@, c),
{
    match sqlparser::dialect::dialect_from_str(dialect) {
        Some(d) => Some(d.is_identifier_start(c)),
        None => None,
    }
}

/// `Dialect::is_identifier_part` of the dialect `sqlparser::dialect::dialect_from_str`
/// finds by name.
///
/// Trusted: the answer depends on the dialect name and the character alone, named
/// [`dialect_ident_part`]; an unknown name gives `None`.
#[verifier::external_body]
fn ident_part(dialect: &str, c: char) -> (r: Option<bool>)
    ensures
        r == dialect_ident_part(dialect@, c),
{
    match sqlparser::dialect::dialect_from_str(dialect) {
        Some(d) => Some(d.is_identifier_part(c)),
        None => None,
    }
}

/// Does `c` start an identifier under `dialect`, reading an unknown dialect name as the
/// generic dialect?
pub open spec fn starts_ident(dialect: Seq<char>, c: char) -> bool {
    match dialect_ident_start(dialect, c) {
        Some(b) => b,
        None => dialect_ident_start("generic"@, c) == Some(true),
    }
}

/// Does `c` continue an identifier under `dialect`, reading an unknown dialect name as the
/// generic dialect?
pub open spec fn continues_ident(dialect: Seq<char>, c: char) -> bool {
    match dialect_ident_part(dialect, c) {
        Some(b) => b,
        None => dialect_ident_part("generic"@, c) == Some(true),
    }
}

/// `name` tokenises as one unquoted identifier under the dialect.
pub open spec fn bare_word(dialect: Seq<char>, name: Seq<char>) -> bool {
    &&& name.len() > 0
    &&& starts_ident(dialect, name[0])
    &&& forall|i: int| 1 <= i < name.len() ==> continues_ident(dialect, #[trigger] name[i])
}

fn starts(dialect: &str, c: char) -> (r: bool)
    ensures
        r == starts_ident(dialect@, c),
{
    match ident_start(dialect, c) {
        Some(b) => b,
        None => ident_start("generic", c) == Some(true),
    }
}

fn continues(dialect: &str, c: char) -> (r: bool)
    ensures
        r == continues_ident(dialect@, c),
{
    match ident_part(dialect, c) {
        Some(b) => b,
        None => ident_part("generic", c) == Some(true),
    }
}

/// Whether `name` tokenises as a single unquoted identifier, asked of the very dialect the
/// generated `COPY` is parsed with.
pub fn is_bare_word(dialect: &str, name: &str) -> (r: bool)
    ensures
        r == bare_word(dialect@, name@),
{
    let c = chars_of(name);
    if c.len() == 0 || !starts(dialect, c[0]) {
        return false;
    }
    let mut i: usize = 1;
    while i < c.len()
        invariant
            1 <= i <= c@.len(),
            c@ == name@,
            forall|j: int| 1 <= j < i ==> continues_ident(dialect@, #[trigger] c@[j]),
        decreases c@.len() - i,
    {
        if !continues(dialect, c[i]) {
            return false;
        }
        i = i + 1;
    }
    true
}

/// What a partition column that is not one bare word is refused with.
pub open spec fn not_bare_text(name: Seq<char>) -> Seq<char> {
    "Can't partition by '"@ + name
        + "': COPY takes unquoted column names, so a partition column has to be a single plain word"@
}

/// Refuse the first partition column the dialect does not read as one bare word: `COPY`'s
/// `PARTITIONED BY` takes bare identifiers only.
pub fn partition_columns_are_bare_words(columns: &[String], dialect: &str) -> (r: Result<(), String>)
    ensures
        match r {
            Ok(()) => forall|i: int| 0 <= i < columns@.len() ==> bare_word(dialect@, #[trigger] columns@[i]@),
            Err(m) => exists|i: int|
                0 <= i < columns@.len() && !bare_word(dialect@, #[trigger] columns@[i]@) && m@ == not_bare_text(
                    columns@[i]@,
                ) && forall|j: int| 0 <= j < i ==> bare_word(dialect@, #[trigger] columns@[j]@),
        },
{
    let mut i: usize = 0;
    while i < columns.len()
        invariant
            i <= columns@.len(),
            forall|j: int| 0 <= j < i ==> bare_word(dialect@, #[trigger] columns@[j]@),
        decreases columns@.len() - i,
    {
        if !is_bare_word(dialect, columns[i].as_str()) {
            let mut v: Vec<char> = Vec::new();
            append_str(&mut v, "Can't partition by '");
            append_str(&mut v, columns[i].as_str());
            append_str(&mut v, "': COPY takes unquoted column names, so a partition column has to be a single plain word");
            return Err(string_of(&v));
        }
        i = i + 1;
    }
    Ok(())
}

/// How much a statistics level records, from nothing to every page.
pub open spec fn statistics_rank(s: Statistics) -> int {
    match s {
        Statistics::Disabled => 0,
        Statistics::Chunk => 1,
        Statistics::Page => 2,
    }
}

/// **Each statistics level writes its own word**: distinct levels give distinct option
/// values, and each is the word the engine's own `statistics_enabled` setting lists for that
/// much statistics (none, then per chunk, then per page).
pub proof fn law_statistics_words(a: Statistics, b: Statistics)
    ensures
        statistics_option(a) == statistics_option(b) ==> a == b,
        statistics_option(a) == crate::config::choice_options(crate::config::Choices::StatisticsLevel)[statistics_rank(a)],
{
    reveal_strlit("none");
    reveal_strlit("chunk");
    reveal_strlit("page");
    assert("none"@[0] != "page"@[0]);
    assert("none"@.len() != "chunk"@.len());
    assert("page"@.len() != "chunk"@.len());
}

} // verus!
