//! External table registration, minus the engine: the Hive keys a source path spells out,
//! the CSV byte options, and the translation of a registration failure into something the
//! user can act on.

use vstd::prelude::*;

use crate::names::{insert_name, names_sorted};
use crate::external::{CsvRead, FileCompression, JsonRead, JsonShape, SourceFormat};
use crate::text::{
    append_chars, append_str, chars_of, contains, contains_seq, has_prefix, index_from, index_of, is_alpha,
    is_ascii_alpha, is_ascii_digit, is_digit, join, slice_vec, starts_with, string_of, string_views, trim,
    trimmed,
};

verus! {

/// Everything needed to register one external table.
#[derive(Clone, Debug, PartialEq)]
pub struct TableSpec {
    pub name: String,
    pub paths: Vec<String>,
    /// The reader and the options it takes.
    pub format: SourceFormat,
    /// Hive partition columns, `(name, type)`.
    pub partitions: Vec<(String, String)>,
}

// ---- Hive keys ---------------------------------------------------------------------------

/// A path separator.
pub open spec fn is_sep(c: char) -> bool {
    c == '/' || c == '\\'
}

/// The segments of a path split on `/` and `\`: the finished ones, and the one in progress.
pub open spec fn split_state(s: Seq<char>) -> (Seq<Seq<char>>, Seq<char>)
    decreases s.len(),
{
    if s.len() == 0 {
        (seq![], seq![])
    } else {
        let (done, cur) = split_state(s.drop_last());
        if is_sep(s.last()) {
            (done.push(cur), seq![])
        } else {
            (done, cur.push(s.last()))
        }
    }
}

/// The segments of a path split on `/` and `\`, empty ones included.
pub open spec fn segments(s: Seq<char>) -> Seq<Seq<char>> {
    split_state(s).0.push(split_state(s).1)
}

/// A character of a partition key after its first.
pub open spec fn is_key_char(c: char) -> bool {
    is_ascii_alpha(c) || is_ascii_digit(c) || c == '_'
}

/// The key of a `key=value` segment, which has to be an identifier since it becomes a
/// column name; `None` for anything else.
pub open spec fn partition_key_of(seg: Seq<char>) -> Option<Seq<char>> {
    match crate::text::first_index(seg, '=') {
        None => None,
        Some(i) => {
            let key = seg.take(i);
            if key.len() > 0 && (is_ascii_alpha(key[0]) || key[0] == '_') && forall|j: int|
                1 <= j < key.len() ==> is_key_char(#[trigger] key[j]) {
                Some(key)
            } else {
                None
            }
        },
    }
}

/// The key in a `key=value` path segment, [`partition_key_of`].
pub fn partition_key(segment: &str) -> (r: Option<String>)
    ensures
        match partition_key_of(segment@) {
            Some(k) => r matches Some(s) && s@ == k,
            None => r is None,
        },
{
    let c = chars_of(segment);
    match crate::text::find_char(&c, '=') {
        None => None,
        Some(i) => {
            let key = slice_vec(&c, 0, i);
            assert(key@ =~= c@.take(i as int));
            if key.len() == 0 || !(is_alpha(key[0]) || key[0] == '_') {
                return None;
            }
            let mut j: usize = 1;
            while j < key.len()
                invariant
                    1 <= j <= key@.len(),
                    c@ == segment@,
                    key@ == segment@.take(i as int),
                    crate::text::first_index(segment@, '=') == Some(i as int),
                    forall|m: int| 1 <= m < j ==> is_key_char(#[trigger] key@[m]),
                decreases key@.len() - j,
            {
                let ch = key[j];
                if !(is_alpha(ch) || is_digit(ch) || ch == '_') {
                    assert(!is_key_char(key@[j as int]));
                    return None;
                }
                j = j + 1;
            }
            Some(string_of(&key))
        },
    }
}

/// The keys of the segments that glob (hold `*` or `?`) and are `key=value` shaped, in
/// order.
pub open spec fn glob_keys(segs: Seq<Seq<char>>) -> Seq<Seq<char>>
    decreases segs.len(),
{
    if segs.len() == 0 {
        seq![]
    } else {
        let rest = glob_keys(segs.drop_last());
        match glob_key(segs.last()) {
            Some(k) => rest.push(k),
            None => rest,
        }
    }
}

/// The key a segment contributes: its partition key when it globs, else nothing.
pub open spec fn glob_key(seg: Seq<char>) -> Option<Seq<char>> {
    if seg.contains('*') || seg.contains('?') {
        partition_key_of(seg)
    } else {
        None
    }
}

fn glob_key_of(seg: &Vec<char>) -> (r: Option<String>)
    ensures
        match glob_key(seg@) {
            Some(k) => r matches Some(s) && s@ == k,
            None => r is None,
        },
{
    let globbed = crate::text::find_char(seg, '*').is_some() || crate::text::find_char(seg, '?').is_some();
    proof {
        if seg@.contains('*') {
            assert(crate::text::first_index(seg@, '*') is Some);
        }
        if seg@.contains('?') {
            assert(crate::text::first_index(seg@, '?') is Some);
        }
    }
    if globbed {
        let s = string_of(seg);
        partition_key(s.as_str())
    } else {
        None
    }
}

/// The `key=` segments a path spells out as globs, in order. A literal `key=value` segment
/// is not one of them: a source path is the listing root, so a literal level is already
/// consumed and declaring it would filter out every file.
pub fn keys_in_pattern(path: &str) -> (r: Vec<String>)
    ensures
        r@.map_values(|s: String| s@) == glob_keys(segments(path@)),
{
    let c = chars_of(path);
    let mut segs: Vec<Vec<char>> = Vec::new();
    let mut cur: Vec<char> = Vec::new();
    let mut i: usize = 0;
    assert(c@.take(0) =~= Seq::<char>::empty());
    assert(segs@.map_values(|v: Vec<char>| v@) =~= Seq::<Seq<char>>::empty());
    while i < c.len()
        invariant
            i <= c@.len(),
            c@ == path@,
            split_state(c@.take(i as int)) == (segs@.map_values(|v: Vec<char>| v@), cur@),
        decreases c@.len() - i,
    {
        assert(c@.take(i + 1).drop_last() =~= c@.take(i as int));
        assert(c@.take(i + 1).last() == c@[i as int]);
        let ch = c[i];
        if ch == '/' || ch == '\\' {
            let ghost before = segs@.map_values(|v: Vec<char>| v@);
            let done = cur;
            cur = Vec::new();
            segs.push(done);
            assert(segs@.map_values(|v: Vec<char>| v@) =~= before.push(segs@.last()@));
            assert(cur@ =~= Seq::<char>::empty());
        } else {
            cur.push(ch);
        }
        i = i + 1;
    }
    assert(c@.take(c@.len() as int) =~= c@);
    let ghost before = segs@.map_values(|v: Vec<char>| v@);
    segs.push(cur);
    assert(segs@.map_values(|v: Vec<char>| v@) =~= before.push(segs@.last()@));
    let ghost all = segs@.map_values(|v: Vec<char>| v@);
    let mut out: Vec<String> = Vec::new();
    let mut k: usize = 0;
    assert(all.take(0) =~= Seq::<Seq<char>>::empty());
    assert(out@.map_values(|s: String| s@) =~= Seq::<Seq<char>>::empty());
    while k < segs.len()
        invariant
            k <= segs@.len(),
            all == segs@.map_values(|v: Vec<char>| v@),
            out@.map_values(|s: String| s@) == glob_keys(all.take(k as int)),
        decreases segs@.len() - k,
    {
        assert(all.take(k + 1).drop_last() =~= all.take(k as int));
        assert(all.take(k + 1).last() == segs@[k as int]@);
        match glob_key_of(&segs[k]) {
            Some(key) => {
                let ghost before = out@.map_values(|s: String| s@);
                out.push(key);
                assert(out@.map_values(|s: String| s@) =~= before.push(out@.last()@));
            },
            None => {},
        }
        k = k + 1;
    }
    assert(all.take(all.len() as int) =~= all);
    out
}

// ---- CSV bytes ---------------------------------------------------------------------------

/// One CSV option that has to be a byte: an ASCII character, whose UTF-8 encoding is that
/// one byte; anything else is reported rather than truncated.
pub open spec fn csv_byte_text(what: Seq<char>, c: char) -> Result<u8, Seq<char>> {
    if (c as u32) < 128 {
        Ok(c as u32 as u8)
    } else {
        Err("The CSV "@ + what + " has to be a single-byte character, not '"@ + seq![c] + "'."@)
    }
}

/// [`csv_byte_text`].
pub fn ascii_byte(what: &str, c: char) -> (r: Result<u8, String>)
    ensures
        match csv_byte_text(what@, c) {
            Ok(b) => r == Ok::<u8, String>(b),
            Err(t) => r matches Err(m) && m@ == t,
        },
{
    let n = c as u32;
    if n < 128 {
        Ok(n as u8)
    } else {
        let mut v: Vec<char> = Vec::new();
        append_str(&mut v, "The CSV ");
        append_str(&mut v, what);
        append_str(&mut v, " has to be a single-byte character, not '");
        v.push(c);
        append_str(&mut v, "'.");
        let r = string_of(&v);
        assert(r@ =~= "The CSV "@ + what@ + " has to be a single-byte character, not '"@ + seq![c] + "'."@);
        Err(r)
    }
}

// ---- registration failures -------------------------------------------------------------

/// The longest engine text passed through unchanged.
pub const MAX_PASSTHROUGH: usize = 240;

/// Whether a source path is a glob rather than a name that can be looked up on disk.
pub open spec fn is_glob_text(p: Seq<char>) -> bool {
    p.contains('*') || p.contains('?') || p.contains('[')
}

/// [`is_glob_text`].
pub fn is_glob(p: &str) -> (r: bool)
    ensures
        r == is_glob_text(p@),
{
    let c = chars_of(p);
    let r = crate::text::find_char(&c, '*').is_some() || crate::text::find_char(&c, '?').is_some()
        || crate::text::find_char(&c, '[').is_some();
    proof {
        if c@.contains('*') {
            assert(crate::text::first_index(c@, '*') is Some);
        }
        if c@.contains('?') {
            assert(crate::text::first_index(c@, '?') is Some);
        }
        if c@.contains('[') {
            assert(crate::text::first_index(c@, '[') is Some);
        }
    }
    r
}

/// What follows the first occurrence of `pat` in `s`; `None` when it does not occur.
pub open spec fn after_first(s: Seq<char>, pat: Seq<char>) -> Option<Seq<char>> {
    match index_from(s, pat, 0) {
        None => None,
        Some(k) => Some(s.skip(k + pat.len())),
    }
}

/// `s` up to the first occurrence of `pat`, or all of it.
pub open spec fn up_to_first(s: Seq<char>, pat: Seq<char>) -> Seq<char> {
    match index_from(s, pat, 0) {
        Some(m) => s.take(m),
        None => s,
    }
}

/// The second piece of `s` split on `pat`: what lies between the first occurrence and the
/// next, or to the end; `None` when `pat` does not occur.
pub open spec fn second_piece(s: Seq<char>, pat: Seq<char>) -> Option<Seq<char>> {
    match after_first(s, pat) {
        None => None,
        Some(rest) => Some(up_to_first(rest, pat)),
    }
}

fn after_first_of(s: &[char], pat: &[char]) -> (r: Option<Vec<char>>)
    ensures
        match after_first(s@, pat@) {
            Some(t) => r matches Some(v) && v@ == t,
            None => r is None,
        },
{
    let n = s.len();
    match index_of(s, pat) {
        None => None,
        Some(k) => {
            let rest = slice_vec(s, k + pat.len(), n);
            assert(rest@ =~= s@.skip(k + pat@.len()));
            Some(rest)
        },
    }
}

fn up_to_first_of(s: Vec<char>, pat: &[char]) -> (r: Vec<char>)
    ensures
        r@ == up_to_first(s@, pat@),
{
    match index_of(&s, pat) {
        None => s,
        Some(m) => {
            let t = slice_vec(&s, 0, m);
            assert(t@ =~= s@.take(m as int));
            t
        },
    }
}

fn second_piece_of(s: &[char], pat: &[char]) -> (r: Option<Vec<char>>)
    ensures
        match second_piece(s@, pat@) {
            Some(t) => r matches Some(v) && v@ == t,
            None => r is None,
        },
{
    match after_first_of(s, pat) {
        None => None,
        Some(rest) => Some(up_to_first_of(rest, pat)),
    }
}

/// The first piece of `s` split on any of `' '`, `'['`, `'{'`, `'('`.
pub open spec fn before_bracket(s: Seq<char>) -> Seq<char>
    decreases s.len(),
{
    if s.len() == 0 {
        s
    } else if s[0] == ' ' || s[0] == '[' || s[0] == '{' || s[0] == '(' {
        seq![]
    } else {
        seq![s[0]] + before_bracket(s.drop_first())
    }
}

fn before_bracket_of(s: &[char]) -> (r: Vec<char>)
    ensures
        r@ == before_bracket(s@),
{
    let mut i: usize = 0;
    assert(s@.skip(0) =~= s@);
    while i < s.len() && !(s[i] == ' ' || s[i] == '[' || s[i] == '{' || s[i] == '(')
        invariant
            i <= s@.len(),
            before_bracket(s@) == s@.take(i as int) + before_bracket(s@.skip(i as int)),
        decreases s@.len() - i,
    {
        assert(s@.skip(i as int)[0] == s@[i as int]);
        assert(s@.skip(i as int).drop_first() =~= s@.skip(i + 1));
        assert(s@.take(i + 1) =~= s@.take(i as int) + seq![s@[i as int]]);
        i = i + 1;
    }
    if i < s.len() {
        assert(s@.skip(i as int)[0] == s@[i as int]);
    } else {
        assert(s@.skip(i as int) =~= Seq::<char>::empty());
    }
    let r = slice_vec(s, 0, i);
    assert(r@ =~= before_bracket(s@));
    r
}

/// `s` without its trailing dots.
pub open spec fn trim_dots(s: Seq<char>) -> Seq<char>
    decreases s.len(),
{
    if s.len() > 0 && s.last() == '.' {
        trim_dots(s.drop_last())
    } else {
        s
    }
}

fn trim_dots_of(s: &[char]) -> (r: Vec<char>)
    ensures
        r@ == trim_dots(s@),
{
    let mut n = s.len();
    assert(s@.take(n as int) =~= s@);
    while n > 0 && s[n - 1] == '.'
        invariant
            n <= s@.len(),
            trim_dots(s@) == trim_dots(s@.take(n as int)),
        decreases n,
    {
        assert(s@.take(n as int).drop_last() =~= s@.take(n - 1));
        n = n - 1;
    }
    slice_vec(s, 0, n)
}

/// The advice on a JSON table read in the wrong shape: only while it is still in the
/// newline-delimited shape, since an array table that fails is not fixed by the setting it
/// already has.
pub open spec fn shape_fix(shape: JsonShape) -> Seq<char> {
    match shape {
        JsonShape::NewlineDelimited => " Set the JSON shape to array in Table Config, or use newline-delimited JSON."@,
        JsonShape::Array => seq![],
    }
}

/// A JSON table's read failure, named as the shape problem it usually is, keeping the
/// reader's own diagnosis for a genuine syntax error; `None` for a table that is not JSON
/// or a failure that carries no JSON detail.
pub open spec fn json_shape_text(name: Seq<char>, format: SourceFormat, raw: Seq<char>) -> Option<Seq<char>> {
    match format {
        SourceFormat::Json(o) => match second_piece(raw, "Json error: "@) {
            None => None,
            Some(detail) => {
                let fix = shape_fix(o.shape);
                let head = "Cannot read '"@ + name + "' as JSON: "@;
                let found_pat = "Expected JSON record to be an object, found "@;
                if starts_with(detail, found_pat) {
                    let kind = trim(before_bracket(detail.skip(found_pat.len() as int)));
                    if kind == "Array"@ {
                        Some(head + "the source is a JSON array."@ + fix)
                    } else {
                        Some(head + "a top-level "@ + kind + " is not a record."@ + fix)
                    }
                } else {
                    let nv = "Not valid JSON: "@;
                    let syntax = trim(if starts_with(detail, nv) { detail.skip(nv.len() as int) } else { detail });
                    if starts_with(syntax, "EOF while parsing"@) {
                        Some(head + "a record does not end on its line."@ + fix)
                    } else {
                        Some(head + trim_dots(syntax))
                    }
                }
            },
        },
        _ => None,
    }
}

/// [`json_shape_text`].
pub fn json_shape_error(spec: &TableSpec, raw: &str) -> (r: Option<String>)
    ensures
        match json_shape_text(spec.name@, spec.format, raw@) {
            Some(t) => r matches Some(s) && s@ == t,
            None => r is None,
        },
{
    let o = match &spec.format {
        SourceFormat::Json(o) => *o,
        _ => return None,
    };
    let rc = chars_of(raw);
    let pat = chars_of("Json error: ");
    proof {
        reveal_strlit("Json error: ");
    }
    let detail = match second_piece_of(&rc, &pat) {
        None => return None,
        Some(d) => d,
    };
    let mut head: Vec<char> = Vec::new();
    append_str(&mut head, "Cannot read '");
    append_str(&mut head, spec.name.as_str());
    append_str(&mut head, "' as JSON: ");
    let mut fix: Vec<char> = Vec::new();
    match o.shape {
        JsonShape::NewlineDelimited => append_str(&mut fix, " Set the JSON shape to array in Table Config, or use newline-delimited JSON."),
        JsonShape::Array => {},
    }
    assert(fix@ =~= shape_fix(o.shape));
    let found_pat = chars_of("Expected JSON record to be an object, found ");
    let mut out = head;
    if has_prefix(&detail, &found_pat) {
        let rest = slice_vec(&detail, found_pat.len(), detail.len());
        assert(rest@ =~= detail@.skip(found_pat@.len() as int));
        let word = before_bracket_of(&rest);
        let kind = trimmed(&word, 0, word.len());
        assert(word@.subrange(0, word@.len() as int) =~= word@);
        if crate::text::str_is("Array", &kind) {
            append_str(&mut out, "the source is a JSON array.");
        } else {
            append_str(&mut out, "a top-level ");
            append_chars(&mut out, &kind);
            append_str(&mut out, " is not a record.");
        }
        append_chars(&mut out, &fix);
    } else {
        let nv = chars_of("Not valid JSON: ");
        let body = if has_prefix(&detail, &nv) {
            let b = slice_vec(&detail, nv.len(), detail.len());
            assert(b@ =~= detail@.skip(nv@.len() as int));
            b
        } else {
            detail
        };
        let syntax = trimmed(&body, 0, body.len());
        assert(body@.subrange(0, body@.len() as int) =~= body@);
        let eof = chars_of("EOF while parsing");
        if has_prefix(&syntax, &eof) {
            append_str(&mut out, "a record does not end on its line.");
            append_chars(&mut out, &fix);
        } else {
            let t = trim_dots_of(&syntax);
            append_chars(&mut out, &t);
        }
    }
    let r = string_of(&out);
    proof {
        let t = json_shape_text(spec.name@, spec.format, raw@)->0;
        assert(r@ =~= t);
    }
    Some(r)
}

/// What the filesystem says about the source a "no files found" failure names: the path as
/// the table spells it, whether it exists, whether it is a file, and — for a directory —
/// whether any file under it has the table's extension (`None` when the walk gave up
/// before knowing).
#[derive(Clone, Debug, PartialEq, Eq)]
pub struct SourceFacts {
    pub path: String,
    pub exists: bool,
    pub is_file: bool,
    pub holds_ext: Option<bool>,
}

/// The first whitespace-free token of `s`, skipping leading whitespace; `None` when there
/// is none.
pub open spec fn first_token(s: Seq<char>) -> Option<Seq<char>> {
    let t = crate::text::trim_start(s);
    if t.len() == 0 {
        None
    } else {
        Some(
            match crate::text::first_ws(t) {
                Some(k) => t.take(k),
                None => t,
            },
        )
    }
}

/// The source URL a "no files found" failure names: the token after the phrase, less the
/// one dot that ends the sentence.
pub open spec fn no_files_url_text(raw: Seq<char>) -> Option<Seq<char>> {
    match second_piece(raw, "No files found at "@) {
        None => None,
        Some(piece) => match first_token(piece) {
            None => None,
            Some(tok) => Some(if tok.len() > 0 && tok.last() == '.' { tok.drop_last() } else { tok }),
        },
    }
}

/// [`no_files_url_text`].
pub fn no_files_url(raw: &str) -> (r: Option<String>)
    ensures
        match no_files_url_text(raw@) {
            Some(t) => r matches Some(s) && s@ == t,
            None => r is None,
        },
{
    let rc = chars_of(raw);
    let pat = chars_of("No files found at ");
    let piece = match second_piece_of(&rc, &pat) {
        None => return None,
        Some(p) => p,
    };
    let a = crate::text::skip_ws(&piece, 0, piece.len());
    let t = slice_vec(&piece, a, piece.len());
    proof {
        assert(piece@.subrange(0, piece@.len() as int) =~= piece@);
        assert(t@ =~= crate::text::trim_start(piece@));
    }
    if t.len() == 0 {
        return None;
    }
    let tok = match crate::text::find_ws(&t) {
        Some(k) => {
            let v = slice_vec(&t, 0, k);
            assert(v@ =~= t@.take(k as int));
            v
        },
        None => t,
    };
    let mut tok = tok;
    if tok.len() > 0 && tok[tok.len() - 1] == '.' {
        tok.pop();
    }
    Some(string_of(&tok))
}

/// The quoted partition column names, `a', 'b`.
pub open spec fn partition_list(parts: Seq<(String, String)>) -> Seq<char> {
    join(parts.map_values(|p: (String, String)| p.0@), "', '"@)
}

/// Why a listing came back empty, given what the filesystem says about the source: a remote
/// or globbed path only claims nothing matched; a missing path, a file of the wrong
/// extension, and a partitioned directory that does hold files each get their own sentence.
pub open spec fn no_files_text(spec: TableSpec, ext: Seq<char>, raw: Seq<char>, facts: SourceFacts) -> Option<Seq<char>> {
    match no_files_url_text(raw) {
        None => None,
        Some(_) => {
            let path = facts.path@;
            Some(
                if contains_seq(path, "://"@) || is_glob_text(path) {
                    "No files matched '"@ + path + "'."@
                } else if !facts.exists {
                    "No source at '"@ + path + "'."@
                } else if facts.is_file {
                    if crate::text::ends_with(path, ext) {
                        "No files matched '"@ + path + "'."@
                    } else {
                        "Table '"@ + spec.name@ + "' reads "@ + ext + " files, and '"@ + path + "' is not one."@
                    }
                } else if spec.partitions@.len() > 0 && facts.holds_ext != Some(false) {
                    "No "@ + ext + " files under '"@ + path + "' match the partition columns '"@ + partition_list(spec.partitions@) + "'."@
                } else {
                    "No "@ + ext + " files under '"@ + path + "'."@
                },
            )
        },
    }
}

fn push_partition_list(v: &mut Vec<char>, parts: &Vec<(String, String)>)
    ensures
        final(v)@ == old(v)@ + partition_list(parts@),
{
    let ghost names = parts@.map_values(|p: (String, String)| p.0@);
    let mut i: usize = 0;
    while i < parts.len()
        invariant
            i <= parts@.len(),
            names == parts@.map_values(|p: (String, String)| p.0@),
            v@ == old(v)@ + join(names.take(i as int), "', '"@),
        decreases parts@.len() - i,
    {
        if i > 0 {
            append_str(v, "', '");
        }
        append_str(v, parts[i].0.as_str());
        proof {
            assert(names.take(i + 1).drop_last() =~= names.take(i as int));
            assert(names.take(i + 1).last() == parts@[i as int].0@);
            if i == 0 {
                assert(join(names.take(0), "', '"@) =~= seq![]);
            }
            assert(v@ =~= old(v)@ + join(names.take(i + 1), "', '"@));
        }
        i = i + 1;
    }
    assert(names.take(names.len() as int) =~= names);
}

/// [`no_files_text`].
pub fn no_files_error(spec: &TableSpec, ext: &str, raw: &str, facts: &SourceFacts) -> (r: Option<String>)
    ensures
        match no_files_text(*spec, ext@, raw@, *facts) {
            Some(t) => r matches Some(s) && s@ == t,
            None => r is None,
        },
{
    if no_files_url(raw).is_none() {
        return None;
    }
    let path = facts.path.as_str();
    let pc = chars_of(path);
    let remote = contains(&pc, &chars_of("://"));
    let mut v: Vec<char> = Vec::new();
    if remote || is_glob(path) {
        append_str(&mut v, "No files matched '");
        append_str(&mut v, path);
        append_str(&mut v, "'.");
    } else if !facts.exists {
        append_str(&mut v, "No source at '");
        append_str(&mut v, path);
        append_str(&mut v, "'.");
    } else if facts.is_file {
        if crate::text::has_suffix(&pc, &chars_of(ext)) {
            append_str(&mut v, "No files matched '");
            append_str(&mut v, path);
            append_str(&mut v, "'.");
        } else {
            append_str(&mut v, "Table '");
            append_str(&mut v, spec.name.as_str());
            append_str(&mut v, "' reads ");
            append_str(&mut v, ext);
            append_str(&mut v, " files, and '");
            append_str(&mut v, path);
            append_str(&mut v, "' is not one.");
        }
    } else if spec.partitions.len() > 0 && facts.holds_ext != Some(false) {
        append_str(&mut v, "No ");
        append_str(&mut v, ext);
        append_str(&mut v, " files under '");
        append_str(&mut v, path);
        append_str(&mut v, "' match the partition columns '");
        push_partition_list(&mut v, &spec.partitions);
        append_str(&mut v, "'.");
    } else {
        append_str(&mut v, "No ");
        append_str(&mut v, ext);
        append_str(&mut v, " files under '");
        append_str(&mut v, path);
        append_str(&mut v, "'.");
    }
    let r = string_of(&v);
    proof {
        let t = no_files_text(*spec, ext@, raw@, *facts)->0;
        assert(r@ =~= t);
    }
    Some(r)
}

/// `raw` capped at [`MAX_PASSTHROUGH`] characters, with a marker when cut.
pub open spec fn capped(raw: Seq<char>) -> Seq<char> {
    if raw.len() > 240 {
        raw.take(240) + seq!['…']
    } else {
        raw
    }
}

/// A registration failure translated into something the user can act on: a JSON shape
/// problem, an empty listing explained by `facts`, or else the engine's own text, capped.
pub open spec fn register_error_text(spec: TableSpec, ext: Seq<char>, raw: Seq<char>, facts: SourceFacts) -> Seq<char> {
    match json_shape_text(spec.name@, spec.format, raw) {
        Some(m) => m,
        None => match no_files_text(spec, ext, raw, facts) {
            Some(m) => m,
            None => capped(raw),
        },
    }
}

/// Translate a registration failure, [`register_error_text`]. Only failures recognised are
/// rewritten; anything else passes through as the engine wrote it, capped, since a
/// confident wrong diagnosis is worse than a raw one.
pub fn register_error(spec: &TableSpec, ext: &str, raw: &str, facts: &SourceFacts) -> (r: String)
    ensures
        r@ == register_error_text(*spec, ext@, raw@, *facts),
{
    if let Some(m) = json_shape_error(spec, raw) {
        return m;
    }
    if let Some(m) = no_files_error(spec, ext, raw, facts) {
        return m;
    }
    let c = chars_of(raw);
    if c.len() > MAX_PASSTHROUGH {
        let mut cut = slice_vec(&c, 0, MAX_PASSTHROUGH);
        cut.push('…');
        assert(cut@ =~= capped(raw@));
        return string_of(&cut);
    }
    crate::text::owned(raw)
}

// ---- type names ---------------------------------------------------------------------------

/// `s` up to its first `(` or `<`.
pub open spec fn type_base(s: Seq<char>) -> Seq<char>
    decreases s.len(),
{
    if s.len() == 0 || s[0] == '(' || s[0] == '<' {
        seq![]
    } else {
        seq![s[0]] + type_base(s.drop_first())
    }
}

/// The short spelling of a column type, from its debug rendering: the type's name without
/// its parameters, the large and fixed-size variants folded onto their plain names.
pub open spec fn short_type_text(debug: Seq<char>) -> Seq<char> {
    let base = type_base(debug);
    if base == "LargeUtf8"@ {
        "Utf8"@
    } else if base == "LargeList"@ || base == "FixedSizeList"@ {
        "List"@
    } else {
        base
    }
}

/// [`short_type_text`] of a type's debug rendering.
pub fn short_type(debug: &str) -> (r: String)
    ensures
        r@ == short_type_text(debug@),
{
    let c = chars_of(debug);
    let mut i: usize = 0;
    assert(c@.skip(0) =~= c@);
    while i < c.len() && c[i] != '(' && c[i] != '<'
        invariant
            i <= c@.len(),
            type_base(c@) == c@.take(i as int) + type_base(c@.skip(i as int)),
        decreases c@.len() - i,
    {
        assert(c@.skip(i as int)[0] == c@[i as int]);
        assert(c@.skip(i as int).drop_first() =~= c@.skip(i + 1));
        assert(c@.take(i + 1) =~= c@.take(i as int) + seq![c@[i as int]]);
        i = i + 1;
    }
    if i < c.len() {
        assert(c@.skip(i as int)[0] == c@[i as int]);
    } else {
        assert(c@.skip(i as int) =~= Seq::<char>::empty());
    }
    let base = slice_vec(&c, 0, i);
    assert(base@ =~= type_base(debug@));
    if crate::text::str_is("LargeUtf8", &base) {
        crate::text::owned("Utf8")
    } else if crate::text::str_is("LargeList", &base) || crate::text::str_is("FixedSizeList", &base) {
        crate::text::owned("List")
    } else {
        string_of(&base)
    }
}

/// The column types a definition's partition type label can name.
#[derive(Clone, Copy, Debug, PartialEq, Eq, Structural)]
pub enum ArrowType {
    Int8,
    Int16,
    Int32,
    Int64,
    Float32,
    Float64,
    Date32,
    Utf8,
}

/// The type a definition's label names; anything unrecognised reads as text.
pub open spec fn parse_dtype_text(label: Seq<char>) -> ArrowType {
    if label == "Int8"@ {
        ArrowType::Int8
    } else if label == "Int16"@ {
        ArrowType::Int16
    } else if label == "Int32"@ {
        ArrowType::Int32
    } else if label == "Int64"@ {
        ArrowType::Int64
    } else if label == "Float32"@ {
        ArrowType::Float32
    } else if label == "Float64"@ {
        ArrowType::Float64
    } else if label == "Date"@ || label == "Date32"@ {
        ArrowType::Date32
    } else {
        ArrowType::Utf8
    }
}

/// [`parse_dtype_text`].
pub fn parse_dtype(label: &str) -> (r: ArrowType)
    ensures
        r == parse_dtype_text(label@),
{
    let c = chars_of(label);
    if crate::text::str_is("Int8", &c) {
        ArrowType::Int8
    } else if crate::text::str_is("Int16", &c) {
        ArrowType::Int16
    } else if crate::text::str_is("Int32", &c) {
        ArrowType::Int32
    } else if crate::text::str_is("Int64", &c) {
        ArrowType::Int64
    } else if crate::text::str_is("Float32", &c) {
        ArrowType::Float32
    } else if crate::text::str_is("Float64", &c) {
        ArrowType::Float64
    } else if crate::text::str_is("Date", &c) || crate::text::str_is("Date32", &c) {
        ArrowType::Date32
    } else {
        ArrowType::Utf8
    }
}

// ---- what a registration builds ------------------------------------------------------------

/// The reader a registration builds, each option as the engine's reader takes it.
#[derive(Debug, PartialEq)]
pub enum Reader {
    Csv {
        header: bool,
        delimiter: u8,
        quote: u8,
        escape: Option<u8>,
        comment: Option<u8>,
        newlines_in_values: bool,
        truncated_rows: bool,
        infer_rows: Option<usize>,
        compression: FileCompression,
    },
    Json { newline_delimited: bool, infer_rows: Option<usize>, compression: FileCompression },
    Arrow,
    Parquet,
}

/// The CSV reader for `o`, or the first of its byte options that is not one byte, checked in
/// the order delimiter, quote, escape, comment.
pub open spec fn csv_reader_spec(o: CsvRead) -> Result<Reader, Seq<char>> {
    let d = csv_byte_text("delimiter"@, o.delimiter);
    let q = csv_byte_text("quote character"@, o.quote);
    let e = match o.escape {
        Some(c) => match csv_byte_text("escape character"@, c) {
            Ok(b) => Ok(Some(b)),
            Err(m) => Err(m),
        },
        None => Ok(None),
    };
    let k = match o.comment {
        Some(c) => match csv_byte_text("comment character"@, c) {
            Ok(b) => Ok(Some(b)),
            Err(m) => Err(m),
        },
        None => Ok(None),
    };
    if d is Err {
        Err(d->Err_0)
    } else if q is Err {
        Err(q->Err_0)
    } else if e is Err {
        Err(e->Err_0)
    } else if k is Err {
        Err(k->Err_0)
    } else {
        Ok(
            Reader::Csv {
                header: o.header,
                delimiter: d->Ok_0,
                quote: q->Ok_0,
                escape: e->Ok_0,
                comment: k->Ok_0,
                newlines_in_values: o.newlines_in_values,
                truncated_rows: o.truncated_rows,
                infer_rows: o.infer_rows,
                compression: o.compression,
            },
        )
    }
}

fn optional_byte(what: &str, c: Option<char>) -> (r: Result<Option<u8>, String>)
    ensures
        match c {
            Some(ch) => match csv_byte_text(what@, ch) {
                Ok(b) => r == Ok::<Option<u8>, String>(Some(b)),
                Err(t) => r matches Err(m) && m@ == t,
            },
            None => r == Ok::<Option<u8>, String>(None),
        },
{
    match c {
        Some(ch) => match ascii_byte(what, ch) {
            Ok(b) => Ok(Some(b)),
            Err(m) => Err(m),
        },
        None => Ok(None),
    }
}

/// The CSV reader dressed in `o`'s options, [`csv_reader_spec`]: a byte option that is not
/// one byte is refused by name rather than truncated.
pub fn csv_reader(o: &CsvRead) -> (r: Result<Reader, String>)
    ensures
        match csv_reader_spec(*o) {
            Ok(rd) => r == Ok::<Reader, String>(rd),
            Err(t) => r matches Err(m) && m@ == t,
        },
{
    let delimiter = match ascii_byte("delimiter", o.delimiter) {
        Ok(b) => b,
        Err(m) => return Err(m),
    };
    let quote = match ascii_byte("quote character", o.quote) {
        Ok(b) => b,
        Err(m) => return Err(m),
    };
    let escape = match optional_byte("escape character", o.escape) {
        Ok(b) => b,
        Err(m) => return Err(m),
    };
    let comment = match optional_byte("comment character", o.comment) {
        Ok(b) => b,
        Err(m) => return Err(m),
    };
    Ok(
        Reader::Csv {
            header: o.header,
            delimiter,
            quote,
            escape,
            comment,
            newlines_in_values: o.newlines_in_values,
            truncated_rows: o.truncated_rows,
            infer_rows: o.infer_rows,
            compression: o.compression,
        },
    )
}

/// The JSON reader dressed in `o`'s options: newline-delimited unless the shape is one array.
pub fn json_reader(o: &JsonRead) -> (r: Reader)
    ensures
        r == (Reader::Json {
            newline_delimited: o.shape == JsonShape::NewlineDelimited,
            infer_rows: o.infer_rows,
            compression: o.compression,
        }),
{
    let newline_delimited = match o.shape {
        JsonShape::NewlineDelimited => true,
        JsonShape::Array => false,
    };
    Reader::Json { newline_delimited, infer_rows: o.infer_rows, compression: o.compression }
}

/// The refusal of a format this build has no reader for.
pub open spec fn unreadable_text(table: Seq<char>, format: Seq<char>) -> Seq<char> {
    "Table '"@ + table + "' is defined as '"@ + format + "', which Strata cannot read."@
}

/// The reader a registration of `spec` builds — every format by name, so one with no reader
/// here is refused as such rather than read as another.
pub fn reader_for(spec: &TableSpec) -> (r: Result<Reader, String>)
    ensures
        match spec.format {
            SourceFormat::Csv(o) => match csv_reader_spec(o) {
                Ok(rd) => r == Ok::<Reader, String>(rd),
                Err(t) => r matches Err(m) && m@ == t,
            },
            SourceFormat::Json(o) => r == Ok::<Reader, String>(
                Reader::Json {
                    newline_delimited: o.shape == JsonShape::NewlineDelimited,
                    infer_rows: o.infer_rows,
                    compression: o.compression,
                },
            ),
            SourceFormat::Arrow => r == Ok::<Reader, String>(Reader::Arrow),
            SourceFormat::Parquet => r == Ok::<Reader, String>(Reader::Parquet),
            SourceFormat::Unknown(n) => r matches Err(m) && m@ == unreadable_text(spec.name@, n@),
        },
{
    match &spec.format {
        SourceFormat::Csv(o) => csv_reader(o),
        SourceFormat::Json(o) => Ok(json_reader(o)),
        SourceFormat::Arrow => Ok(Reader::Arrow),
        SourceFormat::Parquet => Ok(Reader::Parquet),
        SourceFormat::Unknown(n) => {
            let mut v: Vec<char> = Vec::new();
            append_str(&mut v, "Table '");
            append_str(&mut v, spec.name.as_str());
            append_str(&mut v, "' is defined as '");
            append_str(&mut v, n.as_str());
            append_str(&mut v, "', which Strata cannot read.");
            Err(string_of(&v))
        },
    }
}

/// The paths among the first `n` that are not blank, in order and as written.
pub open spec fn non_blank(paths: Seq<Seq<char>>, n: nat) -> Seq<Seq<char>>
    decreases n,
{
    if n == 0 {
        seq![]
    } else if trim(paths[n - 1]).len() > 0 {
        non_blank(paths, (n - 1) as nat).push(paths[n - 1])
    } else {
        non_blank(paths, (n - 1) as nat)
    }
}

/// The source paths a registration of `spec` lists — its non-blank ones ([`non_blank`]) —
/// or the refusal of a table that names none.
pub fn source_paths(spec: &TableSpec) -> (r: Result<Vec<String>, String>)
    ensures
        if non_blank(crate::text::string_views(spec.paths@), spec.paths@.len()).len() == 0 {
            r matches Err(m) && m@ == "No source paths"@
        } else {
            r matches Ok(v) && crate::text::string_views(v@) == non_blank(
                crate::text::string_views(spec.paths@),
                spec.paths@.len(),
            )
        },
{
    let ghost pv = crate::text::string_views(spec.paths@);
    let mut out: Vec<String> = Vec::new();
    let mut i: usize = 0;
    assert(crate::text::string_views(out@) =~= non_blank(pv, 0));
    while i < spec.paths.len()
        invariant
            i <= spec.paths@.len(),
            pv == crate::text::string_views(spec.paths@),
            crate::text::string_views(out@) == non_blank(pv, i as nat),
        decreases spec.paths@.len() - i,
    {
        let c = chars_of(spec.paths[i].as_str());
        let t = trimmed(&c, 0, c.len());
        assert(c@.subrange(0, c@.len() as int) =~= c@);
        assert(pv[i as int] == spec.paths@[i as int]@);
        if t.len() > 0 {
            let p = spec.paths[i].clone();
            let ghost before = out@;
            out.push(p);
            assert(crate::text::string_views(out@) =~= crate::text::string_views(before).push(p@));
        }
        i = i + 1;
    }
    if out.len() == 0 {
        return Err(crate::text::owned("No source paths"));
    }
    Ok(out)
}

// ---- one level of a partition listing ------------------------------------------------------

/// The level a listing follows down: among the folder names `parts` of one level, the least
/// in code-point order — the same on every run, whatever order the store listed them in —
/// that is a `key=value` segment. Its index, if any.
pub open spec fn level_pick(parts: Seq<String>, i: int) -> bool {
    &&& 0 <= i < parts.len()
    &&& partition_key_of(parts[i]@) is Some
    &&& forall|j: int|
        0 <= j < parts.len() && partition_key_of(parts[j]@) is Some ==> parts[j]@ == parts[i]@ || crate::json_infer::key_lt(
            parts[i]@,
            #[trigger] parts[j]@,
        )
}

/// The partition key one level of a listing declares, from its folder names: the key of
/// the least `key=value` folder ([`level_pick`]), and that folder's index; `None` when no
/// folder at this level is one.
pub fn partition_level(parts: &[String]) -> (r: Option<(String, usize)>)
    ensures
        match r {
            Some((k, i)) => level_pick(parts@, i as int) && partition_key_of(parts@[i as int]@) == Some(k@),
            None => forall|j: int| 0 <= j < parts@.len() ==> partition_key_of(#[trigger] parts@[j]@) is None,
        },
{
    let mut best: Option<(String, usize)> = None;
    let mut j: usize = 0;
    while j < parts.len()
        invariant
            j <= parts@.len(),
            match best {
                Some((k, i)) => i < j && partition_key_of(parts@[i as int]@) == Some(k@) && forall|q: int|
                    0 <= q < j && partition_key_of(parts@[q]@) is Some ==> parts@[q]@ == parts@[i as int]@
                        || crate::json_infer::key_lt(parts@[i as int]@, #[trigger] parts@[q]@),
                None => forall|q: int| 0 <= q < j ==> partition_key_of(#[trigger] parts@[q]@) is None,
            },
        decreases parts@.len() - j,
    {
        match partition_key(parts[j].as_str()) {
            None => {},
            Some(k) => {
                let better = match &best {
                    None => true,
                    Some((_, i)) => crate::json_infer::key_less(parts[j].as_str(), parts[*i].as_str()),
                };
                if better {
                    proof {
                        if let Some((_, i)) = best {
                            assert forall|q: int|
                                0 <= q < j + 1 && partition_key_of(parts@[q]@) is Some implies parts@[q]@ == parts@[j as int]@
                                    || crate::json_infer::key_lt(parts@[j as int]@, #[trigger] parts@[q]@) by {
                                if q < j {
                                    if parts@[q]@ != parts@[i as int]@ {
                                        crate::json_infer::lemma_key_lt_transitive(parts@[j as int]@, parts@[i as int]@, parts@[q]@);
                                    }
                                }
                            }
                        }
                    }
                    best = Some((k, j));
                } else {
                    proof {
                        if let Some((_, i)) = best {
                            crate::json_infer::lemma_key_lt_total(parts@[j as int]@, parts@[i as int]@);
                        }
                    }
                }
            },
        }
        j = j + 1;
    }
    best
}

// ---- what a planned view reads ------------------------------------------------------------

/// One node of a planned query as the dependency walk sees it. The walk visits every node,
/// subqueries included, so a dependency reached only through `IN (SELECT ..)` is not missed.
pub enum PlanVisit {
    /// A scan of `table`, by its bare name. `carries_plan` when the source still holds a plan
    /// of its own: a view that did not inline, whose name is not something it reads.
    Scan { table: String, carries_plan: bool },
    /// A subquery alias: for an inlined view, the view's own name.
    Alias { alias: String },
    /// Any other node.
    Other,
}

/// What a planned query reads.
pub struct PlanDeps {
    /// Base tables scanned, each once, in order.
    pub tables: Vec<String>,
    /// Every subquery alias name, each once, in order. Raw: table aliases and CTE names are
    /// in it too, since the plan cannot tell them from an inlined view.
    pub aliases: Vec<String>,
}

/// `v` is a scan of `x` that carries no plan of its own.
pub open spec fn reads_table(v: PlanVisit, x: Seq<char>) -> bool {
    match v {
        PlanVisit::Scan { table, carries_plan } => !carries_plan && table@ == x,
        _ => false,
    }
}

/// `v` is an alias named `x`.
pub open spec fn is_alias(v: PlanVisit, x: Seq<char>) -> bool {
    match v {
        PlanVisit::Alias { alias } => alias@ == x,
        _ => false,
    }
}

/// Among the first `n` visited nodes, a scan of `x` that carries no plan of its own.
pub open spec fn scans_table(nodes: Seq<PlanVisit>, n: int, x: Seq<char>) -> bool {
    exists|i: int| 0 <= i < n && #[trigger] reads_table(nodes[i], x)
}

/// Among the first `n` visited nodes, an alias named `x`.
pub open spec fn names_alias(nodes: Seq<PlanVisit>, n: int, x: Seq<char>) -> bool {
    exists|i: int| 0 <= i < n && #[trigger] is_alias(nodes[i], x)
}

/// The base tables and the aliases of a planned query, from the nodes its walk visited: each
/// list holds its names once, in code-point order, whatever order the walk took.
pub fn plan_deps(nodes: &[PlanVisit]) -> (r: PlanDeps)
    ensures
        names_sorted(string_views(r.tables@)),
        names_sorted(string_views(r.aliases@)),
        forall|x: Seq<char>| string_views(r.tables@).contains(x) <==> scans_table(nodes@, nodes@.len() as int, x),
        forall|x: Seq<char>| string_views(r.aliases@).contains(x) <==> names_alias(nodes@, nodes@.len() as int, x),
{
    let mut tables: Vec<String> = Vec::new();
    let mut aliases: Vec<String> = Vec::new();
    assert(string_views(tables@) =~= Seq::<Seq<char>>::empty());
    assert(string_views(aliases@) =~= Seq::<Seq<char>>::empty());
    let mut i: usize = 0;
    while i < nodes.len()
        invariant
            i <= nodes@.len(),
            names_sorted(string_views(tables@)),
            names_sorted(string_views(aliases@)),
            forall|x: Seq<char>| string_views(tables@).contains(x) <==> scans_table(nodes@, i as int, x),
            forall|x: Seq<char>| string_views(aliases@).contains(x) <==> names_alias(nodes@, i as int, x),
        decreases nodes@.len() - i,
    {
        let ghost t0 = string_views(tables@);
        let ghost a0 = string_views(aliases@);
        match &nodes[i] {
            PlanVisit::Scan { table, carries_plan } => {
                if !*carries_plan {
                    insert_name(&mut tables, table);
                }
            },
            PlanVisit::Alias { alias } => {
                insert_name(&mut aliases, alias);
            },
            PlanVisit::Other => {},
        }
        proof {
            let k = i as int;
            assert forall|x: Seq<char>| string_views(tables@).contains(x) <==> scans_table(nodes@, k + 1, x) by {
                if scans_table(nodes@, k + 1, x) && !scans_table(nodes@, k, x) {
                    let j = choose|j: int| 0 <= j < k + 1 && #[trigger] reads_table(nodes@[j], x);
                    assert(j == k);
                }
                if scans_table(nodes@, k, x) {
                    let j = choose|j: int| 0 <= j < k && #[trigger] reads_table(nodes@[j], x);
                    assert(0 <= j < k + 1);
                }
                if string_views(tables@).contains(x) && !t0.contains(x) {
                    assert(reads_table(nodes@[k], x));
                }
            }
            assert forall|x: Seq<char>| string_views(aliases@).contains(x) <==> names_alias(nodes@, k + 1, x) by {
                if names_alias(nodes@, k + 1, x) && !names_alias(nodes@, k, x) {
                    let j = choose|j: int| 0 <= j < k + 1 && #[trigger] is_alias(nodes@[j], x);
                    assert(j == k);
                }
                if names_alias(nodes@, k, x) {
                    let j = choose|j: int| 0 <= j < k && #[trigger] is_alias(nodes@[j], x);
                    assert(0 <= j < k + 1);
                }
                if string_views(aliases@).contains(x) && !a0.contains(x) {
                    assert(is_alias(nodes@[k], x));
                }
            }
        }
        i = i + 1;
    }
    PlanDeps { tables, aliases }
}

/// **A partition column registers as the type it was declared**: every label
/// [`crate::external::partition_type_text`] writes parses back to a type, distinct declared
/// types to distinct types, and only a text column reads as text: `DATE` as `Date32`, `INT`
/// as `Int32`, `BIGINT` as `Int64`.
pub proof fn law_partition_labels_parse_back(
    n1: Seq<char>,
    d1: crate::external::DeclaredType,
    n2: Seq<char>,
    d2: crate::external::DeclaredType,
)
    requires
        crate::external::partition_type_text(n1, d1) is Ok,
        crate::external::partition_type_text(n2, d2) is Ok,
    ensures
        ({
            let t1 = parse_dtype_text(crate::external::partition_type_text(n1, d1)->Ok_0);
            let t2 = parse_dtype_text(crate::external::partition_type_text(n2, d2)->Ok_0);
            &&& t1 == t2 ==> d1 == d2
            &&& t1 == ArrowType::Utf8 <==> d1 == crate::external::DeclaredType::Text
            &&& d1 == crate::external::DeclaredType::Date ==> t1 == ArrowType::Date32
            &&& d1 == crate::external::DeclaredType::Int ==> t1 == ArrowType::Int32
            &&& d1 == crate::external::DeclaredType::BigInt ==> t1 == ArrowType::Int64
        }),
{
    reveal_strlit("Utf8");
    reveal_strlit("Int8");
    reveal_strlit("Int16");
    reveal_strlit("Int32");
    reveal_strlit("Int64");
    reveal_strlit("Float32");
    reveal_strlit("Float64");
    reveal_strlit("Date");
    reveal_strlit("Date32");
    // Each label differs from every label tried before it, by a character or by its length.
    assert("Int32"@[3] != "Int16"@[3] && "Int32"@.len() != "Int8"@.len());
    assert("Int64"@[3] != "Int16"@[3] && "Int64"@[3] != "Int32"@[3] && "Int64"@.len() != "Int8"@.len());
    assert("Date32"@[0] != "Int16"@[0] && "Date32"@[0] != "Int32"@[0] && "Date32"@[0] != "Int64"@[0]);
    assert("Date32"@[0] != "Float32"@[0] && "Date32"@[0] != "Float64"@[0] && "Date32"@.len() != "Int8"@.len());
    assert("Date32"@.len() != "Date"@.len());
    assert("Utf8"@[0] != "Int8"@[0] && "Utf8"@[0] != "Date"@[0]);
    assert("Utf8"@.len() != "Int16"@.len() && "Utf8"@.len() != "Float32"@.len() && "Utf8"@.len() != "Date32"@.len());
}

} // verus!
