//! The EXPLAIN plan model: detecting and rewriting `EXPLAIN` statements, splitting an
//! operator's one-line display, parsing its detail into key/value parts, the tree's guide
//! rails, and the operator classification that picks a node's accent colour.

use vstd::prelude::*;

use crate::text::{
    append_chars, append_str, chars_of, find_char, find_char_from, find_seq, first_index,
    first_occurrence, has_prefix, contains, contains_seq, is_alpha, is_ascii_alpha, is_ascii_digit,
    is_digit, is_ws, is_ws_char, lower_all, lower_seq, occurs_at, skip_ws, slice_vec,
    starts_with, string_of, trim, trim_start, trimmed,
};

verus! {

// ---- EXPLAIN detection -------------------------------------------------------------------

/// `l` without a final carriage return.
pub open spec fn chop_cr(l: Seq<char>) -> Seq<char> {
    if l.len() > 0 && l.last() == '\r' {
        l.drop_last()
    } else {
        l
    }
}

/// `l` up to its first `--` comment marker.
pub open spec fn comment_cut(l: Seq<char>) -> Seq<char> {
    match first_occurrence(l, seq!['-', '-']) {
        Some(k) => l.take(k),
        None => l,
    }
}

/// The SQL text with every `--` comment removed and each line followed by one space — the
/// lines being those `str::lines` yields (split on `\n`, a `\r` before the `\n` dropped, no
/// empty line after a final `\n`).
#[verifier::opaque]
pub open spec fn bare_text(s: Seq<char>) -> Seq<char>
    decreases s.len(),
{
    if s.len() == 0 {
        seq![]
    } else {
        match first_index(s, '\n') {
            Some(i) => if 0 <= i < s.len() {
                comment_cut(chop_cr(s.take(i))) + seq![' '] + bare_text(s.skip(i + 1))
            } else {
                seq![]
            },
            None => comment_cut(s) + seq![' '],
        }
    }
}

/// The characters `is_explain` skips before looking for the keyword.
pub open spec fn is_opener(c: char) -> bool {
    c == '(' || c == ' ' || c == '\t' || c == '\n' || c == '\r'
}

/// `s` without what comes before its first word: leading openers and `/* .. */` block
/// comments, in any mix. A block comment that never closes runs to the end of the text.
#[verifier::opaque]
pub open spec fn skip_openers(s: Seq<char>) -> Seq<char>
    decreases s.len(), 1int,
{
    if s.len() > 0 && is_opener(s[0]) {
        skip_openers(s.drop_first())
    } else if s.len() >= 2 && s[0] == '/' && s[1] == '*' {
        skip_comment_body(s.skip(2))
    } else {
        s
    }
}

/// [`skip_openers`] inside a block comment: past its closing `*/`, or nothing when it never
/// closes.
#[verifier::opaque]
pub open spec fn skip_comment_body(s: Seq<char>) -> Seq<char>
    decreases s.len(), 0int,
{
    if s.len() < 2 {
        seq![]
    } else if s[0] == '*' && s[1] == '/' {
        skip_openers(s.skip(2))
    } else {
        skip_comment_body(s.drop_first())
    }
}

/// Whether SQL text is an `EXPLAIN` statement: once `--` comments are removed, and leading
/// parentheses, whitespace and `/* .. */` comments skipped, it starts with `explain` in any
/// ASCII case.
pub open spec fn explain_statement(sql: Seq<char>) -> bool {
    starts_with(lower_seq(skip_openers(bare_text(sql))), seq!['e', 'x', 'p', 'l', 'a', 'i', 'n'])
}

proof fn lemma_skip_unfold(t: Seq<char>)
    ensures
        skip_openers(t) == (if t.len() > 0 && is_opener(t[0]) {
            skip_openers(t.drop_first())
        } else if t.len() >= 2 && t[0] == '/' && t[1] == '*' {
            skip_comment_body(t.skip(2))
        } else {
            t
        }),
        skip_comment_body(t) == (if t.len() < 2 {
            Seq::<char>::empty()
        } else if t[0] == '*' && t[1] == '/' {
            skip_openers(t.skip(2))
        } else {
            skip_comment_body(t.drop_first())
        }),
{
    reveal(skip_openers);
    reveal(skip_comment_body);
}

proof fn lemma_first_index_at(s: Seq<char>, c: char, i: int)
    requires
        0 <= i < s.len(),
        s[i] == c,
        forall|j: int| 0 <= j < i ==> s[j] != c,
    ensures
        first_index(s, c) == Some(i),
{
    let k = choose|k: int| 0 <= k < s.len() && s[k] == c && forall|j: int| 0 <= j < k ==> s[j] != c;
    assert(k == i) by {
        if k < i {
        } else if i < k {
            assert(s[i] != c);
        }
    }
}

proof fn lemma_bare_line(s: Seq<char>, i: int)
    requires
        0 <= i < s.len(),
        s[i] == '\n',
        forall|j: int| 0 <= j < i ==> s[j] != '\n',
    ensures
        bare_text(s) == comment_cut(chop_cr(s.take(i))) + seq![' '] + bare_text(s.skip(i + 1)),
{
    lemma_first_index_at(s, '\n', i);
    reveal(bare_text);
}

proof fn lemma_bare_last(s: Seq<char>)
    requires
        s.len() > 0,
        forall|j: int| 0 <= j < s.len() ==> s[j] != '\n',
    ensures
        bare_text(s) == comment_cut(s) + seq![' '],
{
    reveal(bare_text);
}

proof fn lemma_bare_empty(s: Seq<char>)
    requires
        s.len() == 0,
    ensures
        bare_text(s) == Seq::<char>::empty(),
{
    reveal(bare_text);
}

fn cut_comment(l: Vec<char>) -> (r: Vec<char>)
    ensures
        r@ == comment_cut(l@),
{
    let dashes: Vec<char> = vec!['-', '-'];
    assert(dashes@ =~= seq!['-', '-']);
    match find_seq(&l, &dashes) {
        Some(k) => {
            let r = slice_vec(&l, 0, k);
            assert(r@ =~= l@.take(k as int));
            r
        },
        None => l,
    }
}

fn line_text(v: &[char], p: usize, i: usize) -> (r: Vec<char>)
    requires
        p <= i <= v@.len(),
    ensures
        r@ == comment_cut(chop_cr(v@.subrange(p as int, i as int))),
{
    let mut line = slice_vec(v, p, i);
    if line.len() > 0 && line[line.len() - 1] == '\r' {
        line.pop();
        assert(line@ =~= chop_cr(v@.subrange(p as int, i as int)));
    }
    cut_comment(line)
}

/// The position of the first word of `bare`: [`skip_openers`] as an index.
/// The position of the first word of `bare`: [`skip_openers`] as an index.
fn skip_lead(bare: &Vec<char>) -> (a: usize)
    ensures
        a <= bare@.len(),
        skip_openers(bare@) == bare@.skip(a as int),
{
    let n = bare.len();
    let mut a: usize = 0;
    let mut in_comment = false;
    assert(bare@.skip(0) =~= bare@);
    while a < n
        invariant
            n == bare@.len(),
            a <= n,
            skip_openers(bare@) == if in_comment {
                skip_comment_body(bare@.skip(a as int))
            } else {
                skip_openers(bare@.skip(a as int))
            },
        decreases n - a,
    {
        let ghost t = bare@.skip(a as int);
        proof {
            lemma_skip_unfold(t);
        }
        let c = bare[a];
        let two = n - a >= 2;
        if in_comment {
            if !two {
                proof {
                    assert(bare@.skip(n as int) =~= Seq::<char>::empty());
                    lemma_skip_unfold(Seq::<char>::empty());
                }
                a = n;
            } else if c == '*' && bare[a + 1] == '/' {
                proof {
                    assert(t.skip(2) =~= bare@.skip(a + 2));
                }
                a = a + 2;
                in_comment = false;
            } else {
                proof {
                    assert(t.drop_first() =~= bare@.skip(a + 1));
                }
                a = a + 1;
            }
        } else if c == '(' || c == ' ' || c == '\t' || c == '\n' || c == '\r' {
            proof {
                assert(t.drop_first() =~= bare@.skip(a + 1));
            }
            a = a + 1;
        } else if two && c == '/' && bare[a + 1] == '*' {
            proof {
                assert(t.skip(2) =~= bare@.skip(a + 2));
            }
            a = a + 2;
            in_comment = true;
        } else {
            return a;
        }
    }
    proof {
        assert(bare@.skip(n as int) =~= Seq::<char>::empty());
        lemma_skip_unfold(Seq::<char>::empty());
    }
    a
}

/// [`bare_text`] of `v`, line by line.
#[verifier::spinoff_prover]
fn bare_of(v: &Vec<char>) -> (bare: Vec<char>)
    ensures
        bare@ == bare_text(v@),
{
    let mut bare: Vec<char> = Vec::new();
    let mut p: usize = 0;
    assert(v@.skip(0) =~= v@);
    while p < v.len()
        invariant
            p <= v@.len(),
            bare@ + bare_text(v@.skip(p as int)) == bare_text(v@),
        decreases v@.len() - p,
    {
        let ghost rest = v@.skip(p as int);
        match find_char_from(v, '\n', p) {
            Some(i) => {
                proof {
                    lemma_bare_line(rest, i - p);
                    assert(rest.take(i - p) =~= v@.subrange(p as int, i as int));
                    assert(rest.skip(i - p + 1) =~= v@.skip(i + 1));
                }
                let cut = line_text(v, p, i);
                let ghost before = bare@;
                append_chars(&mut bare, &cut);
                bare.push(' ');
                p = i + 1;
                assert(bare@ + bare_text(v@.skip(p as int)) =~= before + bare_text(rest));
            },
            None => {
                proof {
                    lemma_bare_last(rest);
                    assert(rest =~= v@.subrange(p as int, v@.len() as int));
                    assert(v@.skip(v@.len() as int) =~= Seq::<char>::empty());
                }
                let line = slice_vec(v, p, v.len());
                let cut = cut_comment(line);
                let ghost before = bare@;
                append_chars(&mut bare, &cut);
                bare.push(' ');
                p = v.len();
                proof {
                    lemma_bare_empty(v@.skip(p as int));
                }
                assert(bare@ + bare_text(v@.skip(p as int)) =~= before + bare_text(rest));
            },
        }
    }
    proof {
        lemma_bare_empty(v@.skip(p as int));
        assert(bare@ =~= bare_text(v@));
    }
    bare
}

/// Does this SQL start with `EXPLAIN`, ignoring leading comments and parentheses?
pub fn is_explain(sql: &str) -> (r: bool)
    ensures
        r == explain_statement(sql@),
{
    let v = chars_of(sql);
    let bare = bare_of(&v);
    let a = skip_lead(&bare);
    let trimmed = slice_vec(&bare, a, bare.len());
    proof {
        assert(bare@.skip(a as int) =~= trimmed@);
    }
    let low = lower_all(&trimmed);
    let kw: Vec<char> = vec!['e', 'x', 'p', 'l', 'a', 'i', 'n'];
    assert(kw@ =~= seq!['e', 'x', 'p', 'l', 'a', 'i', 'n']);
    has_prefix(&low, &kw)
}


// ---- EXPLAIN rewriting -------------------------------------------------------------------

/// `s` with the leading keyword `kw` (lowercase) removed when it is there as a whole word in
/// any ASCII case, the whitespace after it trimmed too; `None` when it is not.
pub open spec fn strip_keyword(s: Seq<char>, kw: Seq<char>) -> Option<Seq<char>> {
    if s.len() >= kw.len() && lower_seq(s.take(kw.len() as int)) == kw && (s.len() == kw.len()
        || is_ws(s[kw.len() as int])) {
        Some(trim_start(s.skip(kw.len() as int)))
    } else {
        None
    }
}

/// The statement under any leading `EXPLAIN [ANALYZE] [VERBOSE]`.
pub open spec fn explain_body(sql: Seq<char>) -> Seq<char> {
    let body = trim_start(sql);
    match strip_keyword(body, seq!['e', 'x', 'p', 'l', 'a', 'i', 'n']) {
        None => body,
        Some(r1) => {
            let r2 = match strip_keyword(r1, seq!['a', 'n', 'a', 'l', 'y', 'z', 'e']) {
                Some(r) => r,
                None => r1,
            };
            match strip_keyword(r2, seq!['v', 'e', 'r', 'b', 'o', 's', 'e']) {
                Some(r) => r,
                None => r2,
            }
        },
    }
}

/// The prefix `as_explain` writes.
pub open spec fn explain_prefix(analyze: bool) -> Seq<char> {
    if analyze {
        "EXPLAIN ANALYZE"@
    } else {
        "EXPLAIN"@
    }
}

/// `sql` rewritten to run under the requested prefix.
pub open spec fn explained(sql: Seq<char>, analyze: bool) -> Seq<char> {
    let body = explain_body(sql);
    if body.len() == 0 {
        explain_prefix(analyze)
    } else {
        explain_prefix(analyze) + seq!['\n'] + body
    }
}

fn strip_kw(s: &[char], from: usize, kw: &[char]) -> (r: Option<usize>)
    requires
        from <= s@.len(),
    ensures
        match r {
            Some(a) => from <= a <= s@.len() && strip_keyword(s@.skip(from as int), kw@) == Some(
                s@.skip(a as int),
            ),
            None => strip_keyword(s@.skip(from as int), kw@) is None,
        },
{
    let ghost t = s@.skip(from as int);
    if s.len() - from < kw.len() {
        return None;
    }
    let head = slice_vec(s, from, from + kw.len());
    let low = lower_all(&head);
    assert(head@ =~= t.take(kw@.len() as int));
    let mut same = true;
    let mut j: usize = 0;
    while j < kw.len()
        invariant
            j <= kw@.len(),
            low@.len() == kw@.len(),
            same == (forall|q: int| 0 <= q < j ==> low@[q] == kw@[q]),
        decreases kw@.len() - j,
    {
        if low[j] != kw[j] {
            same = false;
        }
        j = j + 1;
    }
    if !same {
        assert(low@ != kw@ ==> true);
        assert(!(low@ =~= kw@));
        return None;
    }
    assert(low@ =~= kw@);
    let at = from + kw.len();
    if at < s.len() && !is_ws_char(s[at]) {
        return None;
    }
    let a = skip_ws(s, at, s.len());
    proof {
        assert(t.skip(kw@.len() as int) =~= s@.subrange(at as int, s@.len() as int));
        assert(s@.skip(a as int) =~= s@.subrange(a as int, s@.len() as int));
    }
    Some(a)
}

/// Rewrite `sql` to run under `EXPLAIN` or `EXPLAIN ANALYZE`: strip any leading
/// `EXPLAIN [ANALYZE] [VERBOSE]`, then prepend the requested prefix on a line of its own.
pub fn as_explain(sql: &str, analyze: bool) -> (r: String)
    ensures
        r@ == explained(sql@, analyze),
{
    let v = chars_of(sql);
    let start = skip_ws(&v, 0, v.len());
    proof {
        assert(v@.subrange(0, v@.len() as int) =~= v@);
        assert(v@.subrange(start as int, v@.len() as int) =~= v@.skip(start as int));
    }
    let k_explain: Vec<char> = vec!['e', 'x', 'p', 'l', 'a', 'i', 'n'];
    let k_analyze: Vec<char> = vec!['a', 'n', 'a', 'l', 'y', 'z', 'e'];
    let k_verbose: Vec<char> = vec!['v', 'e', 'r', 'b', 'o', 's', 'e'];
    assert(k_explain@ =~= seq!['e', 'x', 'p', 'l', 'a', 'i', 'n']);
    assert(k_analyze@ =~= seq!['a', 'n', 'a', 'l', 'y', 'z', 'e']);
    assert(k_verbose@ =~= seq!['v', 'e', 'r', 'b', 'o', 's', 'e']);
    let mut at = start;
    match strip_kw(&v, start, &k_explain) {
        Some(a1) => {
            at = a1;
            match strip_kw(&v, a1, &k_analyze) {
                Some(a2) => {
                    at = a2;
                },
                None => {},
            }
            match strip_kw(&v, at, &k_verbose) {
                Some(a3) => {
                    at = a3;
                },
                None => {},
            }
        },
        None => {},
    }
    assert(v@.skip(at as int) == explain_body(sql@));
    let mut out: Vec<char> = Vec::new();
    if analyze {
        append_str(&mut out, "EXPLAIN ANALYZE");
    } else {
        append_str(&mut out, "EXPLAIN");
    }
    if at < v.len() {
        out.push('\n');
        let body = slice_vec(&v, at, v.len());
        assert(body@ =~= v@.skip(at as int));
        append_chars(&mut out, &body);
    }
    assert(out@ =~= explained(sql@, analyze));
    string_of(&out)
}

// ---- operator lines ------------------------------------------------------------------------

/// The `(name, detail)` halves of a `"<Name>: <detail>"` operator line.
pub open spec fn name_detail(line: Seq<char>) -> (Seq<char>, Seq<char>) {
    match first_index(line, ':') {
        Some(i) => (trim(line.take(i)), trim(line.skip(i + 1))),
        None => (trim(line), Seq::<char>::empty()),
    }
}

/// Split an operator line into its name and its detail at the first colon, both trimmed;
/// with no colon the whole line is the name.
pub fn split_name_detail(line: &str) -> (r: (String, String))
    ensures
        r.0@ == name_detail(line@).0,
        r.1@ == name_detail(line@).1,
{
    let v = chars_of(line);
    match find_char(&v, ':') {
        Some(i) => {
            assert(i < v@.len());
            let n = trimmed(&v, 0, i);
            let d = trimmed(&v, i + 1, v.len());
            assert(v@.subrange(0, i as int) =~= v@.take(i as int));
            assert(v@.subrange(i + 1, v@.len() as int) =~= v@.skip(i + 1));
            (string_of(&n), string_of(&d))
        },
        None => {
            let n = trimmed(&v, 0, v.len());
            assert(v@.subrange(0, v@.len() as int) =~= v@);
            (string_of(&n), String::new())
        },
    }
}


// ---- detail parts ----------------------------------------------------------------------------

/// One parsed field of an operator's one-line detail — a `key=value` pair, or a bare
/// fragment (`has_key == false`, empty `key`).
#[derive(Clone, Debug, PartialEq)]
pub struct DetailPart {
    pub key: String,
    pub val: String,
    pub has_key: bool,
}

/// Where the detail splitter is after some prefix of the text: bracket depth, the fragment
/// being collected, and the trimmed, non-empty fragments already closed.
pub struct SplitState {
    pub depth: nat,
    pub cur: Seq<char>,
    pub raw: Seq<Seq<char>>,
}

/// `raw` with `t` appended when `t` is not empty.
pub open spec fn push_nonempty(raw: Seq<Seq<char>>, t: Seq<char>) -> Seq<Seq<char>> {
    if t.len() > 0 {
        raw.push(t)
    } else {
        raw
    }
}

pub open spec fn is_open_bracket(c: char) -> bool {
    c == '{' || c == '[' || c == '('
}

pub open spec fn is_close_bracket(c: char) -> bool {
    c == '}' || c == ']' || c == ')'
}

/// One character of the splitter: brackets nest, a comma at depth zero closes a fragment.
pub open spec fn split_step(st: SplitState, c: char) -> SplitState {
    if is_open_bracket(c) {
        SplitState { depth: st.depth + 1, cur: st.cur.push(c), raw: st.raw }
    } else if is_close_bracket(c) {
        SplitState {
            depth: if st.depth > 0 { (st.depth - 1) as nat } else { 0 },
            cur: st.cur.push(c),
            raw: st.raw,
        }
    } else if c == ',' && st.depth == 0 {
        SplitState { depth: st.depth, cur: Seq::empty(), raw: push_nonempty(st.raw, trim(st.cur)) }
    } else {
        SplitState { depth: st.depth, cur: st.cur.push(c), raw: st.raw }
    }
}

/// The splitter's state after the first `n` characters of `s`.
pub open spec fn split_scan(s: Seq<char>, n: int) -> SplitState
    decreases n,
{
    if n <= 0 {
        SplitState { depth: 0, cur: Seq::empty(), raw: Seq::empty() }
    } else {
        split_step(split_scan(s, n - 1), s[n - 1])
    }
}

/// The detail's top-level comma-separated fragments, trimmed, empty ones dropped.
pub open spec fn detail_fragments(s: Seq<char>) -> Seq<Seq<char>> {
    let st = split_scan(s, s.len() as int);
    push_nonempty(st.raw, trim(st.cur))
}

/// `^[A-Za-z][A-Za-z0-9_]*$`.
pub open spec fn detail_ident(s: Seq<char>) -> bool {
    &&& s.len() > 0
    &&& is_ascii_alpha(s[0])
    &&& forall|i: int| 1 <= i < s.len() ==> is_ascii_alpha(s[i]) || is_ascii_digit(s[i]) || s[i] == '_'
}

/// A fragment as `(key, value, has_key)`: a leading `key=` is lifted out when the key is a
/// short (under 26 characters) identifier.
pub open spec fn fragment_part(p: Seq<char>) -> (Seq<char>, Seq<char>, bool) {
    match first_index(p, '=') {
        Some(eq) => if 0 < eq < 26 && detail_ident(p.take(eq)) {
            (p.take(eq), p.skip(eq + 1), true)
        } else {
            (Seq::empty(), p, false)
        },
        None => (Seq::empty(), p, false),
    }
}

fn is_detail_ident(s: &[char]) -> (r: bool)
    ensures
        r == detail_ident(s@),
{
    if s.len() == 0 || !is_alpha(s[0]) {
        return false;
    }
    let mut i: usize = 1;
    while i < s.len()
        invariant
            1 <= i <= s@.len(),
            forall|q: int| 1 <= q < i ==> is_ascii_alpha(s@[q]) || is_ascii_digit(s@[q]) || s@[q] == '_',
        decreases s@.len() - i,
    {
        if !(is_alpha(s[i]) || is_digit(s[i]) || s[i] == '_') {
            return false;
        }
        i = i + 1;
    }
    true
}

fn part_of(p: &Vec<char>) -> (r: DetailPart)
    ensures
        r.key@ == fragment_part(p@).0,
        r.val@ == fragment_part(p@).1,
        r.has_key == fragment_part(p@).2,
{
    match find_char(p, '=') {
        Some(eq) => {
            let head = slice_vec(p, 0, eq);
            assert(head@ =~= p@.take(eq as int));
            if eq > 0 && eq < 26 && is_detail_ident(&head) {
                let val = slice_vec(p, eq + 1, p.len());
                assert(val@ =~= p@.skip(eq + 1));
                return DetailPart { key: string_of(&head), val: string_of(&val), has_key: true };
            }
        },
        None => {},
    }
    DetailPart { key: String::new(), val: string_of(p), has_key: false }
}

/// Split an operator's detail into key/value parts: commas inside `()`, `[]` or `{}` do not
/// split, and a leading `key=` is lifted out only when the key is a short identifier.
pub fn detail_parts(detail: &str) -> (r: Vec<DetailPart>)
    ensures
        r@.len() == detail_fragments(detail@).len(),
        forall|i: int| 0 <= i < r@.len() ==> {
            &&& (#[trigger] r@[i]).key@ == fragment_part(detail_fragments(detail@)[i]).0
            &&& r@[i].val@ == fragment_part(detail_fragments(detail@)[i]).1
            &&& r@[i].has_key == fragment_part(detail_fragments(detail@)[i]).2
        },
{
    let v = chars_of(detail);
    let mut raw: Vec<Vec<char>> = Vec::new();
    let mut depth: usize = 0;
    let mut cur: Vec<char> = Vec::new();
    assert(raw@.map_values(|f: Vec<char>| f@) =~= Seq::<Seq<char>>::empty());
    assert(cur@ =~= Seq::<char>::empty());
    for i in 0..v.len()
        invariant
            v@ == detail@,
            depth <= i,
            split_scan(v@, i as int) == (SplitState {
                depth: depth as nat,
                cur: cur@,
                raw: raw@.map_values(|f: Vec<char>| f@),
            }),
    {
        let c = v[i];
        let ghost before = split_scan(v@, i as int);
        let ghost old_raw = raw@;
        if c == '{' || c == '[' || c == '(' {
            depth = depth + 1;
            cur.push(c);
        } else if c == '}' || c == ']' || c == ')' {
            if depth > 0 {
                depth = depth - 1;
            }
            cur.push(c);
        } else if c == ',' && depth == 0 {
            let t = trimmed(&cur, 0, cur.len());
            assert(cur@.subrange(0, cur@.len() as int) =~= cur@);
            if t.len() > 0 {
                raw.push(t);
                assert(raw@.map_values(|f: Vec<char>| f@) =~= old_raw.map_values(|f: Vec<char>| f@).push(t@));
            }
            cur = Vec::new();
        } else {
            cur.push(c);
        }
        assert(split_scan(v@, i + 1) == split_step(before, c));
        assert(cur@ =~= split_step(before, c).cur);
        assert(raw@.map_values(|f: Vec<char>| f@) =~= split_step(before, c).raw);
    }
    let t = trimmed(&cur, 0, cur.len());
    assert(cur@.subrange(0, cur@.len() as int) =~= cur@);
    let ghost old_raw = raw@;
    if t.len() > 0 {
        raw.push(t);
        assert(raw@.map_values(|f: Vec<char>| f@) =~= old_raw.map_values(|f: Vec<char>| f@).push(t@));
    }
    let ghost frags = raw@.map_values(|f: Vec<char>| f@);
    assert(frags =~= detail_fragments(detail@));
    let mut out: Vec<DetailPart> = Vec::new();
    for i in 0..raw.len()
        invariant
            frags == raw@.map_values(|f: Vec<char>| f@),
            frags == detail_fragments(detail@),
            out@.len() == i,
            forall|q: int| 0 <= q < i ==> {
                &&& (#[trigger] out@[q]).key@ == fragment_part(frags[q]).0
                &&& out@[q].val@ == fragment_part(frags[q]).1
                &&& out@[q].has_key == fragment_part(frags[q]).2
            },
    {
        let part = part_of(&raw[i]);
        out.push(part);
    }
    out
}

// ---- guide rails ----------------------------------------------------------------------------

/// Whether, scanning the nodes after `i`, one at depth `eq` is met before any shallower one.
pub open spec fn rail_lit(depths: Seq<usize>, i: int, eq: int) -> bool {
    exists|k: int|
        i < k < depths.len() && depths[k] == eq && forall|j: int| i < j < k ==> depths[j] > eq
}

/// The depth whose presence keeps column `l` of node `i` lit: the column's own depth for an
/// ancestor column, the node's own depth for its elbow column.
pub open spec fn rail_depth(d: int, l: int) -> int {
    if l + 1 < d {
        l
    } else {
        d
    }
}

/// Which ancestor columns keep a vertical rail for node `i` of a flat pre-order list whose
/// nodes have the given tree `depths`: an ancestor column stays lit while a following node
/// sits at that depth before anything shallower; the node's own (elbow) column stays lit
/// while it has a following sibling.
pub fn guide_rails(depths: &[usize], i: usize) -> (r: Vec<bool>)
    requires
        i < depths@.len(),
    ensures
        r@.len() == depths@[i as int],
        forall|l: int|
            0 <= l < r@.len() ==> #[trigger] r@[l] == rail_lit(
                depths@,
                i as int,
                rail_depth(depths@[i as int] as int, l),
            ),
{
    let d = depths[i];
    let mut rails: Vec<bool> = Vec::new();
    for l in 0..d
        invariant
            d == depths@[i as int],
            i < depths@.len(),
            rails@.len() == l,
            forall|q: int|
                0 <= q < l ==> #[trigger] rails@[q] == rail_lit(
                    depths@,
                    i as int,
                    rail_depth(d as int, q),
                ),
    {
        let eq = if l + 1 < d {
            l
        } else {
            d
        };
        let mut on = false;
        let n = depths.len();
        let mut k = i + 1;
        while k < n
            invariant_except_break
                !on,
            invariant
                n == depths@.len(),
                i < k <= depths@.len(),
                forall|j: int| i < j < k ==> depths@[j] > eq,
            ensures
                on ==> rail_lit(depths@, i as int, eq as int),
                !on ==> !rail_lit(depths@, i as int, eq as int),
            decreases depths@.len() - k,
        {
            if depths[k] < eq {
                assert forall|m: int|
                    i < m < depths@.len() && depths@[m] == eq implies !(forall|j: int|
                    i < j < m ==> depths@[j] > eq) by {
                    if m < k {
                    } else if m > k {
                        assert(!(depths@[k as int] > eq));
                    }
                }
                break;
            }
            if depths[k] == eq {
                on = true;
                assert(i < k < depths@.len() && depths@[k as int] == eq && forall|j: int| i < j < k ==> depths@[j] > eq);
                break;
            }
            k = k + 1;
        }
        rails.push(on);
    }
    rails
}

// ---- operator classification -------------------------------------------------------------

/// Broad operator category, used only for the node's accent colour.
#[derive(Clone, Copy, PartialEq, Eq, Debug, Structural)]
pub enum PlanKind {
    Source,
    Join,
    Exchange,
    Agg,
    Sort,
    Proj,
    Limit,
    Util,
}

/// Does the lowercased operator name hold any of the source markers?
pub open spec fn names_source(s: Seq<char>) -> bool {
    ||| contains_seq(s, "source"@)
    ||| contains_seq(s, "scan"@)
    ||| contains_seq(s, "parquet"@)
    ||| contains_seq(s, "csv"@)
    ||| contains_seq(s, "avro"@)
    ||| contains_seq(s, "json"@)
    ||| contains_seq(s, "arrow"@)
    ||| contains_seq(s, "memoryexec"@)
}

/// The category of an operator name, by the first marker its lowercase form contains.
pub open spec fn kind_of(name: Seq<char>) -> PlanKind {
    let s = lower_seq(name);
    if names_source(s) {
        PlanKind::Source
    } else if contains_seq(s, "join"@) {
        PlanKind::Join
    } else if contains_seq(s, "repartition"@) || contains_seq(s, "coalescepartitions"@) {
        PlanKind::Exchange
    } else if contains_seq(s, "aggregate"@) {
        PlanKind::Agg
    } else if contains_seq(s, "sort"@) {
        PlanKind::Sort
    } else if contains_seq(s, "projection"@) {
        PlanKind::Proj
    } else if contains_seq(s, "limit"@) {
        PlanKind::Limit
    } else {
        PlanKind::Util
    }
}

/// The accent colour of each category, as a CSS variable of the type-colour palette.
pub open spec fn kind_color(k: PlanKind) -> Seq<char> {
    match k {
        PlanKind::Source => "var(--t-str)"@,
        PlanKind::Join => "var(--t-bool)"@,
        PlanKind::Exchange => "var(--t-num)"@,
        PlanKind::Agg => "var(--t-ts)"@,
        PlanKind::Sort => "var(--t-struct)"@,
        PlanKind::Proj => "var(--accent)"@,
        PlanKind::Limit => "var(--t-map)"@,
        PlanKind::Util => "var(--dim)"@,
    }
}

fn holds(s: &[char], pat: &str) -> (r: bool)
    ensures
        r == contains_seq(s@, pat@),
{
    let p = chars_of(pat);
    contains(s, &p)
}

impl PlanKind {
    /// Classify an operator by name — physical `*Exec` names and logical node names alike,
    /// the file-format source execs included.
    pub fn classify(name: &str) -> (r: PlanKind)
        ensures
            r == kind_of(name@),
    {
        let v = chars_of(name);
        let s = lower_all(&v);
        if holds(&s, "source") || holds(&s, "scan") || holds(&s, "parquet") || holds(&s, "csv")
            || holds(&s, "avro") || holds(&s, "json") || holds(&s, "arrow") || holds(
            &s,
            "memoryexec",
        ) {
            PlanKind::Source
        } else if holds(&s, "join") {
            PlanKind::Join
        } else if holds(&s, "repartition") || holds(&s, "coalescepartitions") {
            PlanKind::Exchange
        } else if holds(&s, "aggregate") {
            PlanKind::Agg
        } else if holds(&s, "sort") {
            PlanKind::Sort
        } else if holds(&s, "projection") {
            PlanKind::Proj
        } else if holds(&s, "limit") {
            PlanKind::Limit
        } else {
            PlanKind::Util
        }
    }

    /// The node's accent colour as a CSS variable.
    pub fn color(self) -> (r: &'static str)
        ensures
            r@ == kind_color(self),
    {
        match self {
            PlanKind::Source => "var(--t-str)",
            PlanKind::Join => "var(--t-bool)",
            PlanKind::Exchange => "var(--t-num)",
            PlanKind::Agg => "var(--t-ts)",
            PlanKind::Sort => "var(--t-struct)",
            PlanKind::Proj => "var(--accent)",
            PlanKind::Limit => "var(--t-map)",
            PlanKind::Util => "var(--dim)",
        }
    }
}

/// Which plan the EXPLAIN view shows. `EXPLAIN ANALYZE` forces the physical one.
#[derive(Clone, Copy, PartialEq, Eq, Debug, Structural)]
pub enum PlanTab {
    Physical,
    Logical,
}

impl Default for PlanTab {
    fn default() -> (r: PlanTab)
        ensures
            r == PlanTab::Physical,
    {
        PlanTab::Physical
    }
}

// ---- laws ---------------------------------------------------------------------------------

/// ASCII upper case of one character, as `char::to_ascii_uppercase`.
pub open spec fn upper(c: char) -> char {
    if 'a' <= c <= 'z' {
        ((c as u32) - 32) as char
    } else {
        c
    }
}

/// **Classification ignores ASCII case**: names that agree up to ASCII case fall in one
/// category, so a name, its ASCII lower case and its ASCII upper case are classified alike.
pub proof fn law_classify_ignores_case(a: Seq<char>, b: Seq<char>)
    requires
        lower_seq(a) == lower_seq(b),
    ensures
        kind_of(a) == kind_of(b),
        kind_of(lower_seq(a)) == kind_of(a),
        kind_of(a.map_values(|c: char| upper(c))) == kind_of(a),
{
    assert(lower_seq(lower_seq(a)) =~= lower_seq(a));
    assert(lower_seq(a.map_values(|c: char| upper(c))) =~= lower_seq(a));
}

proof fn lemma_trim_start_idem(x: Seq<char>)
    ensures
        trim_start(trim_start(x)) == trim_start(x),
    decreases x.len(),
{
    if x.len() > 0 && is_ws(x[0]) {
        lemma_trim_start_idem(x.drop_first());
    }
}

/// The body a rewrite keeps begins with no whitespace.
proof fn lemma_body_trimmed(s: Seq<char>)
    ensures
        trim_start(explain_body(s)) == explain_body(s),
{
    let body = trim_start(s);
    lemma_trim_start_idem(s);
    let k = seq!['e', 'x', 'p', 'l', 'a', 'i', 'n'];
    let an = seq!['a', 'n', 'a', 'l', 'y', 'z', 'e'];
    let vb = seq!['v', 'e', 'r', 'b', 'o', 's', 'e'];
    if let Some(r1) = strip_keyword(body, k) {
        lemma_trim_start_idem(body.skip(7));
        if let Some(r2) = strip_keyword(r1, an) {
            lemma_trim_start_idem(r1.skip(7));
            if let Some(r3) = strip_keyword(r2, vb) {
                lemma_trim_start_idem(r2.skip(7));
            }
        } else if let Some(r3) = strip_keyword(r1, vb) {
            lemma_trim_start_idem(r1.skip(7));
        }
    }
}

/// The prefix a rewrite writes holds neither a line break nor a `-`.
proof fn lemma_prefix_plain(analyze: bool)
    ensures
        forall|k: int| 0 <= k < explain_prefix(analyze).len() ==> #[trigger] explain_prefix(analyze)[k] != '-'
            && explain_prefix(analyze)[k] != '\n',
        explain_prefix(analyze).len() >= 7,
        explain_prefix(analyze).take(7) == seq!['E', 'X', 'P', 'L', 'A', 'I', 'N'],
        !analyze ==> explain_prefix(analyze).len() == 7,
        analyze ==> explain_prefix(analyze).len() == 15 && explain_prefix(analyze).skip(7) == seq![
            ' ',
            'A',
            'N',
            'A',
            'L',
            'Y',
            'Z',
            'E',
        ],
{
    reveal_strlit("EXPLAIN");
    reveal_strlit("EXPLAIN ANALYZE");
    let p = explain_prefix(analyze);
    assert(p.take(7) =~= seq!['E', 'X', 'P', 'L', 'A', 'I', 'N']);
    if analyze {
        assert(p.skip(7) =~= seq![' ', 'A', 'N', 'A', 'L', 'Y', 'Z', 'E']);
        assert forall|k: int| 0 <= k < p.len() implies #[trigger] p[k] != '-' && p[k] != '\n' by {
        if k == 0 {
            assert(p[0] == 'E');
        }
        if k == 1 {
            assert(p[1] == 'X');
        }
        if k == 2 {
            assert(p[2] == 'P');
        }
        if k == 3 {
            assert(p[3] == 'L');
        }
        if k == 4 {
            assert(p[4] == 'A');
        }
        if k == 5 {
            assert(p[5] == 'I');
        }
        if k == 6 {
            assert(p[6] == 'N');
        }
        if k == 7 {
            assert(p[7] == ' ');
        }
        if k == 8 {
            assert(p[8] == 'A');
        }
        if k == 9 {
            assert(p[9] == 'N');
        }
        if k == 10 {
            assert(p[10] == 'A');
        }
        if k == 11 {
            assert(p[11] == 'L');
        }
        if k == 12 {
            assert(p[12] == 'Y');
        }
        if k == 13 {
            assert(p[13] == 'Z');
        }
        if k == 14 {
            assert(p[14] == 'E');
        }
        }
    } else {
        assert forall|k: int| 0 <= k < p.len() implies #[trigger] p[k] != '-' && p[k] != '\n' by {
        if k == 0 {
            assert(p[0] == 'E');
        }
        if k == 1 {
            assert(p[1] == 'X');
        }
        if k == 2 {
            assert(p[2] == 'P');
        }
        if k == 3 {
            assert(p[3] == 'L');
        }
        if k == 4 {
            assert(p[4] == 'A');
        }
        if k == 5 {
            assert(p[5] == 'I');
        }
        if k == 6 {
            assert(p[6] == 'N');
        }
        }
    }
}

/// Rewriting keeps the statement's body: the rewrite of a rewrite reads the same body, as
/// long as that body does not itself begin with the words `ANALYZE` or `VERBOSE`.
proof fn lemma_body_of_rewrite(s: Seq<char>, a: bool)
    requires
        strip_keyword(explain_body(s), seq!['a', 'n', 'a', 'l', 'y', 'z', 'e']) is None,
        strip_keyword(explain_body(s), seq!['v', 'e', 'r', 'b', 'o', 's', 'e']) is None,
    ensures
        explain_body(explained(s, a)) == explain_body(s),
{
    let b = explain_body(s);
    let t = explained(s, a);
    let p = explain_prefix(a);
    let k = seq!['e', 'x', 'p', 'l', 'a', 'i', 'n'];
    let an = seq!['a', 'n', 'a', 'l', 'y', 'z', 'e'];
    let vb = seq!['v', 'e', 'r', 'b', 'o', 's', 'e'];
    lemma_prefix_plain(a);
    lemma_body_trimmed(s);
    let nl = if b.len() == 0 { Seq::<char>::empty() } else { seq!['\n'] + b };
    assert(t =~= p + nl);
    assert(t[0] == 'E');
    assert(trim_start(t) == t);
    assert(t.take(7) =~= p.take(7));
    assert(lower_seq(t.take(7)) =~= k);
    if b.len() > 0 {
        assert(trim_start(seq!['\n'] + b) == trim_start((seq!['\n'] + b).drop_first()));
        assert((seq!['\n'] + b).drop_first() =~= b);
    }
    if !a {
        assert(t.skip(7) =~= nl);
        assert(trim_start(nl) == b);
        assert(strip_keyword(t, k) == Some(b));
    } else {
        let rest = seq!['A', 'N', 'A', 'L', 'Y', 'Z', 'E'] + nl;
        assert(t.skip(7) =~= seq![' '] + rest);
        assert(trim_start(seq![' '] + rest) == trim_start((seq![' '] + rest).drop_first()));
        assert((seq![' '] + rest).drop_first() =~= rest);
        assert(rest[0] == 'A');
        assert(trim_start(rest) == rest);
        assert(strip_keyword(t, k) == Some(rest));
        assert(rest.take(7) =~= seq!['A', 'N', 'A', 'L', 'Y', 'Z', 'E']);
        assert(lower_seq(rest.take(7)) =~= an);
        assert(rest.skip(7) =~= nl);
        assert(trim_start(nl) == b);
        assert(strip_keyword(rest, an) == Some(b));
    }
}

/// **A rewrite under EXPLAIN is stable**: rewriting a rewritten statement gives what
/// rewriting the original in that mode gives, so re-running it in the same mode changes
/// nothing and in the other mode only swaps the prefix — as long as the statement's body
/// does not itself begin with the words `ANALYZE` or `VERBOSE`.
pub proof fn law_explain_rewrite_is_stable(s: Seq<char>, a: bool, m: bool)
    requires
        strip_keyword(explain_body(s), seq!['a', 'n', 'a', 'l', 'y', 'z', 'e']) is None,
        strip_keyword(explain_body(s), seq!['v', 'e', 'r', 'b', 'o', 's', 'e']) is None,
    ensures
        explained(explained(s, a), m) == explained(s, m),
{
    lemma_body_of_rewrite(s, a);
}

/// **A rewritten statement is an EXPLAIN**: whatever it was, `as_explain` makes a statement
/// `is_explain` recognises.
pub proof fn law_rewrite_is_an_explain(s: Seq<char>, a: bool)
    ensures
        explain_statement(explained(s, a)),
{
    let b = explain_body(s);
    let t = explained(s, a);
    let p = explain_prefix(a);
    let k = seq!['e', 'x', 'p', 'l', 'a', 'i', 'n'];
    lemma_prefix_plain(a);
    assert(p.last() != '\r') by {
        assert(p[p.len() - 1] != '-');
        if a {
            assert(p.skip(7)[7] == 'E');
        } else {
            assert(p.take(7)[6] == 'N');
        }
    }
    assert(chop_cr(p) == p);
    assert(first_occurrence(p, seq!['-', '-']) is None) by {
        if contains_seq(p, seq!['-', '-']) {
            let j = choose|j: int| occurs_at(p, seq!['-', '-'], j);
            assert(p.subrange(j, j + 2)[0] == p[j]);
        }
    }
    assert(comment_cut(p) == p);
    let bare = bare_text(t);
    if b.len() == 0 {
        assert(t == p);
        lemma_bare_last(t);
        assert(bare =~= p + seq![' ']);
    } else {
        let line = p;
        assert(t =~= p + seq!['\n'] + b);
        assert(t[p.len() as int] == '\n');
        assert forall|j: int| 0 <= j < p.len() implies t[j] != '\n' by {
            assert(t[j] == p[j]);
        }
        lemma_bare_line(t, p.len() as int);
        assert(t.take(p.len() as int) =~= p);
        assert(bare == p + seq![' '] + bare_text(t.skip(p.len() as int + 1)));
    }
    assert(bare.take(7) =~= p.take(7));
    assert(bare[0] == 'E');
    lemma_skip_unfold(bare);
    assert(skip_openers(bare) == bare);
    assert(lower_seq(bare).subrange(0, 7) =~= k);
}

/// Neither a bracket of any kind nor a comma.
pub open spec fn plain_detail_char(c: char) -> bool {
    c != '(' && c != ')' && c != '[' && c != ']' && c != '{' && c != '}' && c != ','
}

/// The bracket that closes `o`.
pub open spec fn closing(o: char) -> char {
    if o == '(' {
        ')'
    } else if o == '[' {
        ']'
    } else {
        '}'
    }
}

proof fn lemma_bracketed_scan(pfx: Seq<char>, o: char, inner: Seq<char>, k: int)
    requires
        o == '(' || o == '[' || o == '{',
        forall|i: int| 0 <= i < pfx.len() ==> plain_detail_char(#[trigger] pfx[i]),
        forall|i: int| 0 <= i < inner.len() ==> #[trigger] inner[i] != '(' && inner[i] != ')' && inner[i] != '['
            && inner[i] != ']' && inner[i] != '{' && inner[i] != '}',
        0 <= k <= pfx.len() + inner.len() + 2,
    ensures
        ({
            let s = pfx + seq![o] + inner + seq![closing(o)];
            split_scan(s, k) == (SplitState {
                depth: if pfx.len() < k < s.len() { 1nat } else { 0nat },
                cur: s.take(k),
                raw: Seq::empty(),
            })
        }),
    decreases k,
{
    let s = pfx + seq![o] + inner + seq![closing(o)];
    if k == 0 {
        assert(s.take(0) =~= Seq::<char>::empty());
    } else {
        lemma_bracketed_scan(pfx, o, inner, k - 1);
        assert(s.take(k - 1).push(s[k - 1]) =~= s.take(k));
        let c = s[k - 1];
        if k - 1 < pfx.len() {
            assert(c == pfx[k - 1]);
        } else if k - 1 == pfx.len() {
            assert(c == o);
        } else if k - 1 < s.len() - 1 {
            assert(c == inner[k - 1 - pfx.len() - 1]);
        } else {
            assert(c == closing(o));
        }
    }
}

/// **A comma inside brackets never splits**: a detail made of a plain prefix (such as
/// `key=` or a function name) and one bracketed group, `()`, `[]` or `{}`, whose contents
/// hold commas but no brackets, is a single fragment, however many commas it holds.
pub proof fn law_bracketed_group_is_one_fragment(pfx: Seq<char>, o: char, inner: Seq<char>)
    requires
        o == '(' || o == '[' || o == '{',
        forall|i: int| 0 <= i < pfx.len() ==> plain_detail_char(#[trigger] pfx[i]),
        pfx.len() == 0 || !is_ws(pfx[0]),
        forall|i: int| 0 <= i < inner.len() ==> #[trigger] inner[i] != '(' && inner[i] != ')' && inner[i] != '['
            && inner[i] != ']' && inner[i] != '{' && inner[i] != '}',
    ensures
        detail_fragments(pfx + seq![o] + inner + seq![closing(o)]) == seq![pfx + seq![o] + inner + seq![closing(o)]],
{
    let s = pfx + seq![o] + inner + seq![closing(o)];
    lemma_bracketed_scan(pfx, o, inner, s.len() as int);
    assert(s.take(s.len() as int) =~= s);
    assert(s[0] == if pfx.len() == 0 { o } else { pfx[0] });
    assert(s.last() == closing(o));
    assert(trim_start(s) == s);
    assert(trim(s) == s);
}

/// **A comma outside brackets always splits**: two plain fragments joined by a comma are two
/// fragments, each trimmed.
pub proof fn law_top_level_comma_splits(a: Seq<char>, b: Seq<char>)
    requires
        forall|i: int| 0 <= i < a.len() ==> plain_detail_char(#[trigger] a[i]),
        forall|i: int| 0 <= i < b.len() ==> plain_detail_char(#[trigger] b[i]),
        trim(a).len() > 0,
        trim(b).len() > 0,
    ensures
        detail_fragments(a + seq![','] + b) == seq![trim(a), trim(b)],
{
    let s = a + seq![','] + b;
    assert(s.take(a.len() as int) =~= a);
    lemma_plain_scan(s, a, a.len() as int);
    assert(a.take(a.len() as int) =~= a);
    assert(s[a.len() as int] == ',');
    assert(push_nonempty(Seq::empty(), trim(a)) =~= seq![trim(a)]);
    assert(split_scan(s, a.len() as int + 1) == (SplitState { depth: 0, cur: Seq::empty(), raw: seq![trim(a)] }));
    assert forall|i: int| a.len() + 1 <= i < s.len() implies plain_detail_char(#[trigger] s[i]) by {
        assert(s[i] == b[i - a.len() - 1]);
    }
    lemma_plain_tail(s, a.len() as int + 1, seq![trim(a)], s.len() as int);
    assert(s.subrange(a.len() as int + 1, s.len() as int) =~= b);
    assert(seq![trim(a)].push(trim(b)) =~= seq![trim(a), trim(b)]);
}

proof fn lemma_plain_scan(s: Seq<char>, a: Seq<char>, k: int)
    requires
        forall|i: int| 0 <= i < a.len() ==> plain_detail_char(#[trigger] a[i]),
        a.len() <= s.len(),
        s.take(a.len() as int) == a,
        0 <= k <= a.len(),
    ensures
        split_scan(s, k) == (SplitState { depth: 0, cur: a.take(k), raw: Seq::empty() }),
    decreases k,
{
    if k > 0 {
        lemma_plain_scan(s, a, k - 1);
        assert(s[k - 1] == s.take(a.len() as int)[k - 1]);
        assert(a.take(k - 1).push(a[k - 1]) =~= a.take(k));
    } else {
        assert(a.take(0) =~= Seq::<char>::empty());
    }
}

proof fn lemma_plain_tail(s: Seq<char>, from: int, raw: Seq<Seq<char>>, k: int)
    requires
        0 <= from <= k <= s.len(),
        split_scan(s, from) == (SplitState { depth: 0, cur: Seq::empty(), raw }),
        forall|i: int| from <= i < s.len() ==> plain_detail_char(#[trigger] s[i]),
    ensures
        split_scan(s, k) == (SplitState { depth: 0, cur: s.subrange(from, k), raw }),
    decreases k - from,
{
    if k > from {
        lemma_plain_tail(s, from, raw, k - 1);
        assert(s.subrange(from, k - 1).push(s[k - 1]) =~= s.subrange(from, k));
    } else {
        assert(s.subrange(from, from) =~= Seq::<char>::empty());
    }
}

proof fn lemma_scan_prefix(s1: Seq<char>, s2: Seq<char>, k: int)
    requires
        0 <= k <= s1.len(),
        k <= s2.len(),
        s1.take(k) == s2.take(k),
    ensures
        split_scan(s1, k) == split_scan(s2, k),
    decreases k,
{
    if k > 0 {
        assert(s1.take(k - 1) =~= s1.take(k).take(k - 1));
        assert(s2.take(k - 1) =~= s2.take(k).take(k - 1));
        lemma_scan_prefix(s1, s2, k - 1);
        assert(s1[k - 1] == s1.take(k)[k - 1]);
        assert(s2[k - 1] == s2.take(k)[k - 1]);
    }
}

/// **A closed group ends where its bracket closes**: after a bracketed group, a comma splits
/// again, so `key=f(a, b), other` is two fragments, the group whole.
pub proof fn law_comma_after_group_splits(pfx: Seq<char>, o: char, inner: Seq<char>, b: Seq<char>)
    requires
        o == '(' || o == '[' || o == '{',
        forall|i: int| 0 <= i < pfx.len() ==> plain_detail_char(#[trigger] pfx[i]),
        pfx.len() == 0 || !is_ws(pfx[0]),
        forall|i: int| 0 <= i < inner.len() ==> #[trigger] inner[i] != '(' && inner[i] != ')' && inner[i] != '['
            && inner[i] != ']' && inner[i] != '{' && inner[i] != '}',
        forall|i: int| 0 <= i < b.len() ==> plain_detail_char(#[trigger] b[i]),
        trim(b).len() > 0,
    ensures
        ({
            let g = pfx + seq![o] + inner + seq![closing(o)];
            detail_fragments(g + seq![','] + b) == seq![g, trim(b)]
        }),
{
    let g = pfx + seq![o] + inner + seq![closing(o)];
    let s = g + seq![','] + b;
    lemma_bracketed_scan(pfx, o, inner, g.len() as int);
    assert(s.take(g.len() as int) =~= g.take(g.len() as int));
    lemma_scan_prefix(s, g, g.len() as int);
    assert(g.take(g.len() as int) =~= g);
    assert(g[0] == if pfx.len() == 0 { o } else { pfx[0] });
    assert(g.last() == closing(o));
    assert(trim_start(g) == g);
    assert(trim(g) == g);
    assert(s[g.len() as int] == ',');
    assert(push_nonempty(Seq::empty(), trim(g)) =~= seq![g]);
    assert(split_scan(s, g.len() as int + 1) == (SplitState { depth: 0, cur: Seq::empty(), raw: seq![g] }));
    assert forall|i: int| g.len() + 1 <= i < s.len() implies plain_detail_char(#[trigger] s[i]) by {
        assert(s[i] == b[i - g.len() - 1]);
    }
    lemma_plain_tail(s, g.len() as int + 1, seq![g], s.len() as int);
    assert(s.subrange(g.len() as int + 1, s.len() as int) =~= b);
    assert(seq![g].push(trim(b)) =~= seq![g, trim(b)]);
}

} // verus!
