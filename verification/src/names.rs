//! The engine identity of a catalog name — what the planner keys an object under once the
//! name has been read as a multipart SQL identifier — how a name is rendered back into SQL
//! so that it resolves to that identity, and lists of names in `String` order.

use datafusion_common::TableReference;

use vstd::prelude::*;

use crate::json_infer::{key_less, key_lt, lemma_key_lt_total, lemma_key_lt_transitive};
use crate::text::{chars_of, doubled, owned, push_doubled, same_chars, string_of, string_views};

verus! {

/// The table part of `TableReference::parse_str(name)` when it reads `name` as one
/// unqualified identifier, and `None` when it reads it as a qualified one.
pub uninterp spec fn parsed_bare_table(name: Seq<char>) -> Option<Seq<char>>;

/// `TableReference::parse_str` from `datafusion-common`, told apart by variant.
///
/// Trusted: the result is a function of `name` alone — the parser splits it as a multipart
/// identifier and lower-cases unquoted parts — named [`parsed_bare_table`]; a bare reference
/// gives its table, a partial or full one gives `None`.
#[verifier::external_body]
fn parse_bare_table(name: &str) -> (r: Option<String>)
    ensures
        match r {
            Some(t) => parsed_bare_table(name@) == Some(t@),
            None => parsed_bare_table(name@) is None,
        },
{
    match TableReference::parse_str(name) {
        TableReference::Bare { table } => Some(table.to_string()),
        TableReference::Partial { .. } => None,
        TableReference::Full { .. } => None,
    }
}

/// The identity of `name` given what the parser read: the bare table when it read one
/// identifier, the name verbatim otherwise — a dotted name is a label, never a
/// qualification, since the engine owns one schema.
pub open spec fn folded(parsed: Option<Seq<char>>, name: Seq<char>) -> Seq<char> {
    match parsed {
        Some(t) => t,
        None => name,
    }
}

/// [`folded`], given the parser's reading of `name`.
pub fn fold_parsed(name: &str, parsed: Option<String>) -> (r: String)
    ensures
        r@ == folded(
            match parsed {
                Some(t) => Some(t@),
                None => None,
            },
            name@,
        ),
{
    match parsed {
        Some(t) => t,
        None => owned(name),
    }
}

/// The engine identity of a catalog name: a single bare word folds to ASCII-lowercase, a
/// name the parser cannot read as one identifier is itself.
pub fn fold_ident(name: &str) -> (r: String)
    ensures
        r@ == folded(parsed_bare_table(name@), name@),
{
    let parsed = parse_bare_table(name);
    fold_parsed(name, parsed)
}

/// A name that can stand bare in SQL: an ASCII lowercase letter or `_`, then only ASCII
/// lowercase letters, digits and `_`.
pub open spec fn plain_name(id: Seq<char>) -> bool {
    &&& id.len() > 0
    &&& (('a' <= id[0] && id[0] <= 'z') || id[0] == '_')
    &&& forall|i: int|
        1 <= i < id.len() ==> (('a' <= #[trigger] id[i] && id[i] <= 'z') || ('0' <= id[i] && id[i] <= '9')
            || id[i] == '_')
}

/// An engine identity rendered into SQL: bare when it is a [`plain_name`] the dialect does
/// not reserve, otherwise double-quoted with embedded quotes doubled.
pub open spec fn quoted_ident(id: Seq<char>, reserved: bool) -> Seq<char> {
    if plain_name(id) && !reserved {
        id
    } else {
        seq!['"'] + doubled(id, '"') + seq!['"']
    }
}

fn is_plain(id: &[char]) -> (r: bool)
    ensures
        r == plain_name(id@),
{
    if id.len() == 0 {
        return false;
    }
    let c = id[0];
    if !(('a' <= c && c <= 'z') || c == '_') {
        return false;
    }
    let mut i: usize = 1;
    while i < id.len()
        invariant
            1 <= i <= id@.len(),
            forall|k: int|
                1 <= k < i ==> (('a' <= #[trigger] id@[k] && id@[k] <= 'z') || ('0' <= id@[k] && id@[k] <= '9')
                    || id@[k] == '_'),
        decreases id@.len() - i,
    {
        let d = id[i];
        if !(('a' <= d && d <= 'z') || ('0' <= d && d <= '9') || d == '_') {
            return false;
        }
        i = i + 1;
    }
    true
}

/// `name` rendered into SQL so that it resolves to the entry the engine keys it under:
/// [`quoted_ident`] of its engine identity. `reserved` says whether that identity is a word
/// the SQL dialect reserves where a name stands.
pub fn quote_ident(name: &str, reserved: bool) -> (r: String)
    ensures
        r@ == quoted_ident(folded(parsed_bare_table(name@), name@), reserved),
{
    let id = fold_ident(name);
    let c = chars_of(id.as_str());
    if is_plain(&c) && !reserved {
        return id;
    }
    let mut v: Vec<char> = Vec::new();
    v.push('"');
    push_doubled(&mut v, id.as_str(), '"');
    v.push('"');
    let r = string_of(&v);
    assert(r@ =~= quoted_ident(id@, reserved));
    r
}

// ---- name lists in order ----------------------------------------------------------------------

/// Strictly increasing in code-point order — `String`'s own order — so nothing occurs twice.
pub open spec fn names_sorted(s: Seq<Seq<char>>) -> bool {
    forall|i: int, j: int| 0 <= i < j < s.len() ==> key_lt(#[trigger] s[i], #[trigger] s[j])
}

pub(crate) fn insert_name(out: &mut Vec<String>, n: &String)
    requires
        names_sorted(string_views(old(out)@)),
    ensures
        names_sorted(string_views(final(out)@)),
        forall|x: Seq<char>| string_views(final(out)@).contains(x) <==> (string_views(old(out)@).contains(x) || x == n@),
{
    let ghost s = string_views(out@);
    let nc = chars_of(n.as_str());
    let mut i: usize = 0;
    let mut stop = false;
    while i < out.len() && !stop
        invariant
            i <= out@.len(),
            out@ == old(out)@,
            s == string_views(out@),
            names_sorted(s),
            nc@ == n@,
            stop ==> i < s.len() && key_lt(n@, s[i as int]),
            forall|k: int| 0 <= k < i ==> key_lt(#[trigger] s[k], n@),
        decreases (out@.len() - i) * 2 + (if stop { 0int } else { 1int }),
    {
        assert(s[i as int] == out@[i as int]@);
        let oc = chars_of(out[i].as_str());
        if same_chars(&oc, &nc) {
            assert(s.contains(n@));
            return;
        }
        if key_less(out[i].as_str(), n.as_str()) {
            i = i + 1;
        } else {
            proof {
                lemma_key_lt_total(s[i as int], n@);
            }
            stop = true;
        }
    }
    proof {
        assert forall|j: int| i <= j < s.len() implies key_lt(n@, #[trigger] s[j]) by {
            if j > i {
                lemma_key_lt_transitive(n@, s[i as int], s[j]);
            }
        }
    }
    out.insert(i, n.clone());
    proof {
        let t = string_views(out@);
        assert(t =~= s.insert(i as int, n@));
        assert forall|a: int, b: int| 0 <= a < b < t.len() implies key_lt(#[trigger] t[a], #[trigger] t[b]) by {
            if a < i && b > i {
                lemma_key_lt_transitive(s[a], n@, s[b - 1]);
            } else if a > i {
                assert(t[a] == s[a - 1] && t[b] == s[b - 1]);
            } else if a == i {
                assert(t[b] == s[b - 1]);
            }
        }
        assert forall|x: Seq<char>| t.contains(x) <==> (s.contains(x) || x == n@) by {
            if t.contains(x) {
                let k = choose|k: int| 0 <= k < t.len() && t[k] == x;
                if k < i {
                    assert(s[k] == x);
                } else if k > i {
                    assert(s[k - 1] == x);
                }
            }
            if s.contains(x) {
                let k = choose|k: int| 0 <= k < s.len() && s[k] == x;
                if k < i {
                    assert(t[k] == x);
                } else {
                    assert(t[k + 1] == x);
                }
            }
            if x == n@ {
                assert(t[i as int] == x);
            }
        }
    }
}

/// `names` each once, in code-point order: the one strictly sorted list holding exactly
/// them, as a sorted set of `String`s lists them.
pub fn sorted_names(names: &[String]) -> (r: Vec<String>)
    ensures
        names_sorted(string_views(r@)),
        forall|x: Seq<char>| string_views(r@).contains(x) <==> string_views(names@).contains(x),
{
    let ghost s = string_views(names@);
    let mut out: Vec<String> = Vec::new();
    assert(string_views(out@) =~= Seq::<Seq<char>>::empty());
    let mut i: usize = 0;
    while i < names.len()
        invariant
            i <= names@.len(),
            s == string_views(names@),
            names_sorted(string_views(out@)),
            forall|x: Seq<char>| string_views(out@).contains(x) <==> s.take(i as int).contains(x),
        decreases names@.len() - i,
    {
        insert_name(&mut out, &names[i]);
        proof {
            let p0 = s.take(i as int);
            let p1 = s.take(i + 1);
            assert(p1 =~= p0.push(s[i as int]));
            assert forall|x: Seq<char>| string_views(out@).contains(x) <==> p1.contains(x) by {
                if p1.contains(x) {
                    let k = choose|k: int| 0 <= k < p1.len() && #[trigger] p1[k] == x;
                    if k < i {
                        assert(p0[k] == x);
                    }
                }
                if p0.contains(x) {
                    let k = choose|k: int| 0 <= k < p0.len() && #[trigger] p0[k] == x;
                    assert(p1[k] == x);
                }
                if x == s[i as int] {
                    assert(p1[i as int] == x);
                }
            }
        }
        i = i + 1;
    }
    assert(s.take(s.len() as int) =~= s);
    out
}

} // verus!
