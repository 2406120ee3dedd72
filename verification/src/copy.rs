//! Editor `COPY … TO`: which targets are local paths the ownership fence judges, the fence
//! itself over resolved paths, and the NULL gate a partitioned copy passes before it writes.

use vstd::prelude::*;

use crate::text::{
    append_chars, append_str, chars_of, index_from, index_of, is_alpha, is_ascii_alpha, is_ascii_digit,
    is_digit, lower_all, lower_seq, owned, same_chars, slice_vec, string_of,
};

verus! {

/// RFC 3986's scheme shape: `ALPHA *( ALPHA / DIGIT / "+" / "-" / "." )`.
pub open spec fn is_scheme(s: Seq<char>) -> bool {
    &&& s.len() > 0
    &&& is_ascii_alpha(s[0])
    &&& forall|i: int|
        1 <= i < s.len() ==> (is_ascii_alpha(#[trigger] s[i]) || is_ascii_digit(s[i]) || s[i] == '+'
            || s[i] == '-' || s[i] == '.')
}

/// Exec form of [`is_scheme`] over characters.
pub fn scheme_chars(c: &[char]) -> (r: bool)
    ensures
        r == is_scheme(c@),
{
    if c.len() == 0 || !is_alpha(c[0]) {
        return false;
    }
    let mut i: usize = 1;
    while i < c.len()
        invariant
            1 <= i <= c@.len(),
            forall|j: int|
                1 <= j < i ==> (is_ascii_alpha(#[trigger] c@[j]) || is_ascii_digit(c@[j]) || c@[j] == '+'
                    || c@[j] == '-' || c@[j] == '.'),
        decreases c@.len() - i,
    {
        let ch = c[i];
        if !(is_alpha(ch) || is_digit(ch) || ch == '+' || ch == '-' || ch == '.') {
            return false;
        }
        i = i + 1;
    }
    true
}

/// Whether `s` is shaped like a URL scheme. A path separator can never appear in one, which
/// is what tells `s3://bucket` from a local file whose name happens to contain `://`.
pub fn is_url_scheme(s: &str) -> (r: bool)
    ensures
        r == is_scheme(s@),
{
    let c = chars_of(s);
    scheme_chars(&c)
}

// ---- which targets are local -------------------------------------------------------------

/// `s` without its leading `/`s.
pub open spec fn drop_slashes(s: Seq<char>) -> Seq<char>
    decreases s.len(),
{
    if s.len() > 0 && s[0] == '/' {
        drop_slashes(s.drop_first())
    } else {
        s
    }
}

/// The local path a `COPY` target names, or `None` for an object-store URL: a target whose
/// text before its first `://` is shaped like a scheme is a URL, local only for `file`
/// (any case), whose path is the rest made absolute; any other target is a path as it is.
pub open spec fn local_target(t: Seq<char>) -> Option<Seq<char>> {
    match index_from(t, "://"@, 0) {
        Some(k) => if is_scheme(t.take(k)) {
            if lower_seq(t.take(k)) == "file"@ {
                Some(seq!['/'] + drop_slashes(t.skip(k + 3)))
            } else {
                None
            }
        } else {
            Some(t)
        },
        None => Some(t),
    }
}

/// [`local_target`]: the local path `target` writes to, `None` when it writes to an object
/// store.
pub fn local_path(target: &str) -> (r: Option<String>)
    ensures
        match local_target(target@) {
            Some(p) => r matches Some(s) && s@ == p,
            None => r is None,
        },
{
    let t = chars_of(target);
    let sep: Vec<char> = vec![':', '/', '/'];
    proof {
        reveal_strlit("://");
        assert(sep@ =~= "://"@);
    }
    match index_of(&t, &sep) {
        None => Some(owned(target)),
        Some(k) => {
            let scheme = slice_vec(&t, 0, k);
            assert(scheme@ =~= t@.take(k as int));
            if !scheme_chars(&scheme) {
                return Some(owned(target));
            }
            let low = lower_all(&scheme);
            let file: Vec<char> = vec!['f', 'i', 'l', 'e'];
            proof {
                reveal_strlit("file");
                assert(file@ =~= "file"@);
            }
            if !same_chars(&low, &file) {
                return None;
            }
            let mut i = k + 3;
            while i < t.len() && t[i] == '/'
                invariant
                    k + 3 <= i <= t@.len(),
                    drop_slashes(t@.skip(k + 3)) == drop_slashes(t@.skip(i as int)),
                decreases t@.len() - i,
            {
                assert(t@.skip(i as int).drop_first() =~= t@.skip(i + 1));
                i = i + 1;
            }
            let mut v: Vec<char> = vec!['/'];
            let rest = slice_vec(&t, i, t.len());
            assert(rest@ =~= t@.skip(i as int));
            append_chars(&mut v, &rest);
            proof {
                if i < t@.len() {
                    assert(t@.skip(i as int)[0] != '/');
                }
                assert(drop_slashes(t@.skip(i as int)) == t@.skip(i as int));
                assert(v@ =~= seq!['/'] + drop_slashes(t@.skip(k + 3)));
            }
            Some(string_of(&v))
        },
    }
}

// ---- the ownership fence -----------------------------------------------------------------

/// One segment of a path, as the path's own parser splits it.
pub enum PathPart {
    /// The root: what follows starts from the top.
    Root,
    /// `.`
    Current,
    /// `..`
    Parent,
    /// Any other segment.
    Name(String),
}

/// The segment names of `parts` with `.` dropped and each `..` taking back the name before
/// it (nothing, at the root), the way a path is folded before it is compared.
pub open spec fn folded_names(parts: Seq<PathPart>) -> Seq<Seq<char>>
    decreases parts.len(),
{
    if parts.len() == 0 {
        seq![]
    } else {
        let before = folded_names(parts.drop_last());
        match parts.last() {
            PathPart::Root => seq![],
            PathPart::Current => before,
            PathPart::Parent => if before.len() > 0 {
                before.drop_last()
            } else {
                before
            },
            PathPart::Name(n) => before.push(n@),
        }
    }
}

/// [`folded_names`]: `parts` with `.` and `..` folded away.
pub fn fold_parts(parts: &[PathPart]) -> (r: Vec<String>)
    ensures
        crate::text::string_views(r@) == folded_names(parts@),
{
    let mut out: Vec<String> = Vec::new();
    let mut i: usize = 0;
    assert(parts@.take(0) =~= Seq::<PathPart>::empty());
    assert(crate::text::string_views(out@) =~= folded_names(parts@.take(0)));
    while i < parts.len()
        invariant
            i <= parts@.len(),
            crate::text::string_views(out@) == folded_names(parts@.take(i as int)),
        decreases parts@.len() - i,
    {
        assert(parts@.take(i + 1).drop_last() =~= parts@.take(i as int));
        assert(parts@.take(i + 1).last() == parts@[i as int]);
        match &parts[i] {
            PathPart::Root => {
                out = Vec::new();
                assert(crate::text::string_views(out@) =~= Seq::<Seq<char>>::empty());
            },
            PathPart::Current => {},
            PathPart::Parent => {
                if out.len() > 0 {
                    let ghost before = out@;
                    out.pop();
                    assert(crate::text::string_views(out@) =~= crate::text::string_views(before).drop_last());
                }
            },
            PathPart::Name(n) => {
                let ghost before = out@;
                out.push(n.clone());
                assert(crate::text::string_views(out@) =~= crate::text::string_views(before).push(n@));
            },
        }
        i = i + 1;
    }
    assert(parts@.take(parts@.len() as int) =~= parts@);
    out
}

/// A directory a `COPY` may not write into: its resolved segment names, how it displays,
/// and what it holds.
pub struct FencedDir {
    pub names: Vec<String>,
    pub display: String,
    pub holds: String,
}

/// What the snapshot spool holds, in a fence's refusal.
pub open spec fn spool_holds() -> Seq<char> {
    "holds query results"@
}

/// What a project's own `.strata` directory holds, in a fence's refusal.
pub open spec fn project_holds() -> Seq<char> {
    "holds this project's own data"@
}

/// The directories a `COPY` may not write into, each as its resolved segment names and how it
/// displays: the snapshot spool, whose files are read back as results, and, where there is a
/// project, its `.strata` directory, whose files its tables' next scans list.
pub fn copy_fences(spool: (Vec<String>, String), project: Option<(Vec<String>, String)>) -> (r: Vec<FencedDir>)
    ensures
        r@.len() == if project is Some { 2int } else { 1int },
        r@[0].names == spool.0 && r@[0].display == spool.1 && r@[0].holds@ == spool_holds(),
        project matches Some(p) ==> r@[1].names == p.0 && r@[1].display == p.1 && r@[1].holds@ == project_holds(),
{
    let mut r: Vec<FencedDir> = Vec::new();
    r.push(FencedDir { names: spool.0, display: spool.1, holds: crate::text::owned("holds query results") });
    match project {
        Some((names, display)) => {
            r.push(FencedDir { names, display, holds: crate::text::owned("holds this project's own data") });
        },
        None => {},
    }
    r
}

/// Path `p` lies at or under directory `d`, segment by segment.
pub open spec fn is_under(p: Seq<Seq<char>>, d: Seq<Seq<char>>) -> bool {
    d.len() <= p.len() && p.take(d.len() as int) == d
}

/// The refusal of a write into `d`.
pub open spec fn fence_text(d: FencedDir) -> Seq<char> {
    "COPY can't write into '"@ + d.display@ + "', which "@ + d.holds@
}

/// The first of `dirs` from `i` on that `path` lies under.
pub open spec fn first_fence(path: Seq<Seq<char>>, dirs: Seq<FencedDir>, i: int) -> Option<int>
    decreases dirs.len() - i,
{
    if i < 0 || i >= dirs.len() {
        None
    } else if is_under(path, crate::text::string_views(dirs[i].names@)) {
        Some(i)
    } else {
        first_fence(path, dirs, i + 1)
    }
}

fn names_under(path: &[String], dir: &[String]) -> (r: bool)
    ensures
        r == is_under(crate::text::string_views(path@), crate::text::string_views(dir@)),
{
    let ghost p = crate::text::string_views(path@);
    let ghost d = crate::text::string_views(dir@);
    if dir.len() > path.len() {
        return false;
    }
    let mut i: usize = 0;
    while i < dir.len()
        invariant
            i <= dir@.len() <= path@.len(),
            p == crate::text::string_views(path@),
            d == crate::text::string_views(dir@),
            forall|k: int| 0 <= k < i ==> p[k] == d[k],
        decreases dir@.len() - i,
    {
        let a = chars_of(path[i].as_str());
        let b = chars_of(dir[i].as_str());
        if !same_chars(&a, &b) {
            assert(p.take(d.len() as int)[i as int] != d[i as int]);
            return false;
        }
        i = i + 1;
    }
    assert(p.take(d.len() as int) =~= d);
    true
}

/// A `COPY` into storage the engine owns is refused: `path` is the target's resolved segment
/// names, and the first of `dirs` it lies under ([`first_fence`]) names the refusal.
pub fn refuse_owned_target(path: &[String], dirs: &[FencedDir]) -> (r: Result<(), String>)
    ensures
        match first_fence(crate::text::string_views(path@), dirs@, 0) {
            Some(i) => r matches Err(e) && e@ == fence_text(dirs@[i]),
            None => r is Ok,
        },
{
    let ghost p = crate::text::string_views(path@);
    let mut i: usize = 0;
    while i < dirs.len()
        invariant
            i <= dirs@.len(),
            p == crate::text::string_views(path@),
            first_fence(p, dirs@, 0) == first_fence(p, dirs@, i as int),
        decreases dirs@.len() - i,
    {
        if names_under(path, &dirs[i].names) {
            let mut v: Vec<char> = Vec::new();
            append_str(&mut v, "COPY can't write into '");
            append_str(&mut v, dirs[i].display.as_str());
            append_str(&mut v, "', which ");
            append_str(&mut v, dirs[i].holds.as_str());
            return Err(string_of(&v));
        }
        i = i + 1;
    }
    Ok(())
}

// ---- the NULL gate of a partitioned COPY -------------------------------------------------

/// The partition columns a COPY counts, each once, in the order first named: the same
/// column named twice is the same question, and its two counts would collide.
pub fn counted_columns(partition_by: &[String]) -> (r: Vec<String>)
    ensures
        crate::text::string_views(r@) == crate::chart::distinct_prefix(
            crate::text::string_views(partition_by@),
            partition_by@.len(),
        ),
{
    let ghost pv = crate::text::string_views(partition_by@);
    let mut out: Vec<String> = Vec::new();
    assert(crate::text::string_views(out@) =~= crate::chart::distinct_prefix(pv, 0));
    for i in 0..partition_by.len()
        invariant
            pv == crate::text::string_views(partition_by@),
            crate::text::string_views(out@) == crate::chart::distinct_prefix(pv, i as nat),
    {
        assert(pv[i as int] == partition_by@[i as int]@);
        crate::chart::push_distinct(&mut out, partition_by[i].as_str());
    }
    out
}

/// What a partitioned `COPY` has to count before it writes: nothing when it partitions by
/// nothing (it goes ahead with no counting pass), else each partition column once,
/// [`counted_columns`].
pub fn columns_to_count(partition_by: &[String]) -> (r: Option<Vec<String>>)
    ensures
        partition_by@.len() == 0 ==> r is None,
        partition_by@.len() > 0 ==> (r matches Some(v) && crate::text::string_views(v@)
            == crate::chart::distinct_prefix(crate::text::string_views(partition_by@), partition_by@.len())),
{
    if partition_by.len() == 0 {
        None
    } else {
        Some(counted_columns(partition_by))
    }
}

/// The COPY's refusal when the counting pass measured nothing at all.
pub open spec fn uncounted_text() -> Seq<char> {
    "COPY could not count the partition columns' NULL values"@
}

/// The first counted column from `i` on whose non-null count is not exactly the total.
pub open spec fn first_short(counts: Seq<Option<i64>>, total: i64, n: int, i: int) -> Option<int>
    decreases n - i,
{
    if i < 0 || i >= n {
        None
    } else if (if i + 1 < counts.len() { counts[i + 1] } else { None }) != Some(total) {
        Some(i)
    } else {
        first_short(counts, total, n, i + 1)
    }
}

/// A partitioned COPY proceeds only when every counted column's non-null count is exactly the
/// total: `counts` holds the total first and then one non-null count per column of `names`,
/// `None` where it could not be read — which is no count of zero, so it refuses too.
pub fn partition_counts_gate(names: &[String], counts: &[Option<i64>]) -> (r: Result<(), String>)
    ensures
        match (if counts@.len() > 0 { counts@[0] } else { None }) {
            None => r matches Err(m) && m@ == uncounted_text(),
            Some(total) => match first_short(counts@, total, names@.len() as int, 0) {
                Some(i) => r matches Err(m) && m@ == crate::export::null_refusal_text(names@[i]@),
                None => r is Ok,
            },
        },
{
    let total = if counts.len() > 0 { counts[0] } else { None };
    let total = match total {
        None => return Err(owned("COPY could not count the partition columns' NULL values")),
        Some(t) => t,
    };
    let mut i: usize = 0;
    while i < names.len()
        invariant
            i <= names@.len(),
            counts@.len() > 0 && counts@[0] == Some(total),
            first_short(counts@, total, names@.len() as int, 0) == first_short(counts@, total, names@.len() as int, i as int),
        decreases names@.len() - i,
    {
        let c = if i + 1 < counts.len() { counts[i + 1] } else { None };
        let full = match c {
            Some(v) => v == total,
            None => false,
        };
        if !full {
            return Err(crate::export::partition_null_refusal(names[i].as_str()));
        }
        i = i + 1;
    }
    Ok(())
}

} // verus!
