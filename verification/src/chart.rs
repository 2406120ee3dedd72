//! Chart shaping that does not depend on the values' floating-point arithmetic: which
//! columns a rows chart reads and the mistakes it refuses, the long-to-wide pivot around a
//! series column, the legend names, the row-index axis, and how many bins a histogram is
//! cut into and what each bin counts.
//!
//! Values themselves never pass through here: a pivot is computed on the identities of the
//! rows' keys and answers with row indices, which the caller reads the values back through.

use vstd::prelude::*;

use crate::text::{
    append_str, chars_of, decimal, lemma_string_views_push, push_decimal, same_chars, string_of,
    string_views,
};

verus! {

/// The most bins a request may ask for.
pub const MAX_BINS: usize = 200;

/// `r` is the ceiling of the square root of `n`: the least `r >= 0` with `r * r >= n`.
pub open spec fn is_ceil_sqrt(r: int, n: int) -> bool {
    r >= 0 && r * r >= n && (r == 0 || (r - 1) * (r - 1) < n)
}

/// The bin count when the request leaves it open: the ceiling of the square root of the
/// row count, floored at 6 and capped at 24.
pub open spec fn auto_bins_spec(rows: int, b: int) -> bool {
    &&& 6 <= b <= 24
    &&& b == 6 <==> rows <= 36
    &&& b == 24 <==> rows > 23 * 23
    &&& 6 < b < 24 ==> is_ceil_sqrt(b, rows)
}

/// Bin count when the request leaves it open: `√rows` rounded up, floored at 6 and capped
/// at 24 — enough shape to read, few enough bars to label.
pub fn auto_bins(rows: i64) -> (b: usize)
    ensures
        auto_bins_spec(rows as int, b as int),
{
    let mut r: i64 = 6;
    let mut sq: i64 = 36;
    while r < 24 && sq < rows
        invariant
            6 <= r <= 24,
            sq == r * r,
            sq <= 576,
            (r - 1) * (r - 1) < rows || r == 6,
        decreases 24 - r,
    {
        assert((r + 1) * (r + 1) == r * r + 2 * r + 1) by (nonlinear_arith);
        assert((r + 1) * (r + 1) <= 576) by (nonlinear_arith)
            requires r < 24, r >= 6;
        sq = sq + 2 * r + 1;
        r = r + 1;
    }
    proof {
        if r == 6 {
            if rows > 36 {
                assert(r * r < rows);
            }
        }
        if r < 24 && r > 6 {
            assert(r * r >= rows);
        }
        if r == 24 {
            assert(23 * 23 < rows);
        } else {
            assert(r * r >= rows);
            assert(rows <= 23 * 23) by (nonlinear_arith)
                requires r * r >= rows, r <= 23, r >= 6;
        }
        if r > 6 {
            assert(rows > 36) by (nonlinear_arith)
                requires (r - 1) * (r - 1) < rows, r > 6;
        }
    }
    r as usize
}

/// The bins a histogram is cut into: the requested count, or [`auto_bins`] when none was
/// asked for, clamped to `1..=MAX_BINS`.
pub fn bin_count(requested: Option<usize>, rows: i64) -> (b: usize)
    ensures
        match requested {
            Some(n) => b == if n < 1 { 1 } else if n > MAX_BINS { MAX_BINS } else { n },
            None => auto_bins_spec(rows as int, b as int),
        },
{
    match requested {
        Some(n) => {
            if n < 1 {
                1
            } else if n > MAX_BINS {
                MAX_BINS
            } else {
                n
            }
        },
        None => auto_bins(rows),
    }
}

// ---- the rows read: what it projects and what it refuses -----------------------------------

/// One column of the result a chart reads: its exact name, whether its type is numeric, and
/// how its type displays.
pub struct ChartColumn {
    pub name: String,
    pub numeric: bool,
    pub type_text: String,
}

/// The index of the first column of `cols` at or after `i` named `name`.
pub open spec fn find_col(cols: Seq<ChartColumn>, name: Seq<char>, i: int) -> Option<int>
    decreases cols.len() - i,
{
    if i < 0 || i >= cols.len() {
        None
    } else if cols[i].name@ == name {
        Some(i)
    } else {
        find_col(cols, name, i + 1)
    }
}

/// The refusal of a name that is not a column of the result.
pub open spec fn no_column_text(name: Seq<char>) -> Seq<char> {
    "no column '"@ + name + "' in this result"@
}

/// The refusal of a column whose type has no place on a numeric axis.
pub open spec fn not_a_measure_text(type_text: Seq<char>) -> Seq<char> {
    type_text + " is not a measure a chart can plot"@
}

/// Why `name` cannot be plotted, if it cannot: it is missing, or not numeric.
pub open spec fn plot_error(cols: Seq<ChartColumn>, name: Seq<char>) -> Option<Seq<char>> {
    match find_col(cols, name, 0) {
        None => Some(no_column_text(name)),
        Some(i) => if cols[i].numeric {
            None
        } else {
            Some(not_a_measure_text(cols[i].type_text@))
        },
    }
}

/// The first refusal among the Y columns from `i` on.
pub open spec fn ys_error(cols: Seq<ChartColumn>, ys: Seq<Seq<char>>, i: int) -> Option<Seq<char>>
    decreases ys.len() - i,
{
    if i < 0 || i >= ys.len() {
        None
    } else {
        match plot_error(cols, ys[i]) {
            Some(e) => Some(e),
            None => ys_error(cols, ys, i + 1),
        }
    }
}

/// The first `n` of `s` with every repeat dropped, first occurrences kept in order.
pub open spec fn distinct_prefix(s: Seq<Seq<char>>, n: nat) -> Seq<Seq<char>>
    decreases n,
{
    if n == 0 {
        seq![]
    } else {
        let d = distinct_prefix(s, (n - 1) as nat);
        if d.contains(s[n - 1]) {
            d
        } else {
            d.push(s[n - 1])
        }
    }
}

pub open spec fn opt_seq(o: Option<Seq<char>>) -> Seq<Seq<char>> {
    match o {
        Some(v) => seq![v],
        None => seq![],
    }
}

/// What a rows chart over `cols` reads, or why it refuses: at least one Y, each a numeric
/// column; an X and a series that exist; a series only beside an X, and never the X itself.
/// The read projects X, the series and the Ys, each name once.
pub open spec fn rows_plan(
    cols: Seq<ChartColumn>,
    x: Option<Seq<char>>,
    ys: Seq<Seq<char>>,
    series: Option<Seq<char>>,
) -> Result<Seq<Seq<char>>, Seq<char>> {
    if ys.len() == 0 {
        Err("a chart needs at least one Y column"@)
    } else if ys_error(cols, ys, 0) is Some {
        Err(ys_error(cols, ys, 0)->0)
    } else if x is Some && find_col(cols, x->0, 0) is None {
        Err(no_column_text(x->0))
    } else if series is Some && find_col(cols, series->0, 0) is None {
        Err(no_column_text(series->0))
    } else if series is Some && x is None {
        Err("a series split needs an X column"@)
    } else if series is Some && x == series {
        Err("'"@ + series->0 + "' cannot be both the category and the series"@)
    } else {
        let all = opt_seq(x) + opt_seq(series) + ys;
        Ok(distinct_prefix(all, all.len()))
    }
}

fn text_is(a: &str, b: &str) -> (r: bool)
    ensures
        r == (a@ == b@),
{
    let x = chars_of(a);
    let y = chars_of(b);
    same_chars(&x, &y)
}

fn column_at(cols: &[ChartColumn], name: &str) -> (r: Option<usize>)
    ensures
        match r {
            Some(k) => find_col(cols@, name@, 0) == Some(k as int) && k < cols@.len(),
            None => find_col(cols@, name@, 0) is None,
        },
{
    let mut i: usize = 0;
    while i < cols.len()
        invariant
            i <= cols@.len(),
            find_col(cols@, name@, 0) == find_col(cols@, name@, i as int),
        decreases cols@.len() - i,
    {
        if text_is(cols[i].name.as_str(), name) {
            return Some(i);
        }
        i = i + 1;
    }
    None
}

fn no_column(name: &str) -> (r: String)
    ensures
        r@ == no_column_text(name@),
{
    let mut v: Vec<char> = Vec::new();
    append_str(&mut v, "no column '");
    append_str(&mut v, name);
    append_str(&mut v, "' in this result");
    string_of(&v)
}

fn plot_check(cols: &[ChartColumn], name: &str) -> (r: Option<String>)
    ensures
        match plot_error(cols@, name@) {
            Some(e) => r matches Some(m) && m@ == e,
            None => r is None,
        },
{
    match column_at(cols, name) {
        None => Some(no_column(name)),
        Some(i) => {
            assert(find_col(cols@, name@, 0) == Some(i as int));
            if cols[i].numeric {
                None
            } else {
                let mut v: Vec<char> = Vec::new();
                append_str(&mut v, cols[i].type_text.as_str());
                append_str(&mut v, " is not a measure a chart can plot");
                Some(string_of(&v))
            }
        },
    }
}

/// Appends `name` to `out` unless it is already there.
pub fn push_distinct(out: &mut Vec<String>, name: &str)
    ensures
        string_views(final(out)@) == if string_views(old(out)@).contains(name@) {
            string_views(old(out)@)
        } else {
            string_views(old(out)@).push(name@)
        },
{
    let ghost sv = string_views(out@);
    let mut i: usize = 0;
    while i < out.len()
        invariant
            i <= out@.len(),
            sv == string_views(out@),
            forall|k: int| 0 <= k < i ==> sv[k] != name@,
        decreases out@.len() - i,
    {
        if text_is(out[i].as_str(), name) {
            assert(sv[i as int] == name@);
            return;
        }
        i = i + 1;
    }
    assert(!sv.contains(name@));
    let t = crate::text::owned(name);
    proof {
        lemma_string_views_push(out@, t);
    }
    out.push(t);
}

/// What a rows chart reads, [`rows_plan`]: the projected names, or the refusal in this
/// module's words.
pub fn rows_request(cols: &[ChartColumn], x: Option<&str>, ys: &[String], series: Option<&str>) -> (r: Result<
    Vec<String>,
    String,
>)
    ensures
        match rows_plan(
            cols@,
            match x {
                Some(v) => Some(v@),
                None => None,
            },
            string_views(ys@),
            match series {
                Some(v) => Some(v@),
                None => None,
            },
        ) {
            Ok(names) => r matches Ok(v) && string_views(v@) == names,
            Err(e) => r matches Err(m) && m@ == e,
        },
{
    let ghost xs = match x {
        Some(v) => Some(v@),
        None => None,
    };
    let ghost ss = match series {
        Some(v) => Some(v@),
        None => None,
    };
    let ghost yv = string_views(ys@);
    if ys.len() == 0 {
        return Err(crate::text::owned("a chart needs at least one Y column"));
    }
    let mut i: usize = 0;
    while i < ys.len()
        invariant
            i <= ys@.len(),
            yv == string_views(ys@),
            ys_error(cols@, yv, 0) == ys_error(cols@, yv, i as int),
        decreases ys@.len() - i,
    {
        match plot_check(cols, ys[i].as_str()) {
            Some(e) => return Err(e),
            None => {},
        }
        i = i + 1;
    }
    if let Some(xn) = x {
        if column_at(cols, xn).is_none() {
            return Err(no_column(xn));
        }
    }
    if let Some(sn) = series {
        if column_at(cols, sn).is_none() {
            return Err(no_column(sn));
        }
        match x {
            None => {
                return Err(crate::text::owned("a series split needs an X column"));
            },
            Some(xn) => {
                if text_is(xn, sn) {
                    let mut v: Vec<char> = Vec::new();
                    append_str(&mut v, "'");
                    append_str(&mut v, sn);
                    append_str(&mut v, "' cannot be both the category and the series");
                    return Err(string_of(&v));
                }
            },
        }
    }
    let ghost all = opt_seq(xs) + opt_seq(ss) + yv;
    let mut out: Vec<String> = Vec::new();
    let ghost mut n: nat = 0;
    assert(string_views(out@) =~= distinct_prefix(all, 0));
    if let Some(xn) = x {
        assert(all[0] == xn@);
        push_distinct(&mut out, xn);
        proof {
            n = 1;
            assert(string_views(out@) == distinct_prefix(all, 1));
        }
    }
    if let Some(sn) = series {
        proof {
            assert(all[n as int] == sn@);
        }
        push_distinct(&mut out, sn);
        proof {
            n = n + 1;
            assert(string_views(out@) == distinct_prefix(all, n));
        }
    }
    let mut j: usize = 0;
    while j < ys.len()
        invariant
            j <= ys@.len(),
            yv == string_views(ys@),
            all == opt_seq(xs) + opt_seq(ss) + yv,
            n == opt_seq(xs).len() + opt_seq(ss).len(),
            string_views(out@) == distinct_prefix(all, (n + j) as nat),
        decreases ys@.len() - j,
    {
        assert(all[n + j] == yv[j as int]);
        push_distinct(&mut out, ys[j].as_str());
        j = j + 1;
    }
    Ok(out)
}

// ---- the long-to-wide pivot ------------------------------------------------------------------

/// Row `i` is the first row carrying its key.
pub open spec fn first_of(ids: Seq<u64>, i: int) -> bool {
    forall|j: int| 0 <= j < i ==> ids[j] != ids[i]
}

/// The rows among the first `n` that are each the first to carry their key: one per
/// distinct key, in order of first appearance.
pub open spec fn firsts(ids: Seq<u64>, n: nat) -> Seq<int>
    decreases n,
{
    if n == 0 {
        seq![]
    } else if first_of(ids, n - 1) {
        firsts(ids, (n - 1) as nat).push(n - 1)
    } else {
        firsts(ids, (n - 1) as nat)
    }
}

/// Two rows share both their category key and their series key.
pub open spec fn has_duplicate_cell(keys: Seq<u64>, split: Seq<u64>) -> bool {
    exists|a: int, b: int| 0 <= a < b < keys.len() && keys[a] == keys[b] && split[a] == split[b]
}

/// The layout of a pivot: one category per distinct key and one series slot per distinct
/// series key, each named by the first row that carried it, and for each slot and category
/// the row that fills that cell, if any.
pub struct Pivot {
    /// For each category, in order of first appearance, the first row with its key.
    pub categories: Vec<usize>,
    /// For each series slot, in order of first appearance, the first row with its key.
    pub slots: Vec<usize>,
    /// `cells[s][c]`: the row whose keys are those of slot `s` and category `c`.
    pub cells: Vec<Vec<Option<usize>>>,
}

pub open spec fn usize_ints(v: Seq<usize>) -> Seq<int> {
    v.map_values(|u: usize| u as int)
}

/// `p` is the pivot of the rows with category keys `keys` and series keys `split`.
pub open spec fn is_pivot(p: Pivot, keys: Seq<u64>, split: Seq<u64>) -> bool {
    &&& usize_ints(p.categories@) == firsts(keys, keys.len())
    &&& usize_ints(p.slots@) == firsts(split, split.len())
    &&& p.cells@.len() == p.slots@.len()
    &&& forall|s: int|
        0 <= s < p.cells@.len() ==> (#[trigger] p.cells@[s])@.len() == p.categories@.len()
    &&& forall|s: int, c: int|
        0 <= s < p.slots@.len() && 0 <= c < p.categories@.len() ==> match #[trigger] p.cells@[s]@[c] {
            Some(r) => r < keys.len() && keys[r as int] == keys[p.categories@[c] as int] && split[r as int]
                == split[p.slots@[s] as int],
            None => forall|r: int|
                #![trigger keys[r]]
                0 <= r < keys.len() ==> !(keys[r] == keys[p.categories@[c] as int] && split[r]
                    == split[p.slots@[s] as int]),
        }
}

proof fn lemma_firsts_bounds(ids: Seq<u64>, n: nat)
    requires
        n <= ids.len(),
    ensures
        forall|c: int|
            0 <= c < firsts(ids, n).len() ==> 0 <= #[trigger] firsts(ids, n)[c] < n && first_of(ids, firsts(ids, n)[c]),
        forall|a: int, b: int|
            0 <= a < b < firsts(ids, n).len() ==> #[trigger] firsts(ids, n)[a] < #[trigger] firsts(ids, n)[b],
    decreases n,
{
    if n > 0 {
        lemma_firsts_bounds(ids, (n - 1) as nat);
        let prev = firsts(ids, (n - 1) as nat);
        let cur = firsts(ids, n);
        if first_of(ids, n - 1) {
            assert(cur == prev.push(n - 1));
            assert forall|c: int| 0 <= c < cur.len() implies 0 <= #[trigger] cur[c] < n && first_of(ids, cur[c]) by {
                if c < prev.len() {
                    assert(cur[c] == prev[c]);
                }
            }
            assert forall|a: int, b: int| 0 <= a < b < cur.len() implies #[trigger] cur[a] < #[trigger] cur[b] by {
                assert(cur[a] == prev[a]);
                if b < prev.len() {
                    assert(cur[b] == prev[b]);
                }
            }
        } else {
            assert(cur == prev);
        }
    }
}

/// Finds the category of row `r` among `reps`, pushing `r` as a new one when its key is new.
fn place(ids: &[u64], reps: &mut Vec<usize>, r: usize, Ghost(at): Ghost<Seq<usize>>) -> (c: usize)
    requires
        r < ids@.len(),
        usize_ints(old(reps)@) == firsts(ids@, r as nat),
        at.len() == r,
        forall|j: int| 0 <= j < r ==> (#[trigger] at[j]) < old(reps)@.len() && ids@[old(reps)@[at[j] as int] as int] == ids@[j],
    ensures
        usize_ints(final(reps)@) == firsts(ids@, (r + 1) as nat),
        c < final(reps)@.len(),
        ids@[final(reps)@[c as int] as int] == ids@[r as int],
        final(reps)@.len() >= old(reps)@.len(),
        forall|k: int| 0 <= k < old(reps)@.len() ==> final(reps)@[k] == old(reps)@[k],
{
    proof {
        lemma_firsts_bounds(ids@, r as nat);
    }
    let ghost f = firsts(ids@, r as nat);
    let mut c: usize = 0;
    while c < reps.len()
        invariant
            c <= reps@.len(),
            r < ids@.len(),
            f == firsts(ids@, r as nat),
            usize_ints(reps@) == f,
            forall|k: int| 0 <= k < c ==> ids@[reps@[k] as int] != ids@[r as int],
        decreases reps@.len() - c,
    {
        proof {
            lemma_firsts_bounds(ids@, r as nat);
        }
        assert(usize_ints(reps@)[c as int] == reps@[c as int] as int);
        assert(usize_ints(reps@).len() == reps@.len());
        assert(firsts(ids@, r as nat)[c as int] < r);
        if ids[reps[c]] == ids[r] {
            proof {
                assert(f[c as int] < r);
                assert(!first_of(ids@, r as int));
            }
            return c;
        }
        c = c + 1;
    }
    proof {
        assert forall|j: int| 0 <= j < r implies ids@[j] != ids@[r as int] by {
            let k = at[j] as int;
            assert(usize_ints(reps@)[k] == reps@[k] as int);
        }
        assert(first_of(ids@, r as int));
    }
    reps.push(r);
    proof {
        assert(usize_ints(reps@) =~= f.push(r as int));
    }
    c
}

/// The long-to-wide pivot of rows with category keys `keys` and series keys `split`
/// ([`is_pivot`]), or `None` when two rows fall in one cell ([`has_duplicate_cell`]):
/// merging them is the query's job, so the chart refuses instead.
pub fn pivot(keys: &[u64], split: &[u64]) -> (r: Option<Pivot>)
    requires
        keys@.len() == split@.len(),
    ensures
        match r {
            Some(p) => !has_duplicate_cell(keys@, split@) && is_pivot(p, keys@, split@),
            None => has_duplicate_cell(keys@, split@),
        },
{
    let n = keys.len();
    let mut categories: Vec<usize> = Vec::new();
    let mut slots: Vec<usize> = Vec::new();
    let mut of_row: Vec<(usize, usize)> = Vec::new();
    assert(usize_ints(categories@) =~= firsts(keys@, 0));
    assert(usize_ints(slots@) =~= firsts(split@, 0));
    let mut r: usize = 0;
    while r < n
        invariant
            n == keys@.len(),
            n == split@.len(),
            r <= n,
            of_row@.len() == r,
            usize_ints(categories@) == firsts(keys@, r as nat),
            usize_ints(slots@) == firsts(split@, r as nat),
            forall|j: int|
                0 <= j < r ==> (#[trigger] of_row@[j]).0 < categories@.len() && keys@[categories@[of_row@[j].0 as int] as int]
                    == keys@[j] && of_row@[j].1 < slots@.len() && split@[slots@[of_row@[j].1 as int] as int] == split@[j],
            forall|a: int, b: int| 0 <= a < b < r ==> !(keys@[a] == keys@[b] && split@[a] == split@[b]),
        decreases n - r,
    {
        let ghost at_c = of_row@.map_values(|p: (usize, usize)| p.0);
        let ghost at_s = of_row@.map_values(|p: (usize, usize)| p.1);
        let ghost old_cats = categories@;
        let ghost old_slots = slots@;
        let c = place(keys, &mut categories, r, Ghost(at_c));
        let s = place(split, &mut slots, r, Ghost(at_s));
        let mut j: usize = 0;
        while j < r
            invariant
                j <= r,
                r < n,
                n == keys@.len(),
                n == split@.len(),
                forall|a: int| 0 <= a < j ==> !(keys@[a] == keys@[r as int] && split@[a] == split@[r as int]),
            decreases r - j,
        {
            if keys[j] == keys[r] && split[j] == split[r] {
                return None;
            }
            j = j + 1;
        }
        of_row.push((c, s));
        proof {
            assert forall|q: int| 0 <= q < r + 1 implies (#[trigger] of_row@[q]).0 < categories@.len() && keys@[categories@[of_row@[q].0 as int] as int]
                == keys@[q] && of_row@[q].1 < slots@.len() && split@[slots@[of_row@[q].1 as int] as int] == split@[q] by {
                if q < r {
                    assert(of_row@[q].0 == at_c[q]);
                    assert(of_row@[q].1 == at_s[q]);
                    assert(categories@[of_row@[q].0 as int] == old_cats[of_row@[q].0 as int]);
                    assert(slots@[of_row@[q].1 as int] == old_slots[of_row@[q].1 as int]);
                }
            }
        }
        r = r + 1;
    }
    let mut cells: Vec<Vec<Option<usize>>> = Vec::new();
    let mut s: usize = 0;
    while s < slots.len()
        invariant
            n == keys@.len(),
            n == split@.len(),
            of_row@.len() == n,
            forall|j: int|
                0 <= j < n ==> (#[trigger] of_row@[j]).0 < categories@.len() && keys@[categories@[of_row@[j].0 as int] as int]
                    == keys@[j] && of_row@[j].1 < slots@.len() && split@[slots@[of_row@[j].1 as int] as int] == split@[j],
            usize_ints(categories@) == firsts(keys@, n as nat),
            usize_ints(slots@) == firsts(split@, n as nat),
            s <= slots@.len(),
            cells@.len() == s,
            forall|t: int| 0 <= t < s ==> (#[trigger] cells@[t])@.len() == categories@.len(),
            forall|t: int, c: int|
                0 <= t < s && 0 <= c < categories@.len() ==> match #[trigger] cells@[t]@[c] {
                    Some(w) => w < n && keys@[w as int] == keys@[categories@[c] as int] && split@[w as int]
                        == split@[slots@[t] as int],
                    None => forall|w: int|
                        #![trigger keys@[w]]
                        0 <= w < n ==> !(keys@[w] == keys@[categories@[c] as int] && split@[w]
                            == split@[slots@[t] as int]),
                },
        decreases slots@.len() - s,
    {
        let row = fill_slot(keys, split, &categories, &slots, &of_row, s);
        cells.push(row);
        s = s + 1;
    }
    proof {
        lemma_firsts_bounds(keys@, n as nat);
        lemma_firsts_bounds(split@, n as nat);
    }
    Some(Pivot { categories, slots, cells })
}

/// The cells of slot `s`: for each category, the row carrying both keys.
fn fill_slot(
    keys: &[u64],
    split: &[u64],
    categories: &Vec<usize>,
    slots: &Vec<usize>,
    of_row: &Vec<(usize, usize)>,
    s: usize,
) -> (row: Vec<Option<usize>>)
    requires
        keys@.len() == split@.len(),
        of_row@.len() == keys@.len(),
        s < slots@.len(),
        forall|j: int|
            0 <= j < keys@.len() ==> (#[trigger] of_row@[j]).0 < categories@.len() && keys@[categories@[of_row@[j].0 as int] as int]
                == keys@[j] && of_row@[j].1 < slots@.len() && split@[slots@[of_row@[j].1 as int] as int] == split@[j],
        usize_ints(categories@) == firsts(keys@, keys@.len()),
        usize_ints(slots@) == firsts(split@, split@.len()),
    ensures
        row@.len() == categories@.len(),
        forall|c: int|
            0 <= c < categories@.len() ==> match #[trigger] row@[c] {
                Some(w) => w < keys@.len() && keys@[w as int] == keys@[categories@[c] as int] && split@[w as int]
                    == split@[slots@[s as int] as int],
                None => forall|w: int|
                    #![trigger keys@[w]]
                    0 <= w < keys@.len() ==> !(keys@[w] == keys@[categories@[c] as int] && split@[w]
                        == split@[slots@[s as int] as int]),
            },
{
    let n = keys.len();
    proof {
        lemma_firsts_bounds(keys@, n as nat);
        lemma_firsts_bounds(split@, n as nat);
        lemma_firsts_distinct(keys@, n as nat);
        lemma_firsts_distinct(split@, n as nat);
        assert forall|a: int, b: int| 0 <= a < b < categories@.len() implies keys@[categories@[a] as int] != keys@[categories@[b] as int] by {
            assert(usize_ints(categories@)[a] == categories@[a] as int);
            assert(usize_ints(categories@)[b] == categories@[b] as int);
        }
        assert forall|a: int, b: int| 0 <= a < b < slots@.len() implies split@[slots@[a] as int] != split@[slots@[b] as int] by {
            assert(usize_ints(slots@)[a] == slots@[a] as int);
            assert(usize_ints(slots@)[b] == slots@[b] as int);
        }
    }
    let mut row: Vec<Option<usize>> = Vec::new();
    let mut c: usize = 0;
    while c < categories.len()
        invariant
            c <= categories@.len(),
            row@.len() == c,
            forall|q: int| 0 <= q < c ==> (#[trigger] row@[q]) is None,
        decreases categories@.len() - c,
    {
        row.push(None);
        c = c + 1;
    }
    let mut r: usize = 0;
    while r < n
        invariant
            n == keys@.len(),
            n == split@.len(),
            r <= n,
            of_row@.len() == n,
            row@.len() == categories@.len(),
            s < slots@.len(),
            forall|j: int|
                0 <= j < n ==> (#[trigger] of_row@[j]).0 < categories@.len() && keys@[categories@[of_row@[j].0 as int] as int]
                    == keys@[j] && of_row@[j].1 < slots@.len() && split@[slots@[of_row@[j].1 as int] as int] == split@[j],
            usize_ints(categories@) == firsts(keys@, n as nat),
            usize_ints(slots@) == firsts(split@, n as nat),
            forall|a: int, b: int| 0 <= a < b < categories@.len() ==> keys@[categories@[a] as int] != keys@[categories@[b] as int],
            forall|a: int, b: int| 0 <= a < b < slots@.len() ==> split@[slots@[a] as int] != split@[slots@[b] as int],
            forall|c: int|
                0 <= c < categories@.len() ==> match #[trigger] row@[c] {
                    Some(w) => w < n && keys@[w as int] == keys@[categories@[c] as int] && split@[w as int]
                        == split@[slots@[s as int] as int],
                    None => forall|w: int|
                        #![trigger keys@[w]]
                        0 <= w < r ==> !(keys@[w] == keys@[categories@[c] as int] && split@[w]
                            == split@[slots@[s as int] as int]),
                },
        decreases n - r,
    {
        let (cat, sl) = of_row[r];
        proof {
            let _ = of_row@[r as int];
        }
        if sl == s {
            row.set(cat, Some(r));
        }
        proof {
            assert forall|c: int| 0 <= c < categories@.len() implies match #[trigger] row@[c] {
                Some(w) => w < n && keys@[w as int] == keys@[categories@[c] as int] && split@[w as int]
                    == split@[slots@[s as int] as int],
                None => forall|w: int|
                    #![trigger keys@[w]]
                    0 <= w < r + 1 ==> !(keys@[w] == keys@[categories@[c] as int] && split@[w]
                        == split@[slots@[s as int] as int]),
            } by {
                if row@[c] is None {
                    assert forall|w: int| #![trigger keys@[w]] 0 <= w < r + 1 implies !(keys@[w] == keys@[categories@[c] as int] && split@[w]
                        == split@[slots@[s as int] as int]) by {
                        if w == r {
                            if keys@[w] == keys@[categories@[c] as int] && split@[w] == split@[slots@[s as int] as int] {
                                // row r lands in its own category and slot
                                if cat as int != c {
                                    if (cat as int) < c {
                                        assert(keys@[categories@[cat as int] as int] != keys@[categories@[c] as int]);
                                    } else {
                                        assert(keys@[categories@[c] as int] != keys@[categories@[cat as int] as int]);
                                    }
                                }
                                if sl as int != s as int {
                                    if (sl as int) < (s as int) {
                                        assert(split@[slots@[sl as int] as int] != split@[slots@[s as int] as int]);
                                    } else {
                                        assert(split@[slots@[s as int] as int] != split@[slots@[sl as int] as int]);
                                    }
                                }
                            }
                        }
                    }
                }
            }
        }
        r = r + 1;
    }
    row
}

proof fn lemma_firsts_distinct(ids: Seq<u64>, n: nat)
    requires
        n <= ids.len(),
    ensures
        forall|a: int, b: int|
            0 <= a < b < firsts(ids, n).len() ==> ids[#[trigger] firsts(ids, n)[a]] != ids[#[trigger] firsts(ids, n)[b]],
{
    lemma_firsts_bounds(ids, n);
    let f = firsts(ids, n);
    assert forall|a: int, b: int| 0 <= a < b < f.len() implies ids[#[trigger] f[a]] != ids[#[trigger] f[b]] by {
        assert(f[a] < f[b]);
        assert(first_of(ids, f[b]));
        assert(ids[f[a]] != ids[f[b]]);
    }
}

// ---- legends and axes ------------------------------------------------------------------------

/// The legend name of one pivoted series: the series value alone when there is one Y,
/// otherwise the series value and the Y it carries.
pub open spec fn legend(slot_label: Seq<char>, y: Seq<char>, single: bool) -> Seq<char> {
    if single {
        slot_label
    } else {
        slot_label + ": "@ + y
    }
}

/// The legend names of the pivoted series for the first `n` Ys: for each Y in order, one per
/// series value in order.
pub open spec fn legends(labels: Seq<Seq<char>>, ys: Seq<Seq<char>>, n: nat, single: bool) -> Seq<Seq<char>>
    decreases n,
{
    if n == 0 {
        seq![]
    } else {
        legends(labels, ys, (n - 1) as nat, single) + labels.map_values(
            |l: Seq<char>| legend(l, ys[n - 1], single),
        )
    }
}

/// The names of the pivoted series, [`legends`], for every Y over the slots' labels.
pub fn series_names(ys: &[String], slot_labels: &[String]) -> (r: Vec<String>)
    ensures
        string_views(r@) == legends(string_views(slot_labels@), string_views(ys@), ys@.len(), ys@.len() == 1),
{
    let ghost lv = string_views(slot_labels@);
    let ghost yv = string_views(ys@);
    let single = ys.len() == 1;
    let mut out: Vec<String> = Vec::new();
    assert(string_views(out@) =~= legends(lv, yv, 0, single));
    for a in 0..ys.len()
        invariant
            lv == string_views(slot_labels@),
            yv == string_views(ys@),
            single == (ys@.len() == 1),
            string_views(out@) == legends(lv, yv, a as nat, single),
    {
        let ghost before = string_views(out@);
        for k in 0..slot_labels.len()
            invariant
                lv == string_views(slot_labels@),
                yv == string_views(ys@),
                a < ys@.len(),
                string_views(out@) == before + lv.take(k as int).map_values(|l: Seq<char>| legend(l, yv[a as int], single)),
        {
            let name = if single {
                crate::text::owned(slot_labels[k].as_str())
            } else {
                let mut v: Vec<char> = Vec::new();
                append_str(&mut v, slot_labels[k].as_str());
                append_str(&mut v, ": ");
                append_str(&mut v, ys[a].as_str());
                string_of(&v)
            };
            proof {
                lemma_string_views_push(out@, name);
                assert(lv[k as int] == slot_labels@[k as int]@);
                assert(yv[a as int] == ys@[a as int]@);
                assert(lv.take(k + 1).map_values(|l: Seq<char>| legend(l, yv[a as int], single)) =~= lv.take(
                    k as int,
                ).map_values(|l: Seq<char>| legend(l, yv[a as int], single)).push(legend(lv[k as int], yv[a as int], single)));
            }
            out.push(name);
        }
        assert(lv.take(lv.len() as int) =~= lv);
    }
    out
}

/// How many rows a rows chart reads under `cap`: one more than it may draw, so that a
/// result past the cap is told apart from one that fills it exactly.
pub fn rows_fetch_limit(cap: usize) -> (r: usize)
    ensures
        r == if cap < usize::MAX { cap + 1 } else { cap as int },
{
    cap.saturating_add(1)
}

/// Whether the `fetched` rows of a rows chart are past its `cap`: such a result is answered
/// with the cap, never drawn in part.
pub fn over_cap(fetched: usize, cap: usize) -> (r: bool)
    ensures
        r == (fetched > cap),
{
    fetched > cap
}

/// The axis labels of a chart with no X column: the row number, counted from 1 like the
/// grid's gutter.
pub fn row_index_labels(rows: usize) -> (r: Vec<String>)
    ensures
        r@.len() == rows,
        forall|i: int| 0 <= i < rows ==> (#[trigger] r@[i])@ == decimal((i + 1) as nat),
{
    let mut out: Vec<String> = Vec::new();
    for i in 0..rows
        invariant
            out@.len() == i,
            forall|k: int| 0 <= k < i ==> (#[trigger] out@[k])@ == decimal((k + 1) as nat),
    {
        let mut v: Vec<char> = Vec::new();
        push_decimal(&mut v, (i + 1) as u64);
        assert(v@ =~= decimal((i + 1) as nat));
        out.push(string_of(&v));
    }
    out
}

// ---- histogram counts ------------------------------------------------------------------------

/// The bin a measured index lands in: itself, or the last bin for the range's top edge,
/// which divides out to exactly the bin count.
pub open spec fn clamp_bin(at: usize, bins: usize) -> int {
    if at < bins {
        at as int
    } else {
        bins - 1
    }
}

/// What bin `b` counts from the first `n` `(index, rows)` entries: the rows of each entry
/// that lands in it, a negative count counting as none.
pub open spec fn bin_total(entries: Seq<(usize, i64)>, bins: usize, b: int, n: nat) -> int
    decreases n,
{
    if n == 0 {
        0
    } else {
        let e = entries[n - 1];
        bin_total(entries, bins, b, (n - 1) as nat) + if clamp_bin(e.0, bins) == b && e.1 > 0 {
            e.1 as int
        } else {
            0
        }
    }
}

proof fn lemma_bin_total_grows(entries: Seq<(usize, i64)>, bins: usize, b: int, k: nat, m: nat)
    requires
        k <= m,
    ensures
        0 <= bin_total(entries, bins, b, k) <= bin_total(entries, bins, b, m),
    decreases m,
{
    if k < m {
        lemma_bin_total_grows(entries, bins, b, k, (m - 1) as nat);
    } else if m > 0 {
        lemma_bin_total_grows(entries, bins, b, (m - 1) as nat, (m - 1) as nat);
    }
}

/// The histogram's counts, bin by bin ([`bin_total`]), from the grouped `(bin index, rows)`
/// pairs of its second pass.
pub fn tally_bins(bins: usize, entries: &[(usize, i64)]) -> (r: Vec<u64>)
    requires
        bins >= 1,
        forall|b: int| 0 <= b < bins ==> #[trigger] bin_total(entries@, bins, b, entries@.len()) <= u64::MAX,
    ensures
        r@.len() == bins,
        forall|b: int| 0 <= b < bins ==> r@[b] == #[trigger] bin_total(entries@, bins, b, entries@.len()),
{
    let mut binned: Vec<u64> = Vec::new();
    for b in 0..bins
        invariant
            binned@.len() == b,
            forall|q: int| 0 <= q < b ==> binned@[q] == 0,
    {
        binned.push(0);
    }
    let mut k: usize = 0;
    while k < entries.len()
        invariant
            k <= entries@.len(),
            bins >= 1,
            binned@.len() == bins,
            forall|b: int| 0 <= b < bins ==> #[trigger] bin_total(entries@, bins, b, entries@.len()) <= u64::MAX,
            forall|b: int| 0 <= b < bins ==> binned@[b] == #[trigger] bin_total(entries@, bins, b, k as nat),
        decreases entries@.len() - k,
    {
        let (at, n) = entries[k];
        let b: usize = if at < bins { at } else { bins - 1 };
        let ghost before = binned@;
        proof {
            assert(entries@[k as int] == (at, n));
            assert(clamp_bin(at, bins) == b as int);
            assert forall|q: int| 0 <= q < bins implies #[trigger] bin_total(entries@, bins, q, (k + 1) as nat)
                == bin_total(entries@, bins, q, k as nat) + (if q == b as int && n > 0 { n as int } else { 0 }) by {}
        }
        if n > 0 {
            proof {
                lemma_bin_total_grows(entries@, bins, b as int, (k + 1) as nat, entries@.len());
                assert(before[b as int] == bin_total(entries@, bins, b as int, k as nat));
            }
            binned.set(b, binned[b] + n as u64);
        }
        proof {
            assert forall|q: int| 0 <= q < bins implies binned@[q] == #[trigger] bin_total(entries@, bins, q, (k + 1) as nat) by {
                assert(before[q] == bin_total(entries@, bins, q, k as nat));
            }
        }
        let ghost done = (k + 1) as nat;
        k = k + 1;
        assert(k as nat == done);
    }
    binned
}

/// **No row goes missing in a pivot**: every row of a pivot without duplicate cells fills
/// exactly the cell of its own category and series slot.
pub proof fn law_pivot_keeps_every_row(p: Pivot, keys: Seq<u64>, split: Seq<u64>, r: int)
    requires
        keys.len() == split.len(),
        !has_duplicate_cell(keys, split),
        is_pivot(p, keys, split),
        0 <= r < keys.len(),
    ensures
        exists|s: int, c: int|
            0 <= s < p.slots@.len() && 0 <= c < p.categories@.len() && #[trigger] p.cells@[s]@[c] == Some(r as usize),
{
    lemma_firsts_bounds(keys, keys.len());
    lemma_firsts_bounds(split, split.len());
    let fk = firsts(keys, keys.len());
    let fs = firsts(split, split.len());
    let c = first_index_with(keys, fk, r);
    let s = first_index_with(split, fs, r);
    assert(usize_ints(p.categories@)[c] == p.categories@[c] as int);
    assert(usize_ints(p.slots@)[s] == p.slots@[s] as int);
    match p.cells@[s]@[c] {
        Some(w) => {
            if w as int != r {
                if (w as int) < r {
                    assert(keys[w as int] == keys[r] && split[w as int] == split[r]);
                } else {
                    assert(keys[r] == keys[w as int] && split[r] == split[w as int]);
                }
            }
        },
        None => {},
    }
}

/// The position in `f` (the first rows of each key) of the key row `r` carries.
proof fn first_index_with(ids: Seq<u64>, f: Seq<int>, r: int) -> (c: int)
    requires
        f == firsts(ids, ids.len()),
        0 <= r < ids.len(),
    ensures
        0 <= c < f.len(),
        ids[f[c]] == ids[r],
{
    lemma_firsts_cover(ids, ids.len(), r);
    choose|c: int| 0 <= c < f.len() && ids[#[trigger] f[c]] == ids[r]
}

proof fn lemma_firsts_cover(ids: Seq<u64>, n: nat, r: int)
    requires
        n <= ids.len(),
        0 <= r < n,
    ensures
        exists|c: int| 0 <= c < firsts(ids, n).len() && ids[#[trigger] firsts(ids, n)[c]] == ids[r],
    decreases n,
{
    let cur = firsts(ids, n);
    if r < n - 1 {
        lemma_firsts_cover(ids, (n - 1) as nat, r);
        let prev = firsts(ids, (n - 1) as nat);
        let c = choose|c: int| 0 <= c < prev.len() && ids[#[trigger] prev[c]] == ids[r];
        if first_of(ids, n - 1) {
            assert(cur[c] == prev[c]);
        }
    } else {
        if first_of(ids, n - 1) {
            assert(cur[cur.len() - 1] == n - 1);
        } else {
            let j = choose|j: int| 0 <= j < n - 1 && #[trigger] ids[j] == ids[n - 1];
            lemma_firsts_cover(ids, (n - 1) as nat, j);
            let prev = firsts(ids, (n - 1) as nat);
            let c = choose|c: int| 0 <= c < prev.len() && ids[#[trigger] prev[c]] == ids[j];
            assert(cur[c] == prev[c]);
        }
    }
}

/// The rows the first `n` `(index, rows)` entries carry, a negative count as none.
pub open spec fn entries_total(entries: Seq<(usize, i64)>, n: nat) -> int
    decreases n,
{
    if n == 0 {
        0
    } else {
        entries_total(entries, (n - 1) as nat) + if entries[n - 1].1 > 0 {
            entries[n - 1].1 as int
        } else {
            0
        }
    }
}

/// The counts of bins `0..b`.
pub open spec fn bins_sum(entries: Seq<(usize, i64)>, bins: usize, b: nat, n: nat) -> int
    decreases b,
{
    if b == 0 {
        0
    } else {
        bins_sum(entries, bins, (b - 1) as nat, n) + bin_total(entries, bins, b - 1, n)
    }
}

proof fn lemma_bins_sum_step(entries: Seq<(usize, i64)>, bins: usize, b: nat, n: nat)
    requires
        bins >= 1,
        b <= bins,
        n <= entries.len(),
        n > 0,
    ensures
        bins_sum(entries, bins, b, n) == bins_sum(entries, bins, b, (n - 1) as nat) + if clamp_bin(
            entries[n - 1].0,
            bins,
        ) < b && entries[n - 1].1 > 0 {
            entries[n - 1].1 as int
        } else {
            0
        },
    decreases b,
{
    if b > 0 {
        lemma_bins_sum_step(entries, bins, (b - 1) as nat, n);
    }
}

/// **A histogram loses no row**: its bins together count every row of every entry, the last
/// bin taking the top edge.
pub proof fn law_bins_lose_no_row(entries: Seq<(usize, i64)>, bins: usize)
    requires
        bins >= 1,
    ensures
        bins_sum(entries, bins, bins as nat, entries.len()) == entries_total(entries, entries.len()),
{
    lemma_bins_total_upto(entries, bins, entries.len());
}

proof fn lemma_bins_total_upto(entries: Seq<(usize, i64)>, bins: usize, n: nat)
    requires
        bins >= 1,
        n <= entries.len(),
    ensures
        bins_sum(entries, bins, bins as nat, n) == entries_total(entries, n),
    decreases n,
{
    if n == 0 {
        lemma_bins_sum_zero(entries, bins, bins as nat);
    } else {
        lemma_bins_total_upto(entries, bins, (n - 1) as nat);
        lemma_bins_sum_step(entries, bins, bins as nat, n);
    }
}

proof fn lemma_bins_sum_zero(entries: Seq<(usize, i64)>, bins: usize, b: nat)
    ensures
        bins_sum(entries, bins, b, 0) == 0,
    decreases b,
{
    if b > 0 {
        lemma_bins_sum_zero(entries, bins, (b - 1) as nat);
    }
}

} // verus!
