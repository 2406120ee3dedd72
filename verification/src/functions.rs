//! The function catalogue's overload lists: each function's overloads as parameter-label
//! lists, once each, shortest first and then in label order, with the registry's parameter
//! names applied to the overloads of matching arity.

use vstd::prelude::*;

use crate::json_infer::{key_less, key_lt, lemma_key_lt_total, lemma_key_lt_transitive};
use crate::text::{chars_of, same_chars};

verus! {

/// An overload's labels as character sequences.
pub open spec fn labels_of(o: Vec<String>) -> Seq<Seq<char>> {
    o@.map_values(|s: String| s@)
}

/// A list of overloads as label sequences.
pub open spec fn overloads_of(v: Seq<Vec<String>>) -> Seq<Seq<Seq<char>>> {
    v.map_values(|o: Vec<String>| labels_of(o))
}

/// Label order: label by label, each in code-point order — a prefix first.
pub open spec fn labels_lt(a: Seq<Seq<char>>, b: Seq<Seq<char>>) -> bool
    decreases a.len(),
{
    if a.len() == 0 {
        b.len() > 0
    } else if b.len() == 0 {
        false
    } else if a[0] != b[0] {
        key_lt(a[0], b[0])
    } else {
        labels_lt(a.drop_first(), b.drop_first())
    }
}

/// Overload order: fewer parameters first, then label order.
pub open spec fn overload_lt(a: Seq<Seq<char>>, b: Seq<Seq<char>>) -> bool {
    a.len() < b.len() || (a.len() == b.len() && labels_lt(a, b))
}

/// `s` in strictly increasing overload order — so nothing in it occurs twice.
pub open spec fn strictly_sorted(s: Seq<Seq<Seq<char>>>) -> bool {
    forall|i: int, j: int| 0 <= i < j < s.len() ==> overload_lt(#[trigger] s[i], #[trigger] s[j])
}

proof fn lemma_labels_lt_irreflexive(a: Seq<Seq<char>>)
    ensures
        !labels_lt(a, a),
    decreases a.len(),
{
    if a.len() > 0 {
        lemma_labels_lt_irreflexive(a.drop_first());
    }
}

proof fn lemma_labels_lt_total(a: Seq<Seq<char>>, b: Seq<Seq<char>>)
    ensures
        a == b || labels_lt(a, b) || labels_lt(b, a),
        !(labels_lt(a, b) && labels_lt(b, a)),
    decreases a.len(),
{
    if a.len() > 0 && b.len() > 0 {
        lemma_key_lt_total(a[0], b[0]);
        lemma_labels_lt_total(a.drop_first(), b.drop_first());
        if a[0] == b[0] && a.drop_first() == b.drop_first() {
            assert(a =~= seq![a[0]] + a.drop_first());
            assert(b =~= seq![b[0]] + b.drop_first());
        }
    } else if a.len() == 0 && b.len() == 0 {
        assert(a =~= b);
    }
}

proof fn lemma_labels_lt_transitive(a: Seq<Seq<char>>, b: Seq<Seq<char>>, c: Seq<Seq<char>>)
    requires
        labels_lt(a, b),
        labels_lt(b, c),
    ensures
        labels_lt(a, c),
    decreases a.len(),
{
    if a.len() > 0 && b.len() > 0 && c.len() > 0 {
        if a[0] == b[0] && b[0] == c[0] {
            lemma_labels_lt_transitive(a.drop_first(), b.drop_first(), c.drop_first());
        } else if a[0] != b[0] && b[0] != c[0] {
            lemma_key_lt_transitive(a[0], b[0], c[0]);
            if a[0] == c[0] {
                lemma_key_lt_total(a[0], b[0]);
            }
        } else if a[0] == b[0] {
            // b[0] != c[0]: a[0] < c[0] directly
        } else {
            // a[0] != b[0] == c[0]
        }
    }
}

/// Overload order is a strict total order.
pub proof fn lemma_overload_order(a: Seq<Seq<char>>, b: Seq<Seq<char>>, c: Seq<Seq<char>>)
    ensures
        !overload_lt(a, a),
        a == b || overload_lt(a, b) || overload_lt(b, a),
        !(overload_lt(a, b) && overload_lt(b, a)),
        overload_lt(a, b) && overload_lt(b, c) ==> overload_lt(a, c),
{
    lemma_labels_lt_irreflexive(a);
    lemma_labels_lt_total(a, b);
    if overload_lt(a, b) && overload_lt(b, c) && a.len() == b.len() && b.len() == c.len() {
        lemma_labels_lt_transitive(a, b, c);
    }
}

fn same_labels(a: &Vec<String>, b: &Vec<String>) -> (r: bool)
    ensures
        r == (labels_of(*a) == labels_of(*b)),
{
    if a.len() != b.len() {
        return false;
    }
    let mut i: usize = 0;
    while i < a.len()
        invariant
            i <= a@.len(),
            a@.len() == b@.len(),
            forall|j: int| 0 <= j < i ==> a@[j]@ == b@[j]@,
        decreases a@.len() - i,
    {
        let x = chars_of(a[i].as_str());
        let y = chars_of(b[i].as_str());
        if !same_chars(&x, &y) {
            assert(labels_of(*a)[i as int] != labels_of(*b)[i as int]);
            return false;
        }
        i = i + 1;
    }
    assert(labels_of(*a) =~= labels_of(*b));
    true
}

fn labels_less(a: &Vec<String>, b: &Vec<String>) -> (r: bool)
    ensures
        r == labels_lt(labels_of(*a), labels_of(*b)),
{
    let ghost la = labels_of(*a);
    let ghost lb = labels_of(*b);
    let mut i: usize = 0;
    assert(la.skip(0) =~= la);
    assert(lb.skip(0) =~= lb);
    while i < a.len() && i < b.len()
        invariant
            i <= a@.len(),
            i <= b@.len(),
            la == labels_of(*a),
            lb == labels_of(*b),
            labels_lt(la, lb) == labels_lt(la.skip(i as int), lb.skip(i as int)),
        decreases a@.len() - i,
    {
        assert(la.skip(i as int)[0] == la[i as int]);
        assert(lb.skip(i as int)[0] == lb[i as int]);
        let x = chars_of(a[i].as_str());
        let y = chars_of(b[i].as_str());
        if !same_chars(&x, &y) {
            return key_less(a[i].as_str(), b[i].as_str());
        }
        assert(la.skip(i as int).drop_first() =~= la.skip(i + 1));
        assert(lb.skip(i as int).drop_first() =~= lb.skip(i + 1));
        i = i + 1;
    }
    i < b.len()
}

fn overload_less(a: &Vec<String>, b: &Vec<String>) -> (r: bool)
    ensures
        r == overload_lt(labels_of(*a), labels_of(*b)),
{
    a.len() < b.len() || (a.len() == b.len() && labels_less(a, b))
}

fn copy_labels(o: &Vec<String>) -> (r: Vec<String>)
    ensures
        labels_of(r) == labels_of(*o),
{
    let mut r: Vec<String> = Vec::new();
    let mut i: usize = 0;
    while i < o.len()
        invariant
            i <= o@.len(),
            r@.len() == i,
            forall|j: int| 0 <= j < i ==> r@[j]@ == o@[j]@,
        decreases o@.len() - i,
    {
        r.push(o[i].clone());
        i = i + 1;
    }
    assert(labels_of(r) =~= labels_of(*o));
    r
}

/// Inserts `o` into the strictly sorted `out` at its place, unless it is already there.
fn insert_sorted(out: &mut Vec<Vec<String>>, o: &Vec<String>)
    requires
        strictly_sorted(overloads_of(old(out)@)),
    ensures
        strictly_sorted(overloads_of(final(out)@)),
        forall|x: Seq<Seq<char>>|
            overloads_of(final(out)@).contains(x) <==> (overloads_of(old(out)@).contains(x) || x == labels_of(*o)),
{
    let ghost s = overloads_of(out@);
    let ghost lo = labels_of(*o);
    let mut i: usize = 0;
    let mut stop = false;
    while i < out.len() && !stop
        invariant
            i <= out@.len(),
            s == overloads_of(out@),
            lo == labels_of(*o),
            strictly_sorted(s),
            stop ==> i < s.len() && overload_lt(lo, s[i as int]),
            forall|k: int| 0 <= k < i ==> overload_lt(#[trigger] s[k], lo),
        decreases (out@.len() - i) * 2 + (if stop { 0int } else { 1int }),
    {
        assert(s[i as int] == labels_of(out@[i as int]));
        if same_labels(&out[i], o) {
            assert(s.contains(lo));
            return;
        }
        if !overload_less(&out[i], o) {
            proof {
                lemma_overload_order(s[i as int], lo, s[i as int]);
            }
            stop = true;
        } else {
            i = i + 1;
        }
    }
    proof {
        if i < s.len() {
            assert forall|k: int| i <= k < s.len() implies overload_lt(lo, #[trigger] s[k]) by {
                if k > i {
                    lemma_overload_order(lo, s[i as int], s[k]);
                }
            }
        }
    }
    let c = copy_labels(o);
    out.insert(i, c);
    proof {
        let t = overloads_of(out@);
        assert(t =~= s.insert(i as int, lo));
        assert forall|a: int, b: int| 0 <= a < b < t.len() implies overload_lt(#[trigger] t[a], #[trigger] t[b]) by {
            if b < i {
            } else if a < i && b == i {
            } else if a < i && b > i {
                assert(t[b] == s[b - 1]);
                lemma_overload_order(s[a], lo, s[b - 1]);
            } else if a == i {
                assert(t[b] == s[b - 1]);
            } else {
                assert(t[a] == s[a - 1]);
                assert(t[b] == s[b - 1]);
            }
        }
        assert forall|x: Seq<Seq<char>>| t.contains(x) <==> (s.contains(x) || x == lo) by {
            if t.contains(x) {
                let k = choose|k: int| 0 <= k < t.len() && t[k] == x;
                if k < i {
                    assert(s[k] == x);
                } else if k > i {
                    assert(s[k - 1] == x);
                }
            }
            if s.contains(x) {
                let k = choose|k: int| 0 <= k < s.len() && s[k] == x;
                if k < i {
                    assert(t[k] == x);
                } else {
                    assert(t[k + 1] == x);
                }
            }
            if x == lo {
                assert(t[i as int] == x);
            }
        }
    }
}

/// The overload list the catalogue shows for `overloads`: each overload once, in
/// [`overload_lt`] order — the one strictly sorted list with exactly those overloads — then
/// `parameter_names`, when the registry gives them, in place of every overload of their arity.
pub fn signatures(overloads: &[Vec<String>], parameter_names: Option<&Vec<String>>) -> (r: Vec<Vec<String>>)
    ensures
        ({
            let s = overloads_of(overloads@);
            let t = overloads_of(r@);
            exists|sorted: Seq<Seq<Seq<char>>>|
                #![trigger sorted.len()]
                strictly_sorted(sorted) && (forall|x: Seq<Seq<char>>| sorted.contains(x) <==> s.contains(x))
                    && t.len() == sorted.len() && forall|i: int|
                    0 <= i < t.len() ==> #[trigger] t[i] == match parameter_names {
                        Some(names) => if sorted[i].len() == names@.len() {
                            labels_of(*names)
                        } else {
                            sorted[i]
                        },
                        None => sorted[i],
                    }
        }),
{
    let ghost s = overloads_of(overloads@);
    let mut out: Vec<Vec<String>> = Vec::new();
    let mut i: usize = 0;
    assert(overloads_of(out@) =~= Seq::<Seq<Seq<char>>>::empty());
    while i < overloads.len()
        invariant
            i <= overloads@.len(),
            s == overloads_of(overloads@),
            strictly_sorted(overloads_of(out@)),
            forall|x: Seq<Seq<char>>| overloads_of(out@).contains(x) <==> s.take(i as int).contains(x),
        decreases overloads@.len() - i,
    {
        insert_sorted(&mut out, &overloads[i]);
        proof {
            let p0 = s.take(i as int);
            let p1 = s.take(i + 1);
            assert(p1 =~= p0.push(s[i as int]));
            assert(s[i as int] == labels_of(overloads@[i as int]));
            assert forall|x: Seq<Seq<char>>| overloads_of(out@).contains(x) <==> p1.contains(x) by {
                if p1.contains(x) {
                    let k = choose|k: int| 0 <= k < p1.len() && #[trigger] p1[k] == x;
                    if k < i {
                        assert(p0[k] == x);
                    }
                }
                if p0.contains(x) {
                    let k = choose|k: int| 0 <= k < p0.len() && #[trigger] p0[k] == x;
                    assert(p1[k] == x);
                }
                if x == s[i as int] {
                    assert(p1[i as int] == x);
                }
            }
        }
        i = i + 1;
    }
    assert(s.take(s.len() as int) =~= s);
    let ghost sorted = overloads_of(out@);
    if let Some(names) = parameter_names {
        let mut k: usize = 0;
        while k < out.len()
            invariant
                k <= out@.len(),
                out@.len() == sorted.len(),
                forall|q: int| k <= q < out@.len() ==> labels_of(#[trigger] out@[q]) == sorted[q],
                forall|q: int|
                    0 <= q < k ==> labels_of(#[trigger] out@[q]) == if sorted[q].len() == names@.len() {
                        labels_of(*names)
                    } else {
                        sorted[q]
                    },
            decreases out@.len() - k,
        {
            if out[k].len() == names.len() {
                let c = copy_labels(names);
                out.set(k, c);
            }
            k = k + 1;
        }
    }
    proof {
        let t = overloads_of(out@);
        assert(t.len() == sorted.len());
    }
    out
}

/// **The overload order leaves nothing open**: two strictly sorted lists holding the same
/// overloads are the same list, so the catalogue's list is fixed by its overloads alone.
pub proof fn law_sorted_overloads_are_unique(a: Seq<Seq<Seq<char>>>, b: Seq<Seq<Seq<char>>>)
    requires
        strictly_sorted(a),
        strictly_sorted(b),
        forall|x: Seq<Seq<char>>| a.contains(x) <==> b.contains(x),
    ensures
        a == b,
    decreases a.len() + b.len(),
{
    if a.len() == 0 || b.len() == 0 {
        if a.len() > 0 {
            assert(a.contains(a[0]));
        }
        if b.len() > 0 {
            assert(b.contains(b[0]));
        }
        assert(a =~= b);
    } else {
        // The least of each is the least of the other.
        assert(a.contains(a[0]));
        assert(b.contains(b[0]));
        let i = choose|i: int| 0 <= i < b.len() && b[i] == a[0];
        let j = choose|j: int| 0 <= j < a.len() && a[j] == b[0];
        if i > 0 {
            lemma_overload_order(b[0], a[0], b[0]);
            if j > 0 {
                lemma_overload_order(a[0], b[0], a[0]);
            }
            assert(overload_lt(b[0], b[i]));
            if j > 0 {
                assert(overload_lt(a[0], a[j]));
            }
        }
        assert(a[0] == b[0]) by {
            if i > 0 {
                assert(overload_lt(b[0], a[0]));
                if j == 0 {
                    lemma_overload_order(a[0], a[0], a[0]);
                } else {
                    assert(overload_lt(a[0], b[0]));
                    lemma_overload_order(a[0], b[0], a[0]);
                }
            }
        }
        let a1 = a.drop_first();
        let b1 = b.drop_first();
        assert forall|x: Seq<Seq<char>>| a1.contains(x) <==> b1.contains(x) by {
            if a1.contains(x) {
                let k = choose|k: int| 0 <= k < a1.len() && a1[k] == x;
                assert(a[k + 1] == x);
                assert(overload_lt(a[0], a[k + 1]));
                lemma_overload_order(a[0], a[0], a[0]);
                assert(b.contains(x));
                let q = choose|q: int| 0 <= q < b.len() && b[q] == x;
                if q == 0 {
                    assert(x == a[0]);
                } else {
                    assert(b1[q - 1] == x);
                }
            }
            if b1.contains(x) {
                let k = choose|k: int| 0 <= k < b1.len() && b1[k] == x;
                assert(b[k + 1] == x);
                assert(overload_lt(b[0], b[k + 1]));
                lemma_overload_order(b[0], b[0], b[0]);
                assert(a.contains(x));
                let q = choose|q: int| 0 <= q < a.len() && a[q] == x;
                if q == 0 {
                    assert(x == b[0]);
                } else {
                    assert(a1[q - 1] == x);
                }
            }
        }
        assert forall|p: int, q: int| 0 <= p < q < a1.len() implies overload_lt(#[trigger] a1[p], #[trigger] a1[q]) by {
            assert(a1[p] == a[p + 1] && a1[q] == a[q + 1]);
        }
        assert forall|p: int, q: int| 0 <= p < q < b1.len() implies overload_lt(#[trigger] b1[p], #[trigger] b1[q]) by {
            assert(b1[p] == b[p + 1] && b1[q] == b[q + 1]);
        }
        law_sorted_overloads_are_unique(a1, b1);
        assert(a =~= seq![a[0]] + a1);
        assert(b =~= seq![b[0]] + b1);
    }
}

} // verus!
