//! Union-tolerant JSON schema inference.
//!
//! Inference follows the stock JSON reader's rules with one change: where the stock merge
//! has no common type for a key's values across occurrences, the key becomes `Text` and its
//! column holds that value's raw JSON. Every combination the stock reader accepts is inferred
//! identically — `Text` is produced only where it would have failed.
//!
//! The merge is commutative and associative with `Any` as its identity and `Text` absorbing,
//! so the schema inferred over a set of records does not depend on the order they are read in.

use vstd::prelude::*;

verus! {

// ---- the model ---------------------------------------------------------------------------

/// The scalar types a JSON value can infer to.
#[derive(Clone, Copy, PartialEq, Eq, Debug, Structural)]
pub struct Scalars {
    pub boolean: bool,
    pub int64: bool,
    pub float64: bool,
    pub utf8: bool,
}

/// Both sets of scalar types together.
pub open spec fn union_scalars(a: Scalars, b: Scalars) -> Scalars {
    Scalars {
        boolean: a.boolean || b.boolean,
        int64: a.int64 || b.int64,
        float64: a.float64 || b.float64,
        utf8: a.utf8 || b.utf8,
    }
}

/// What has been learned about one JSON path, as a mathematical value. An object's fields
/// are kept as a list ordered by key.
pub enum Ty {
    /// Nothing yet: JSON `null`, or a key only ever absent.
    Any,
    /// One or more scalar types, coerced together on the way out.
    Scalar(Scalars),
    /// A list; the element type is inferred across every element seen.
    Array(Box<Ty>),
    /// An object, inferred per key.
    Object(Seq<(Seq<char>, Ty)>),
    /// The conflict state: two shapes met that have no common type.
    Text,
}

/// A measure of a type's depth and breadth, for induction.
pub open spec fn size(t: Ty) -> nat
    decreases t,
{
    match t {
        Ty::Array(b) => 1 + size(*b),
        Ty::Object(m) => 1 + fields_size(m),
        _ => 1,
    }
}

/// The combined [`size`] of a list of fields.
pub open spec fn fields_size(m: Seq<(Seq<char>, Ty)>) -> nat
    decreases m,
{
    if m.len() == 0 {
        0
    } else {
        1 + size(m[0].1) + fields_size(m.drop_first())
    }
}

/// Code-point order on keys: the order a `BTreeMap<String, _>` keeps its keys in.
pub open spec fn key_lt(a: Seq<char>, b: Seq<char>) -> bool
    decreases a.len(),
{
    if a.len() == 0 {
        b.len() > 0
    } else if b.len() == 0 {
        false
    } else if a[0] != b[0] {
        a[0] < b[0]
    } else {
        key_lt(a.drop_first(), b.drop_first())
    }
}

/// The fields are in strictly increasing key order — so no key occurs twice.
pub open spec fn sorted(m: Seq<(Seq<char>, Ty)>) -> bool {
    forall|i: int, j: int| 0 <= i < j < m.len() ==> key_lt(#[trigger] m[i].0, #[trigger] m[j].0)
}

/// Every object in `t`, at any depth, has sorted fields.
pub open spec fn wf(t: Ty) -> bool
    decreases t,
{
    match t {
        Ty::Array(b) => wf(*b),
        Ty::Object(m) => sorted(m) && fields_wf(m),
        _ => true,
    }
}

/// Every field's type is [`wf`].
pub open spec fn fields_wf(m: Seq<(Seq<char>, Ty)>) -> bool
    decreases m,
{
    if m.len() == 0 {
        true
    } else {
        wf(m[0].1) && fields_wf(m.drop_first())
    }
}

/// Fold `b` into `a`, collapsing to `Text` where the stock merge has no answer.
pub open spec fn merge(a: Ty, b: Ty) -> Ty
    decreases size(a) + size(b), 1nat,
{
    match (a, b) {
        (Ty::Text, _) => Ty::Text,
        (_, Ty::Text) => Ty::Text,
        (Ty::Any, v) => v,
        (v, Ty::Any) => v,
        (Ty::Scalar(x), Ty::Scalar(y)) => Ty::Scalar(union_scalars(x, y)),
        (Ty::Array(x), Ty::Array(y)) => Ty::Array(Box::new(merge(*x, *y))),
        (Ty::Object(x), Ty::Object(y)) => Ty::Object(merge_fields(x, y)),
        (Ty::Array(x), Ty::Scalar(s)) => Ty::Array(Box::new(merge(*x, Ty::Scalar(s)))),
        (Ty::Scalar(s), Ty::Array(x)) => Ty::Array(Box::new(merge(*x, Ty::Scalar(s)))),
        _ => Ty::Text,
    }
}

/// Fold the fields `y` into `x`: a key in both merges its two types, a key in one keeps
/// its type.
pub open spec fn merge_fields(x: Seq<(Seq<char>, Ty)>, y: Seq<(Seq<char>, Ty)>) -> Seq<(Seq<char>, Ty)>
    decreases fields_size(x) + fields_size(y), 0nat,
{
    if x.len() == 0 {
        y
    } else if y.len() == 0 {
        x
    } else if x[0].0 == y[0].0 {
        seq![(x[0].0, merge(x[0].1, y[0].1))] + merge_fields(x.drop_first(), y.drop_first())
    } else if key_lt(x[0].0, y[0].0) {
        seq![x[0]] + merge_fields(x.drop_first(), y)
    } else {
        seq![y[0]] + merge_fields(x, y.drop_first())
    }
}

// ---- key order ---------------------------------------------------------------------------

pub proof fn lemma_key_lt_irreflexive(a: Seq<char>)
    ensures
        !key_lt(a, a),
    decreases a.len(),
{
    if a.len() > 0 {
        lemma_key_lt_irreflexive(a.drop_first());
    }
}

pub proof fn lemma_key_lt_total(a: Seq<char>, b: Seq<char>)
    ensures
        a == b || key_lt(a, b) || key_lt(b, a),
        !(key_lt(a, b) && key_lt(b, a)),
    decreases a.len(),
{
    if a.len() > 0 && b.len() > 0 {
        lemma_key_lt_total(a.drop_first(), b.drop_first());
        if a[0] == b[0] && a.drop_first() == b.drop_first() {
            assert(a =~= seq![a[0]] + a.drop_first());
            assert(b =~= seq![b[0]] + b.drop_first());
        }
    } else if a.len() == 0 && b.len() == 0 {
        assert(a =~= b);
    }
}

pub proof fn lemma_key_lt_transitive(a: Seq<char>, b: Seq<char>, c: Seq<char>)
    requires
        key_lt(a, b),
        key_lt(b, c),
    ensures
        key_lt(a, c),
    decreases a.len(),
{
    if a.len() > 0 && b.len() > 0 && c.len() > 0 {
        if a[0] == b[0] && b[0] == c[0] {
            lemma_key_lt_transitive(a.drop_first(), b.drop_first(), c.drop_first());
        }
    }
}

// ---- fields as a map ---------------------------------------------------------------------

/// The type recorded under `k`, if any.
pub open spec fn lookup(m: Seq<(Seq<char>, Ty)>, k: Seq<char>) -> Option<Ty>
    decreases m.len(),
{
    if m.len() == 0 {
        None
    } else if m[0].0 == k {
        Some(m[0].1)
    } else {
        lookup(m.drop_first(), k)
    }
}

/// What a key holds after a merge, given what each side held.
pub open spec fn merge_opt(a: Option<Ty>, b: Option<Ty>) -> Option<Ty> {
    match (a, b) {
        (None, None) => None,
        (Some(x), None) => Some(x),
        (None, Some(y)) => Some(y),
        (Some(x), Some(y)) => Some(merge(x, y)),
    }
}

/// Every key of `m` is above `k`.
pub open spec fn keys_above(m: Seq<(Seq<char>, Ty)>, k: Seq<char>) -> bool {
    forall|i: int| 0 <= i < m.len() ==> key_lt(k, #[trigger] m[i].0)
}

proof fn lemma_sorted_tail(m: Seq<(Seq<char>, Ty)>)
    requires
        sorted(m),
        m.len() > 0,
    ensures
        sorted(m.drop_first()),
        keys_above(m.drop_first(), m[0].0),
{
    assert forall|i: int| 0 <= i < m.drop_first().len() implies key_lt(m[0].0, #[trigger] m.drop_first()[i].0) by {
        assert(m.drop_first()[i] == m[i + 1]);
    }
    assert forall|i: int, j: int| 0 <= i < j < m.drop_first().len() implies key_lt(
        #[trigger] m.drop_first()[i].0,
        #[trigger] m.drop_first()[j].0,
    ) by {
        assert(m.drop_first()[i] == m[i + 1]);
        assert(m.drop_first()[j] == m[j + 1]);
    }
}

proof fn lemma_sorted_cons(h: (Seq<char>, Ty), m: Seq<(Seq<char>, Ty)>)
    requires
        sorted(m),
        keys_above(m, h.0),
    ensures
        sorted(seq![h] + m),
{
    let r = seq![h] + m;
    assert forall|i: int, j: int| 0 <= i < j < r.len() implies key_lt(#[trigger] r[i].0, #[trigger] r[j].0) by {
        if i == 0 {
            assert(r[j] == m[j - 1]);
        } else {
            assert(r[i] == m[i - 1]);
            assert(r[j] == m[j - 1]);
        }
    }
}

proof fn lemma_lookup_above(m: Seq<(Seq<char>, Ty)>, k: Seq<char>)
    requires
        keys_above(m, k),
    ensures
        lookup(m, k) is None,
    decreases m.len(),
{
    if m.len() > 0 {
        lemma_key_lt_irreflexive(k);
        assert(key_lt(k, m[0].0));
        assert forall|i: int| 0 <= i < m.drop_first().len() implies key_lt(k, #[trigger] m.drop_first()[i].0) by {
            assert(m.drop_first()[i] == m[i + 1]);
        }
        lemma_lookup_above(m.drop_first(), k);
    }
}

proof fn lemma_keys_above_weaken(m: Seq<(Seq<char>, Ty)>, lo: Seq<char>, k: Seq<char>)
    requires
        keys_above(m, k),
        key_lt(lo, k) || lo == k,
    ensures
        keys_above(m, lo),
{
    assert forall|i: int| 0 <= i < m.len() implies key_lt(lo, #[trigger] m[i].0) by {
        if lo != k {
            lemma_key_lt_transitive(lo, k, m[i].0);
        }
    }
}

/// A merge of two field lists keeps every key above a bound both sides are above, stays
/// sorted, and holds under each key the merge of what the two sides held.
proof fn lemma_merge_fields(x: Seq<(Seq<char>, Ty)>, y: Seq<(Seq<char>, Ty)>)
    requires
        sorted(x),
        sorted(y),
    ensures
        sorted(merge_fields(x, y)),
        forall|k: Seq<char>| #[trigger] lookup(merge_fields(x, y), k) == merge_opt(lookup(x, k), lookup(y, k)),
        forall|lo: Seq<char>| keys_above(x, lo) && keys_above(y, lo) ==> #[trigger] keys_above(merge_fields(x, y), lo),
    decreases x.len() + y.len(),
{
    let r = merge_fields(x, y);
    if x.len() == 0 {
        assert forall|k: Seq<char>| #[trigger] lookup(r, k) == merge_opt(lookup(x, k), lookup(y, k)) by {
            match lookup(y, k) {
                Some(v) => {},
                None => {},
            }
        }
    } else if y.len() == 0 {
    } else {
        lemma_sorted_tail(x);
        lemma_sorted_tail(y);
        let (a, va) = x[0];
        let (b, vb) = y[0];
        lemma_key_lt_total(a, b);
        if a == b {
            lemma_merge_fields(x.drop_first(), y.drop_first());
            let t = merge_fields(x.drop_first(), y.drop_first());
            assert(keys_above(t, a));
            lemma_sorted_cons((a, merge(va, vb)), t);
            assert(r.drop_first() =~= t);
            assert(r[0] == (a, merge(va, vb)));
            assert forall|k: Seq<char>| #[trigger] lookup(r, k) == merge_opt(lookup(x, k), lookup(y, k)) by {
                if k != a {
                    assert(lookup(r, k) == lookup(t, k));
                    assert(lookup(t, k) == merge_opt(lookup(x.drop_first(), k), lookup(y.drop_first(), k)));
                }
            }
            assert forall|lo: Seq<char>| keys_above(x, lo) && keys_above(y, lo) implies #[trigger] keys_above(r, lo) by {
                assert(key_lt(lo, x[0].0));
                lemma_keys_above_weaken(t, lo, a);
                assert forall|i: int| 0 <= i < r.len() implies key_lt(lo, #[trigger] r[i].0) by {
                    if i > 0 {
                        assert(r[i] == t[i - 1]);
                    }
                }
            }
        } else if key_lt(a, b) {
            lemma_merge_fields(x.drop_first(), y);
            let t = merge_fields(x.drop_first(), y);
            lemma_keys_above_weaken(y.drop_first(), a, b);
            assert(keys_above(y, a)) by {
                assert forall|i: int| 0 <= i < y.len() implies key_lt(a, #[trigger] y[i].0) by {
                    if i > 0 {
                        assert(y[i] == y.drop_first()[i - 1]);
                    }
                }
            }
            assert(keys_above(t, a));
            lemma_sorted_cons(x[0], t);
            assert(r.drop_first() =~= t);
            assert(r[0] == x[0]);
            assert forall|k: Seq<char>| #[trigger] lookup(r, k) == merge_opt(lookup(x, k), lookup(y, k)) by {
                if k == a {
                    lemma_lookup_above(y, a);
                } else {
                    assert(lookup(r, k) == lookup(t, k));
                    assert(lookup(t, k) == merge_opt(lookup(x.drop_first(), k), lookup(y, k)));
                }
            }
            assert forall|lo: Seq<char>| keys_above(x, lo) && keys_above(y, lo) implies #[trigger] keys_above(r, lo) by {
                assert(key_lt(lo, x[0].0));
                lemma_keys_above_weaken(x.drop_first(), lo, a);
                assert(keys_above(t, lo));
                assert forall|i: int| 0 <= i < r.len() implies key_lt(lo, #[trigger] r[i].0) by {
                    if i > 0 {
                        assert(r[i] == t[i - 1]);
                    }
                }
            }
        } else {
            lemma_merge_fields(x, y.drop_first());
            let t = merge_fields(x, y.drop_first());
            lemma_keys_above_weaken(x.drop_first(), b, a);
            assert(keys_above(x, b)) by {
                assert forall|i: int| 0 <= i < x.len() implies key_lt(b, #[trigger] x[i].0) by {
                    if i > 0 {
                        assert(x[i] == x.drop_first()[i - 1]);
                    }
                }
            }
            assert(keys_above(t, b));
            lemma_sorted_cons(y[0], t);
            assert(r.drop_first() =~= t);
            assert(r[0] == y[0]);
            assert forall|k: Seq<char>| #[trigger] lookup(r, k) == merge_opt(lookup(x, k), lookup(y, k)) by {
                if k == b {
                    lemma_lookup_above(x, b);
                } else {
                    assert(lookup(r, k) == lookup(t, k));
                    assert(lookup(t, k) == merge_opt(lookup(x, k), lookup(y.drop_first(), k)));
                }
            }
            assert forall|lo: Seq<char>| keys_above(x, lo) && keys_above(y, lo) implies #[trigger] keys_above(r, lo) by {
                assert(key_lt(lo, y[0].0));
                lemma_keys_above_weaken(y.drop_first(), lo, b);
                assert(keys_above(t, lo));
                assert forall|i: int| 0 <= i < r.len() implies key_lt(lo, #[trigger] r[i].0) by {
                    if i > 0 {
                        assert(r[i] == t[i - 1]);
                    }
                }
            }
        }
    }
}

proof fn lemma_fields_index(m: Seq<(Seq<char>, Ty)>)
    ensures
        fields_wf(m) <==> forall|i: int| 0 <= i < m.len() ==> wf(#[trigger] m[i].1),
        forall|i: int| 0 <= i < m.len() ==> size(#[trigger] m[i].1) < fields_size(m),
    decreases m.len(),
{
    if m.len() > 0 {
        lemma_fields_index(m.drop_first());
        assert forall|i: int| 0 < i < m.len() implies #[trigger] m[i] == m.drop_first()[i - 1] by {}
        if forall|i: int| 0 <= i < m.len() ==> wf(#[trigger] m[i].1) {
            assert forall|i: int| 0 <= i < m.drop_first().len() implies wf(#[trigger] m.drop_first()[i].1) by {
                assert(m.drop_first()[i] == m[i + 1]);
            }
        }
        assert forall|i: int| 0 <= i < m.len() implies size(#[trigger] m[i].1) < fields_size(m) by {
            if i > 0 {
                assert(m[i] == m.drop_first()[i - 1]);
            }
        }
    }
}

proof fn lemma_lookup_index(m: Seq<(Seq<char>, Ty)>, k: Seq<char>)
    ensures
        match lookup(m, k) {
            Some(v) => exists|i: int| 0 <= i < m.len() && #[trigger] m[i] == (k, v),
            None => forall|i: int| 0 <= i < m.len() ==> (#[trigger] m[i]).0 != k,
        },
    decreases m.len(),
{
    if m.len() > 0 {
        lemma_lookup_index(m.drop_first(), k);
        if m[0].0 != k {
            match lookup(m, k) {
                Some(v) => {
                    let j = choose|j: int| 0 <= j < m.drop_first().len() && #[trigger] m.drop_first()[j] == (k, v);
                    assert(m[j + 1] == (k, v));
                },
                None => {
                    assert forall|i: int| 0 <= i < m.len() implies (#[trigger] m[i]).0 != k by {
                        if i > 0 {
                            assert(m[i] == m.drop_first()[i - 1]);
                        }
                    }
                },
            }
        } else {
            assert(m[0] == (k, m[0].1));
        }
    }
}

proof fn lemma_lookup_sorted(m: Seq<(Seq<char>, Ty)>, i: int)
    requires
        sorted(m),
        0 <= i < m.len(),
    ensures
        lookup(m, m[i].0) == Some(m[i].1),
    decreases m.len(),
{
    if i > 0 {
        lemma_sorted_tail(m);
        lemma_key_lt_irreflexive(m[0].0);
        assert(key_lt(m[0].0, m[i].0));
        assert(m[i] == m.drop_first()[i - 1]);
        lemma_lookup_sorted(m.drop_first(), i - 1);
    }
}

/// Two sorted field lists that hold the same type under every key are the same list.
proof fn lemma_fields_ext(x: Seq<(Seq<char>, Ty)>, y: Seq<(Seq<char>, Ty)>)
    requires
        sorted(x),
        sorted(y),
        forall|k: Seq<char>| #[trigger] lookup(x, k) == lookup(y, k),
    ensures
        x == y,
    decreases x.len(),
{
    if x.len() == 0 {
        if y.len() > 0 {
            assert(lookup(y, y[0].0) is Some);
            assert(lookup(x, y[0].0) is None);
        }
        assert(x =~= y);
    } else {
        assert(lookup(x, x[0].0) is Some);
        if y.len() == 0 {
            assert(lookup(y, x[0].0) is None);
        }
        let a = x[0].0;
        let b = y[0].0;
        lemma_lookup_index(x, b);
        lemma_lookup_index(y, a);
        assert(lookup(y, b) is Some);
        lemma_key_lt_total(a, b);
        assert(a == b) by {
            if a != b {
                let i = choose|i: int| 0 <= i < x.len() && #[trigger] x[i] == (b, lookup(x, b)->0);
                let j = choose|j: int| 0 <= j < y.len() && #[trigger] y[j] == (a, lookup(y, a)->0);
                if i == 0 {
                } else {
                    assert(key_lt(a, b));
                }
                if j == 0 {
                } else {
                    assert(key_lt(b, a));
                }
            }
        }
        assert(x[0].1 == y[0].1) by {
            assert(lookup(x, a) == Some(x[0].1));
            assert(lookup(y, a) == Some(y[0].1));
        }
        lemma_sorted_tail(x);
        lemma_sorted_tail(y);
        lemma_lookup_above(x.drop_first(), a);
        lemma_lookup_above(y.drop_first(), a);
        assert forall|k: Seq<char>| #[trigger] lookup(x.drop_first(), k) == lookup(y.drop_first(), k) by {
            if k != a {
                assert(lookup(x, k) == lookup(x.drop_first(), k));
                assert(lookup(y, k) == lookup(y.drop_first(), k));
            }
        }
        lemma_fields_ext(x.drop_first(), y.drop_first());
        assert(x =~= seq![x[0]] + x.drop_first());
        assert(y =~= seq![y[0]] + y.drop_first());
    }
}

/// The value held under a key is smaller than the object, and well-formed when the object is.
proof fn lemma_lookup_value(m: Seq<(Seq<char>, Ty)>, k: Seq<char>)
    requires
        lookup(m, k) is Some,
    ensures
        size(lookup(m, k)->0) < fields_size(m),
        fields_wf(m) ==> wf(lookup(m, k)->0),
{
    lemma_lookup_index(m, k);
    lemma_fields_index(m);
    let i = choose|i: int| 0 <= i < m.len() && #[trigger] m[i] == (k, lookup(m, k)->0);
    assert(m[i].1 == lookup(m, k)->0);
}

/// Merging keeps every object's fields sorted.
pub proof fn lemma_merge_wf(a: Ty, b: Ty)
    requires
        wf(a),
        wf(b),
    ensures
        wf(merge(a, b)),
    decreases size(a) + size(b),
{
    match (a, b) {
        (Ty::Text, _) => {},
        (_, Ty::Text) => {},
        (Ty::Any, _) => {},
        (_, Ty::Any) => {},
        (Ty::Array(x), Ty::Array(y)) => {
            lemma_merge_wf(*x, *y);
        },
        (Ty::Array(x), Ty::Scalar(s)) => {
            lemma_merge_wf(*x, Ty::Scalar(s));
        },
        (Ty::Scalar(s), Ty::Array(x)) => {
            lemma_merge_wf(*x, Ty::Scalar(s));
        },
        (Ty::Object(x), Ty::Object(y)) => {
            lemma_merge_fields(x, y);
            let r = merge_fields(x, y);
            lemma_fields_index(x);
            lemma_fields_index(y);
            assert forall|i: int| 0 <= i < r.len() implies wf(#[trigger] r[i].1) by {
                let k = r[i].0;
                lemma_lookup_sorted(r, i);
                assert(lookup(r, k) == merge_opt(lookup(x, k), lookup(y, k)));
                match (lookup(x, k), lookup(y, k)) {
                    (Some(vx), Some(vy)) => {
                        lemma_lookup_value(x, k);
                        lemma_lookup_value(y, k);
                        lemma_merge_wf(vx, vy);
                    },
                    (Some(vx), None) => {
                        lemma_lookup_value(x, k);
                    },
                    (None, Some(vy)) => {
                        lemma_lookup_value(y, k);
                    },
                    (None, None) => {},
                }
            }
            lemma_fields_index(r);
        },
        _ => {},
    }
}

/// Merging is commutative.
pub proof fn lemma_merge_comm(a: Ty, b: Ty)
    requires
        wf(a),
        wf(b),
    ensures
        merge(a, b) == merge(b, a),
    decreases size(a) + size(b),
{
    match (a, b) {
        (Ty::Array(x), Ty::Array(y)) => {
            lemma_merge_comm(*x, *y);
        },
        (Ty::Object(x), Ty::Object(y)) => {
            lemma_merge_fields(x, y);
            lemma_merge_fields(y, x);
            assert forall|k: Seq<char>| #[trigger] lookup(merge_fields(x, y), k) == lookup(merge_fields(y, x), k) by {
                if lookup(x, k) is Some && lookup(y, k) is Some {
                    lemma_lookup_value(x, k);
                    lemma_lookup_value(y, k);
                    lemma_merge_comm(lookup(x, k)->0, lookup(y, k)->0);
                }
            }
            lemma_fields_ext(merge_fields(x, y), merge_fields(y, x));
        },
        (Ty::Scalar(x), Ty::Scalar(y)) => {
            assert(union_scalars(x, y) == union_scalars(y, x));
        },
        _ => {},
    }
}

/// Merging is associative.
pub proof fn lemma_merge_assoc(a: Ty, b: Ty, c: Ty)
    requires
        wf(a),
        wf(b),
        wf(c),
    ensures
        merge(merge(a, b), c) == merge(a, merge(b, c)),
    decreases size(a) + size(b) + size(c),
{
    match (a, b, c) {
        (Ty::Scalar(x), Ty::Scalar(y), Ty::Scalar(z)) => {
            assert(union_scalars(union_scalars(x, y), z) == union_scalars(x, union_scalars(y, z)));
        },
        (Ty::Scalar(x), Ty::Scalar(y), Ty::Array(k)) => {
            lemma_merge_assoc(*k, Ty::Scalar(y), Ty::Scalar(x));
            assert(union_scalars(y, x) == union_scalars(x, y));
        },
        (Ty::Scalar(x), Ty::Array(k), Ty::Scalar(z)) => {
            lemma_merge_assoc(*k, Ty::Scalar(x), Ty::Scalar(z));
            lemma_merge_assoc(*k, Ty::Scalar(z), Ty::Scalar(x));
            assert(union_scalars(z, x) == union_scalars(x, z));
        },
        (Ty::Array(k), Ty::Scalar(y), Ty::Scalar(z)) => {
            lemma_merge_assoc(*k, Ty::Scalar(y), Ty::Scalar(z));
        },
        (Ty::Array(i), Ty::Array(j), Ty::Scalar(z)) => {
            lemma_merge_assoc(*i, *j, Ty::Scalar(z));
        },
        (Ty::Array(i), Ty::Scalar(y), Ty::Array(j)) => {
            lemma_merge_assoc(*i, Ty::Scalar(y), *j);
            lemma_merge_comm(Ty::Scalar(y), *j);
        },
        (Ty::Scalar(x), Ty::Array(i), Ty::Array(j)) => {
            lemma_merge_assoc(*i, Ty::Scalar(x), *j);
            lemma_merge_assoc(*i, *j, Ty::Scalar(x));
            lemma_merge_comm(Ty::Scalar(x), *j);
        },
        (Ty::Array(i), Ty::Array(j), Ty::Array(k)) => {
            lemma_merge_assoc(*i, *j, *k);
        },
        (Ty::Object(x), Ty::Object(y), Ty::Object(z)) => {
            lemma_merge_fields(x, y);
            lemma_merge_fields(y, z);
            let xy = merge_fields(x, y);
            let yz = merge_fields(y, z);
            lemma_merge_fields(xy, z);
            lemma_merge_fields(x, yz);
            assert forall|k: Seq<char>| #[trigger] lookup(merge_fields(xy, z), k) == lookup(merge_fields(x, yz), k) by {
                if lookup(x, k) is Some && lookup(y, k) is Some && lookup(z, k) is Some {
                    lemma_lookup_value(x, k);
                    lemma_lookup_value(y, k);
                    lemma_lookup_value(z, k);
                    lemma_merge_assoc(lookup(x, k)->0, lookup(y, k)->0, lookup(z, k)->0);
                }
            }
            lemma_fields_ext(merge_fields(xy, z), merge_fields(x, yz));
        },
        _ => {},
    }
}

// ---- values -------------------------------------------------------------------------------

/// A JSON value, holding what inference reads of it: its kind, whether a number is an
/// `i64`, an array's items and an object's entries in document order.
#[derive(Debug, PartialEq)]
pub enum Jv {
    Null,
    Bool(bool),
    /// A number; `is_i64` when it is an integer that fits in an `i64`.
    Number { is_i64: bool },
    String(String),
    Array(Vec<Jv>),
    Object(Vec<(String, Jv)>),
}

/// What one JSON value says about its own path.
pub open spec fn of_value(v: Jv) -> Ty
    decreases v,
{
    match v {
        Jv::Null => Ty::Any,
        Jv::Bool(_) => Ty::Scalar(Scalars { boolean: true, int64: false, float64: false, utf8: false }),
        Jv::Number { is_i64 } => Ty::Scalar(
            Scalars { boolean: false, int64: is_i64, float64: !is_i64, utf8: false },
        ),
        Jv::String(_) => Ty::Scalar(Scalars { boolean: false, int64: false, float64: false, utf8: true }),
        Jv::Array(items) => Ty::Array(Box::new(items_ty(items@))),
        Jv::Object(entries) => Ty::Object(entries_fields(entries@)),
    }
}

/// The element type of an array: every item's type merged in order, from `Any`.
pub open spec fn items_ty(items: Seq<Jv>) -> Ty
    decreases items,
{
    if items.len() == 0 {
        Ty::Any
    } else {
        merge(items_ty(items.drop_last()), of_value(items.last()))
    }
}

/// `m` with `k` holding `t`: replaced where `k` is present, inserted in key order where not.
pub open spec fn put(m: Seq<(Seq<char>, Ty)>, k: Seq<char>, t: Ty) -> Seq<(Seq<char>, Ty)>
    decreases m.len(),
{
    if m.len() == 0 {
        seq![(k, t)]
    } else if m[0].0 == k {
        seq![(k, t)] + m.drop_first()
    } else if key_lt(k, m[0].0) {
        seq![(k, t)] + m
    } else {
        seq![m[0]] + put(m.drop_first(), k, t)
    }
}

/// An object's fields: each entry's type put in order, so a repeated key keeps its last.
pub open spec fn entries_fields(entries: Seq<(String, Jv)>) -> Seq<(Seq<char>, Ty)>
    decreases entries,
{
    if entries.len() == 0 {
        seq![]
    } else {
        put(entries_fields(entries.drop_last()), entries.last().0@, of_value(entries.last().1))
    }
}

// ---- the exec form -----------------------------------------------------------------------

/// What has been learned about one JSON path so far; [`ty_of`] is its model.
pub enum Inferred {
    Any,
    Scalar(Scalars),
    Array(Box<Inferred>),
    /// Fields in key order.
    Object(Vec<(String, Inferred)>),
    Text,
}

/// The model of an [`Inferred`].
pub open spec fn ty_of(i: Inferred) -> Ty
    decreases i,
{
    match i {
        Inferred::Any => Ty::Any,
        Inferred::Scalar(s) => Ty::Scalar(s),
        Inferred::Array(b) => Ty::Array(Box::new(ty_of(*b))),
        Inferred::Object(v) => Ty::Object(fields_of(v@)),
        Inferred::Text => Ty::Text,
    }
}

/// The model of a list of fields.
pub open spec fn fields_of(v: Seq<(String, Inferred)>) -> Seq<(Seq<char>, Ty)>
    decreases v,
{
    if v.len() == 0 {
        seq![]
    } else {
        seq![(v[0].0@, ty_of(v[0].1))] + fields_of(v.drop_first())
    }
}

proof fn lemma_fields_of_push(v: Seq<(String, Inferred)>, e: (String, Inferred))
    ensures
        fields_of(v.push(e)) == fields_of(v) + seq![(e.0@, ty_of(e.1))],
    decreases v.len(),
{
    if v.len() > 0 {
        lemma_fields_of_push(v.drop_first(), e);
        assert(v.push(e).drop_first() =~= v.drop_first().push(e));
        assert(v.push(e)[0] == v[0]);
        assert(fields_of(v.push(e)) =~= fields_of(v) + seq![(e.0@, ty_of(e.1))]);
    } else {
        assert(v.push(e).drop_first() =~= Seq::<(String, Inferred)>::empty());
        assert(fields_of(v.push(e).drop_first()) =~= Seq::<(Seq<char>, Ty)>::empty());
        assert(fields_of(v) =~= Seq::<(Seq<char>, Ty)>::empty());
        assert(fields_of(v.push(e)) =~= fields_of(v) + seq![(e.0@, ty_of(e.1))]);
    }
}

proof fn lemma_fields_of_append(v: Seq<(String, Inferred)>, w: Seq<(String, Inferred)>)
    ensures
        fields_of(v + w) == fields_of(v) + fields_of(w),
    decreases v.len(),
{
    if v.len() > 0 {
        lemma_fields_of_append(v.drop_first(), w);
        assert((v + w).drop_first() =~= v.drop_first() + w);
    } else {
        assert(v + w =~= w);
    }
}

proof fn lemma_fields_of_len(v: Seq<(String, Inferred)>)
    ensures
        fields_of(v).len() == v.len(),
        v.len() > 0 ==> fields_of(v)[0] == (v[0].0@, ty_of(v[0].1)),
        v.len() > 0 ==> fields_of(v).drop_first() == fields_of(v.drop_first()),
    decreases v.len(),
{
    if v.len() > 0 {
        lemma_fields_of_len(v.drop_first());
        assert((seq![(v[0].0@, ty_of(v[0].1))] + fields_of(v.drop_first())).drop_first() =~= fields_of(v.drop_first()));
    }
}

/// Code-point order on two keys.
pub fn key_less(a: &str, b: &str) -> (r: bool)
    ensures
        r == key_lt(a@, b@),
{
    let x = crate::text::chars_of(a);
    let y = crate::text::chars_of(b);
    let mut i: usize = 0;
    assert(x@.skip(0) =~= x@);
    assert(y@.skip(0) =~= y@);
    while i < x.len() && i < y.len() && x[i] == y[i]
        invariant
            i <= x@.len(),
            i <= y@.len(),
            x@ == a@,
            y@ == b@,
            key_lt(a@, b@) == key_lt(x@.skip(i as int), y@.skip(i as int)),
        decreases x@.len() - i,
    {
        assert(x@.skip(i as int).drop_first() =~= x@.skip(i + 1));
        assert(y@.skip(i as int).drop_first() =~= y@.skip(i + 1));
        i = i + 1;
    }
    if i == x.len() {
        i < y.len()
    } else if i == y.len() {
        false
    } else {
        x[i] < y[i]
    }
}

impl Inferred {
    /// Folds `other` into `self`: afterwards `self` is [`merge`] of the two, so a conflict
    /// collapses to `Text` where the stock reader would have failed.
    pub fn merge(&mut self, other: Inferred)
        ensures
            ty_of(*final(self)) == merge(ty_of(*old(self)), ty_of(other)),
    {
        let mut this = Inferred::Any;
        std::mem::swap(&mut this, self);
        *self = merge_inferred(this, other);
    }
}

/// Exec form of [`merge`].
pub fn merge_inferred(a: Inferred, b: Inferred) -> (r: Inferred)
    ensures
        ty_of(r) == merge(ty_of(a), ty_of(b)),
    decreases size(ty_of(a)) + size(ty_of(b)), 1nat,
{
    match (a, b) {
        (Inferred::Text, _) => Inferred::Text,
        (_, Inferred::Text) => Inferred::Text,
        (Inferred::Any, v) => v,
        (v, Inferred::Any) => v,
        (Inferred::Scalar(x), Inferred::Scalar(y)) => Inferred::Scalar(
            Scalars {
                boolean: x.boolean || y.boolean,
                int64: x.int64 || y.int64,
                float64: x.float64 || y.float64,
                utf8: x.utf8 || y.utf8,
            },
        ),
        (Inferred::Array(x), Inferred::Array(y)) => Inferred::Array(Box::new(merge_inferred(*x, *y))),
        (Inferred::Object(x), Inferred::Object(y)) => Inferred::Object(merge_field_lists(x, y)),
        (Inferred::Array(x), Inferred::Scalar(s)) => Inferred::Array(
            Box::new(merge_inferred(*x, Inferred::Scalar(s))),
        ),
        (Inferred::Scalar(s), Inferred::Array(x)) => Inferred::Array(
            Box::new(merge_inferred(*x, Inferred::Scalar(s))),
        ),
        (Inferred::Object(_), _) => Inferred::Text,
        (_, Inferred::Object(_)) => Inferred::Text,
    }
}

/// Exec form of [`merge_fields`].
pub fn merge_field_lists(x: Vec<(String, Inferred)>, y: Vec<(String, Inferred)>) -> (r: Vec<(String, Inferred)>)
    ensures
        fields_of(r@) == merge_fields(fields_of(x@), fields_of(y@)),
    decreases fields_size(fields_of(x@)) + fields_size(fields_of(y@)), 0nat,
{
    proof {
        lemma_fields_of_len(x@);
        lemma_fields_of_len(y@);
    }
    if x.len() == 0 {
        return y;
    }
    if y.len() == 0 {
        return x;
    }
    let ghost fx = fields_of(x@);
    let ghost fy = fields_of(y@);
    let same = crate::text::str_is(x[0].0.as_str(), &crate::text::chars_of(y[0].0.as_str()));
    let less = key_less(x[0].0.as_str(), y[0].0.as_str());
    let mut x = x;
    let mut y = y;
    let head;
    let mut rest;
    if same {
        let (k, vx) = x.remove(0);
        let (kb, vy) = y.remove(0);
        proof {
            lemma_fields_of_len(x@);
            lemma_fields_of_len(y@);
            assert(fields_of(x@) == fx.drop_first());
            assert(fields_of(y@) == fy.drop_first());
            assert(fx[0] == (k@, ty_of(vx)));
            assert(fy[0] == (kb@, ty_of(vy)));
        }
        let v = merge_inferred(vx, vy);
        head = (k, v);
        rest = merge_field_lists(x, y);
    } else if less {
        head = x.remove(0);
        proof {
            lemma_fields_of_len(x@);
            assert(fields_of(x@) == fx.drop_first());
        }
        rest = merge_field_lists(x, y);
    } else {
        head = y.remove(0);
        proof {
            lemma_fields_of_len(y@);
            assert(fields_of(y@) == fy.drop_first());
        }
        rest = merge_field_lists(x, y);
    }
    let ghost tail = rest@;
    rest.insert(0, head);
    proof {
        assert(rest@ =~= seq![head] + tail);
        lemma_fields_of_append(seq![head], tail);
        assert(seq![head].drop_first() =~= Seq::<(String, Inferred)>::empty());
        assert(fields_of(seq![head].drop_first()) =~= Seq::<(Seq<char>, Ty)>::empty());
        assert(fields_of(seq![head]) =~= seq![(head.0@, ty_of(head.1))]);
    }
    rest
}

/// Exec form of [`put`].
fn put_field(m: Vec<(String, Inferred)>, k: String, t: Inferred) -> (r: Vec<(String, Inferred)>)
    ensures
        fields_of(r@) == put(fields_of(m@), k@, ty_of(t)),
    decreases m@.len(),
{
    proof {
        lemma_fields_of_len(m@);
    }
    let ghost fm = fields_of(m@);
    let ghost entry = (k, t);
    let mut m = m;
    if m.len() == 0 {
        let r = vec![(k, t)];
        proof {
            assert(r@ =~= seq![entry]);
            lemma_fields_of_len(r@);
            assert(fields_of(r@) =~= put(fm, k@, ty_of(t)));
        }
        return r;
    }
    let same = crate::text::str_is(m[0].0.as_str(), &crate::text::chars_of(k.as_str()));
    let before = key_less(k.as_str(), m[0].0.as_str());
    if same {
        m.remove(0);
        proof {
            lemma_fields_of_len(m@);
        }
        let ghost tail = m@;
        m.insert(0, (k, t));
        proof {
            assert(m@ =~= seq![entry] + tail);
            lemma_fields_of_append(seq![entry], tail);
            assert(seq![entry].drop_first() =~= Seq::<(String, Inferred)>::empty());
            assert(fields_of(seq![entry].drop_first()) =~= Seq::<(Seq<char>, Ty)>::empty());
            assert(fields_of(m@) =~= put(fm, k@, ty_of(t)));
        }
        m
    } else if before {
        let ghost whole = m@;
        m.insert(0, (k, t));
        proof {
            assert(m@ =~= seq![entry] + whole);
            lemma_fields_of_append(seq![entry], whole);
            assert(seq![entry].drop_first() =~= Seq::<(String, Inferred)>::empty());
            assert(fields_of(seq![entry].drop_first()) =~= Seq::<(Seq<char>, Ty)>::empty());
            assert(fields_of(m@) =~= put(fm, k@, ty_of(t)));
        }
        m
    } else {
        let h = m.remove(0);
        proof {
            lemma_fields_of_len(m@);
        }
        let mut r = put_field(m, k, t);
        let ghost tail = r@;
        r.insert(0, h);
        proof {
            assert(r@ =~= seq![h] + tail);
            lemma_fields_of_append(seq![h], tail);
            assert(seq![h].drop_first() =~= Seq::<(String, Inferred)>::empty());
            assert(fields_of(seq![h].drop_first()) =~= Seq::<(Seq<char>, Ty)>::empty());
            assert(fields_of(r@) =~= put(fm, k@, ty_of(t)));
        }
        r
    }
}

/// Exec form of [`of_value`].
pub fn infer_value(v: &Jv) -> (r: Inferred)
    ensures
        ty_of(r) == of_value(*v),
    decreases v,
{
    match v {
        Jv::Null => Inferred::Any,
        Jv::Bool(_) => Inferred::Scalar(Scalars { boolean: true, int64: false, float64: false, utf8: false }),
        Jv::Number { is_i64 } => Inferred::Scalar(
            Scalars { boolean: false, int64: *is_i64, float64: !*is_i64, utf8: false },
        ),
        Jv::String(_) => Inferred::Scalar(Scalars { boolean: false, int64: false, float64: false, utf8: true }),
        Jv::Array(items) => {
            let mut elem = Inferred::Any;
            let mut i: usize = 0;
            assert(items@.take(0) =~= Seq::<Jv>::empty());
            while i < items.len()
                invariant
                    i <= items@.len(),
                    *v == Jv::Array(*items),
                    ty_of(elem) == items_ty(items@.take(i as int)),
                decreases items@.len() - i,
            {
                assert(decreases_to!(*v => (*v)->Array_0));
                assert(decreases_to!(*items => items@));
                assert(decreases_to!(items@ => items@[i as int]));
                assert(decreases_to!(*v => items@[i as int]));
                let t = infer_value(&items[i]);
                assert(items@.take(i + 1).drop_last() =~= items@.take(i as int));
                elem = merge_inferred(elem, t);
                i = i + 1;
            }
            assert(items@.take(items@.len() as int) =~= items@);
            Inferred::Array(Box::new(elem))
        },
        Jv::Object(entries) => {
            let mut fields: Vec<(String, Inferred)> = Vec::new();
            let mut i: usize = 0;
            assert(entries@.take(0) =~= Seq::<(String, Jv)>::empty());
            assert(fields_of(fields@) =~= Seq::<(Seq<char>, Ty)>::empty());
            while i < entries.len()
                invariant
                    i <= entries@.len(),
                    *v == Jv::Object(*entries),
                    fields_of(fields@) == entries_fields(entries@.take(i as int)),
                decreases entries@.len() - i,
            {
                assert(decreases_to!(*v => (*v)->Object_0));
                assert(decreases_to!(*entries => entries@));
                assert(decreases_to!(entries@ => entries@[i as int]));
                assert(decreases_to!(entries@[i as int] => entries@[i as int].1));
                assert(decreases_to!(*v => entries@[i as int].1));
                let t = infer_value(&entries[i].1);
                let k = entries[i].0.clone();
                assert(entries@.take(i + 1).drop_last() =~= entries@.take(i as int));
                fields = put_field(fields, k, t);
                i = i + 1;
            }
            assert(entries@.take(entries@.len() as int) =~= entries@);
            Inferred::Object(fields)
        },
    }
}

// ---- records ------------------------------------------------------------------------------

/// The type word for a non-record top-level value: the stock reader's own vocabulary,
/// which the shape diagnosis reads back.
pub open spec fn kind_word_text(v: Jv) -> Seq<char> {
    match v {
        Jv::Null => "Null"@,
        Jv::Bool(_) => "Bool"@,
        Jv::Number { .. } => "Number"@,
        Jv::String(_) => "String"@,
        Jv::Array(_) => "Array"@,
        Jv::Object(_) => "Object"@,
    }
}

/// The type word for a value, [`kind_word_text`]. Never the value itself.
pub fn kind_word(v: &Jv) -> (r: &'static str)
    ensures
        r@ == kind_word_text(*v),
{
    match v {
        Jv::Null => "Null",
        Jv::Bool(_) => "Bool",
        Jv::Number { .. } => "Number",
        Jv::String(_) => "String",
        Jv::Array(_) => "Array",
        Jv::Object(_) => "Object",
    }
}

/// What a top-level value that is not an object is refused with.
pub open spec fn not_a_record(v: Jv) -> Seq<char> {
    "Expected JSON record to be an object, found "@ + kind_word_text(v)
}

/// A read failure in the stock reader's words, which the registration's diagnosis keys on.
pub open spec fn json_error_text(detail: Seq<char>) -> Seq<char> {
    "Json error: "@ + detail
}

/// The records of a document read in the array shape: the array's elements in order, or —
/// when the document is not an array — the stock reader's refusal naming what it is.
pub fn array_records(doc: Jv) -> (r: Result<Vec<Jv>, String>)
    ensures
        match doc {
            Jv::Array(items) => r == Ok::<Vec<Jv>, String>(items),
            _ => r matches Err(m) && m@ == json_error_text(not_a_record(doc)),
        },
{
    match doc {
        Jv::Array(items) => Ok(items),
        other => {
            let mut v: Vec<char> = Vec::new();
            crate::text::append_str(&mut v, "Json error: Expected JSON record to be an object, found ");
            crate::text::append_str(&mut v, kind_word(&other));
            let m = crate::text::string_of(&v);
            proof {
                reveal_strlit("Json error: Expected JSON record to be an object, found ");
                reveal_strlit("Json error: ");
                reveal_strlit("Expected JSON record to be an object, found ");
                assert(m@ =~= json_error_text(not_a_record(other)));
            }
            Err(m)
        },
    }
}

/// `root` with each entry of a record folded in, in order: a key's type merges into what
/// the key already holds, from `Any` where it holds nothing.
pub open spec fn absorb_entries(root: Seq<(Seq<char>, Ty)>, entries: Seq<(String, Jv)>) -> Seq<(Seq<char>, Ty)>
    decreases entries.len(),
{
    if entries.len() == 0 {
        root
    } else {
        merge_fields(
            absorb_entries(root, entries.drop_last()),
            seq![(entries.last().0@, of_value(entries.last().1))],
        )
    }
}

/// Fold one record into `root`; a record that is not an object is refused and leaves
/// `root` as it was.
pub fn absorb(root: &mut Vec<(String, Inferred)>, rec: &Jv) -> (r: Result<(), String>)
    ensures
        match *rec {
            Jv::Object(entries) => r is Ok && fields_of(final(root)@) == absorb_entries(
                fields_of(old(root)@),
                entries@,
            ),
            _ => r matches Err(e) && e@ == not_a_record(*rec) && final(root)@ == old(root)@,
        },
{
    match rec {
        Jv::Object(entries) => {
            let mut i: usize = 0;
            assert(entries@.take(0) =~= Seq::<(String, Jv)>::empty());
            while i < entries.len()
                invariant
                    i <= entries@.len(),
                    fields_of(root@) == absorb_entries(fields_of(old(root)@), entries@.take(i as int)),
                decreases entries@.len() - i,
            {
                let t = infer_value(&entries[i].1);
                let k = entries[i].0.clone();
                let mut cur: Vec<(String, Inferred)> = Vec::new();
                std::mem::swap(&mut cur, root);
                let one = vec![(k, t)];
                proof {
                    lemma_fields_of_len(one@);
                    assert(one@.drop_first() =~= Seq::<(String, Inferred)>::empty());
                    assert(fields_of(one@.drop_first()) =~= Seq::<(Seq<char>, Ty)>::empty());
                    assert(fields_of(one@) =~= seq![(entries@[i as int].0@, of_value(entries@[i as int].1))]);
                    assert(entries@.take(i + 1).drop_last() =~= entries@.take(i as int));
                }
                *root = merge_field_lists(cur, one);
                i = i + 1;
            }
            assert(entries@.take(entries@.len() as int) =~= entries@);
            Ok(())
        },
        _ => {
            let mut m: Vec<char> = Vec::new();
            crate::text::append_str(&mut m, "Expected JSON record to be an object, found ");
            crate::text::append_str(&mut m, kind_word(rec));
            Err(crate::text::string_of(&m))
        },
    }
}

/// The fields inferred across `records`, or the refusal of the first that is not an
/// object.
pub open spec fn infer_fields(records: Seq<Jv>) -> Result<Seq<(Seq<char>, Ty)>, Seq<char>>
    decreases records.len(),
{
    if records.len() == 0 {
        Ok(seq![])
    } else {
        match infer_fields(records.drop_last()) {
            Err(e) => Err(e),
            Ok(root) => match records.last() {
                Jv::Object(entries) => Ok(absorb_entries(root, entries@)),
                other => Err(not_a_record(other)),
            },
        }
    }
}

// ---- the schema --------------------------------------------------------------------------

/// A column type, as a mathematical value.
pub enum Col {
    Null,
    Boolean,
    Int64,
    Float64,
    Utf8,
    List(Box<Col>),
    /// Fields: name, type, and whether the field carries JSON text.
    Struct(Seq<(Seq<char>, Col, bool)>),
}

/// The stock scalar coercion: nothing is `Null`, one type is itself, integers and floats
/// meet at `Float64`, anything else mixed is `Utf8`.
pub open spec fn coerce(s: Scalars) -> Col {
    let n = (if s.boolean { 1int } else { 0 }) + (if s.int64 { 1int } else { 0 }) + (if s.float64 { 1int } else { 0 })
        + (if s.utf8 { 1int } else { 0 });
    if n == 0 {
        Col::Null
    } else if n == 1 {
        if s.boolean {
            Col::Boolean
        } else if s.int64 {
            Col::Int64
        } else if s.float64 {
            Col::Float64
        } else {
            Col::Utf8
        }
    } else if n == 2 && s.int64 && s.float64 {
        Col::Float64
    } else {
        Col::Utf8
    }
}

/// Whether a node is carried as JSON text: the conflict state, and an empty object, which
/// says only that a value was an object.
pub open spec fn json_text(t: Ty) -> bool {
    match t {
        Ty::Text => true,
        Ty::Object(m) => m.len() == 0,
        _ => false,
    }
}

/// The column type for an inferred node.
pub open spec fn col_of(t: Ty) -> Col
    decreases t,
{
    if json_text(t) {
        Col::Utf8
    } else {
        match t {
            Ty::Any => Col::Null,
            Ty::Text => Col::Utf8,
            Ty::Scalar(s) => coerce(s),
            Ty::Object(m) => Col::Struct(cols_of(m)),
            Ty::Array(e) => Col::List(Box::new(col_of(*e))),
        }
    }
}

/// The columns for a list of fields, in key order.
pub open spec fn cols_of(m: Seq<(Seq<char>, Ty)>) -> Seq<(Seq<char>, Col, bool)>
    decreases m,
{
    if m.len() == 0 {
        seq![]
    } else {
        seq![(m[0].0, col_of(m[0].1), json_text(m[0].1))] + cols_of(m.drop_first())
    }
}

/// A column type of the inferred schema.
#[derive(Debug, PartialEq)]
pub enum ColumnType {
    Null,
    Boolean,
    Int64,
    Float64,
    Utf8,
    List(Box<ColumnType>),
    Struct(Vec<Field>),
}

/// One nullable field of the inferred schema; `json_text` marks a `Utf8` field whose
/// contents are JSON text rather than prose.
#[derive(Debug, PartialEq)]
pub struct Field {
    pub name: String,
    pub data_type: ColumnType,
    pub json_text: bool,
}

/// The model of a [`ColumnType`].
pub open spec fn col_model(c: ColumnType) -> Col
    decreases c,
{
    match c {
        ColumnType::Null => Col::Null,
        ColumnType::Boolean => Col::Boolean,
        ColumnType::Int64 => Col::Int64,
        ColumnType::Float64 => Col::Float64,
        ColumnType::Utf8 => Col::Utf8,
        ColumnType::List(e) => Col::List(Box::new(col_model(*e))),
        ColumnType::Struct(fs) => Col::Struct(field_models(fs@)),
    }
}

/// The model of a list of [`Field`]s.
pub open spec fn field_models(fs: Seq<Field>) -> Seq<(Seq<char>, Col, bool)>
    decreases fs,
{
    if fs.len() == 0 {
        seq![]
    } else {
        seq![(fs[0].name@, col_model(fs[0].data_type), fs[0].json_text)] + field_models(fs.drop_first())
    }
}

proof fn lemma_field_models_push(fs: Seq<Field>, f: Field)
    ensures
        field_models(fs.push(f)) == field_models(fs) + seq![(f.name@, col_model(f.data_type), f.json_text)],
    decreases fs.len(),
{
    if fs.len() > 0 {
        lemma_field_models_push(fs.drop_first(), f);
        assert(fs.push(f).drop_first() =~= fs.drop_first().push(f));
        assert(fs.push(f)[0] == fs[0]);
        assert(field_models(fs.push(f)) =~= field_models(fs) + seq![(f.name@, col_model(f.data_type), f.json_text)]);
    } else {
        assert(fs.push(f).drop_first() =~= Seq::<Field>::empty());
        assert(field_models(fs.push(f).drop_first()) =~= Seq::<(Seq<char>, Col, bool)>::empty());
        assert(field_models(fs) =~= Seq::<(Seq<char>, Col, bool)>::empty());
        assert(field_models(fs.push(f)) =~= field_models(fs) + seq![(f.name@, col_model(f.data_type), f.json_text)]);
    }
}

proof fn lemma_cols_of_take(m: Seq<(Seq<char>, Ty)>, i: int)
    requires
        0 <= i < m.len(),
    ensures
        cols_of(m.take(i + 1)) == cols_of(m.take(i)) + seq![(m[i].0, col_of(m[i].1), json_text(m[i].1))],
    decreases i,
{
    if i == 0 {
        assert(m.take(1).drop_first() =~= Seq::<(Seq<char>, Ty)>::empty());
        assert(cols_of(m.take(1).drop_first()) =~= Seq::<(Seq<char>, Col, bool)>::empty());
        assert(cols_of(m.take(0)) =~= Seq::<(Seq<char>, Col, bool)>::empty());
        assert(cols_of(m.take(1)) =~= cols_of(m.take(0)) + seq![(m[0].0, col_of(m[0].1), json_text(m[0].1))]);
    } else {
        lemma_cols_of_take(m.drop_first(), i - 1);
        assert(m.take(i + 1).drop_first() =~= m.drop_first().take(i));
        assert(m.take(i).drop_first() =~= m.drop_first().take(i - 1));
        assert(m.drop_first()[i - 1] == m[i]);
        assert(cols_of(m.take(i + 1)) =~= cols_of(m.take(i)) + seq![(m[i].0, col_of(m[i].1), json_text(m[i].1))]);
    }
}

/// Is this node carried as JSON text? [`json_text`].
fn is_json_text(t: &Inferred) -> (r: bool)
    ensures
        r == json_text(ty_of(*t)),
{
    match t {
        Inferred::Text => true,
        Inferred::Object(v) => {
            proof {
                lemma_fields_of_len(v@);
            }
            v.len() == 0
        },
        _ => false,
    }
}

/// The column type for one scalar set, [`coerce`].
fn coerce_scalars(s: Scalars) -> (r: ColumnType)
    ensures
        col_model(r) == coerce(s),
{
    let n: u8 = (if s.boolean { 1 } else { 0 }) + (if s.int64 { 1 } else { 0 }) + (if s.float64 { 1 } else { 0 })
        + (if s.utf8 { 1 } else { 0 });
    if n == 0 {
        ColumnType::Null
    } else if n == 1 {
        if s.boolean {
            ColumnType::Boolean
        } else if s.int64 {
            ColumnType::Int64
        } else if s.float64 {
            ColumnType::Float64
        } else {
            ColumnType::Utf8
        }
    } else if n == 2 && s.int64 && s.float64 {
        ColumnType::Float64
    } else {
        ColumnType::Utf8
    }
}

/// The column type for an inferred node, [`col_of`].
pub fn datatype_of(t: &Inferred) -> (r: ColumnType)
    ensures
        col_model(r) == col_of(ty_of(*t)),
    decreases t,
{
    if is_json_text(t) {
        return ColumnType::Utf8;
    }
    match t {
        Inferred::Any => ColumnType::Null,
        Inferred::Text => ColumnType::Utf8,
        Inferred::Scalar(s) => coerce_scalars(*s),
        Inferred::Array(e) => {
            assert(decreases_to!(*t => (*t)->Array_0));
            ColumnType::List(Box::new(datatype_of(e)))
        },
        Inferred::Object(v) => ColumnType::Struct(fields_of_list(v)),
    }
}

/// The schema fields for a list of inferred fields, [`cols_of`].
pub fn fields_of_list(v: &Vec<(String, Inferred)>) -> (r: Vec<Field>)
    ensures
        field_models(r@) == cols_of(fields_of(v@)),
    decreases v,
{
    let ghost m = fields_of(v@);
    proof {
        lemma_fields_of_len(v@);
    }
    let mut out: Vec<Field> = Vec::new();
    let mut i: usize = 0;
    assert(m.take(0) =~= Seq::<(Seq<char>, Ty)>::empty());
    assert(field_models(out@) =~= cols_of(m.take(0)));
    while i < v.len()
        invariant
            i <= v@.len(),
            m == fields_of(v@),
            m.len() == v@.len(),
            field_models(out@) == cols_of(m.take(i as int)),
        decreases v@.len() - i,
    {
        proof {
            lemma_fields_of_index(v@, i as int);
        }
        assert(decreases_to!(*v => v@));
        assert(decreases_to!(v@ => v@[i as int]));
        assert(decreases_to!(v@[i as int] => v@[i as int].1));
        let dt = datatype_of(&v[i].1);
        let jt = is_json_text(&v[i].1);
        let f = Field { name: v[i].0.clone(), data_type: dt, json_text: jt };
        proof {
            lemma_field_models_push(out@, f);
            lemma_cols_of_take(m, i as int);
        }
        out.push(f);
        i = i + 1;
    }
    assert(m.take(m.len() as int) =~= m);
    out
}

/// The schema of a fully folded root, field for field in key order: [`cols_of`].
pub fn schema_of(root: &Vec<(String, Inferred)>) -> (r: Vec<Field>)
    ensures
        field_models(r@) == cols_of(fields_of(root@)),
{
    fields_of_list(root)
}

proof fn lemma_fields_of_index(v: Seq<(String, Inferred)>, i: int)
    requires
        0 <= i < v.len(),
    ensures
        fields_of(v)[i] == (v[i].0@, ty_of(v[i].1)),
        fields_of(v).len() == v.len(),
    decreases i,
{
    lemma_fields_of_len(v);
    if i > 0 {
        lemma_fields_of_index(v.drop_first(), i - 1);
        assert(v.drop_first()[i - 1] == v[i]);
    }
}

/// The schema inferred across `records`, [`infer_fields`] then [`cols_of`]; a record that
/// is not an object is refused in the stock reader's words.
pub fn infer(records: &[Jv]) -> (r: Result<Vec<Field>, String>)
    ensures
        match infer_fields(records@) {
            Ok(m) => r matches Ok(fs) && field_models(fs@) == cols_of(m),
            Err(e) => r matches Err(msg) && msg@ == e,
        },
{
    let r = infer_upto(records, records.len());
    assert(records@.take(records@.len() as int) =~= records@);
    r
}

/// [`infer`] over the first `k` records.
pub(crate) fn infer_upto(records: &[Jv], k: usize) -> (r: Result<Vec<Field>, String>)
    requires
        k <= records@.len(),
    ensures
        match infer_fields(records@.take(k as int)) {
            Ok(m) => r matches Ok(fs) && field_models(fs@) == cols_of(m),
            Err(e) => r matches Err(msg) && msg@ == e,
        },
{
    let mut root: Vec<(String, Inferred)> = Vec::new();
    let mut i: usize = 0;
    assert(records@.take(0) =~= Seq::<Jv>::empty());
    assert(fields_of(root@) =~= Seq::<(Seq<char>, Ty)>::empty());
    while i < k
        invariant
            i <= k <= records@.len(),
            infer_fields(records@.take(i as int)) == Ok::<Seq<(Seq<char>, Ty)>, Seq<char>>(fields_of(root@)),
        decreases k - i,
    {
        assert(records@.take(i + 1).drop_last() =~= records@.take(i as int));
        assert(records@.take(i + 1).last() == records@[i as int]);
        match absorb(&mut root, &records[i]) {
            Ok(()) => {},
            Err(e) => {
                proof {
                    assert(records@.take(k as int).take(i as int) =~= records@.take(i as int));
                    assert(records@.take(k as int)[i as int] == records@[i as int]);
                    lemma_infer_fields_err(records@.take(k as int), i as int);
                }
                return Err(e);
            },
        }
        i = i + 1;
    }
    Ok(fields_of_list(&root))
}

/// The refusal of a sample of no rows, which would infer a schema with no columns.
pub open spec fn empty_sample_text() -> Seq<char> {
    json_error_text("Rows scanned to infer must be at least 1. Set a higher value in Table Config."@)
}

/// The schema a JSON source infers from the records of its files in order, reading at most
/// `infer_rows` of them (all when `None`); a refusal in the stock reader's words — a sample
/// of none, or a record that is not an object.
pub fn infer_sample(records: &[Jv], infer_rows: Option<usize>) -> (r: Result<Vec<Field>, String>)
    ensures
        if infer_rows == Some(0usize) {
            r matches Err(msg) && msg@ == empty_sample_text()
        } else {
            let k = match infer_rows {
                Some(n) => if n < records@.len() { n as int } else { records@.len() as int },
                None => records@.len() as int,
            };
            match infer_fields(records@.take(k)) {
                Ok(m) => r matches Ok(fs) && field_models(fs@) == cols_of(m),
                Err(e) => r matches Err(msg) && msg@ == json_error_text(e),
            }
        },
{
    let k = match infer_rows {
        Some(0) => {
            let mut v: Vec<char> = Vec::new();
            crate::text::append_str(&mut v, "Json error: Rows scanned to infer must be at least 1. Set a higher value in Table Config.");
            let m = crate::text::string_of(&v);
            proof {
                reveal_strlit("Json error: Rows scanned to infer must be at least 1. Set a higher value in Table Config.");
                reveal_strlit("Json error: ");
                reveal_strlit("Rows scanned to infer must be at least 1. Set a higher value in Table Config.");
                assert(m@ =~= empty_sample_text());
            }
            return Err(m);
        },
        Some(n) => if n < records.len() { n } else { records.len() },
        None => records.len(),
    };
    match infer_upto(records, k) {
        Ok(fs) => Ok(fs),
        Err(e) => {
            let mut v: Vec<char> = Vec::new();
            crate::text::append_str(&mut v, "Json error: ");
            crate::text::append_str(&mut v, e.as_str());
            proof {
                reveal_strlit("Json error: ");
            }
            Err(crate::text::string_of(&v))
        },
    }
}

proof fn lemma_infer_fields_err(records: Seq<Jv>, i: int)
    requires
        0 <= i < records.len(),
        infer_fields(records.take(i)) is Ok,
        !(records[i] is Object),
    ensures
        infer_fields(records) == Err::<Seq<(Seq<char>, Ty)>, Seq<char>>(not_a_record(records[i])),
    decreases records.len(),
{
    if i + 1 < records.len() {
        assert(records.drop_last().take(i) =~= records.take(i));
        assert(records.drop_last()[i] == records[i]);
        lemma_infer_fields_err(records.drop_last(), i);
    } else {
        assert(records.drop_last() =~= records.take(i));
    }
}

// ---- laws ---------------------------------------------------------------------------------

/// The conflict state is absorbing on both sides: once `Text`, always `Text`.
pub proof fn lemma_text_absorbs(t: Ty)
    ensures
        merge(Ty::Text, t) == Ty::Text,
        merge(t, Ty::Text) == Ty::Text,
{
}

/// `Any` — JSON `null`, or a key never seen — is the identity: it never provokes a
/// conflict and never changes what it meets.
pub proof fn lemma_any_is_identity(t: Ty)
    ensures
        merge(Ty::Any, t) == t,
        merge(t, Ty::Any) == t,
{
}

proof fn lemma_put_wf(m: Seq<(Seq<char>, Ty)>, k: Seq<char>, t: Ty)
    requires
        sorted(m),
        fields_wf(m),
        wf(t),
    ensures
        sorted(put(m, k, t)),
        fields_wf(put(m, k, t)),
        forall|lo: Seq<char>| keys_above(m, lo) && key_lt(lo, k) ==> #[trigger] keys_above(put(m, k, t), lo),
    decreases m.len(),
{
    let r = put(m, k, t);
    lemma_fields_index(m);
    if m.len() == 0 {
        lemma_sorted_cons((k, t), seq![]);
        assert(r =~= seq![(k, t)] + Seq::<(Seq<char>, Ty)>::empty());
        lemma_fields_index(r);
    } else {
        lemma_sorted_tail(m);
        lemma_key_lt_total(k, m[0].0);
        if m[0].0 == k {
            lemma_sorted_cons((k, t), m.drop_first());
        } else if key_lt(k, m[0].0) {
            lemma_keys_above_weaken(m.drop_first(), k, m[0].0);
            assert(keys_above(m, k)) by {
                assert forall|j: int| 0 <= j < m.len() implies key_lt(k, #[trigger] m[j].0) by {
                    if j > 0 {
                        assert(m[j] == m.drop_first()[j - 1]);
                    }
                }
            }
            lemma_sorted_cons((k, t), m);
        } else {
            lemma_fields_index(m.drop_first());
            lemma_put_wf(m.drop_first(), k, t);
            assert(keys_above(put(m.drop_first(), k, t), m[0].0));
            lemma_sorted_cons(m[0], put(m.drop_first(), k, t));
        }
        lemma_fields_index(put(m.drop_first(), k, t));
        assert forall|i: int| 0 <= i < r.len() implies wf(#[trigger] r[i].1) by {
            if m[0].0 == k {
                if i > 0 {
                    assert(r[i] == m.drop_first()[i - 1]);
                    assert(m.drop_first()[i - 1] == m[i]);
                }
            } else if key_lt(k, m[0].0) {
                if i > 0 {
                    assert(r[i] == m[i - 1]);
                }
            } else {
                if i > 0 {
                    assert(r[i] == put(m.drop_first(), k, t)[i - 1]);
                }
            }
        }
        lemma_fields_index(r);
        assert forall|lo: Seq<char>| keys_above(m, lo) && key_lt(lo, k) implies #[trigger] keys_above(r, lo) by {
            assert forall|i: int| 0 <= i < r.len() implies key_lt(lo, #[trigger] r[i].0) by {
                if m[0].0 == k {
                    if i > 0 {
                        assert(r[i] == m.drop_first()[i - 1]);
                        assert(m.drop_first()[i - 1] == m[i]);
                    }
                } else if key_lt(k, m[0].0) {
                    if i > 0 {
                        assert(r[i] == m[i - 1]);
                    }
                } else {
                    if i > 0 {
                        assert(keys_above(m.drop_first(), lo)) by {
                            assert forall|j: int| 0 <= j < m.drop_first().len() implies key_lt(lo, #[trigger] m.drop_first()[j].0) by {
                                assert(m.drop_first()[j] == m[j + 1]);
                            }
                        }
                        assert(keys_above(put(m.drop_first(), k, t), lo));
                        assert(r[i] == put(m.drop_first(), k, t)[i - 1]);
                    }
                }
            }
        }
    }
}

/// Every inferred type is well-formed.
pub proof fn lemma_of_value_wf(v: Jv)
    ensures
        wf(of_value(v)),
    decreases v,
{
    match v {
        Jv::Array(items) => {
            lemma_items_ty_wf(items@);
        },
        Jv::Object(entries) => {
            lemma_entries_fields_wf(entries@);
        },
        _ => {},
    }
}

proof fn lemma_items_ty_wf(items: Seq<Jv>)
    ensures
        wf(items_ty(items)),
    decreases items,
{
    if items.len() > 0 {
        lemma_items_ty_wf(items.drop_last());
        lemma_of_value_wf(items.last());
        lemma_merge_wf(items_ty(items.drop_last()), of_value(items.last()));
    }
}

proof fn lemma_entries_fields_wf(entries: Seq<(String, Jv)>)
    ensures
        sorted(entries_fields(entries)),
        fields_wf(entries_fields(entries)),
    decreases entries,
{
    if entries.len() > 0 {
        lemma_entries_fields_wf(entries.drop_last());
        lemma_of_value_wf(entries.last().1);
        lemma_put_wf(entries_fields(entries.drop_last()), entries.last().0@, of_value(entries.last().1));
    }
}

/// Merging two well-formed field lists gives a well-formed one.
proof fn lemma_merge_fields_wf(x: Seq<(Seq<char>, Ty)>, y: Seq<(Seq<char>, Ty)>)
    requires
        sorted(x),
        fields_wf(x),
        sorted(y),
        fields_wf(y),
    ensures
        sorted(merge_fields(x, y)),
        fields_wf(merge_fields(x, y)),
{
    lemma_merge_wf(Ty::Object(x), Ty::Object(y));
}

/// The fields one record contributes on its own.
pub open spec fn record_fields(entries: Seq<(String, Jv)>) -> Seq<(Seq<char>, Ty)> {
    absorb_entries(seq![], entries)
}

/// Folding a record into `root` merges `root` with what the record contributes alone.
proof fn lemma_absorb_is_merge(root: Seq<(Seq<char>, Ty)>, entries: Seq<(String, Jv)>)
    requires
        sorted(root),
        fields_wf(root),
    ensures
        absorb_entries(root, entries) == merge_fields(root, record_fields(entries)),
        sorted(record_fields(entries)),
        fields_wf(record_fields(entries)),
        sorted(absorb_entries(root, entries)),
        fields_wf(absorb_entries(root, entries)),
    decreases entries.len(),
{
    let empty = Seq::<(Seq<char>, Ty)>::empty();
    if entries.len() == 0 {
        assert(merge_fields(root, empty) == root);
    } else {
        let init = entries.drop_last();
        let (k, v) = entries.last();
        let one = seq![(k@, of_value(v))];
        lemma_absorb_is_merge(root, init);
        lemma_absorb_is_merge(empty, init);
        lemma_of_value_wf(v);
        assert(sorted(one));
        assert(fields_wf(one)) by {
            lemma_fields_index(one);
        }
        assert(merge_fields(empty, record_fields(init)) == record_fields(init));
        let a = record_fields(init);
        lemma_merge_fields_wf(a, one);
        lemma_merge_fields_wf(absorb_entries(root, init), one);
        lemma_merge_assoc(Ty::Object(root), Ty::Object(a), Ty::Object(one));
    }
}

/// **Record order does not matter.** Folding two object records into a tree gives the
/// same tree in either order — so, swap by swap, any permutation of a file's records
/// infers the same schema.
pub proof fn lemma_absorb_order_independent(
    root: Seq<(Seq<char>, Ty)>,
    first: Seq<(String, Jv)>,
    second: Seq<(String, Jv)>,
)
    requires
        sorted(root),
        fields_wf(root),
    ensures
        absorb_entries(absorb_entries(root, first), second) == absorb_entries(absorb_entries(root, second), first),
{
    lemma_absorb_is_merge(root, first);
    lemma_absorb_is_merge(root, second);
    lemma_absorb_is_merge(absorb_entries(root, first), second);
    lemma_absorb_is_merge(absorb_entries(root, second), first);
    let a = record_fields(first);
    let b = record_fields(second);
    lemma_merge_assoc(Ty::Object(root), Ty::Object(a), Ty::Object(b));
    lemma_merge_assoc(Ty::Object(root), Ty::Object(b), Ty::Object(a));
    lemma_merge_comm(Ty::Object(a), Ty::Object(b));
}

/// Every record is a JSON object.
pub open spec fn all_objects(records: Seq<Jv>) -> bool {
    forall|i: int| 0 <= i < records.len() ==> #[trigger] records[i] is Object
}

proof fn lemma_infer_fields_ok(records: Seq<Jv>)
    requires
        all_objects(records),
    ensures
        infer_fields(records) is Ok,
        sorted(infer_fields(records)->Ok_0),
        fields_wf(infer_fields(records)->Ok_0),
    decreases records.len(),
{
    if records.len() > 0 {
        assert(all_objects(records.drop_last())) by {
            assert forall|i: int| 0 <= i < records.drop_last().len() implies #[trigger] records.drop_last()[i] is Object by {
                assert(records.drop_last()[i] == records[i]);
            }
        }
        lemma_infer_fields_ok(records.drop_last());
        assert(records.last() is Object);
        let root = infer_fields(records.drop_last())->Ok_0;
        lemma_absorb_is_merge(root, records.last()->Object_0@);
    } else {
        assert(fields_wf(Seq::<(Seq<char>, Ty)>::empty()));
    }
}

/// `records` with the neighbours at `i` and `i + 1` exchanged.
pub open spec fn swap_neighbours(records: Seq<Jv>, i: int) -> Seq<Jv> {
    records.update(i, records[i + 1]).update(i + 1, records[i])
}

/// **The schema does not depend on the order records are read in.** Over records that are
/// all objects, exchanging any two neighbours infers the same fields; every permutation is
/// a chain of such exchanges. (A non-object record is refused, and which one is reported
/// first does depend on order.)
pub proof fn lemma_infer_order_independent(records: Seq<Jv>, i: int)
    requires
        all_objects(records),
        0 <= i,
        i + 1 < records.len(),
    ensures
        infer_fields(records) == infer_fields(swap_neighbours(records, i)),
    decreases records.len(),
{
    let sw = swap_neighbours(records, i);
    assert(all_objects(sw)) by {
        assert forall|j: int| 0 <= j < sw.len() implies #[trigger] sw[j] is Object by {
            if j == i {
                assert(sw[j] == records[i + 1]);
            } else if j == i + 1 {
                assert(sw[j] == records[i]);
            } else {
                assert(sw[j] == records[j]);
            }
        }
    }
    if i + 2 == records.len() {
        let base = records.take(i);
        assert(records.drop_last().drop_last() =~= base);
        assert(sw.drop_last().drop_last() =~= base);
        assert(all_objects(base)) by {
            assert forall|j: int| 0 <= j < base.len() implies #[trigger] base[j] is Object by {
                assert(base[j] == records[j]);
            }
        }
        lemma_infer_fields_ok(base);
        let root = infer_fields(base)->Ok_0;
        let a = records[i];
        let b = records[i + 1];
        assert(a is Object);
        assert(b is Object);
        assert(records.drop_last().last() == a);
        assert(sw.drop_last().last() == b);
        assert(records.last() == b);
        assert(sw.last() == a);
        let ea = a->Object_0@;
        let eb = b->Object_0@;
        lemma_absorb_order_independent(root, ea, eb);
        assert(infer_fields(records.drop_last()) == Ok::<Seq<(Seq<char>, Ty)>, Seq<char>>(absorb_entries(root, ea)));
        assert(infer_fields(records) == Ok::<Seq<(Seq<char>, Ty)>, Seq<char>>(absorb_entries(absorb_entries(root, ea), eb)));
        assert(infer_fields(sw.drop_last()) == Ok::<Seq<(Seq<char>, Ty)>, Seq<char>>(absorb_entries(root, eb)));
        assert(infer_fields(sw) == Ok::<Seq<(Seq<char>, Ty)>, Seq<char>>(absorb_entries(absorb_entries(root, eb), ea)));
    } else {
        assert(all_objects(records.drop_last())) by {
            assert forall|j: int| 0 <= j < records.drop_last().len() implies #[trigger] records.drop_last()[j] is Object by {
                assert(records.drop_last()[j] == records[j]);
            }
        }
        lemma_infer_order_independent(records.drop_last(), i);
        assert(swap_neighbours(records.drop_last(), i) =~= sw.drop_last());
        assert(sw.last() == records.last());
        assert(infer_fields(records.drop_last()) == infer_fields(sw.drop_last()));
    }
}

/// **Only numbers meet as a number**: a key whose values are scalars types as `Float64`
/// exactly when it saw a float and nothing but numbers, as `Int64` or `Boolean` only when
/// it saw nothing else, and as `Utf8` whenever it saw text or a flag mixed with a number.
pub proof fn law_scalar_columns(s: Scalars)
    ensures
        coerce(s) == Col::Null <==> !s.boolean && !s.int64 && !s.float64 && !s.utf8,
        coerce(s) == Col::Boolean <==> s.boolean && !s.int64 && !s.float64 && !s.utf8,
        coerce(s) == Col::Int64 <==> !s.boolean && s.int64 && !s.float64 && !s.utf8,
        coerce(s) == Col::Float64 <==> !s.boolean && s.float64 && !s.utf8,
        coerce(s) == Col::Utf8 <==> s.utf8 || (s.boolean && (s.int64 || s.float64)),
{
}

} // verus!
