//! What a live database connection lists: its schemas and the relations a query can read in
//! each, keyed by the engine identity of their names, and what a surface sees of them.
//!
//! Two spellings that fold to one SQL name cannot both be addressed, so the first one listed
//! keeps the name and the other is left out. Keys are kept in code-point order, so a listing
//! reads the same on every run whatever order the server answered in.

use vstd::prelude::*;

use crate::json_infer::{key_less, key_lt, lemma_key_lt_irreflexive, lemma_key_lt_total, lemma_key_lt_transitive};
use crate::names::fold_ident;
use crate::tables::ident_of;
use crate::text::{chars_of, same_chars};

verus! {

// ---- key-ordered entries as maps -------------------------------------------------------------

/// The map a list of keyed entries spells, a later entry winning.
pub open spec fn kv_map<V>(s: Seq<(Seq<char>, V)>) -> Map<Seq<char>, V>
    decreases s.len(),
{
    if s.len() == 0 {
        Map::empty()
    } else {
        kv_map(s.drop_last()).insert(s.last().0, s.last().1)
    }
}

/// The entries' keys are strictly increasing in code-point order.
pub open spec fn keys_sorted<V>(s: Seq<(Seq<char>, V)>) -> bool {
    forall|i: int, j: int| 0 <= i < j < s.len() ==> key_lt(#[trigger] s[i].0, #[trigger] s[j].0)
}

proof fn lemma_kv_dom<V>(s: Seq<(Seq<char>, V)>, k: Seq<char>)
    ensures
        kv_map(s).contains_key(k) <==> exists|i: int| 0 <= i < s.len() && #[trigger] s[i].0 == k,
    decreases s.len(),
{
    if s.len() > 0 {
        lemma_kv_dom(s.drop_last(), k);
        if kv_map(s.drop_last()).contains_key(k) {
            let i = choose|i: int| 0 <= i < s.drop_last().len() && #[trigger] s.drop_last()[i].0 == k;
            assert(s[i].0 == k);
        }
        if exists|i: int| 0 <= i < s.len() && #[trigger] s[i].0 == k {
            let i = choose|i: int| 0 <= i < s.len() && #[trigger] s[i].0 == k;
            if i < s.len() - 1 {
                assert(s.drop_last()[i].0 == k);
            }
        }
    }
}

proof fn lemma_kv_get<V>(s: Seq<(Seq<char>, V)>, i: int)
    requires
        keys_sorted(s),
        0 <= i < s.len(),
    ensures
        kv_map(s).contains_key(s[i].0),
        kv_map(s)[s[i].0] == s[i].1,
    decreases s.len(),
{
    if i < s.len() - 1 {
        let t = s.drop_last();
        assert forall|a: int, b: int| 0 <= a < b < t.len() implies key_lt(#[trigger] t[a].0, #[trigger] t[b].0) by {
            assert(t[a] == s[a] && t[b] == s[b]);
        }
        lemma_kv_get(t, i);
        assert(t[i] == s[i]);
        assert(key_lt(s[i].0, s.last().0));
        lemma_key_lt_irreflexive(s[i].0);
    }
}

proof fn lemma_kv_insert<V>(s: Seq<(Seq<char>, V)>, i: int, k: Seq<char>, v: V)
    requires
        keys_sorted(s),
        0 <= i <= s.len(),
        forall|j: int| 0 <= j < i ==> key_lt(#[trigger] s[j].0, k),
        forall|j: int| i <= j < s.len() ==> key_lt(k, #[trigger] s[j].0),
    ensures
        kv_map(s.insert(i, (k, v))) == kv_map(s).insert(k, v),
        keys_sorted(s.insert(i, (k, v))),
    decreases s.len(),
{
    let t = s.insert(i, (k, v));
    assert forall|a: int, b: int| 0 <= a < b < t.len() implies key_lt(#[trigger] t[a].0, #[trigger] t[b].0) by {
        if b < i {
            assert(t[a] == s[a] && t[b] == s[b]);
        } else if b == i {
            assert(t[a] == s[a]);
        } else if a < i {
            assert(t[a] == s[a] && t[b] == s[b - 1]);
            lemma_key_lt_transitive(s[a].0, k, s[b - 1].0);
        } else if a == i {
            assert(t[b] == s[b - 1]);
        } else {
            assert(t[a] == s[a - 1] && t[b] == s[b - 1]);
        }
    }
    if i == s.len() {
        assert(t.drop_last() =~= s);
    } else {
        let u = s.drop_last();
        assert forall|a: int, b: int| 0 <= a < b < u.len() implies key_lt(#[trigger] u[a].0, #[trigger] u[b].0) by {
            assert(u[a] == s[a] && u[b] == s[b]);
        }
        lemma_kv_insert(u, i, k, v);
        assert(t.drop_last() =~= u.insert(i, (k, v)));
        assert(t.last() == s.last());
        let last = s.last();
        assert(key_lt(k, last.0));
        lemma_key_lt_irreflexive(k);
        assert(kv_map(u).insert(k, v).insert(last.0, last.1) =~= kv_map(u).insert(last.0, last.1).insert(k, v));
    }
}

proof fn lemma_kv_update<V>(s: Seq<(Seq<char>, V)>, i: int, v: V)
    requires
        keys_sorted(s),
        0 <= i < s.len(),
    ensures
        kv_map(s.update(i, (s[i].0, v))) == kv_map(s).insert(s[i].0, v),
        keys_sorted(s.update(i, (s[i].0, v))),
    decreases s.len(),
{
    let t = s.update(i, (s[i].0, v));
    assert forall|a: int, b: int| 0 <= a < b < t.len() implies key_lt(#[trigger] t[a].0, #[trigger] t[b].0) by {
        assert(t[a].0 == s[a].0 && t[b].0 == s[b].0);
    }
    if i == s.len() - 1 {
        assert(t.drop_last() =~= s.drop_last());
        assert(kv_map(s.drop_last()).insert(s[i].0, s[i].1).insert(s[i].0, v) =~= kv_map(s.drop_last()).insert(s[i].0, v));
    } else {
        let u = s.drop_last();
        assert forall|a: int, b: int| 0 <= a < b < u.len() implies key_lt(#[trigger] u[a].0, #[trigger] u[b].0) by {
            assert(u[a] == s[a] && u[b] == s[b]);
        }
        lemma_kv_update(u, i, v);
        assert(t.drop_last() =~= u.update(i, (u[i].0, v)));
        let last = s.last();
        assert(key_lt(s[i].0, last.0));
        lemma_key_lt_irreflexive(last.0);
        assert(kv_map(u).insert(s[i].0, v).insert(last.0, last.1) =~= kv_map(u).insert(last.0, last.1).insert(s[i].0, v));
    }
}

// ---- relations and schemas -------------------------------------------------------------------

/// A relation a query can read, as the server spells it, with the server's letter for its
/// kind: `r` `p` `v` `m` `f` — a table, a partitioned one, a view, a materialized view, a
/// foreign table.
#[derive(Clone, Debug, PartialEq)]
pub struct Relation {
    pub name: String,
    pub relkind: String,
}

pub open spec fn relation_view(r: Relation) -> (Seq<char>, Seq<char>) {
    (r.name@, r.relkind@)
}

/// Whether a relation of kind `relkind` is a view to the engine: a view or a materialized
/// view; every other kind is a table.
pub fn is_view_kind(relkind: &str) -> (r: bool)
    ensures
        r == (relkind@ == "v"@ || relkind@ == "m"@),
{
    let c = chars_of(relkind);
    let v: Vec<char> = vec!['v'];
    let m: Vec<char> = vec!['m'];
    proof {
        reveal_strlit("v");
        reveal_strlit("m");
        assert(v@ =~= "v"@);
        assert(m@ =~= "m"@);
    }
    same_chars(&c, &v) || same_chars(&c, &m)
}

/// One schema of a listing: its key (the engine identity of its name), its name as the
/// server spells it, and its relations keyed the same way, in key order.
pub struct SchemaListing {
    pub folded: String,
    pub name: String,
    pub relations: Vec<(String, Relation)>,
}

pub open spec fn rel_entries(v: Seq<(String, Relation)>) -> Seq<(Seq<char>, (Seq<char>, Seq<char>))> {
    v.map_values(|e: (String, Relation)| (e.0@, relation_view(e.1)))
}

pub open spec fn schema_entries(v: Seq<SchemaListing>) -> Seq<
    (Seq<char>, (Seq<char>, Map<Seq<char>, (Seq<char>, Seq<char>)>)),
> {
    v.map_values(|s: SchemaListing| (s.folded@, (s.name@, kv_map(rel_entries(s.relations@)))))
}

/// A schema list is well formed: keys in order, each relation list in order, and each
/// schema keyed by the identity of its own name.
pub open spec fn schemas_wf(v: Seq<SchemaListing>) -> bool {
    &&& keys_sorted(schema_entries(v))
    &&& forall|i: int| 0 <= i < v.len() ==> keys_sorted(rel_entries(#[trigger] v[i].relations@))
    &&& forall|i: int| 0 <= i < v.len() ==> ident_of((#[trigger] v[i]).name@) == v[i].folded@
}

/// The schemas a live database lists, each with the relations a query can read.
pub struct Listing {
    schemas: Vec<SchemaListing>,
}

impl Listing {
    #[verifier::type_invariant]
    spec fn inv(self) -> bool {
        schemas_wf(self.schemas@)
    }

    /// Schema key to the schema's name and its relations, relation key to the relation's
    /// name and kind.
    pub closed spec fn model(self) -> Map<Seq<char>, (Seq<char>, Map<Seq<char>, (Seq<char>, Seq<char>)>)> {
        kv_map(schema_entries(self.schemas@))
    }

    /// The schemas, in key order.
    pub fn schemas(&self) -> (r: &Vec<SchemaListing>)
        ensures
            schema_rows(r@) == self.schema_list(),
    {
        &self.schemas
    }

    /// The schemas in key order: each one's key, name, and relations in key order.
    pub closed spec fn schema_list(self) -> Seq<(Seq<char>, Seq<char>, Seq<(Seq<char>, (Seq<char>, Seq<char>))>)> {
        schema_rows(self.schemas@)
    }
}

pub open spec fn schema_rows(v: Seq<SchemaListing>) -> Seq<(Seq<char>, Seq<char>, Seq<(Seq<char>, (Seq<char>, Seq<char>))>)> {
    v.map_values(|s: SchemaListing| (s.folded@, s.name@, rel_entries(s.relations@)))
}

/// A schema list is in order: schema keys strictly increasing, and within each schema its
/// relation keys.
pub open spec fn list_ordered(l: Seq<(Seq<char>, Seq<char>, Seq<(Seq<char>, (Seq<char>, Seq<char>))>)>) -> bool {
    &&& forall|i: int, j: int| 0 <= i < j < l.len() ==> key_lt(#[trigger] l[i].0, #[trigger] l[j].0)
    &&& forall|i: int| 0 <= i < l.len() ==> keys_sorted(#[trigger] l[i].2)
}

/// The map a schema list spells.
pub open spec fn list_model(l: Seq<(Seq<char>, Seq<char>, Seq<(Seq<char>, (Seq<char>, Seq<char>))>)>) -> Map<
    Seq<char>,
    (Seq<char>, Map<Seq<char>, (Seq<char>, Seq<char>)>),
> {
    kv_map(l.map_values(|e: (Seq<char>, Seq<char>, Seq<(Seq<char>, (Seq<char>, Seq<char>))>)| (e.0, (e.1, kv_map(e.2)))))
}

/// One row of the server's answer folded into a listing: a schema whose spelling folds onto
/// a schema already listed under another spelling is hidden, relations and all; a relation
/// whose spelling folds onto one already listed in its schema is hidden; everything else is
/// listed under its key.
pub open spec fn listing_step(
    m: Map<Seq<char>, (Seq<char>, Map<Seq<char>, (Seq<char>, Seq<char>)>)>,
    schema: Seq<char>,
    name: Seq<char>,
    kind: Seq<char>,
) -> Map<Seq<char>, (Seq<char>, Map<Seq<char>, (Seq<char>, Seq<char>)>)> {
    let fs = ident_of(schema);
    if m.contains_key(fs) && m[fs].0 != schema {
        m
    } else {
        let e = if m.contains_key(fs) {
            m[fs]
        } else {
            (schema, Map::<Seq<char>, (Seq<char>, Seq<char>)>::empty())
        };
        let fr = ident_of(name);
        if e.1.contains_key(fr) {
            m.insert(fs, e)
        } else {
            m.insert(fs, (e.0, e.1.insert(fr, (name, kind))))
        }
    }
}

/// The listing the first `n` rows `(schema, relation, kind)` fold into.
pub open spec fn listing_of(rows: Seq<(String, String, String)>, n: nat) -> Map<
    Seq<char>,
    (Seq<char>, Map<Seq<char>, (Seq<char>, Seq<char>)>),
>
    decreases n,
{
    if n == 0 {
        Map::empty()
    } else {
        let r = rows[n - 1];
        listing_step(listing_of(rows, (n - 1) as nat), r.0@, r.1@, r.2@)
    }
}

proof fn lemma_key_absent<V>(s: Seq<(Seq<char>, V)>, i: int, k: Seq<char>)
    requires
        keys_sorted(s),
        0 <= i <= s.len(),
        forall|j: int| 0 <= j < i ==> key_lt(#[trigger] s[j].0, k),
        forall|j: int| i <= j < s.len() ==> key_lt(k, #[trigger] s[j].0),
    ensures
        !kv_map(s).contains_key(k),
{
    lemma_kv_dom(s, k);
    if kv_map(s).contains_key(k) {
        let j = choose|j: int| 0 <= j < s.len() && #[trigger] s[j].0 == k;
        lemma_key_lt_irreflexive(k);
    }
}

proof fn lemma_rel_entries_insert(v: Seq<(String, Relation)>, i: int, e: (String, Relation))
    requires
        0 <= i <= v.len(),
    ensures
        rel_entries(v.insert(i, e)) == rel_entries(v).insert(i, (e.0@, relation_view(e.1))),
{
    assert(rel_entries(v.insert(i, e)) =~= rel_entries(v).insert(i, (e.0@, relation_view(e.1))));
}

/// Adds a relation under its key unless one is already listed there.
fn add_relation(rels: &mut Vec<(String, Relation)>, name: &String, kind: &String)
    requires
        keys_sorted(rel_entries(old(rels)@)),
    ensures
        keys_sorted(rel_entries(final(rels)@)),
        kv_map(rel_entries(final(rels)@)) == if kv_map(rel_entries(old(rels)@)).contains_key(ident_of(name@)) {
            kv_map(rel_entries(old(rels)@))
        } else {
            kv_map(rel_entries(old(rels)@)).insert(ident_of(name@), (name@, kind@))
        },
{
    let ghost s = rel_entries(rels@);
    let fr = fold_ident(name.as_str());
    let frc = chars_of(fr.as_str());
    let mut i: usize = 0;
    let mut stop = false;
    while i < rels.len() && !stop
        invariant
            i <= rels@.len(),
            rels@ == old(rels)@,
            s == rel_entries(rels@),
            keys_sorted(s),
            fr@ == ident_of(name@),
            frc@ == fr@,
            stop ==> i < s.len() && key_lt(fr@, s[i as int].0),
            forall|j: int| 0 <= j < i ==> key_lt(#[trigger] s[j].0, fr@),
        decreases (rels@.len() - i) * 2 + (if stop { 0int } else { 1int }),
    {
        assert(s[i as int].0 == rels@[i as int].0@);
        let kc = chars_of(rels[i].0.as_str());
        if same_chars(&kc, &frc) {
            proof {
                lemma_kv_get(s, i as int);
            }
            return;
        }
        if key_less(rels[i].0.as_str(), fr.as_str()) {
            i = i + 1;
        } else {
            proof {
                lemma_key_lt_total(s[i as int].0, fr@);
            }
            stop = true;
        }
    }
    proof {
        assert forall|j: int| i <= j < s.len() implies key_lt(fr@, #[trigger] s[j].0) by {
            if j > i {
                lemma_key_lt_transitive(fr@, s[i as int].0, s[j].0);
            }
        }
        lemma_key_absent(s, i as int, fr@);
        lemma_kv_insert(s, i as int, fr@, (name@, kind@));
    }
    let e = (fr, Relation { name: name.clone(), relkind: kind.clone() });
    proof {
        lemma_rel_entries_insert(rels@, i as int, e);
    }
    rels.insert(i, e);
}

proof fn lemma_schema_entries_insert(v: Seq<SchemaListing>, i: int, e: SchemaListing)
    requires
        0 <= i <= v.len(),
    ensures
        schema_entries(v.insert(i, e)) == schema_entries(v).insert(
            i,
            (e.folded@, (e.name@, kv_map(rel_entries(e.relations@)))),
        ),
{
    assert(schema_entries(v.insert(i, e)) =~= schema_entries(v).insert(
        i,
        (e.folded@, (e.name@, kv_map(rel_entries(e.relations@)))),
    ));
}

/// Folds one row of the server's answer into the schemas, [`listing_step`].
fn add_row(schemas: &mut Vec<SchemaListing>, schema: &String, name: &String, kind: &String)
    requires
        schemas_wf(old(schemas)@),
    ensures
        schemas_wf(final(schemas)@),
        kv_map(schema_entries(final(schemas)@)) == listing_step(
            kv_map(schema_entries(old(schemas)@)),
            schema@,
            name@,
            kind@,
        ),
{
    let ghost s = schema_entries(schemas@);
    let fs = fold_ident(schema.as_str());
    let fsc = chars_of(fs.as_str());
    let mut i: usize = 0;
    let mut stop = false;
    while i < schemas.len() && !stop
        invariant
            i <= schemas@.len(),
            schemas@ == old(schemas)@,
            s == schema_entries(schemas@),
            schemas_wf(schemas@),
            fs@ == ident_of(schema@),
            fsc@ == fs@,
            stop ==> i < s.len() && key_lt(fs@, s[i as int].0),
            forall|j: int| 0 <= j < i ==> key_lt(#[trigger] s[j].0, fs@),
        decreases (schemas@.len() - i) * 2 + (if stop { 0int } else { 1int }),
    {
        assert(s[i as int].0 == schemas@[i as int].folded@);
        let kc = chars_of(schemas[i].folded.as_str());
        if same_chars(&kc, &fsc) {
            proof {
                lemma_kv_get(s, i as int);
            }
            let nc = chars_of(schemas[i].name.as_str());
            let sc = chars_of(schema.as_str());
            if !same_chars(&nc, &sc) {
                return;
            }
            let mut entry = schemas.remove(i);
            let ghost before = entry.relations@;
            add_relation(&mut entry.relations, name, kind);
            let ghost e2 = (entry.folded@, (entry.name@, kv_map(rel_entries(entry.relations@))));
            proof {
                lemma_kv_update(s, i as int, e2.1);
                assert(s.update(i as int, (s[i as int].0, e2.1)) =~= schema_entries(schemas@).insert(i as int, e2));
                let m = kv_map(s);
                assert(m[fs@] == (entry.name@, kv_map(rel_entries(before))));
                if kv_map(rel_entries(before)).contains_key(ident_of(name@)) {
                    assert(m.insert(fs@, m[fs@]) =~= m);
                }
            }
            proof {
                lemma_schema_entries_insert(schemas@, i as int, entry);
            }
            schemas.insert(i, entry);
            proof {
                let t = schemas@;
                assert forall|q: int| 0 <= q < t.len() implies keys_sorted(rel_entries(#[trigger] t[q].relations@)) by {
                    if q != i {
                        assert(t[q] == old(schemas)@[q]);
                    }
                }
                assert forall|q: int| 0 <= q < t.len() implies ident_of((#[trigger] t[q]).name@) == t[q].folded@ by {
                    if q != i {
                        assert(t[q] == old(schemas)@[q]);
                    } else {
                        assert(old(schemas)@[q].name@ == t[q].name@);
                    }
                }
            }
            return;
        }
        if key_less(schemas[i].folded.as_str(), fs.as_str()) {
            i = i + 1;
        } else {
            proof {
                lemma_key_lt_total(s[i as int].0, fs@);
            }
            stop = true;
        }
    }
    proof {
        assert forall|j: int| i <= j < s.len() implies key_lt(fs@, #[trigger] s[j].0) by {
            if j > i {
                lemma_key_lt_transitive(fs@, s[i as int].0, s[j].0);
            }
        }
        lemma_key_absent(s, i as int, fs@);
    }
    let mut rels: Vec<(String, Relation)> = Vec::new();
    assert(rel_entries(rels@) =~= Seq::<(Seq<char>, (Seq<char>, Seq<char>))>::empty());
    add_relation(&mut rels, name, kind);
    proof {
        assert(kv_map(rel_entries(Seq::<(String, Relation)>::empty())) =~= Map::<Seq<char>, (Seq<char>, Seq<char>)>::empty());
    }
    let entry = SchemaListing { folded: fs, name: schema.clone(), relations: rels };
    proof {
        lemma_kv_insert(s, i as int, entry.folded@, (entry.name@, kv_map(rel_entries(entry.relations@))));
        lemma_schema_entries_insert(schemas@, i as int, entry);
    }
    schemas.insert(i, entry);
    proof {
        let t = schemas@;
        assert forall|q: int| 0 <= q < t.len() implies keys_sorted(rel_entries(#[trigger] t[q].relations@)) by {
            if q < i {
                assert(t[q] == old(schemas)@[q]);
            } else if q > i {
                assert(t[q] == old(schemas)@[q - 1]);
            }
        }
        assert forall|q: int| 0 <= q < t.len() implies ident_of((#[trigger] t[q]).name@) == t[q].folded@ by {
            if q < i {
                assert(t[q] == old(schemas)@[q]);
            } else if q > i {
                assert(t[q] == old(schemas)@[q - 1]);
            }
        }
    }
}

/// The listing the server's rows `(schema, relation, kind)` fold into, [`listing_of`]: keys
/// in code-point order, and the first spelling of a name kept where two fold together.
pub fn enumerate(rows: &[(String, String, String)]) -> (r: Listing)
    ensures
        r.model() == listing_of(rows@, rows@.len()),
        list_model(r.schema_list()) == r.model(),
        list_ordered(r.schema_list()),
{
    let mut schemas: Vec<SchemaListing> = Vec::new();
    assert(schema_entries(schemas@) =~= Seq::<(Seq<char>, (Seq<char>, Map<Seq<char>, (Seq<char>, Seq<char>)>))>::empty());
    let mut n: usize = 0;
    while n < rows.len()
        invariant
            n <= rows@.len(),
            schemas_wf(schemas@),
            kv_map(schema_entries(schemas@)) == listing_of(rows@, n as nat),
        decreases rows@.len() - n,
    {
        add_row(&mut schemas, &rows[n].0, &rows[n].1, &rows[n].2);
        n = n + 1;
    }
    proof {
        let l = schema_rows(schemas@);
        assert(l.map_values(
            |e: (Seq<char>, Seq<char>, Seq<(Seq<char>, (Seq<char>, Seq<char>))>)| (e.0, (e.1, kv_map(e.2))),
        ) =~= schema_entries(schemas@));
        assert forall|i: int, j: int| 0 <= i < j < l.len() implies key_lt(#[trigger] l[i].0, #[trigger] l[j].0) by {
            assert(schema_entries(schemas@)[i].0 == l[i].0);
            assert(schema_entries(schemas@)[j].0 == l[j].0);
        }
    }
    Listing { schemas }
}

// ---- what a surface sees of a live database ----------------------------------------------------

/// How a schema of a live database stands against the schemas the connection enables.
#[derive(Clone, Copy, Debug, PartialEq, Eq, Structural)]
pub enum SchemaVisibility {
    /// Listed by the server and enabled.
    Live,
    /// Enabled, but the server lists no such schema.
    EnabledButMissing,
    /// Listed by the server, not enabled.
    NotEnabled,
}

/// One schema as a surface shows it.
pub struct SchemaListingView {
    pub name: String,
    pub relations: Vec<Relation>,
    pub visibility: SchemaVisibility,
}

pub open spec fn schema_view_model(v: SchemaListingView) -> (Seq<char>, Seq<(Seq<char>, Seq<char>)>, SchemaVisibility) {
    (v.name@, v.relations@.map_values(|r: Relation| relation_view(r)), v.visibility)
}

/// Some enabled schema folds to `k`.
pub open spec fn enabled(pg: Seq<String>, k: Seq<char>) -> bool {
    exists|q: int| 0 <= q < pg.len() && ident_of(#[trigger] pg[q]@) == k
}

/// `pg[j]` is the first enabled schema with its identity.
pub open spec fn first_spelling(pg: Seq<String>, j: int) -> bool {
    forall|q: int| 0 <= q < j ==> ident_of(#[trigger] pg[q]@) != ident_of(pg[j]@)
}

/// The listing has a schema under key `k`.
pub open spec fn listed(l: Seq<(Seq<char>, Seq<char>, Seq<(Seq<char>, (Seq<char>, Seq<char>))>)>, k: Seq<char>) -> bool {
    exists|i: int| 0 <= i < l.len() && #[trigger] l[i].0 == k
}

/// The view of listed schema `e`: its name, its relations in key order, and whether it is
/// enabled.
pub open spec fn live_view(
    e: (Seq<char>, Seq<char>, Seq<(Seq<char>, (Seq<char>, Seq<char>))>),
    pg: Seq<String>,
) -> (Seq<char>, Seq<(Seq<char>, Seq<char>)>, SchemaVisibility) {
    (
        e.1,
        e.2.map_values(|r: (Seq<char>, (Seq<char>, Seq<char>))| r.1),
        if enabled(pg, e.0) {
            SchemaVisibility::Live
        } else {
            SchemaVisibility::NotEnabled
        },
    )
}

/// A view the surface shows: every listed schema, and every enabled one the server does not
/// list — named by its first spelling, with no relations.
pub open spec fn shown(
    l: Seq<(Seq<char>, Seq<char>, Seq<(Seq<char>, (Seq<char>, Seq<char>))>)>,
    pg: Seq<String>,
    x: (Seq<char>, Seq<(Seq<char>, Seq<char>)>, SchemaVisibility),
) -> bool {
    ||| exists|i: int| 0 <= i < l.len() && x == live_view(#[trigger] l[i], pg)
    ||| exists|j: int|
        0 <= j < pg.len() && first_spelling(pg, j) && !listed(l, ident_of((#[trigger] pg[j])@)) && x == (
            pg[j]@,
            Seq::<(Seq<char>, Seq<char>)>::empty(),
            SchemaVisibility::EnabledButMissing,
        )
}

/// Views in strictly increasing name order.
pub open spec fn views_sorted(v: Seq<(Seq<char>, Seq<(Seq<char>, Seq<char>)>, SchemaVisibility)>) -> bool {
    forall|i: int, j: int| 0 <= i < j < v.len() ==> key_lt(#[trigger] v[i].0, #[trigger] v[j].0)
}

pub open spec fn view_models(v: Seq<SchemaListingView>) -> Seq<(Seq<char>, Seq<(Seq<char>, Seq<char>)>, SchemaVisibility)> {
    v.map_values(|s: SchemaListingView| schema_view_model(s))
}

/// Inserts `v` at its place by name among views whose names' identities all differ from
/// its own.
fn insert_view(out: &mut Vec<SchemaListingView>, v: SchemaListingView)
    requires
        views_sorted(view_models(old(out)@)),
        forall|q: int| 0 <= q < old(out)@.len() ==> ident_of((#[trigger] old(out)@[q]).name@) != ident_of(v.name@),
    ensures
        views_sorted(view_models(final(out)@)),
        forall|x: (Seq<char>, Seq<(Seq<char>, Seq<char>)>, SchemaVisibility)|
            view_models(final(out)@).contains(x) <==> (view_models(old(out)@).contains(x) || x == schema_view_model(v)),
        forall|q: int|
            0 <= q < final(out)@.len() ==> (#[trigger] final(out)@[q]).name@ == v.name@ || exists|q2: int|
                0 <= q2 < old(out)@.len() && (#[trigger] old(out)@[q2]).name@ == final(out)@[q].name@,
{
    let ghost s = view_models(out@);
    let ghost vm = schema_view_model(v);
    let mut i: usize = 0;
    let mut stop = false;
    while i < out.len() && !stop
        invariant
            i <= out@.len(),
            out@ == old(out)@,
            s == view_models(out@),
            views_sorted(s),
            forall|q: int| 0 <= q < out@.len() ==> ident_of((#[trigger] out@[q]).name@) != ident_of(v.name@),
            stop ==> i < s.len() && key_lt(v.name@, s[i as int].0),
            forall|k: int| 0 <= k < i ==> key_lt(#[trigger] s[k].0, v.name@),
        decreases (out@.len() - i) * 2 + (if stop { 0int } else { 1int }),
    {
        assert(s[i as int].0 == out@[i as int].name@);
        if key_less(out[i].name.as_str(), v.name.as_str()) {
            i = i + 1;
        } else {
            proof {
                lemma_key_lt_total(s[i as int].0, v.name@);
                assert(ident_of(out@[i as int].name@) != ident_of(v.name@));
            }
            stop = true;
        }
    }
    proof {
        assert forall|j: int| i <= j < s.len() implies key_lt(v.name@, #[trigger] s[j].0) by {
            if j > i {
                lemma_key_lt_transitive(v.name@, s[i as int].0, s[j].0);
            }
        }
    }
    let ghost before = out@;
    out.insert(i, v);
    proof {
        let t = view_models(out@);
        assert(t =~= s.insert(i as int, vm));
        assert forall|a: int, b: int| 0 <= a < b < t.len() implies key_lt(#[trigger] t[a].0, #[trigger] t[b].0) by {
            if b < i {
            } else if a < i && b == i {
            } else if a < i && b > i {
                assert(t[b] == s[b - 1]);
                lemma_key_lt_transitive(s[a].0, vm.0, s[b - 1].0);
            } else if a == i {
                assert(t[b] == s[b - 1]);
            } else {
                assert(t[a] == s[a - 1]);
                assert(t[b] == s[b - 1]);
            }
        }
        assert forall|x: (Seq<char>, Seq<(Seq<char>, Seq<char>)>, SchemaVisibility)| t.contains(x) <==> (s.contains(x) || x == vm) by {
            if t.contains(x) {
                let k = choose|k: int| 0 <= k < t.len() && t[k] == x;
                if k < i {
                    assert(s[k] == x);
                } else if k > i {
                    assert(s[k - 1] == x);
                }
            }
            if s.contains(x) {
                let k = choose|k: int| 0 <= k < s.len() && s[k] == x;
                if k < i {
                    assert(t[k] == x);
                } else {
                    assert(t[k + 1] == x);
                }
            }
            if x == vm {
                assert(t[i as int] == x);
            }
        }
        assert forall|q: int|
            0 <= q < out@.len() implies (#[trigger] out@[q]).name@ == vm.0 || exists|q2: int|
                0 <= q2 < before.len() && (#[trigger] before[q2]).name@ == out@[q].name@ by {
            if q < i {
                assert(before[q] == out@[q]);
            } else if q > i {
                assert(before[q - 1] == out@[q]);
            }
        }
    }
}

fn has_enabled(pg: &[String], key: &String) -> (r: bool)
    ensures
        r == enabled(pg@, key@),
{
    let kc = chars_of(key.as_str());
    let mut q: usize = 0;
    while q < pg.len()
        invariant
            q <= pg@.len(),
            kc@ == key@,
            forall|p: int| 0 <= p < q ==> ident_of(#[trigger] pg@[p]@) != key@,
        decreases pg@.len() - q,
    {
        let f = fold_ident(pg[q].as_str());
        let fc = chars_of(f.as_str());
        if same_chars(&fc, &kc) {
            return true;
        }
        q = q + 1;
    }
    false
}

fn copy_relations(rels: &Vec<(String, Relation)>) -> (r: Vec<Relation>)
    ensures
        r@.map_values(|x: Relation| relation_view(x)) == rel_entries(rels@).map_values(
            |e: (Seq<char>, (Seq<char>, Seq<char>))| e.1,
        ),
{
    let mut out: Vec<Relation> = Vec::new();
    let mut i: usize = 0;
    while i < rels.len()
        invariant
            i <= rels@.len(),
            out@.len() == i,
            forall|k: int| 0 <= k < i ==> relation_view(#[trigger] out@[k]) == relation_view(rels@[k].1),
        decreases rels@.len() - i,
    {
        out.push(Relation { name: rels[i].1.name.clone(), relkind: rels[i].1.relkind.clone() });
        i = i + 1;
    }
    assert(out@.map_values(|x: Relation| relation_view(x)) =~= rel_entries(rels@).map_values(
        |e: (Seq<char>, (Seq<char>, Seq<char>))| e.1,
    ));
    out
}

/// What a surface shows of a live database's listing ([`shown`]) against the schemas its
/// connection enables, `pg_schemas`: every listed schema, marked by whether it is enabled,
/// and every enabled schema the server does not list — in name order.
pub fn listing_views(listing: &Listing, pg_schemas: &[String]) -> (r: Vec<SchemaListingView>)
    ensures
        views_sorted(view_models(r@)),
        forall|x: (Seq<char>, Seq<(Seq<char>, Seq<char>)>, SchemaVisibility)|
            view_models(r@).contains(x) <==> shown(listing.schema_list(), pg_schemas@, x),
{
    proof {
        use_type_invariant(listing);
    }
    let ghost l = listing.schema_list();
    let ghost pg = pg_schemas@;
    let mut out: Vec<SchemaListingView> = Vec::new();
    assert(view_models(out@) =~= Seq::<(Seq<char>, Seq<(Seq<char>, Seq<char>)>, SchemaVisibility)>::empty());
    let mut i: usize = 0;
    while i < listing.schemas.len()
        invariant
            i <= l.len(),
            pg == pg_schemas@,
            l == listing.schema_list(),
            l.len() == listing.schemas@.len(),
            schemas_wf(listing.schemas@),
            views_sorted(view_models(out@)),
            forall|x: (Seq<char>, Seq<(Seq<char>, Seq<char>)>, SchemaVisibility)|
                view_models(out@).contains(x) <==> exists|k: int| 0 <= k < i && x == live_view(#[trigger] l[k], pg),
            forall|q: int|
                0 <= q < out@.len() ==> exists|k: int| 0 <= k < i && ident_of((#[trigger] out@[q]).name@) == #[trigger] l[k].0,
        decreases l.len() - i,
    {
        let e = &listing.schemas[i];
        assert(l[i as int] == (e.folded@, e.name@, rel_entries(e.relations@)));
        let vis = if has_enabled(pg_schemas, &e.folded) { SchemaVisibility::Live } else { SchemaVisibility::NotEnabled };
        let v = SchemaListingView { name: e.name.clone(), relations: copy_relations(&e.relations), visibility: vis };
        proof {
            assert(schema_view_model(v) == live_view(l[i as int], pg));
            assert forall|q: int| 0 <= q < out@.len() implies ident_of((#[trigger] out@[q]).name@) != ident_of(v.name@) by {
                let k = choose|k: int| 0 <= k < i && ident_of(out@[q].name@) == #[trigger] l[k].0;
                assert(schema_entries(listing.schemas@)[k].0 == l[k].0);
                assert(schema_entries(listing.schemas@)[i as int].0 == l[i as int].0);
                assert(key_lt(l[k].0, l[i as int].0));
                lemma_key_lt_irreflexive(l[k].0);
            }
        }
        let ghost before = out@;
        insert_view(&mut out, v);
        proof {
            assert forall|x: (Seq<char>, Seq<(Seq<char>, Seq<char>)>, SchemaVisibility)|
                view_models(out@).contains(x) <==> exists|k: int| 0 <= k < i + 1 && x == live_view(#[trigger] l[k], pg) by {
                if exists|k: int| 0 <= k < i + 1 && x == live_view(#[trigger] l[k], pg) {
                    let k = choose|k: int| 0 <= k < i + 1 && x == live_view(#[trigger] l[k], pg);
                    if k < i {
                        assert(exists|k2: int| 0 <= k2 < i && x == live_view(#[trigger] l[k2], pg));
                    }
                }
            }
            assert forall|q: int|
                0 <= q < out@.len() implies exists|k: int| 0 <= k < i + 1 && ident_of((#[trigger] out@[q]).name@) == #[trigger] l[k].0 by {
                let n = out@[q].name@;
                if n == v.name@ {
                    assert(ident_of(n) == l[i as int].0);
                } else {
                    let q2 = choose|q2: int| 0 <= q2 < before.len() && (#[trigger] before[q2]).name@ == n;
                    let k = choose|k: int| 0 <= k < i && ident_of(before[q2].name@) == #[trigger] l[k].0;
                    assert(ident_of(out@[q].name@) == l[k].0);
                }
            }
        }
        i = i + 1;
    }
    let mut j: usize = 0;
    while j < pg_schemas.len()
        invariant
            j <= pg.len(),
            pg == pg_schemas@,
            l == listing.schema_list(),
            l.len() == listing.schemas@.len(),
            views_sorted(view_models(out@)),
            forall|x: (Seq<char>, Seq<(Seq<char>, Seq<char>)>, SchemaVisibility)|
                view_models(out@).contains(x) <==> ((exists|k: int| 0 <= k < l.len() && x == live_view(#[trigger] l[k], pg))
                    || exists|p: int|
                    0 <= p < j && first_spelling(pg, p) && !listed(l, ident_of((#[trigger] pg[p])@)) && x == (
                        pg[p]@,
                        Seq::<(Seq<char>, Seq<char>)>::empty(),
                        SchemaVisibility::EnabledButMissing,
                    )),
            forall|q: int|
                0 <= q < out@.len() ==> (listed(l, ident_of((#[trigger] out@[q]).name@)) || exists|p: int|
                    0 <= p < j && ident_of(out@[q].name@) == ident_of(#[trigger] pg[p]@)),
        decreases pg.len() - j,
    {
        let f = fold_ident(pg_schemas[j].as_str());
        let fc = chars_of(f.as_str());
        let mut first = true;
        let mut p: usize = 0;
        while p < j
            invariant
                p <= j,
                j < pg.len(),
                pg == pg_schemas@,
                fc@ == ident_of(pg[j as int]@),
                first == forall|r: int| 0 <= r < p ==> ident_of(#[trigger] pg[r]@) != ident_of(pg[j as int]@),
            decreases j - p,
        {
            let g = fold_ident(pg_schemas[p].as_str());
            let gc = chars_of(g.as_str());
            if same_chars(&gc, &fc) {
                first = false;
            }
            p = p + 1;
        }
        let mut in_listing = false;
        let mut k: usize = 0;
        while k < listing.schemas.len()
            invariant
                k <= l.len(),
                l == listing.schema_list(),
                l.len() == listing.schemas@.len(),
                fc@ == ident_of(pg[j as int]@),
                in_listing == exists|r: int| 0 <= r < k && #[trigger] l[r].0 == fc@,
            decreases l.len() - k,
        {
            assert(l[k as int].0 == listing.schemas@[k as int].folded@);
            let kc = chars_of(listing.schemas[k].folded.as_str());
            if same_chars(&kc, &fc) {
                in_listing = true;
            }
            k = k + 1;
        }
        assert(in_listing == listed(l, ident_of(pg[j as int]@)));
        let ghost before = out@;
        if first && !in_listing {
            let v = SchemaListingView {
                name: pg_schemas[j].clone(),
                relations: Vec::new(),
                visibility: SchemaVisibility::EnabledButMissing,
            };
            proof {
                assert(schema_view_model(v) =~= (pg[j as int]@, Seq::<(Seq<char>, Seq<char>)>::empty(), SchemaVisibility::EnabledButMissing));
                assert forall|q: int| 0 <= q < out@.len() implies ident_of((#[trigger] out@[q]).name@) != ident_of(v.name@) by {
                    if !listed(l, ident_of(out@[q].name@)) {
                        let p2 = choose|p2: int| 0 <= p2 < j && ident_of(out@[q].name@) == ident_of(#[trigger] pg[p2]@);
                        assert(ident_of(pg[p2]@) != ident_of(pg[j as int]@));
                    }
                }
            }
            insert_view(&mut out, v);
            proof {
                assert forall|q: int|
                    0 <= q < out@.len() implies (listed(l, ident_of((#[trigger] out@[q]).name@)) || exists|p: int|
                        0 <= p < j + 1 && ident_of(out@[q].name@) == ident_of(#[trigger] pg[p]@)) by {
                    let n = out@[q].name@;
                    if n == v.name@ {
                        assert(ident_of(out@[q].name@) == ident_of(pg[j as int]@));
                    } else {
                        let q2 = choose|q2: int| 0 <= q2 < before.len() && (#[trigger] before[q2]).name@ == n;
                        assert(ident_of(before[q2].name@) == ident_of(n));
                        if !listed(l, ident_of(n)) {
                            let p2 = choose|p2: int| 0 <= p2 < j && ident_of(before[q2].name@) == ident_of(#[trigger] pg[p2]@);
                            assert(ident_of(out@[q].name@) == ident_of(pg[p2]@));
                        }
                    }
                }
            }
        }
        proof {
            let mj = (pg[j as int]@, Seq::<(Seq<char>, Seq<char>)>::empty(), SchemaVisibility::EnabledButMissing);
            assert forall|x: (Seq<char>, Seq<(Seq<char>, Seq<char>)>, SchemaVisibility)|
                view_models(out@).contains(x) <==> ((exists|k: int| 0 <= k < l.len() && x == live_view(#[trigger] l[k], pg))
                    || exists|p: int|
                    0 <= p < j + 1 && first_spelling(pg, p) && !listed(l, ident_of((#[trigger] pg[p])@)) && x == (
                        pg[p]@,
                        Seq::<(Seq<char>, Seq<char>)>::empty(),
                        SchemaVisibility::EnabledButMissing,
                    )) by {
                if exists|p: int|
                    0 <= p < j + 1 && first_spelling(pg, p) && !listed(l, ident_of((#[trigger] pg[p])@)) && x == (
                        pg[p]@,
                        Seq::<(Seq<char>, Seq<char>)>::empty(),
                        SchemaVisibility::EnabledButMissing,
                    ) {
                    let p = choose|p: int|
                        0 <= p < j + 1 && first_spelling(pg, p) && !listed(l, ident_of((#[trigger] pg[p])@)) && x == (
                            pg[p]@,
                            Seq::<(Seq<char>, Seq<char>)>::empty(),
                            SchemaVisibility::EnabledButMissing,
                        );
                    if p == j {
                        assert(first && !in_listing);
                        assert(x == mj);
                    } else {
                        assert(exists|p2: int|
                            0 <= p2 < j && first_spelling(pg, p2) && !listed(l, ident_of((#[trigger] pg[p2])@)) && x == (
                                pg[p2]@,
                                Seq::<(Seq<char>, Seq<char>)>::empty(),
                                SchemaVisibility::EnabledButMissing,
                            ));
                    }
                }
                if first && !in_listing && x == mj {
                    assert(first_spelling(pg, j as int));
                }
            }
            if !(first && !in_listing) {
                assert forall|q: int|
                    0 <= q < out@.len() implies (listed(l, ident_of((#[trigger] out@[q]).name@)) || exists|p: int|
                        0 <= p < j + 1 && ident_of(out@[q].name@) == ident_of(#[trigger] pg[p]@)) by {
                    if !listed(l, ident_of(out@[q].name@)) {
                        let p2 = choose|p2: int| 0 <= p2 < j && ident_of(out@[q].name@) == ident_of(#[trigger] pg[p2]@);
                    }
                }
            }
        }
        j = j + 1;
    }
    out
}

// ---- why a login did not happen ------------------------------------------------------------------

/// How a login to a database server failed, as far as the wording cares.
pub enum LoginFailure {
    /// Nothing answered at this host and port.
    Unreachable { host: String, port: String },
    /// The server refused the user or its password.
    BadLogin,
    /// The password could not be had; the reader's own sentence.
    Password(String),
    /// Anything else, in the pool's own words.
    Other(String),
}

/// The sentence a failed login is reported with, in terms of the thing to fix: the address
/// for an unreachable server, the user for a refused login (never a password), the reader's
/// own sentence for a password that could not be had, and otherwise the pool's words behind
/// the connection's URL.
pub open spec fn login_refusal_text(url: Seq<char>, user: Seq<char>, f: LoginFailure) -> Seq<char> {
    match f {
        LoginFailure::Unreachable { host, port } => "Cannot reach a PostgreSQL server at '"@ + host@ + ":"@ + port@
            + "'. Check the address, and that the server is running."@,
        LoginFailure::BadLogin => "The server refused the user '"@ + crate::text::trim(user)
            + "'. Check the user and its password."@,
        LoginFailure::Password(m) => m@,
        LoginFailure::Other(m) => "Cannot connect to '"@ + url + "': "@ + m@,
    }
}

/// [`login_refusal_text`].
pub fn login_refusal(url: &str, user: &str, f: LoginFailure) -> (r: String)
    ensures
        r@ == login_refusal_text(url@, user@, f),
{
    let mut v: Vec<char> = Vec::new();
    match f {
        LoginFailure::Unreachable { host, port } => {
            crate::text::append_str(&mut v, "Cannot reach a PostgreSQL server at '");
            crate::text::append_str(&mut v, host.as_str());
            crate::text::append_str(&mut v, ":");
            crate::text::append_str(&mut v, port.as_str());
            crate::text::append_str(&mut v, "'. Check the address, and that the server is running.");
        },
        LoginFailure::BadLogin => {
            let u = chars_of(user);
            let t = crate::text::trimmed(&u, 0, u.len());
            assert(u@.subrange(0, u@.len() as int) =~= u@);
            crate::text::append_str(&mut v, "The server refused the user '");
            crate::text::append_chars(&mut v, &t);
            crate::text::append_str(&mut v, "'. Check the user and its password.");
        },
        LoginFailure::Password(m) => {
            return m;
        },
        LoginFailure::Other(m) => {
            crate::text::append_str(&mut v, "Cannot connect to '");
            crate::text::append_str(&mut v, url);
            crate::text::append_str(&mut v, "': ");
            crate::text::append_str(&mut v, m.as_str());
        },
    }
    crate::text::string_of(&v)
}

} // verus!
