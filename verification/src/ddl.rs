//! The statements the editor intercepts rather than hands to the planner, and the shared
//! wording of their refusals and reports.

use vstd::prelude::*;

use crate::names::fold_ident;
use crate::text::{append_str, chars_of, join, same_chars, string_of};
use crate::util::{plural, plural_text};

verus! {

/// The name of the one schema every table and view lives in.
pub open spec fn schema_name() -> Seq<char> {
    "public"@
}

/// The kinds of statement the editor routes to its own handlers.
#[derive(Clone, Copy, PartialEq, Eq, Debug, Structural)]
pub enum StmtKind {
    CreateTable,
    Ctas,
    Insert,
    DropTable,
    CreateView,
    DropView,
    Copy,
    SetConfig,
    Reset,
    Prepare,
    Deallocate,
    CreateFunction,
    DropFunction,
    CreateExternalTable,
}

/// The statement's name as the user writes it.
pub open spec fn label_text(k: StmtKind) -> Seq<char> {
    match k {
        StmtKind::CreateTable => "CREATE TABLE"@,
        StmtKind::Ctas => "CREATE TABLE AS"@,
        StmtKind::Insert => "INSERT"@,
        StmtKind::DropTable => "DROP TABLE"@,
        StmtKind::CreateView => "CREATE VIEW"@,
        StmtKind::DropView => "DROP VIEW"@,
        StmtKind::Copy => "COPY"@,
        StmtKind::SetConfig => "SET"@,
        StmtKind::Reset => "RESET"@,
        StmtKind::Prepare => "PREPARE"@,
        StmtKind::Deallocate => "DEALLOCATE"@,
        StmtKind::CreateFunction => "CREATE FUNCTION"@,
        StmtKind::DropFunction => "DROP FUNCTION"@,
        StmtKind::CreateExternalTable => "CREATE EXTERNAL TABLE"@,
    }
}

impl StmtKind {
    /// The statement's name as the user writes it.
    pub fn label(self) -> (r: &'static str)
        ensures
            r@ == label_text(self),
    {
        match self {
            StmtKind::CreateTable => "CREATE TABLE",
            StmtKind::Ctas => "CREATE TABLE AS",
            StmtKind::Insert => "INSERT",
            StmtKind::DropTable => "DROP TABLE",
            StmtKind::CreateView => "CREATE VIEW",
            StmtKind::DropView => "DROP VIEW",
            StmtKind::Copy => "COPY",
            StmtKind::SetConfig => "SET",
            StmtKind::Reset => "RESET",
            StmtKind::Prepare => "PREPARE",
            StmtKind::Deallocate => "DEALLOCATE",
            StmtKind::CreateFunction => "CREATE FUNCTION",
            StmtKind::DropFunction => "DROP FUNCTION",
            StmtKind::CreateExternalTable => "CREATE EXTERNAL TABLE",
        }
    }
}

/// The refusal for an intercepted kind whose implementation has not landed yet.
pub fn unimplemented(kind: StmtKind) -> (r: String)
    ensures
        r@ == label_text(kind) + " is not implemented yet"@,
{
    let mut v: Vec<char> = Vec::new();
    append_str(&mut v, kind.label());
    append_str(&mut v, " is not implemented yet");
    string_of(&v)
}

/// The wording for a name that points outside the one schema; `what` names the kind of
/// thing, such as `Tables`.
pub fn elsewhere(what: &str) -> (r: String)
    ensures
        r@ == "Strata has one schema, '"@ + schema_name() + "'. "@ + what@ + " cannot be created elsewhere"@,
{
    let mut v: Vec<char> = Vec::new();
    append_str(&mut v, "Strata has one schema, '");
    append_str(&mut v, "public");
    append_str(&mut v, "'. ");
    append_str(&mut v, what);
    append_str(&mut v, " cannot be created elsewhere");
    string_of(&v)
}

/// The wording for a name inside a database connection's catalog, which is read-only.
pub fn in_database(name: &str, catalog: &str) -> (r: String)
    ensures
        r@ == "'"@ + name@ + "' is in the database connection '"@ + catalog@
            + "'. Strata reads remote tables; it does not create, drop or write them"@,
{
    let mut v: Vec<char> = Vec::new();
    append_str(&mut v, "'");
    append_str(&mut v, name);
    append_str(&mut v, "' is in the database connection '");
    append_str(&mut v, catalog);
    append_str(&mut v, "'. Strata reads remote tables; it does not create, drop or write them");
    string_of(&v)
}

/// Each name in single quotes.
pub open spec fn quoted_names(names: Seq<Seq<char>>) -> Seq<Seq<char>> {
    names.map_values(|n: Seq<char>| seq!['\''] + n + seq!['\''])
}

/// What a drop leaves behind, appended to its report: nothing when no view depends on the
/// dropped object, else the count of views, `is`/`are`, and their quoted names.
pub open spec fn left_invalid_text(dependents: Seq<Seq<char>>) -> Seq<char> {
    if dependents.len() == 0 {
        seq![]
    } else {
        ". "@ + plural_text(dependents.len(), "view"@) + (if dependents.len() == 1 { " is"@ } else { " are"@ })
            + " left invalid: "@ + join(quoted_names(dependents), ", "@)
    }
}

/// What a drop leaves behind, [`left_invalid_text`].
pub fn left_invalid(dependents: &[String]) -> (r: String)
    ensures
        r@ == left_invalid_text(dependents@.map_values(|d: String| d@)),
{
    let ghost names = dependents@.map_values(|d: String| d@);
    if dependents.len() == 0 {
        return String::new();
    }
    let mut v: Vec<char> = Vec::new();
    append_str(&mut v, ". ");
    let p = plural(dependents.len(), "view");
    append_str(&mut v, p.as_str());
    if dependents.len() == 1 {
        append_str(&mut v, " is");
    } else {
        append_str(&mut v, " are");
    }
    append_str(&mut v, " left invalid: ");
    let ghost head = v@;
    let mut i: usize = 0;
    while i < dependents.len()
        invariant
            i <= dependents@.len(),
            names == dependents@.map_values(|d: String| d@),
            v@ == head + join(quoted_names(names.take(i as int)), ", "@),
        decreases dependents@.len() - i,
    {
        if i > 0 {
            append_str(&mut v, ", ");
        }
        v.push('\'');
        append_str(&mut v, dependents[i].as_str());
        v.push('\'');
        proof {
            let a = quoted_names(names.take(i + 1));
            assert(a.drop_last() =~= quoted_names(names.take(i as int)));
            assert(a.last() =~= seq!['\''] + names[i as int] + seq!['\'']);
            if i == 0 {
                assert(join(quoted_names(names.take(0)), ", "@) =~= seq![]);
            }
            assert(v@ =~= head + join(a, ", "@));
        }
        i = i + 1;
    }
    assert(names.take(names.len() as int) =~= names);
    let r = string_of(&v);
    assert(r@ =~= left_invalid_text(names));
    r
}

/// The engine's own catalog, which is never a database connection.
pub open spec fn workspace_catalog() -> Seq<char> {
    "strata"@
}

/// The first of `registered` from `i` on whose engine identity is `id`.
pub open spec fn first_catalog(registered: Seq<String>, id: Seq<char>, i: int) -> Option<int>
    decreases registered.len() - i,
{
    if i < 0 || i >= registered.len() {
        None
    } else if crate::tables::ident_of(registered[i]@) == id {
        Some(i)
    } else {
        first_catalog(registered, id, i + 1)
    }
}

/// The database connection a fully qualified name's `catalog` part points into: the first
/// registered catalog with the same engine identity — never the workspace's own catalog,
/// however it is spelled.
pub fn database_catalog(catalog: &str, registered: &[String]) -> (r: Option<String>)
    ensures
        crate::tables::ident_of(catalog@) == workspace_catalog() ==> r is None,
        crate::tables::ident_of(catalog@) != workspace_catalog() ==> match first_catalog(
            registered@,
            crate::tables::ident_of(catalog@),
            0,
        ) {
            Some(i) => r matches Some(c) && c@ == registered@[i]@,
            None => r is None,
        },
{
    let id = fold_ident(catalog);
    let ic = chars_of(id.as_str());
    let own: Vec<char> = vec!['s', 't', 'r', 'a', 't', 'a'];
    proof {
        reveal_strlit("strata");
        assert(own@ =~= workspace_catalog());
    }
    if same_chars(&ic, &own) {
        return None;
    }
    let mut i: usize = 0;
    while i < registered.len()
        invariant
            i <= registered@.len(),
            ic@ == crate::tables::ident_of(catalog@),
            ic@ != workspace_catalog(),
            first_catalog(registered@, ic@, 0) == first_catalog(registered@, ic@, i as int),
        decreases registered@.len() - i,
    {
        let f = fold_ident(registered[i].as_str());
        let fc = chars_of(f.as_str());
        if same_chars(&fc, &ic) {
            return Some(registered[i].clone());
        }
        i = i + 1;
    }
    None
}

} // verus!
